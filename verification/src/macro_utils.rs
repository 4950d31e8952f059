//! Conversions from decoded fields to plain values, for code that maps logged data onto types
//! of its own.
use vstd::prelude::*;

use crate::errors::ULogError;
use crate::model::inst::{SpecFieldValue, cchar_bytes, formats_view};
use crate::model::{def, inst, CChar};
use crate::primitive::copy_vec;

verus! {

/// A type that makes an accessor for logged data from the definition of its format.
pub trait ULogAccessorFactory {
    type Accessor;

    /// The accessor for data of the format `format`.
    fn from_format(format: &def::Format) -> Result<Self::Accessor, ULogError>;
}

/// Reads a value out of logged data.
pub trait ULogAccessor {
    type Output;

    /// The value that the data `field` holds.
    fn get_data(&self, field: &inst::Format) -> Result<Self::Output, ULogError>;
}

/// A value that a decoded field converts to, when its type matches.
pub trait FromField: Sized {
    /// The field's value, or `TypeMismatch` when the field holds another type.
    fn from_field(field: &inst::Field) -> Result<Self, ULogError>;
}

impl FromField for u8 {
    fn from_field(field: &inst::Field) -> (r: Result<u8, ULogError>)
        ensures
            match field@.value {
                SpecFieldValue::ScalarU8(v) => r == Ok::<u8, ULogError>(v),
                _ => r matches Err(e) && e is TypeMismatch,
            },
    {
        match &field.value {
            inst::FieldValue::ScalarU8(v) => Ok(*v),
            _ => Err(ULogError::TypeMismatch("the field holds a value of another type".to_owned())),
        }
    }
}

impl FromField for u16 {
    fn from_field(field: &inst::Field) -> (r: Result<u16, ULogError>)
        ensures
            match field@.value {
                SpecFieldValue::ScalarU16(v) => r == Ok::<u16, ULogError>(v),
                _ => r matches Err(e) && e is TypeMismatch,
            },
    {
        match &field.value {
            inst::FieldValue::ScalarU16(v) => Ok(*v),
            _ => Err(ULogError::TypeMismatch("the field holds a value of another type".to_owned())),
        }
    }
}

impl FromField for u32 {
    fn from_field(field: &inst::Field) -> (r: Result<u32, ULogError>)
        ensures
            match field@.value {
                SpecFieldValue::ScalarU32(v) => r == Ok::<u32, ULogError>(v),
                _ => r matches Err(e) && e is TypeMismatch,
            },
    {
        match &field.value {
            inst::FieldValue::ScalarU32(v) => Ok(*v),
            _ => Err(ULogError::TypeMismatch("the field holds a value of another type".to_owned())),
        }
    }
}

impl FromField for u64 {
    fn from_field(field: &inst::Field) -> (r: Result<u64, ULogError>)
        ensures
            match field@.value {
                SpecFieldValue::ScalarU64(v) => r == Ok::<u64, ULogError>(v),
                _ => r matches Err(e) && e is TypeMismatch,
            },
    {
        match &field.value {
            inst::FieldValue::ScalarU64(v) => Ok(*v),
            _ => Err(ULogError::TypeMismatch("the field holds a value of another type".to_owned())),
        }
    }
}

impl FromField for i8 {
    fn from_field(field: &inst::Field) -> (r: Result<i8, ULogError>)
        ensures
            match field@.value {
                SpecFieldValue::ScalarI8(v) => r == Ok::<i8, ULogError>(v),
                _ => r matches Err(e) && e is TypeMismatch,
            },
    {
        match &field.value {
            inst::FieldValue::ScalarI8(v) => Ok(*v),
            _ => Err(ULogError::TypeMismatch("the field holds a value of another type".to_owned())),
        }
    }
}

impl FromField for i16 {
    fn from_field(field: &inst::Field) -> (r: Result<i16, ULogError>)
        ensures
            match field@.value {
                SpecFieldValue::ScalarI16(v) => r == Ok::<i16, ULogError>(v),
                _ => r matches Err(e) && e is TypeMismatch,
            },
    {
        match &field.value {
            inst::FieldValue::ScalarI16(v) => Ok(*v),
            _ => Err(ULogError::TypeMismatch("the field holds a value of another type".to_owned())),
        }
    }
}

impl FromField for i32 {
    fn from_field(field: &inst::Field) -> (r: Result<i32, ULogError>)
        ensures
            match field@.value {
                SpecFieldValue::ScalarI32(v) => r == Ok::<i32, ULogError>(v),
                _ => r matches Err(e) && e is TypeMismatch,
            },
    {
        match &field.value {
            inst::FieldValue::ScalarI32(v) => Ok(*v),
            _ => Err(ULogError::TypeMismatch("the field holds a value of another type".to_owned())),
        }
    }
}

impl FromField for i64 {
    fn from_field(field: &inst::Field) -> (r: Result<i64, ULogError>)
        ensures
            match field@.value {
                SpecFieldValue::ScalarI64(v) => r == Ok::<i64, ULogError>(v),
                _ => r matches Err(e) && e is TypeMismatch,
            },
    {
        match &field.value {
            inst::FieldValue::ScalarI64(v) => Ok(*v),
            _ => Err(ULogError::TypeMismatch("the field holds a value of another type".to_owned())),
        }
    }
}

impl FromField for bool {
    fn from_field(field: &inst::Field) -> (r: Result<bool, ULogError>)
        ensures
            match field@.value {
                SpecFieldValue::ScalarBool(v) => r == Ok::<bool, ULogError>(v),
                _ => r matches Err(e) && e is TypeMismatch,
            },
    {
        match &field.value {
            inst::FieldValue::ScalarBool(v) => Ok(*v),
            _ => Err(ULogError::TypeMismatch("the field holds a value of another type".to_owned())),
        }
    }
}

impl FromField for CChar {
    fn from_field(field: &inst::Field) -> (r: Result<CChar, ULogError>)
        ensures
            match field@.value {
                SpecFieldValue::ScalarChar(v) => r == Ok::<CChar, ULogError>(CChar(v)),
                _ => r matches Err(e) && e is TypeMismatch,
            },
    {
        match &field.value {
            inst::FieldValue::ScalarChar(v) => Ok(*v),
            _ => Err(ULogError::TypeMismatch("the field holds a value of another type".to_owned())),
        }
    }
}

impl FromField for Vec<u8> {
    fn from_field(field: &inst::Field) -> (r: Result<Vec<u8>, ULogError>)
        ensures
            match field@.value {
                SpecFieldValue::ArrayU8(a) => r matches Ok(v) && v@ == a,
                _ => r matches Err(e) && e is TypeMismatch,
            },
    {
        match &field.value {
            inst::FieldValue::ArrayU8(v) => Ok(copy_vec(v)),
            _ => Err(ULogError::TypeMismatch("the field holds a value of another type".to_owned())),
        }
    }
}

impl FromField for Vec<u16> {
    fn from_field(field: &inst::Field) -> (r: Result<Vec<u16>, ULogError>)
        ensures
            match field@.value {
                SpecFieldValue::ArrayU16(a) => r matches Ok(v) && v@ == a,
                _ => r matches Err(e) && e is TypeMismatch,
            },
    {
        match &field.value {
            inst::FieldValue::ArrayU16(v) => Ok(copy_vec(v)),
            _ => Err(ULogError::TypeMismatch("the field holds a value of another type".to_owned())),
        }
    }
}

impl FromField for Vec<u32> {
    fn from_field(field: &inst::Field) -> (r: Result<Vec<u32>, ULogError>)
        ensures
            match field@.value {
                SpecFieldValue::ArrayU32(a) => r matches Ok(v) && v@ == a,
                _ => r matches Err(e) && e is TypeMismatch,
            },
    {
        match &field.value {
            inst::FieldValue::ArrayU32(v) => Ok(copy_vec(v)),
            _ => Err(ULogError::TypeMismatch("the field holds a value of another type".to_owned())),
        }
    }
}

impl FromField for Vec<u64> {
    fn from_field(field: &inst::Field) -> (r: Result<Vec<u64>, ULogError>)
        ensures
            match field@.value {
                SpecFieldValue::ArrayU64(a) => r matches Ok(v) && v@ == a,
                _ => r matches Err(e) && e is TypeMismatch,
            },
    {
        match &field.value {
            inst::FieldValue::ArrayU64(v) => Ok(copy_vec(v)),
            _ => Err(ULogError::TypeMismatch("the field holds a value of another type".to_owned())),
        }
    }
}

impl FromField for Vec<i8> {
    fn from_field(field: &inst::Field) -> (r: Result<Vec<i8>, ULogError>)
        ensures
            match field@.value {
                SpecFieldValue::ArrayI8(a) => r matches Ok(v) && v@ == a,
                _ => r matches Err(e) && e is TypeMismatch,
            },
    {
        match &field.value {
            inst::FieldValue::ArrayI8(v) => Ok(copy_vec(v)),
            _ => Err(ULogError::TypeMismatch("the field holds a value of another type".to_owned())),
        }
    }
}

impl FromField for Vec<i16> {
    fn from_field(field: &inst::Field) -> (r: Result<Vec<i16>, ULogError>)
        ensures
            match field@.value {
                SpecFieldValue::ArrayI16(a) => r matches Ok(v) && v@ == a,
                _ => r matches Err(e) && e is TypeMismatch,
            },
    {
        match &field.value {
            inst::FieldValue::ArrayI16(v) => Ok(copy_vec(v)),
            _ => Err(ULogError::TypeMismatch("the field holds a value of another type".to_owned())),
        }
    }
}

impl FromField for Vec<i32> {
    fn from_field(field: &inst::Field) -> (r: Result<Vec<i32>, ULogError>)
        ensures
            match field@.value {
                SpecFieldValue::ArrayI32(a) => r matches Ok(v) && v@ == a,
                _ => r matches Err(e) && e is TypeMismatch,
            },
    {
        match &field.value {
            inst::FieldValue::ArrayI32(v) => Ok(copy_vec(v)),
            _ => Err(ULogError::TypeMismatch("the field holds a value of another type".to_owned())),
        }
    }
}

impl FromField for Vec<i64> {
    fn from_field(field: &inst::Field) -> (r: Result<Vec<i64>, ULogError>)
        ensures
            match field@.value {
                SpecFieldValue::ArrayI64(a) => r matches Ok(v) && v@ == a,
                _ => r matches Err(e) && e is TypeMismatch,
            },
    {
        match &field.value {
            inst::FieldValue::ArrayI64(v) => Ok(copy_vec(v)),
            _ => Err(ULogError::TypeMismatch("the field holds a value of another type".to_owned())),
        }
    }
}

impl FromField for Vec<bool> {
    fn from_field(field: &inst::Field) -> (r: Result<Vec<bool>, ULogError>)
        ensures
            match field@.value {
                SpecFieldValue::ArrayBool(a) => r matches Ok(v) && v@ == a,
                _ => r matches Err(e) && e is TypeMismatch,
            },
    {
        match &field.value {
            inst::FieldValue::ArrayBool(v) => Ok(copy_vec(v)),
            _ => Err(ULogError::TypeMismatch("the field holds a value of another type".to_owned())),
        }
    }
}

impl FromField for Vec<CChar> {
    fn from_field(field: &inst::Field) -> (r: Result<Vec<CChar>, ULogError>)
        ensures
            match field@.value {
                SpecFieldValue::ArrayChar(a) => r matches Ok(v) && cchar_bytes(v@) == a,
                _ => r matches Err(e) && e is TypeMismatch,
            },
    {
        match &field.value {
            inst::FieldValue::ArrayChar(v) => Ok(copy_vec(v)),
            _ => Err(ULogError::TypeMismatch("the field holds a value of another type".to_owned())),
        }
    }
}

/// There is one model for each format value.
proof fn lemma_formats_view_len(fs: Seq<inst::Format>)
    ensures
        formats_view(fs).len() == fs.len(),
    decreases fs.len(),
{
    if fs.len() > 0 {
        lemma_formats_view_len(fs.drop_last());
    }
}

impl<T> FromField for Vec<T> where T: ULogAccessorFactory, T::Accessor: ULogAccessor<Output = T> {
    fn from_field(field: &inst::Field) -> (r: Result<Vec<T>, ULogError>)
        ensures
            !(field@.value is ArrayOther) ==> (r matches Err(e) && e is TypeMismatch),
            field@.value matches SpecFieldValue::ArrayOther(fs) && fs.len() == 0 ==> (r matches Ok(
                v,
            ) && v@.len() == 0),
            field@.value matches SpecFieldValue::ArrayOther(fs) ==> (r matches Ok(v) ==> v@.len()
                == fs.len()),
    {
        match &field.value {
            inst::FieldValue::ArrayOther(formats) => {
                if formats.len() == 0 {
                    return Ok(Vec::new());
                }
                proof {
                    lemma_formats_view_len(formats@);
                }
                let mut results: Vec<T> = Vec::new();
                let accessor = T::from_format(&formats[0].def_format)?;
                let mut i: usize = 0;
                while i < formats.len()
                    invariant
                        field@.value == SpecFieldValue::ArrayOther(formats_view(formats@)),
                        formats_view(formats@).len() == formats@.len(),
                        results@.len() == i,
                        i <= formats@.len(),
                    decreases formats@.len() - i,
                {
                    results.push(accessor.get_data(&formats[i])?);
                    i += 1;
                }
                Ok(results)
            },
            _ => Err(ULogError::TypeMismatch("the field holds a value of another type".to_owned())),
        }
    }
}

impl<T> FromField for T where T: ULogAccessorFactory, T::Accessor: ULogAccessor<Output = T> {
    fn from_field(inst_field: &inst::Field) -> (r: Result<T, ULogError>)
        ensures
            !(inst_field@.value is ScalarOther) ==> (r matches Err(e) && e is TypeMismatch),
    {
        match &inst_field.value {
            inst::FieldValue::ScalarOther(inst_format) => {
                let accessor = T::from_format(&inst_format.def_format)?;
                accessor.get_data(inst_format)
            },
            _ => Err(ULogError::TypeMismatch("the field holds a value of another type".to_owned())),
        }
    }
}

} // verus!
