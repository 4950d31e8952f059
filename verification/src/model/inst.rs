//! Data instances of the declarations in `def`: an `inst::Format` is a value of a
//! `def::Format`, made of `inst::Field` values.
use std::rc::Rc;
use vstd::prelude::*;

use crate::model::def;
use crate::model::def::{SpecFormat, SpecTypeExpr};
use crate::model::CChar;

verus! {

/// A value of a format: its fields, in the order of the definition.
#[derive(Debug, PartialEq)]
pub struct Format {
    pub timestamp: Option<u64>,
    pub name: String,
    pub fields: Vec<Field>,
    pub multi_id_index: Option<u8>,
    pub def_format: Rc<def::Format>,
}

/// A value of a field.
#[derive(Debug, PartialEq)]
pub struct Field {
    pub name: String,
    pub type_: def::TypeExpr,
    pub value: FieldValue,
}

/// The value of a parameter. A `FLOAT` holds the IEEE 754 bits of the `f32`.
#[derive(Debug, Clone, PartialEq, Eq)]
pub enum ParameterValue {
    INT32(i32),
    FLOAT(u32),
}

/// The value of a field, typed. `F32` and `F64` values hold the IEEE 754 bits of the number.
#[derive(Debug, PartialEq)]
pub enum FieldValue {
    ScalarU8(u8),
    ScalarU16(u16),
    ScalarU32(u32),
    ScalarU64(u64),
    ScalarI8(i8),
    ScalarI16(i16),
    ScalarI32(i32),
    ScalarI64(i64),
    ScalarF32(u32),
    ScalarF64(u64),
    ScalarBool(bool),
    ScalarChar(CChar),
    ScalarOther(Rc<Format>),
    ArrayU8(Vec<u8>),
    ArrayU16(Vec<u16>),
    ArrayU32(Vec<u32>),
    ArrayU64(Vec<u64>),
    ArrayI8(Vec<i8>),
    ArrayI16(Vec<i16>),
    ArrayI32(Vec<i32>),
    ArrayI64(Vec<i64>),
    ArrayF32(Vec<u32>),
    ArrayF64(Vec<u64>),
    ArrayBool(Vec<bool>),
    ArrayChar(Vec<CChar>),
    ArrayOther(Vec<Format>),
}

/// The model of a format value.
pub struct SpecInstFormat {
    pub timestamp: Option<u64>,
    pub name: Seq<char>,
    pub fields: Seq<SpecInstField>,
    pub multi_id_index: Option<u8>,
    pub def_format: SpecFormat,
}

/// The model of a field value.
pub struct SpecInstField {
    pub name: Seq<char>,
    pub type_expr: SpecTypeExpr,
    pub value: SpecFieldValue,
}

/// The model of a typed value: arrays as sequences, characters as bytes.
pub enum SpecFieldValue {
    ScalarU8(u8),
    ScalarU16(u16),
    ScalarU32(u32),
    ScalarU64(u64),
    ScalarI8(i8),
    ScalarI16(i16),
    ScalarI32(i32),
    ScalarI64(i64),
    ScalarF32(u32),
    ScalarF64(u64),
    ScalarBool(bool),
    ScalarChar(u8),
    ScalarOther(SpecInstFormat),
    ArrayU8(Seq<u8>),
    ArrayU16(Seq<u16>),
    ArrayU32(Seq<u32>),
    ArrayU64(Seq<u64>),
    ArrayI8(Seq<i8>),
    ArrayI16(Seq<i16>),
    ArrayI32(Seq<i32>),
    ArrayI64(Seq<i64>),
    ArrayF32(Seq<u32>),
    ArrayF64(Seq<u64>),
    ArrayBool(Seq<bool>),
    ArrayChar(Seq<u8>),
    ArrayOther(Seq<SpecInstFormat>),
}

/// The bytes of a sequence of characters.
pub open spec fn cchar_bytes(cs: Seq<CChar>) -> Seq<u8> {
    cs.map_values(|c: CChar| c.0)
}

/// The model of a format value.
pub open spec fn format_view(f: Format) -> SpecInstFormat
    decreases f,
{
    SpecInstFormat {
        timestamp: f.timestamp,
        name: f.name@,
        fields: fields_view(f.fields@),
        multi_id_index: f.multi_id_index,
        def_format: (*f.def_format)@,
    }
}

/// The models of a sequence of field values.
pub open spec fn fields_view(fs: Seq<Field>) -> Seq<SpecInstField>
    decreases fs,
{
    if fs.len() == 0 {
        Seq::empty()
    } else {
        fields_view(fs.drop_last()).push(field_view(fs.last()))
    }
}

/// The model of a field value.
pub open spec fn field_view(f: Field) -> SpecInstField
    decreases f,
{
    SpecInstField { name: f.name@, type_expr: f.type_@, value: value_view(f.value) }
}

/// The models of a sequence of format values.
pub open spec fn formats_view(fs: Seq<Format>) -> Seq<SpecInstFormat>
    decreases fs,
{
    if fs.len() == 0 {
        Seq::empty()
    } else {
        formats_view(fs.drop_last()).push(format_view(fs.last()))
    }
}

/// The model of a typed value.
pub open spec fn value_view(v: FieldValue) -> SpecFieldValue
    decreases v,
{
    match v {
        FieldValue::ScalarU8(x) => SpecFieldValue::ScalarU8(x),
        FieldValue::ScalarU16(x) => SpecFieldValue::ScalarU16(x),
        FieldValue::ScalarU32(x) => SpecFieldValue::ScalarU32(x),
        FieldValue::ScalarU64(x) => SpecFieldValue::ScalarU64(x),
        FieldValue::ScalarI8(x) => SpecFieldValue::ScalarI8(x),
        FieldValue::ScalarI16(x) => SpecFieldValue::ScalarI16(x),
        FieldValue::ScalarI32(x) => SpecFieldValue::ScalarI32(x),
        FieldValue::ScalarI64(x) => SpecFieldValue::ScalarI64(x),
        FieldValue::ScalarF32(x) => SpecFieldValue::ScalarF32(x),
        FieldValue::ScalarF64(x) => SpecFieldValue::ScalarF64(x),
        FieldValue::ScalarBool(x) => SpecFieldValue::ScalarBool(x),
        FieldValue::ScalarChar(c) => SpecFieldValue::ScalarChar(c.0),
        FieldValue::ScalarOther(f) => SpecFieldValue::ScalarOther(format_view(*f)),
        FieldValue::ArrayU8(a) => SpecFieldValue::ArrayU8(a@),
        FieldValue::ArrayU16(a) => SpecFieldValue::ArrayU16(a@),
        FieldValue::ArrayU32(a) => SpecFieldValue::ArrayU32(a@),
        FieldValue::ArrayU64(a) => SpecFieldValue::ArrayU64(a@),
        FieldValue::ArrayI8(a) => SpecFieldValue::ArrayI8(a@),
        FieldValue::ArrayI16(a) => SpecFieldValue::ArrayI16(a@),
        FieldValue::ArrayI32(a) => SpecFieldValue::ArrayI32(a@),
        FieldValue::ArrayI64(a) => SpecFieldValue::ArrayI64(a@),
        FieldValue::ArrayF32(a) => SpecFieldValue::ArrayF32(a@),
        FieldValue::ArrayF64(a) => SpecFieldValue::ArrayF64(a@),
        FieldValue::ArrayBool(a) => SpecFieldValue::ArrayBool(a@),
        FieldValue::ArrayChar(a) => SpecFieldValue::ArrayChar(cchar_bytes(a@)),
        FieldValue::ArrayOther(a) => SpecFieldValue::ArrayOther(formats_view(a@)),
    }
}

impl View for Format {
    type V = SpecInstFormat;

    open spec fn view(&self) -> SpecInstFormat {
        format_view(*self)
    }
}

impl View for Field {
    type V = SpecInstField;

    open spec fn view(&self) -> SpecInstField {
        field_view(*self)
    }
}

impl View for FieldValue {
    type V = SpecFieldValue;

    open spec fn view(&self) -> SpecFieldValue {
        value_view(*self)
    }
}

} // verus!
