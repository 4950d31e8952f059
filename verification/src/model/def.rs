//! Types that describe the structure, or schema, of logged data without carrying any of it.
//! A `Format` declares an aggregate type, like a struct, made of `Field` definitions. The
//! `inst` module holds the data instances of these declarations.
use vstd::prelude::*;

verus! {

/// The declaration of an aggregate type: a name and its fields.
#[derive(Debug, Clone, PartialEq)]
pub struct Format {
    pub name: String,
    pub fields: Vec<Field>,
    pub padding: usize,
}

/// A named field of a format.
#[derive(Debug, Clone, PartialEq)]
pub struct Field {
    pub name: String,
    pub type_: TypeExpr,
}

/// A base type, with an array length when the field is an array.
#[derive(Debug, Clone, PartialEq)]
pub struct TypeExpr {
    pub base_type: BaseType,
    pub array_size: Option<usize>,
}

/// The type of a field: one of the primitive types, or another format named by `OTHER`.
#[allow(clippy::upper_case_acronyms)]
#[derive(Debug, Clone, PartialEq, Eq, Hash)]
pub enum BaseType {
    UINT8,
    UINT16,
    UINT32,
    UINT64,
    INT8,
    INT16,
    INT32,
    INT64,
    FLOAT,
    DOUBLE,
    BOOL,
    CHAR,
    OTHER(String),
}

/// The model of a `BaseType`: the name of another format by its characters.
pub enum SpecBaseType {
    UINT8,
    UINT16,
    UINT32,
    UINT64,
    INT8,
    INT16,
    INT32,
    INT64,
    FLOAT,
    DOUBLE,
    BOOL,
    CHAR,
    OTHER(Seq<char>),
}

/// The model of a `TypeExpr`.
pub struct SpecTypeExpr {
    pub base_type: SpecBaseType,
    pub array_size: Option<usize>,
}

/// The model of a `Field`.
pub struct SpecField {
    pub name: Seq<char>,
    pub type_expr: SpecTypeExpr,
}

/// The model of a `Format`.
pub struct SpecFormat {
    pub name: Seq<char>,
    pub fields: Seq<SpecField>,
    pub padding: usize,
}

impl View for BaseType {
    type V = SpecBaseType;

    open spec fn view(&self) -> SpecBaseType {
        match self {
            BaseType::UINT8 => SpecBaseType::UINT8,
            BaseType::UINT16 => SpecBaseType::UINT16,
            BaseType::UINT32 => SpecBaseType::UINT32,
            BaseType::UINT64 => SpecBaseType::UINT64,
            BaseType::INT8 => SpecBaseType::INT8,
            BaseType::INT16 => SpecBaseType::INT16,
            BaseType::INT32 => SpecBaseType::INT32,
            BaseType::INT64 => SpecBaseType::INT64,
            BaseType::FLOAT => SpecBaseType::FLOAT,
            BaseType::DOUBLE => SpecBaseType::DOUBLE,
            BaseType::BOOL => SpecBaseType::BOOL,
            BaseType::CHAR => SpecBaseType::CHAR,
            BaseType::OTHER(s) => SpecBaseType::OTHER(s@),
        }
    }
}

impl View for TypeExpr {
    type V = SpecTypeExpr;

    open spec fn view(&self) -> SpecTypeExpr {
        SpecTypeExpr { base_type: self.base_type@, array_size: self.array_size }
    }
}

impl View for Field {
    type V = SpecField;

    open spec fn view(&self) -> SpecField {
        SpecField { name: self.name@, type_expr: self.type_@ }
    }
}

/// The models of a sequence of fields.
pub open spec fn field_views(fields: Seq<Field>) -> Seq<SpecField> {
    fields.map_values(|f: Field| f@)
}

impl View for Format {
    type V = SpecFormat;

    open spec fn view(&self) -> SpecFormat {
        SpecFormat { name: self.name@, fields: field_views(self.fields@), padding: self.padding }
    }
}

impl BaseType {
    /// A copy of this base type.
    pub fn duplicate(&self) -> (r: Self)
        ensures
            r@ == self@,
    {
        match self {
            BaseType::UINT8 => BaseType::UINT8,
            BaseType::UINT16 => BaseType::UINT16,
            BaseType::UINT32 => BaseType::UINT32,
            BaseType::UINT64 => BaseType::UINT64,
            BaseType::INT8 => BaseType::INT8,
            BaseType::INT16 => BaseType::INT16,
            BaseType::INT32 => BaseType::INT32,
            BaseType::INT64 => BaseType::INT64,
            BaseType::FLOAT => BaseType::FLOAT,
            BaseType::DOUBLE => BaseType::DOUBLE,
            BaseType::BOOL => BaseType::BOOL,
            BaseType::CHAR => BaseType::CHAR,
            BaseType::OTHER(s) => BaseType::OTHER(s.clone()),
        }
    }
}

impl TypeExpr {
    /// A copy of this type expression.
    pub fn duplicate(&self) -> (r: Self)
        ensures
            r@ == self@,
    {
        TypeExpr { base_type: self.base_type.duplicate(), array_size: self.array_size }
    }

    /// Whether the type is a single value rather than an array.
    pub fn is_scalar(&self) -> (r: bool)
        ensures
            r == (self.array_size is None),
    {
        self.array_size.is_none()
    }

    /// Whether the type is an array.
    pub fn is_array(&self) -> (r: bool)
        ensures
            r == (self.array_size is Some),
    {
        self.array_size.is_some()
    }
}

impl Field {
    /// A copy of this field definition.
    pub fn duplicate(&self) -> (r: Self)
        ensures
            r@ == self@,
    {
        Field { name: self.name.clone(), type_: self.type_.duplicate() }
    }
}

impl Format {
    /// A copy of this format.
    pub fn duplicate(&self) -> (r: Self)
        ensures
            r@ == self@,
    {
        let mut fields: Vec<Field> = Vec::with_capacity(self.fields.len());
        let mut i: usize = 0;
        while i < self.fields.len()
            invariant
                i <= self.fields@.len(),
                field_views(fields@) == field_views(self.fields@).take(i as int),
            decreases self.fields@.len() - i,
        {
            let f = self.fields[i].duplicate();
            let ghost before = fields@;
            fields.push(f);
            proof {
                assert(field_views(fields@) =~= field_views(before).push(f@));
                assert(field_views(self.fields@).take(i + 1) =~= field_views(self.fields@).take(
                    i as int,
                ).push(self.fields@[i as int]@));
            }
            i += 1;
        }
        assert(field_views(self.fields@).take(self.fields@.len() as int) =~= field_views(
            self.fields@,
        ));
        Format { name: self.name.clone(), fields, padding: self.padding }
    }
}

} // verus!
