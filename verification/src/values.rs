//! Copies of decoded values, and arrays taken apart into their elements.
use std::rc::Rc;
use vstd::prelude::*;

use crate::model::inst;
use crate::model::inst::{SpecFieldValue, SpecInstField, SpecInstFormat, field_view, fields_view, format_view, formats_view};
use crate::data::{data_fields, data_format, data_others, data_value, is_padding_name, padding_step};
use crate::model::def::{SpecBaseType, SpecField, SpecFormat, SpecTypeExpr};
use crate::model::CChar;
use crate::parser::share;
use crate::primitive::copy_vec;
use crate::text::{decimal_bytes, decimal_text, string_from_utf8};
use vstd::string::StringExecFns;
use vstd::utf8::*;

verus! {

/// The models of a sequence of values.
pub open spec fn values_view(s: Seq<inst::FieldValue>) -> Seq<SpecFieldValue> {
    s.map_values(|v: inst::FieldValue| v@)
}

/// The elements of an array value, each as a scalar value; `None` for a scalar.
pub open spec fn scalars_of(v: SpecFieldValue) -> Option<Seq<SpecFieldValue>> {
    match v {
        SpecFieldValue::ArrayU8(a) => Some(a.map_values(|x: u8| SpecFieldValue::ScalarU8(x))),
        SpecFieldValue::ArrayU16(a) => Some(a.map_values(|x: u16| SpecFieldValue::ScalarU16(x))),
        SpecFieldValue::ArrayU32(a) => Some(a.map_values(|x: u32| SpecFieldValue::ScalarU32(x))),
        SpecFieldValue::ArrayU64(a) => Some(a.map_values(|x: u64| SpecFieldValue::ScalarU64(x))),
        SpecFieldValue::ArrayI8(a) => Some(a.map_values(|x: i8| SpecFieldValue::ScalarI8(x))),
        SpecFieldValue::ArrayI16(a) => Some(a.map_values(|x: i16| SpecFieldValue::ScalarI16(x))),
        SpecFieldValue::ArrayI32(a) => Some(a.map_values(|x: i32| SpecFieldValue::ScalarI32(x))),
        SpecFieldValue::ArrayI64(a) => Some(a.map_values(|x: i64| SpecFieldValue::ScalarI64(x))),
        SpecFieldValue::ArrayF32(a) => Some(a.map_values(|x: u32| SpecFieldValue::ScalarF32(x))),
        SpecFieldValue::ArrayF64(a) => Some(a.map_values(|x: u64| SpecFieldValue::ScalarF64(x))),
        SpecFieldValue::ArrayBool(a) => Some(a.map_values(|x: bool| SpecFieldValue::ScalarBool(x))),
        SpecFieldValue::ArrayChar(a) => Some(a.map_values(|x: u8| SpecFieldValue::ScalarChar(x))),
        SpecFieldValue::ArrayOther(fs) => Some(
            fs.map_values(|f: SpecInstFormat| SpecFieldValue::ScalarOther(f)),
        ),
        _ => None,
    }
}

/// There is one model for each field value, the model of that value.
proof fn lemma_fields_view_index(fs: Seq<inst::Field>)
    ensures
        fields_view(fs).len() == fs.len(),
        forall|i: int| 0 <= i < fs.len() ==> #[trigger] fields_view(fs)[i] == field_view(fs[i]),
    decreases fs.len(),
{
    if fs.len() > 0 {
        lemma_fields_view_index(fs.drop_last());
    }
}

/// There is one model for each format value, the model of that value.
pub(crate) proof fn lemma_formats_view_index(fs: Seq<inst::Format>)
    ensures
        formats_view(fs).len() == fs.len(),
        forall|i: int| 0 <= i < fs.len() ==> #[trigger] formats_view(fs)[i] == format_view(fs[i]),
    decreases fs.len(),
{
    if fs.len() > 0 {
        lemma_formats_view_index(fs.drop_last());
    }
}

/// Each element of an array turned into a value.
fn map_to_values<T: Copy, F: Fn(T) -> inst::FieldValue>(a: &Vec<T>, f: F) -> (r: Vec<
    inst::FieldValue,
>)
    requires
        forall|x: T| f.requires((x,)),
    ensures
        r@.len() == a@.len(),
        forall|i: int| 0 <= i < a@.len() ==> f.ensures((a@[i],), #[trigger] r@[i]),
{
    let mut r: Vec<inst::FieldValue> = Vec::with_capacity(a.len());
    let mut i: usize = 0;
    while i < a.len()
        invariant
            i <= a@.len(),
            r@.len() == i,
            forall|x: T| f.requires((x,)),
            forall|k: int| 0 <= k < i ==> f.ensures((a@[k],), #[trigger] r@[k]),
        decreases a@.len() - i,
    {
        let v = f(a[i]);
        r.push(v);
        i += 1;
    }
    r
}

/// A copy of a value: arrays copied, nested formats copied too.
pub fn duplicate_value(v: &inst::FieldValue) -> (r: inst::FieldValue)
    ensures
        r@ == v@,
    decreases v,
{
    match v {
        inst::FieldValue::ScalarU8(x) => inst::FieldValue::ScalarU8(*x),
        inst::FieldValue::ScalarU16(x) => inst::FieldValue::ScalarU16(*x),
        inst::FieldValue::ScalarU32(x) => inst::FieldValue::ScalarU32(*x),
        inst::FieldValue::ScalarU64(x) => inst::FieldValue::ScalarU64(*x),
        inst::FieldValue::ScalarI8(x) => inst::FieldValue::ScalarI8(*x),
        inst::FieldValue::ScalarI16(x) => inst::FieldValue::ScalarI16(*x),
        inst::FieldValue::ScalarI32(x) => inst::FieldValue::ScalarI32(*x),
        inst::FieldValue::ScalarI64(x) => inst::FieldValue::ScalarI64(*x),
        inst::FieldValue::ScalarF32(x) => inst::FieldValue::ScalarF32(*x),
        inst::FieldValue::ScalarF64(x) => inst::FieldValue::ScalarF64(*x),
        inst::FieldValue::ScalarBool(x) => inst::FieldValue::ScalarBool(*x),
        inst::FieldValue::ScalarChar(c) => inst::FieldValue::ScalarChar(*c),
        inst::FieldValue::ScalarOther(f) => inst::FieldValue::ScalarOther(share(f)),
        inst::FieldValue::ArrayU8(a) => inst::FieldValue::ArrayU8(copy_vec(a)),
        inst::FieldValue::ArrayU16(a) => inst::FieldValue::ArrayU16(copy_vec(a)),
        inst::FieldValue::ArrayU32(a) => inst::FieldValue::ArrayU32(copy_vec(a)),
        inst::FieldValue::ArrayU64(a) => inst::FieldValue::ArrayU64(copy_vec(a)),
        inst::FieldValue::ArrayI8(a) => inst::FieldValue::ArrayI8(copy_vec(a)),
        inst::FieldValue::ArrayI16(a) => inst::FieldValue::ArrayI16(copy_vec(a)),
        inst::FieldValue::ArrayI32(a) => inst::FieldValue::ArrayI32(copy_vec(a)),
        inst::FieldValue::ArrayI64(a) => inst::FieldValue::ArrayI64(copy_vec(a)),
        inst::FieldValue::ArrayF32(a) => inst::FieldValue::ArrayF32(copy_vec(a)),
        inst::FieldValue::ArrayF64(a) => inst::FieldValue::ArrayF64(copy_vec(a)),
        inst::FieldValue::ArrayBool(a) => inst::FieldValue::ArrayBool(copy_vec(a)),
        inst::FieldValue::ArrayChar(a) => inst::FieldValue::ArrayChar(copy_vec(a)),
        inst::FieldValue::ArrayOther(fs) => {
            assert(decreases_to!(v => fs));
            assert(decreases_to!(fs => fs@));
            let mut out: Vec<inst::Format> = Vec::with_capacity(fs.len());
            let mut i: usize = 0;
            while i < fs.len()
                invariant
                    i <= fs@.len(),
                    decreases_to!(v => fs@),
                    formats_view(out@) == formats_view(fs@.take(i as int)),
                decreases fs@.len() - i,
            {
                proof {
                    assert(decreases_to!(fs@ => fs@[i as int]));
                }
                let f = duplicate_format(&fs[i]);
                proof {
                    assert(out@.push(f).drop_last() =~= out@);
                    assert(fs@.take(i + 1).drop_last() =~= fs@.take(i as int));
                }
                out.push(f);
                i += 1;
            }
            assert(fs@.take(fs@.len() as int) =~= fs@);
            inst::FieldValue::ArrayOther(out)
        },
    }
}

/// A copy of a value of a format: its fields copied.
pub fn duplicate_format(f: &inst::Format) -> (r: inst::Format)
    ensures
        r@ == f@,
    decreases f,
{
    let mut fields: Vec<inst::Field> = Vec::with_capacity(f.fields.len());
    let mut i: usize = 0;
    while i < f.fields.len()
        invariant
            i <= f.fields@.len(),
            fields_view(fields@) == fields_view(f.fields@.take(i as int)),
        decreases f.fields@.len() - i,
    {
        proof {
            assert(decreases_to!(*f => f.fields));
            assert(decreases_to!(f.fields => f.fields@));
            assert(decreases_to!(f.fields@ => f.fields@[i as int]));
            assert(decreases_to!(f.fields@[i as int] => f.fields@[i as int].value));
        }
        let field = &f.fields[i];
        let x = inst::Field {
            name: field.name.clone(),
            type_: field.type_.duplicate(),
            value: duplicate_value(&field.value),
        };
        proof {
            assert(fields@.push(x).drop_last() =~= fields@);
            assert(f.fields@.take(i + 1).drop_last() =~= f.fields@.take(i as int));
            assert(field_view(x) == field_view(f.fields@[i as int]));
            assert(fields_view(fields@.push(x)) == fields_view(fields@).push(field_view(x)));
            assert(fields_view(f.fields@.take(i + 1)) == fields_view(f.fields@.take(i as int)).push(
                field_view(f.fields@[i as int]),
            ));
        }
        fields.push(x);
        i += 1;
    }
    assert(f.fields@.take(f.fields@.len() as int) =~= f.fields@);
    inst::Format {
        timestamp: f.timestamp,
        name: f.name.clone(),
        fields,
        multi_id_index: f.multi_id_index,
        def_format: share(&f.def_format),
    }
}

impl inst::FieldValue {
    /// The elements of an array value, each as a scalar value; `None` for a scalar value.
    pub fn to_scalars(&self) -> (r: Option<Vec<inst::FieldValue>>)
        ensures
            match scalars_of(self@) {
                None => r is None,
                Some(s) => r matches Some(v) && values_view(v@) == s,
            },
    {
        let r = match self {
            inst::FieldValue::ArrayU8(a) => map_to_values(
                a,
                (|x: u8| -> (r: inst::FieldValue)
                    ensures
                        r@ == SpecFieldValue::ScalarU8(x),
                    { inst::FieldValue::ScalarU8(x) }),
            ),
            inst::FieldValue::ArrayU16(a) => map_to_values(
                a,
                (|x: u16| -> (r: inst::FieldValue)
                    ensures
                        r@ == SpecFieldValue::ScalarU16(x),
                    { inst::FieldValue::ScalarU16(x) }),
            ),
            inst::FieldValue::ArrayU32(a) => map_to_values(
                a,
                (|x: u32| -> (r: inst::FieldValue)
                    ensures
                        r@ == SpecFieldValue::ScalarU32(x),
                    { inst::FieldValue::ScalarU32(x) }),
            ),
            inst::FieldValue::ArrayU64(a) => map_to_values(
                a,
                (|x: u64| -> (r: inst::FieldValue)
                    ensures
                        r@ == SpecFieldValue::ScalarU64(x),
                    { inst::FieldValue::ScalarU64(x) }),
            ),
            inst::FieldValue::ArrayI8(a) => map_to_values(
                a,
                (|x: i8| -> (r: inst::FieldValue)
                    ensures
                        r@ == SpecFieldValue::ScalarI8(x),
                    { inst::FieldValue::ScalarI8(x) }),
            ),
            inst::FieldValue::ArrayI16(a) => map_to_values(
                a,
                (|x: i16| -> (r: inst::FieldValue)
                    ensures
                        r@ == SpecFieldValue::ScalarI16(x),
                    { inst::FieldValue::ScalarI16(x) }),
            ),
            inst::FieldValue::ArrayI32(a) => map_to_values(
                a,
                (|x: i32| -> (r: inst::FieldValue)
                    ensures
                        r@ == SpecFieldValue::ScalarI32(x),
                    { inst::FieldValue::ScalarI32(x) }),
            ),
            inst::FieldValue::ArrayI64(a) => map_to_values(
                a,
                (|x: i64| -> (r: inst::FieldValue)
                    ensures
                        r@ == SpecFieldValue::ScalarI64(x),
                    { inst::FieldValue::ScalarI64(x) }),
            ),
            inst::FieldValue::ArrayF32(a) => map_to_values(
                a,
                (|x: u32| -> (r: inst::FieldValue)
                    ensures
                        r@ == SpecFieldValue::ScalarF32(x),
                    { inst::FieldValue::ScalarF32(x) }),
            ),
            inst::FieldValue::ArrayF64(a) => map_to_values(
                a,
                (|x: u64| -> (r: inst::FieldValue)
                    ensures
                        r@ == SpecFieldValue::ScalarF64(x),
                    { inst::FieldValue::ScalarF64(x) }),
            ),
            inst::FieldValue::ArrayBool(a) => map_to_values(
                a,
                (|x: bool| -> (r: inst::FieldValue)
                    ensures
                        r@ == SpecFieldValue::ScalarBool(x),
                    { inst::FieldValue::ScalarBool(x) }),
            ),
            inst::FieldValue::ArrayChar(a) => map_to_values(
                a,
                (|x: CChar| -> (r: inst::FieldValue)
                    ensures
                        r@ == SpecFieldValue::ScalarChar(x.0),
                    { inst::FieldValue::ScalarChar(x) }),
            ),
            inst::FieldValue::ArrayOther(fs) => {
                let mut out: Vec<inst::FieldValue> = Vec::with_capacity(fs.len());
                let mut i: usize = 0;
                proof {
                    lemma_formats_view_index(fs@);
                }
                while i < fs.len()
                    invariant
                        i <= fs@.len(),
                        out@.len() == i,
                        forall|k: int|
                            0 <= k < i ==> #[trigger] out@[k]@ == SpecFieldValue::ScalarOther(
                                format_view(fs@[k]),
                            ),
                    decreases fs@.len() - i,
                {
                    let f = duplicate_format(&fs[i]);
                    out.push(inst::FieldValue::ScalarOther(Rc::new(f)));
                    i += 1;
                }
                proof {
                    assert(values_view(out@) =~= formats_view(fs@).map_values(
                        |f: SpecInstFormat| SpecFieldValue::ScalarOther(f),
                    ));
                }
                return Some(out);
            },
            _ => return None,
        };
        proof {
            match self@ {
                SpecFieldValue::ArrayChar(a) => {
                    assert(values_view(r@) =~= scalars_of(self@)->Some_0);
                },
                _ => {
                    assert(values_view(r@) =~= scalars_of(self@)->Some_0);
                },
            }
        }
        Some(r)
    }
}

/// An array index as paths write it: a dot, then the index in at least two digits.
pub open spec fn index_text(k: nat) -> Seq<char> {
    seq!['.'] + if k < 10 {
        seq!['0'] + decimal_text(k)
    } else {
        decimal_text(k)
    }
}

/// The name of a value of a format: the format's name, with the instance number for data
/// logged under several instances.
pub open spec fn display_name(f: SpecInstFormat) -> Seq<char> {
    match f.multi_id_index {
        None => f.name,
        Some(i) => f.name + index_text(i as nat),
    }
}

/// The scalar values under a value of a format, each with its path: the format's path, `/`
/// and the field's name, for array elements `.` and the index.
pub open spec fn flat_format(f: SpecInstFormat, path: Seq<char>) -> Seq<(Seq<char>, SpecFieldValue)>
    decreases f,
{
    flat_fields(f.fields, path)
}

/// The scalar values under fields, in order.
pub open spec fn flat_fields(fs: Seq<SpecInstField>, path: Seq<char>) -> Seq<
    (Seq<char>, SpecFieldValue),
>
    decreases fs,
{
    if fs.len() == 0 {
        Seq::empty()
    } else {
        flat_fields(fs.drop_last(), path) + flat_field(fs.last(), path)
    }
}

/// The scalar values under a field: its value, or each element of an array.
pub open spec fn flat_field(f: SpecInstField, path: Seq<char>) -> Seq<(Seq<char>, SpecFieldValue)>
    decreases f,
{
    let cur = path + seq!['/'] + f.name;
    if f.type_expr.array_size is None {
        flat_value(f.value, cur)
    } else {
        match f.value {
            SpecFieldValue::ArrayOther(fs) => flat_others(fs, cur),
            v => {
                let s = scalars_of(v)->Some_0;
                Seq::new(s.len(), |k: int| (cur + index_text(k as nat), s[k]))
            },
        }
    }
}

/// The scalar values under a value: those of a nested format, or the value itself.
pub open spec fn flat_value(v: SpecFieldValue, path: Seq<char>) -> Seq<(Seq<char>, SpecFieldValue)>
    decreases v,
{
    match v {
        SpecFieldValue::ScalarOther(f) => flat_format(f, path),
        _ => seq![(path, v)],
    }
}

/// The scalar values under the elements of an array of format values.
pub open spec fn flat_others(fs: Seq<SpecInstFormat>, path: Seq<char>) -> Seq<
    (Seq<char>, SpecFieldValue),
>
    decreases fs,
{
    if fs.len() == 0 {
        Seq::empty()
    } else {
        flat_others(fs.drop_last(), path) + flat_format(
            fs.last(),
            path + index_text((fs.len() - 1) as nat),
        )
    }
}

/// Whether every field declared as an array holds an array, all the way down: the values
/// that can be taken apart into their elements.
pub open spec fn arrays_hold_arrays(f: SpecInstFormat) -> bool
    decreases f,
{
    fields_hold_arrays(f.fields)
}

/// Whether the fields declared as arrays hold arrays.
pub open spec fn fields_hold_arrays(fs: Seq<SpecInstField>) -> bool
    decreases fs,
{
    fs.len() == 0 || (fields_hold_arrays(fs.drop_last()) && field_holds_array(fs.last()))
}

/// Whether a field declared as an array holds an array.
pub open spec fn field_holds_array(f: SpecInstField) -> bool
    decreases f,
{
    if f.type_expr.array_size is None {
        value_holds_arrays(f.value)
    } else {
        match f.value {
            SpecFieldValue::ArrayOther(fs) => others_hold_arrays(fs),
            v => scalars_of(v) is Some,
        }
    }
}

/// Whether the fields declared as arrays in a nested format hold arrays.
pub open spec fn value_holds_arrays(v: SpecFieldValue) -> bool
    decreases v,
{
    match v {
        SpecFieldValue::ScalarOther(f) => arrays_hold_arrays(f),
        _ => true,
    }
}

/// Whether the fields declared as arrays in format values hold arrays.
pub open spec fn others_hold_arrays(fs: Seq<SpecInstFormat>) -> bool
    decreases fs,
{
    fs.len() == 0 || (others_hold_arrays(fs.drop_last()) && arrays_hold_arrays(fs.last()))
}

/// The models of path and value pairs.
pub open spec fn pairs_view(s: Seq<(String, inst::FieldValue)>) -> Seq<(Seq<char>, SpecFieldValue)> {
    s.map_values(|p: (String, inst::FieldValue)| (p.0@, p.1@))
}

/// The decimal text of `n`.
fn decimal_string(n: usize) -> (r: String)
    ensures
        r@ == decimal_text(n as nat),
{
    let bytes = decimal_bytes(n);
    proof {
        encode_utf8_valid_utf8(decimal_text(n as nat));
        encode_utf8_decode_utf8(decimal_text(n as nat));
    }
    match string_from_utf8(bytes) {
        Ok(s) => s,
        Err(_) => String::new(),
    }
}

/// `base` followed by the path of array element `k`.
fn index_path(base: &str, k: usize) -> (r: String)
    ensures
        r@ == base@ + index_text(k as nat),
{
    let mut s = String::from_str(base);
    proof {
        reveal_strlit(".");
        reveal_strlit(".0");
    }
    if k < 10 {
        s.append(".0");
    } else {
        s.append(".");
    }
    let digits = decimal_string(k);
    s.append(digits.as_str());
    assert(s@ =~= base@ + index_text(k as nat));
    s
}

/// Appends `more` to `out`.
fn append_pairs(out: &mut Vec<(String, inst::FieldValue)>, more: Vec<(String, inst::FieldValue)>)
    ensures
        pairs_view(final(out)@) == pairs_view(old(out)@) + pairs_view(more@),
{
    let ghost m = more@;
    let mut more = more;
    out.append(&mut more);
    assert(pairs_view(out@) =~= pairs_view(old(out)@) + pairs_view(m));
}

/// The fields of a format value that holds arrays where it declares them each do.
proof fn lemma_fields_hold_arrays(fs: Seq<SpecInstField>, k: int)
    requires
        fields_hold_arrays(fs),
        0 <= k < fs.len(),
    ensures
        field_holds_array(fs[k]),
    decreases fs.len(),
{
    if k < fs.len() - 1 {
        lemma_fields_hold_arrays(fs.drop_last(), k);
    }
}

/// The elements of an array of format values that hold arrays each do.
proof fn lemma_others_hold_arrays(fs: Seq<SpecInstFormat>, k: int)
    requires
        others_hold_arrays(fs),
        0 <= k < fs.len(),
    ensures
        arrays_hold_arrays(fs[k]),
    decreases fs.len(),
{
    if k < fs.len() - 1 {
        lemma_others_hold_arrays(fs.drop_last(), k);
    }
}

/// The scalar values under the elements of an array of format values, each element's path
/// `path` with its index.
fn flatten_others(fs: &Vec<inst::Format>, path: &str) -> (r: Vec<(String, inst::FieldValue)>)
    requires
        others_hold_arrays(formats_view(fs@)),
    ensures
        pairs_view(r@) == flat_others(formats_view(fs@), path@),
    decreases fs,
{
    let mut out: Vec<(String, inst::FieldValue)> = Vec::new();
    let mut k: usize = 0;
    proof {
        lemma_formats_view_index(fs@);
        assert(formats_view(fs@.take(0)) =~= Seq::<SpecInstFormat>::empty());
    }
    while k < fs.len()
        invariant
            k <= fs@.len(),
            formats_view(fs@).len() == fs@.len(),
            others_hold_arrays(formats_view(fs@)),
            forall|j: int| 0 <= j < fs@.len() ==> #[trigger] formats_view(fs@)[j] == format_view(fs@[j]),
            decreases_to!(fs => fs@),
            pairs_view(out@) == flat_others(formats_view(fs@.take(k as int)), path@),
        decreases fs@.len() - k,
    {
        proof {
            assert(decreases_to!(fs@ => fs@[k as int]));
            lemma_others_hold_arrays(formats_view(fs@), k as int);
        }
        let p = index_path(path, k);
        let more = fs[k].flatten_sub(p.as_str());
        proof {
            let t = formats_view(fs@.take(k + 1));
            lemma_formats_view_index(fs@.take(k + 1));
            assert(fs@.take(k + 1).drop_last() =~= fs@.take(k as int));
            assert(t == formats_view(fs@.take(k as int)).push(format_view(fs@[k as int])));
            assert(t.drop_last() =~= formats_view(fs@.take(k as int)));
            assert(t.len() == k + 1);
        }
        append_pairs(&mut out, more);
        k += 1;
    }
    assert(fs@.take(fs@.len() as int) =~= fs@);
    out
}

impl inst::Format {
    /// The name of this value: the format's name, with the instance number for data logged
    /// under several instances.
    pub fn display_name(&self) -> (r: String)
        ensures
            r@ == display_name(self@),
    {
        match self.multi_id_index {
            None => self.name.clone(),
            Some(i) => index_path(self.name.as_str(), i as usize),
        }
    }

    /// The scalar values of this value, each with its path from the value's name.
    pub fn flatten(&self) -> (r: Vec<(String, inst::FieldValue)>)
        requires
            arrays_hold_arrays(self@),
        ensures
            pairs_view(r@) == flat_format(self@, display_name(self@)),
    {
        let prefix = self.display_name();
        self.flatten_sub(prefix.as_str())
    }

    /// The scalar values of this value, each with its path from `path`.
    fn flatten_sub(&self, path: &str) -> (r: Vec<(String, inst::FieldValue)>)
        requires
            arrays_hold_arrays(self@),
        ensures
            pairs_view(r@) == flat_format(self@, path@),
        decreases self,
    {
        let mut flattened: Vec<(String, inst::FieldValue)> = Vec::new();
        let mut i: usize = 0;
        proof {
            lemma_fields_view_index(self.fields@);
            assert(fields_view(self.fields@.take(0)) =~= Seq::<SpecInstField>::empty());
        }
        while i < self.fields.len()
            invariant
                i <= self.fields@.len(),
                fields_hold_arrays(fields_view(self.fields@)),
                fields_view(self.fields@).len() == self.fields@.len(),
                forall|j: int|
                    0 <= j < self.fields@.len() ==> #[trigger] fields_view(self.fields@)[j]
                        == field_view(self.fields@[j]),
                pairs_view(flattened@) == flat_fields(
                    fields_view(self.fields@.take(i as int)),
                    path@,
                ),
            decreases self.fields@.len() - i,
        {
            proof {
                assert(decreases_to!(*self => self.fields));
                assert(decreases_to!(self.fields => self.fields@));
                assert(decreases_to!(self.fields@ => self.fields@[i as int]));
                assert(decreases_to!(self.fields@[i as int] => self.fields@[i as int].value));
                lemma_fields_hold_arrays(fields_view(self.fields@), i as int);
            }
            let field = &self.fields[i];
            let mut current_path = String::from_str(path);
            proof {
                reveal_strlit("/");
            }
            current_path.append("/");
            current_path.append(field.name.as_str());
            let ghost cur = path@ + seq!['/'] + field.name@;
            assert(current_path@ =~= cur);
            let more = if field.type_.is_scalar() {
                self.flatten_data_type(current_path, &field.value)
            } else {
                match &field.value {
                    inst::FieldValue::ArrayOther(fs) => {
                        proof {
                            assert(decreases_to!(field.value => fs));
                        }
                        flatten_others(fs, current_path.as_str())
                    },
                    other => {
                        let scalars = other.to_scalars().unwrap();
                        let ghost sv = scalars_of(other@)->Some_0;
                        let mut out: Vec<(String, inst::FieldValue)> = Vec::new();
                        let mut k: usize = 0;
                        while k < scalars.len()
                            invariant
                                k <= scalars@.len(),
                                values_view(scalars@) == sv,
                                current_path@ == cur,
                                pairs_view(out@) == Seq::new(
                                    k as nat,
                                    |j: int| (cur + index_text(j as nat), sv[j]),
                                ),
                            decreases scalars@.len() - k,
                        {
                            let p = index_path(current_path.as_str(), k);
                            let v = duplicate_value(&scalars[k]);
                            let ghost before = pairs_view(out@);
                            out.push((p, v));
                            proof {
                                assert(pairs_view(out@) =~= before.push((p@, v@)));
                                assert(values_view(scalars@)[k as int] == scalars@[k as int]@);
                                assert(pairs_view(out@) =~= Seq::new(
                                    (k + 1) as nat,
                                    |j: int| (cur + index_text(j as nat), sv[j]),
                                ));
                            }
                            k += 1;
                        }
                        out
                    },
                }
            };
            proof {
                let t = fields_view(self.fields@.take(i + 1));
                assert(self.fields@.take(i + 1).drop_last() =~= self.fields@.take(i as int));
                assert(t == fields_view(self.fields@.take(i as int)).push(
                    field_view(self.fields@[i as int]),
                ));
                assert(t.drop_last() =~= fields_view(self.fields@.take(i as int)));
                lemma_fields_view_index(self.fields@.take(i + 1));
                assert(flat_fields(t, path@) == flat_fields(
                    fields_view(self.fields@.take(i as int)),
                    path@,
                ) + flat_field(field_view(self.fields@[i as int]), path@));
                assert(pairs_view(more@) == flat_field(field_view(self.fields@[i as int]), path@));
            }
            append_pairs(&mut flattened, more);
            i += 1;
        }
        assert(self.fields@.take(self.fields@.len() as int) =~= self.fields@);
        flattened
    }

    /// The scalar values under `value`, with their paths from `path`.
    fn flatten_data_type(&self, path: String, value: &inst::FieldValue) -> (r: Vec<
        (String, inst::FieldValue),
    >)
        requires
            value_holds_arrays(value@),
        ensures
            pairs_view(r@) == flat_value(value@, path@),
        decreases value,
    {
        match value {
            inst::FieldValue::ScalarOther(nested_format) => nested_format.flatten_sub(path.as_str()),
            _ => {
                let mut v: Vec<(String, inst::FieldValue)> = Vec::new();
                v.push((path, duplicate_value(value)));
                assert(pairs_view(v@) =~= seq![(path@, value@)]);
                v
            },
        }
    }
}

/// Whether a value fits a type in the way `flatten` needs: an array where the type declares
/// one, nested formats fitting all the way down.
pub open spec fn fits_type(te: SpecTypeExpr, v: SpecFieldValue) -> bool {
    field_holds_array(SpecInstField { name: Seq::empty(), type_expr: te, value: v })
}

/// Decoded values fit their types.
pub proof fn lemma_value_fits(
    tbl: Seq<(Seq<char>, SpecFormat)>,
    pad: bool,
    budget: nat,
    te: SpecTypeExpr,
    bytes: Seq<u8>,
)
    requires
        data_value(tbl, pad, budget, te, bytes) is Ok,
    ensures
        fits_type(te, data_value(tbl, pad, budget, te, bytes)->Ok_0.0),
    decreases budget, 1nat, 0nat,
{
    match te.array_size {
        None => match te.base_type {
            SpecBaseType::OTHER(name) => {
                let child = crate::parser::lookup_format(tbl, name)->Some_0;
                lemma_format_fits(tbl, pad, (budget - 1) as nat, child, bytes);
            },
            _ => {},
        },
        Some(n) => match te.base_type {
            SpecBaseType::OTHER(name) => {
                let child = crate::parser::lookup_format(tbl, name)->Some_0;
                lemma_others_fit(tbl, pad, budget, child, n as nat, bytes);
            },
            _ => {},
        },
    }
}

/// Decoded values of a format, one after the other, fit it.
pub proof fn lemma_others_fit(
    tbl: Seq<(Seq<char>, SpecFormat)>,
    pad: bool,
    budget: nat,
    child: SpecFormat,
    n: nat,
    bytes: Seq<u8>,
)
    requires
        data_others(tbl, pad, budget, child, n, bytes) is Ok,
    ensures
        others_hold_arrays(data_others(tbl, pad, budget, child, n, bytes)->Ok_0.0),
    decreases budget, 0nat, n,
{
    if n > 0 {
        let m = (n - 1) as nat;
        lemma_others_fit(tbl, pad, budget, child, m, bytes);
        let (vs, rest) = data_others(tbl, pad, budget, child, m, bytes)->Ok_0;
        lemma_format_fits(tbl, pad, (budget - 1) as nat, child, rest);
        let f = data_format(tbl, pad, (budget - 1) as nat, child, rest)->Ok_0.0;
        assert(vs.push(f).drop_last() =~= vs);
    } else {
        assert(data_others(tbl, pad, budget, child, n, bytes)->Ok_0.0 =~= Seq::<SpecInstFormat>::empty());
    }
}

/// Decoded field values fit their fields.
pub proof fn lemma_fields_fit(
    tbl: Seq<(Seq<char>, SpecFormat)>,
    pad: bool,
    budget: nat,
    fs: Seq<SpecField>,
    bytes: Seq<u8>,
)
    requires
        data_fields(tbl, pad, budget, fs, bytes) is Ok,
    ensures
        fields_hold_arrays(data_fields(tbl, pad, budget, fs, bytes)->Ok_0.0),
    decreases budget, 2nat, fs.len(),
{
    if fs.len() > 0 {
        let init = fs.drop_last();
        let f = fs.last();
        lemma_fields_fit(tbl, pad, budget, init, bytes);
        let (vs, ts, rest) = data_fields(tbl, pad, budget, init, bytes)->Ok_0;
        if is_padding_name(f.name) {
            match padding_step(pad, f, rest).0 {
                Some(pf) => {
                    assert(vs.push(pf).drop_last() =~= vs);
                    assert(field_holds_array(pf));
                    assert(fields_hold_arrays(vs.push(pf)));
                },
                None => {},
            }
        } else {
            lemma_value_fits(tbl, pad, budget, f.type_expr, rest);
            let v = data_value(tbl, pad, budget, f.type_expr, rest)->Ok_0.0;
            let x = SpecInstField { name: f.name, type_expr: f.type_expr, value: v };
            assert(vs.push(x).drop_last() =~= vs);
            assert(field_holds_array(x) == fits_type(f.type_expr, v));
            assert(fields_hold_arrays(vs.push(x)));
        }
    } else {
        assert(data_fields(tbl, pad, budget, fs, bytes)->Ok_0.0 =~= Seq::<SpecInstField>::empty());
    }
}

/// A decoded value of a format fits it, all the way down: `flatten` applies to every value
/// the parser decodes.
pub proof fn lemma_format_fits(
    tbl: Seq<(Seq<char>, SpecFormat)>,
    pad: bool,
    budget: nat,
    fmt: SpecFormat,
    bytes: Seq<u8>,
)
    requires
        data_format(tbl, pad, budget, fmt, bytes) is Ok,
    ensures
        arrays_hold_arrays(data_format(tbl, pad, budget, fmt, bytes)->Ok_0.0),
    decreases budget, 3nat, 0nat,
{
    lemma_fields_fit(tbl, pad, budget, fmt.fields, bytes);
}

} // verus!
