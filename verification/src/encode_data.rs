//! The binary encoding of data values: each field's value in order, little-endian, nested
//! formats and arrays laid out flat.
use vstd::prelude::*;

use crate::encode::Encode;
use crate::model::inst;
use crate::model::inst::{
    SpecFieldValue, SpecInstField, SpecInstFormat, cchar_bytes, field_view, fields_view,
    format_view, formats_view,
};
use crate::model::CChar;
use crate::primitive::{LeBytes, array_bytes, push_array};

verus! {

/// The bytes that encode a value.
pub open spec fn value_bytes(v: SpecFieldValue) -> Seq<u8>
    decreases v,
{
    match v {
        SpecFieldValue::ScalarU8(x) => <u8 as LeBytes>::le_bytes(x),
        SpecFieldValue::ScalarU16(x) => <u16 as LeBytes>::le_bytes(x),
        SpecFieldValue::ScalarU32(x) => <u32 as LeBytes>::le_bytes(x),
        SpecFieldValue::ScalarU64(x) => <u64 as LeBytes>::le_bytes(x),
        SpecFieldValue::ScalarI8(x) => <i8 as LeBytes>::le_bytes(x),
        SpecFieldValue::ScalarI16(x) => <i16 as LeBytes>::le_bytes(x),
        SpecFieldValue::ScalarI32(x) => <i32 as LeBytes>::le_bytes(x),
        SpecFieldValue::ScalarI64(x) => <i64 as LeBytes>::le_bytes(x),
        SpecFieldValue::ScalarF32(x) => <u32 as LeBytes>::le_bytes(x),
        SpecFieldValue::ScalarF64(x) => <u64 as LeBytes>::le_bytes(x),
        SpecFieldValue::ScalarBool(x) => <bool as LeBytes>::le_bytes(x),
        SpecFieldValue::ScalarChar(c) => seq![c],
        SpecFieldValue::ScalarOther(f) => format_bytes(f),
        SpecFieldValue::ArrayU8(a) => a,
        SpecFieldValue::ArrayU16(a) => array_bytes::<u16>(a),
        SpecFieldValue::ArrayU32(a) => array_bytes::<u32>(a),
        SpecFieldValue::ArrayU64(a) => array_bytes::<u64>(a),
        SpecFieldValue::ArrayI8(a) => array_bytes::<i8>(a),
        SpecFieldValue::ArrayI16(a) => array_bytes::<i16>(a),
        SpecFieldValue::ArrayI32(a) => array_bytes::<i32>(a),
        SpecFieldValue::ArrayI64(a) => array_bytes::<i64>(a),
        SpecFieldValue::ArrayF32(a) => array_bytes::<u32>(a),
        SpecFieldValue::ArrayF64(a) => array_bytes::<u64>(a),
        SpecFieldValue::ArrayBool(a) => array_bytes::<bool>(a),
        SpecFieldValue::ArrayChar(a) => a,
        SpecFieldValue::ArrayOther(fs) => formats_bytes(fs),
    }
}

/// The bytes that encode a value of a format: its fields' values in order.
pub open spec fn format_bytes(f: SpecInstFormat) -> Seq<u8>
    decreases f,
{
    fields_bytes(f.fields)
}

/// The bytes that encode field values, in order.
pub open spec fn fields_bytes(fs: Seq<SpecInstField>) -> Seq<u8>
    decreases fs,
{
    if fs.len() == 0 {
        Seq::empty()
    } else {
        fields_bytes(fs.drop_last()) + field_bytes(fs.last())
    }
}

/// The bytes that encode a field's value.
pub open spec fn field_bytes(f: SpecInstField) -> Seq<u8>
    decreases f,
{
    value_bytes(f.value)
}

/// The bytes that encode format values, in order.
pub open spec fn formats_bytes(fs: Seq<SpecInstFormat>) -> Seq<u8>
    decreases fs,
{
    if fs.len() == 0 {
        Seq::empty()
    } else {
        formats_bytes(fs.drop_last()) + format_bytes(fs.last())
    }
}

/// Appends the bytes of a character array to `out`.
fn push_chars(a: &Vec<CChar>, out: &mut Vec<u8>)
    ensures
        final(out)@ == old(out)@ + cchar_bytes(a@),
{
    let ghost start = out@;
    let mut i: usize = 0;
    while i < a.len()
        invariant
            i <= a@.len(),
            out@ == start + cchar_bytes(a@).take(i as int),
        decreases a@.len() - i,
    {
        out.push(a[i].0);
        assert(out@ =~= start + cchar_bytes(a@).take(i + 1));
        i += 1;
    }
    assert(cchar_bytes(a@).take(a@.len() as int) =~= cchar_bytes(a@));
}

/// Appends the encoding of a value to `out`.
fn encode_value(v: &inst::FieldValue, out: &mut Vec<u8>)
    ensures
        final(out)@ == old(out)@ + value_bytes(v@),
    decreases v,
{
    match v {
        inst::FieldValue::ScalarU8(x) => x.push_le(out),
        inst::FieldValue::ScalarU16(x) => x.push_le(out),
        inst::FieldValue::ScalarU32(x) => x.push_le(out),
        inst::FieldValue::ScalarU64(x) => x.push_le(out),
        inst::FieldValue::ScalarI8(x) => x.push_le(out),
        inst::FieldValue::ScalarI16(x) => x.push_le(out),
        inst::FieldValue::ScalarI32(x) => x.push_le(out),
        inst::FieldValue::ScalarI64(x) => x.push_le(out),
        inst::FieldValue::ScalarF32(x) => x.push_le(out),
        inst::FieldValue::ScalarF64(x) => x.push_le(out),
        inst::FieldValue::ScalarBool(x) => x.push_le(out),
        inst::FieldValue::ScalarChar(c) => c.push_le(out),
        inst::FieldValue::ScalarOther(f) => encode_format_value(f, out),
        inst::FieldValue::ArrayU8(a) => {
            out.extend_from_slice(a.as_slice());
            assert(final(out)@ =~= old(out)@ + a@);
        },
        inst::FieldValue::ArrayU16(a) => push_array(a, out),
        inst::FieldValue::ArrayU32(a) => push_array(a, out),
        inst::FieldValue::ArrayU64(a) => push_array(a, out),
        inst::FieldValue::ArrayI8(a) => push_array(a, out),
        inst::FieldValue::ArrayI16(a) => push_array(a, out),
        inst::FieldValue::ArrayI32(a) => push_array(a, out),
        inst::FieldValue::ArrayI64(a) => push_array(a, out),
        inst::FieldValue::ArrayF32(a) => push_array(a, out),
        inst::FieldValue::ArrayF64(a) => push_array(a, out),
        inst::FieldValue::ArrayBool(a) => push_array(a, out),
        inst::FieldValue::ArrayChar(a) => push_chars(a, out),
        inst::FieldValue::ArrayOther(fs) => {
            assert(decreases_to!(v => fs));
            assert(decreases_to!(fs => fs@));
            let ghost start = out@;
            let mut i: usize = 0;
            assert(fs@.take(0) =~= Seq::<inst::Format>::empty());
            while i < fs.len()
                invariant
                    i <= fs@.len(),
                    decreases_to!(v => fs@),
                    out@ == start + formats_bytes(formats_view(fs@.take(i as int))),
                decreases fs@.len() - i,
            {
                proof {
                    assert(decreases_to!(fs@ => fs@[i as int]));
                }
                encode_format_value(&fs[i], out);
                proof {
                    let x = formats_view(fs@.take(i as int));
                    assert(fs@.take(i + 1).drop_last() =~= fs@.take(i as int));
                    assert(formats_view(fs@.take(i + 1)) == x.push(format_view(fs@[i as int])));
                    assert(x.push(format_view(fs@[i as int])).drop_last() =~= x);
                    assert(formats_bytes(x.push(format_view(fs@[i as int]))) == formats_bytes(x)
                        + format_bytes(format_view(fs@[i as int])));
                    assert(out@ =~= start + formats_bytes(formats_view(fs@.take(i + 1))));
                }
                i += 1;
            }
            assert(fs@.take(fs@.len() as int) =~= fs@);
        },
    }
}

/// Appends the encoding of a value of a format to `out`.
fn encode_format_value(f: &inst::Format, out: &mut Vec<u8>)
    ensures
        final(out)@ == old(out)@ + format_bytes(f@),
    decreases f,
{
    let ghost start = out@;
    let mut i: usize = 0;
    assert(f.fields@.take(0) =~= Seq::<inst::Field>::empty());
    while i < f.fields.len()
        invariant
            i <= f.fields@.len(),
            out@ == start + fields_bytes(fields_view(f.fields@.take(i as int))),
        decreases f.fields@.len() - i,
    {
        proof {
            assert(decreases_to!(*f => f.fields));
            assert(decreases_to!(f.fields => f.fields@));
            assert(decreases_to!(f.fields@ => f.fields@[i as int]));
            assert(decreases_to!(f.fields@[i as int] => f.fields@[i as int].value));
        }
        encode_value(&f.fields[i].value, out);
        proof {
            let x = fields_view(f.fields@.take(i as int));
            assert(f.fields@.take(i + 1).drop_last() =~= f.fields@.take(i as int));
            assert(fields_view(f.fields@.take(i + 1)) == x.push(field_view(f.fields@[i as int])));
            assert(x.push(field_view(f.fields@[i as int])).drop_last() =~= x);
            assert(fields_bytes(x.push(field_view(f.fields@[i as int]))) == fields_bytes(x)
                + field_bytes(field_view(f.fields@[i as int])));
            assert(out@ =~= start + fields_bytes(fields_view(f.fields@.take(i + 1))));
        }
        i += 1;
    }
    assert(f.fields@.take(f.fields@.len() as int) =~= f.fields@);
}

impl Encode for inst::FieldValue {
    open spec fn encoding(&self) -> Seq<u8> {
        value_bytes(self@)
    }

    fn encode(&self, out: &mut Vec<u8>) {
        encode_value(self, out)
    }
}

impl Encode for inst::Field {
    open spec fn encoding(&self) -> Seq<u8> {
        value_bytes(self@.value)
    }

    fn encode(&self, out: &mut Vec<u8>) {
        encode_value(&self.value, out)
    }
}

impl Encode for inst::Format {
    open spec fn encoding(&self) -> Seq<u8> {
        format_bytes(self@)
    }

    fn encode(&self, out: &mut Vec<u8>) {
        encode_format_value(self, out)
    }
}

} // verus!
