//! Decoding of logged data: the values of a format's fields, nested formats and arrays of them,
//! read from the bytes of a data message.
use std::rc::Rc;
use vstd::prelude::*;

use crate::errors::{SpecError, ULogError};
use crate::field_helpers::{decode_array, parse_data_field, parse_primitive_array};
use crate::message_buf::{MessageBuf, le_u16, le_u32, le_u64};
use crate::model::def;
use crate::model::def::{SpecBaseType, SpecField, SpecFormat, SpecTypeExpr};
use crate::model::inst;
use crate::model::inst::{
    SpecFieldValue, SpecInstField, SpecInstFormat, cchar_bytes, field_view, fields_view,
    format_view, formats_view,
};
use crate::model::CChar;
use crate::model::msg::{LoggedData, SpecLoggedData, Subscription};
use crate::parser::{ULogParser, lookup_format, share};
use crate::tokenizer::chars_of;
use vstd::slice::slice_to_vec;

verus! {

/// The characters every padding field's name starts with.
pub open spec fn padding_prefix() -> Seq<char> {
    seq!['_', 'p', 'a', 'd', 'd', 'i', 'n', 'g']
}

/// The name of the field that holds a message's timestamp.
pub open spec fn timestamp_name() -> Seq<char> {
    seq!['t', 'i', 'm', 'e', 's', 't', 'a', 'm', 'p']
}

/// Whether a field is padding: its name starts with `_padding`.
pub open spec fn is_padding_name(name: Seq<char>) -> bool {
    name.len() >= 8 && name.take(8) == padding_prefix()
}

/// How many bytes a value of a primitive type takes.
pub open spec fn primitive_width(b: SpecBaseType) -> nat {
    match b {
        SpecBaseType::UINT8 | SpecBaseType::INT8 | SpecBaseType::BOOL | SpecBaseType::CHAR => 1,
        SpecBaseType::UINT16 | SpecBaseType::INT16 => 2,
        SpecBaseType::UINT32 | SpecBaseType::INT32 | SpecBaseType::FLOAT => 4,
        SpecBaseType::UINT64 | SpecBaseType::INT64 | SpecBaseType::DOUBLE => 8,
        SpecBaseType::OTHER(_) => 0,
    }
}

/// The value of a primitive type that the leading bytes of `bytes` encode, little-endian.
pub open spec fn decode_scalar(b: SpecBaseType, bytes: Seq<u8>) -> SpecFieldValue {
    match b {
        SpecBaseType::UINT8 => SpecFieldValue::ScalarU8(bytes[0]),
        SpecBaseType::UINT16 => SpecFieldValue::ScalarU16(le_u16(bytes)),
        SpecBaseType::UINT32 => SpecFieldValue::ScalarU32(le_u32(bytes)),
        SpecBaseType::UINT64 => SpecFieldValue::ScalarU64(le_u64(bytes)),
        SpecBaseType::INT8 => SpecFieldValue::ScalarI8(bytes[0] as i8),
        SpecBaseType::INT16 => SpecFieldValue::ScalarI16(le_u16(bytes) as i16),
        SpecBaseType::INT32 => SpecFieldValue::ScalarI32(le_u32(bytes) as i32),
        SpecBaseType::INT64 => SpecFieldValue::ScalarI64(le_u64(bytes) as i64),
        SpecBaseType::FLOAT => SpecFieldValue::ScalarF32(le_u32(bytes)),
        SpecBaseType::DOUBLE => SpecFieldValue::ScalarF64(le_u64(bytes)),
        SpecBaseType::BOOL => SpecFieldValue::ScalarBool(bytes[0] != 0),
        SpecBaseType::CHAR => SpecFieldValue::ScalarChar(bytes[0]),
        SpecBaseType::OTHER(_) => SpecFieldValue::ScalarU8(0),
    }
}

/// The array of `n` values of a primitive type at the front of `bytes`.
pub open spec fn decode_array_value(b: SpecBaseType, bytes: Seq<u8>, n: nat) -> SpecFieldValue {
    match b {
        SpecBaseType::UINT8 => SpecFieldValue::ArrayU8(decode_array::<u8>(bytes, n)),
        SpecBaseType::UINT16 => SpecFieldValue::ArrayU16(decode_array::<u16>(bytes, n)),
        SpecBaseType::UINT32 => SpecFieldValue::ArrayU32(decode_array::<u32>(bytes, n)),
        SpecBaseType::UINT64 => SpecFieldValue::ArrayU64(decode_array::<u64>(bytes, n)),
        SpecBaseType::INT8 => SpecFieldValue::ArrayI8(decode_array::<i8>(bytes, n)),
        SpecBaseType::INT16 => SpecFieldValue::ArrayI16(decode_array::<i16>(bytes, n)),
        SpecBaseType::INT32 => SpecFieldValue::ArrayI32(decode_array::<i32>(bytes, n)),
        SpecBaseType::INT64 => SpecFieldValue::ArrayI64(decode_array::<i64>(bytes, n)),
        SpecBaseType::FLOAT => SpecFieldValue::ArrayF32(decode_array::<u32>(bytes, n)),
        SpecBaseType::DOUBLE => SpecFieldValue::ArrayF64(decode_array::<u64>(bytes, n)),
        SpecBaseType::BOOL => SpecFieldValue::ArrayBool(decode_array::<bool>(bytes, n)),
        SpecBaseType::CHAR => SpecFieldValue::ArrayChar(
            cchar_bytes(decode_array::<CChar>(bytes, n)),
        ),
        SpecBaseType::OTHER(_) => SpecFieldValue::ArrayU8(Seq::empty()),
    }
}

/// What a padding field leaves in the data, and the bytes after it. A padding field with an
/// array size takes that many bytes when they are there, and appears in the data only when
/// padding is kept; otherwise it takes nothing.
pub open spec fn padding_step(pad: bool, f: SpecField, bytes: Seq<u8>) -> (
    Option<SpecInstField>,
    Seq<u8>,
) {
    match f.type_expr.array_size {
        None => (None, bytes),
        Some(n) => if n <= bytes.len() {
            if pad {
                (
                    Some(
                        SpecInstField {
                            name: f.name,
                            type_expr: f.type_expr,
                            value: SpecFieldValue::ArrayU8(bytes.take(n as int)),
                        },
                    ),
                    bytes.skip(n as int),
                )
            } else {
                (None, bytes.skip(n as int))
            }
        } else {
            (None, bytes)
        },
    }
}

/// The value of a field of type `te` at the front of `bytes`, and the bytes after it.
/// `tbl` holds the formats that nested types name; `budget` bounds how deep formats nest.
/// A nesting deeper than the number of formats known can only come from a format that
/// contains itself, whose decoding never ends well; it is reported as `ParseError`.
pub open spec fn data_value(
    tbl: Seq<(Seq<char>, SpecFormat)>,
    pad: bool,
    budget: nat,
    te: SpecTypeExpr,
    bytes: Seq<u8>,
) -> Result<(SpecFieldValue, Seq<u8>), SpecError>
    decreases budget, 1nat, 0nat,
{
    match te.array_size {
        None => match te.base_type {
            SpecBaseType::OTHER(name) => match lookup_format(tbl, name) {
                None => Err(SpecError::UndefinedFormat),
                Some(child) => if budget == 0 {
                    Err(SpecError::ParseError)
                } else {
                    match data_format(tbl, pad, (budget - 1) as nat, child, bytes) {
                        Err(e) => Err(e),
                        Ok((f, rest)) => Ok((SpecFieldValue::ScalarOther(f), rest)),
                    }
                },
            },
            b => if primitive_width(b) <= bytes.len() {
                Ok((decode_scalar(b, bytes), bytes.skip(primitive_width(b) as int)))
            } else {
                Err(SpecError::ParseError)
            },
        },
        Some(n) => match te.base_type {
            SpecBaseType::OTHER(name) => match lookup_format(tbl, name) {
                None => Err(SpecError::UndefinedFormat),
                Some(child) => match data_others(tbl, pad, budget, child, n as nat, bytes) {
                    Err(e) => Err(e),
                    Ok((fs, rest)) => Ok((SpecFieldValue::ArrayOther(fs), rest)),
                },
            },
            b => if n * primitive_width(b) <= bytes.len() {
                Ok((decode_array_value(b, bytes, n as nat), bytes.skip(n * primitive_width(b))))
            } else {
                Err(SpecError::ParseError)
            },
        },
    }
}

/// `n` consecutive values of the format `child` at the front of `bytes`.
pub open spec fn data_others(
    tbl: Seq<(Seq<char>, SpecFormat)>,
    pad: bool,
    budget: nat,
    child: SpecFormat,
    n: nat,
    bytes: Seq<u8>,
) -> Result<(Seq<SpecInstFormat>, Seq<u8>), SpecError>
    decreases budget, 0nat, n,
{
    if n == 0 {
        Ok((Seq::empty(), bytes))
    } else if budget == 0 {
        Err(SpecError::ParseError)
    } else {
        match data_others(tbl, pad, budget, child, (n - 1) as nat, bytes) {
            Err(e) => Err(e),
            Ok((vs, rest)) => match data_format(tbl, pad, (budget - 1) as nat, child, rest) {
                Err(e) => Err(e),
                Ok((f, rest2)) => Ok((vs.push(f), rest2)),
            },
        }
    }
}

/// The values of the fields `fs`, in order, at the front of `bytes`; the timestamp among
/// them (the last `timestamp` field holding a `uint64_t`); and the bytes after them.
pub open spec fn data_fields(
    tbl: Seq<(Seq<char>, SpecFormat)>,
    pad: bool,
    budget: nat,
    fs: Seq<SpecField>,
    bytes: Seq<u8>,
) -> Result<(Seq<SpecInstField>, Option<u64>, Seq<u8>), SpecError>
    decreases budget, 2nat, fs.len(),
{
    if fs.len() == 0 {
        Ok((Seq::empty(), None, bytes))
    } else {
        match data_fields(tbl, pad, budget, fs.drop_last(), bytes) {
            Err(e) => Err(e),
            Ok((vs, ts, rest)) => {
                let f = fs.last();
                if is_padding_name(f.name) {
                    let (o, rest2) = padding_step(pad, f, rest);
                    match o {
                        Some(pf) => Ok((vs.push(pf), ts, rest2)),
                        None => Ok((vs, ts, rest2)),
                    }
                } else {
                    match data_value(tbl, pad, budget, f.type_expr, rest) {
                        Err(e) => Err(e),
                        Ok((v, rest2)) => Ok(
                            (
                                vs.push(SpecInstField { name: f.name, type_expr: f.type_expr, value: v }),
                                if f.name == timestamp_name() && v is ScalarU64 {
                                    Some(v->ScalarU64_0)
                                } else {
                                    ts
                                },
                                rest2,
                            ),
                        ),
                    }
                }
            },
        }
    }
}

/// A value of the format `fmt` at the front of `bytes`, and the bytes after it.
pub open spec fn data_format(
    tbl: Seq<(Seq<char>, SpecFormat)>,
    pad: bool,
    budget: nat,
    fmt: SpecFormat,
    bytes: Seq<u8>,
) -> Result<(SpecInstFormat, Seq<u8>), SpecError>
    decreases budget, 3nat, 0nat,
{
    match data_fields(tbl, pad, budget, fmt.fields, bytes) {
        Err(e) => Err(e),
        Ok((fields, ts, rest)) => Ok(
            (
                SpecInstFormat {
                    timestamp: ts,
                    name: fmt.name,
                    fields,
                    multi_id_index: None,
                    def_format: fmt,
                },
                rest,
            ),
        ),
    }
}

/// Once the first `i` values fail, the first `j` do too, with the same error.
proof fn lemma_others_err(
    tbl: Seq<(Seq<char>, SpecFormat)>,
    pad: bool,
    budget: nat,
    child: SpecFormat,
    i: nat,
    j: nat,
    bytes: Seq<u8>,
)
    requires
        i <= j,
        data_others(tbl, pad, budget, child, i, bytes) is Err,
    ensures
        data_others(tbl, pad, budget, child, j, bytes) == data_others(
            tbl,
            pad,
            budget,
            child,
            i,
            bytes,
        ),
    decreases j,
{
    if i < j {
        lemma_others_err(tbl, pad, budget, child, i, (j - 1) as nat, bytes);
    }
}

/// Once the first `i` fields fail, the first `j` do too, with the same error.
proof fn lemma_fields_err(
    tbl: Seq<(Seq<char>, SpecFormat)>,
    pad: bool,
    budget: nat,
    fs: Seq<SpecField>,
    i: int,
    j: int,
    bytes: Seq<u8>,
)
    requires
        0 <= i <= j <= fs.len(),
        data_fields(tbl, pad, budget, fs.take(i), bytes) is Err,
    ensures
        data_fields(tbl, pad, budget, fs.take(j), bytes) == data_fields(
            tbl,
            pad,
            budget,
            fs.take(i),
            bytes,
        ),
    decreases j,
{
    if i < j {
        lemma_fields_err(tbl, pad, budget, fs, i, j - 1, bytes);
        assert(fs.take(j).drop_last() =~= fs.take(j - 1));
    }
}

/// The models of field values, one more at the end.
proof fn lemma_fields_view_push(fs: Seq<inst::Field>, f: inst::Field)
    ensures
        fields_view(fs.push(f)) == fields_view(fs).push(field_view(f)),
{
    assert(fs.push(f).drop_last() =~= fs);
}

/// The models of format values, one more at the end.
proof fn lemma_formats_view_push(fs: Seq<inst::Format>, f: inst::Format)
    ensures
        formats_view(fs.push(f)) == formats_view(fs).push(format_view(f)),
{
    assert(fs.push(f).drop_last() =~= fs);
}

/// Whether a field's name marks it as padding.
pub fn is_padding(name: &str) -> (r: bool)
    ensures
        r == is_padding_name(name@),
{
    let cs = chars_of(name);
    if cs.len() < 8 {
        return false;
    }
    let r = cs[0] == '_' && cs[1] == 'p' && cs[2] == 'a' && cs[3] == 'd' && cs[4] == 'd' && cs[5]
        == 'i' && cs[6] == 'n' && cs[7] == 'g';
    assert(r ==> name@.take(8) =~= padding_prefix());
    assert(name@.take(8) == padding_prefix() ==> r) by {
        if name@.take(8) == padding_prefix() {
            assert(name@.take(8)[1] == 'p');
        }
    }
    r
}

/// Whether a field's name is `timestamp`.
pub fn is_timestamp(name: &str) -> (r: bool)
    ensures
        r == (name@ == timestamp_name()),
{
    let cs = chars_of(name);
    if cs.len() != 9 {
        return false;
    }
    let r = cs[0] == 't' && cs[1] == 'i' && cs[2] == 'm' && cs[3] == 'e' && cs[4] == 's' && cs[5]
        == 't' && cs[6] == 'a' && cs[7] == 'm' && cs[8] == 'p';
    assert(r ==> name@ =~= timestamp_name());
    r
}

/// The decoding of a field that is not padding: `Ok` with the value's model and the bytes after
/// it, or the kind of error.
pub open spec fn value_matches(
    r: Result<inst::FieldValue, ULogError>,
    expected: Result<(SpecFieldValue, Seq<u8>), SpecError>,
    rest: Seq<u8>,
) -> bool {
    match expected {
        Ok((v, after)) => r matches Ok(x) && x@ == v && rest == after,
        Err(k) => r matches Err(e) && e.kind() == k,
    }
}

impl<R> ULogParser<R> {
    /// Decodes a padding field: with an array size that the bytes left cover, the padding bytes
    /// are taken, and kept as a field when padding is included; otherwise nothing is taken.
    pub(crate) fn parse_padding(&self, field: &def::Field, message_buf: &mut MessageBuf) -> (r:
        Result<Option<inst::Field>, ULogError>)
        ensures
            r matches Ok(o) && ({
                let (so, rest) = padding_step(
                    self.includes_padding(),
                    field@,
                    old(message_buf)@,
                );
                &&& final(message_buf)@ == rest
                &&& match o {
                    Some(x) => so == Some(x@),
                    None => so is None,
                }
            }),
    {
        let array_size = match field.type_.array_size {
            None => return Ok(None),
            Some(n) => n,
        };
        if array_size <= message_buf.len() {
            if self.padding_included() {
                let array = match message_buf.advance(array_size) {
                    Ok(bytes) => slice_to_vec(bytes),
                    Err(e) => return Err(e),
                };
                let f = inst::Field {
                    name: field.name.clone(),
                    type_: field.type_.duplicate(),
                    value: inst::FieldValue::ArrayU8(array),
                };
                assert(array@ =~= old(message_buf)@.take(array_size as int));
                return Ok(Some(f));
            } else {
                let _ = message_buf.skip(array_size);
            }
        }
        Ok(None)
    }

    /// Decodes the value of a scalar or array field at the front of the buffer. `budget`
    /// bounds how deep nested formats go.
    pub(crate) fn parse_field_value(
        &self,
        field: &def::Field,
        message_buf: &mut MessageBuf,
        budget: usize,
    ) -> (r: Result<inst::FieldValue, ULogError>)
        ensures
            value_matches(
                r,
                data_value(
                    self.format_table(),
                    self.includes_padding(),
                    budget as nat,
                    field@.type_expr,
                    old(message_buf)@,
                ),
                final(message_buf)@,
            ),
        decreases budget, 1nat,
    {
        match field.type_.array_size {
            None => {
                match &field.type_.base_type {
                    def::BaseType::UINT8 => Ok(
                        inst::FieldValue::ScalarU8(parse_data_field::<u8>(field, message_buf)?),
                    ),
                    def::BaseType::UINT16 => Ok(
                        inst::FieldValue::ScalarU16(parse_data_field::<u16>(field, message_buf)?),
                    ),
                    def::BaseType::UINT32 => Ok(
                        inst::FieldValue::ScalarU32(parse_data_field::<u32>(field, message_buf)?),
                    ),
                    def::BaseType::UINT64 => Ok(
                        inst::FieldValue::ScalarU64(parse_data_field::<u64>(field, message_buf)?),
                    ),
                    def::BaseType::INT8 => Ok(
                        inst::FieldValue::ScalarI8(parse_data_field::<i8>(field, message_buf)?),
                    ),
                    def::BaseType::INT16 => Ok(
                        inst::FieldValue::ScalarI16(parse_data_field::<i16>(field, message_buf)?),
                    ),
                    def::BaseType::INT32 => Ok(
                        inst::FieldValue::ScalarI32(parse_data_field::<i32>(field, message_buf)?),
                    ),
                    def::BaseType::INT64 => Ok(
                        inst::FieldValue::ScalarI64(parse_data_field::<i64>(field, message_buf)?),
                    ),
                    def::BaseType::FLOAT => Ok(
                        inst::FieldValue::ScalarF32(parse_data_field::<u32>(field, message_buf)?),
                    ),
                    def::BaseType::DOUBLE => Ok(
                        inst::FieldValue::ScalarF64(parse_data_field::<u64>(field, message_buf)?),
                    ),
                    def::BaseType::BOOL => Ok(
                        inst::FieldValue::ScalarBool(parse_data_field::<bool>(field, message_buf)?),
                    ),
                    def::BaseType::CHAR => Ok(
                        inst::FieldValue::ScalarChar(parse_data_field::<CChar>(field, message_buf)?),
                    ),
                    def::BaseType::OTHER(tname) => {
                        let child_format = self.get_format(tname.as_str())?;
                        if budget == 0 {
                            return Err(ULogError::ParseError("formats nest deeper than the formats known".to_owned()));
                        }
                        let value = self.parse_data_message_sub(
                            child_format,
                            message_buf,
                            budget - 1,
                        )?;
                        Ok(inst::FieldValue::ScalarOther(Rc::new(value)))
                    },
                }
            },
            Some(array_size) => self.parse_array_field(field, array_size, message_buf, budget),
        }
    }
}

impl<R> ULogParser<R> {
    /// Decodes an array field of `array_size` elements at the front of the buffer.
    pub(crate) fn parse_array_field(
        &self,
        field: &def::Field,
        array_size: usize,
        message_buf: &mut MessageBuf,
        budget: usize,
    ) -> (r: Result<inst::FieldValue, ULogError>)
        requires
            field@.type_expr.array_size == Some(array_size),
        ensures
            value_matches(
                r,
                data_value(
                    self.format_table(),
                    self.includes_padding(),
                    budget as nat,
                    field@.type_expr,
                    old(message_buf)@,
                ),
                final(message_buf)@,
            ),
        decreases budget, 0nat,
    {
        match &field.type_.base_type {
            def::BaseType::UINT8 => Ok(
                inst::FieldValue::ArrayU8(parse_primitive_array::<u8>(array_size, message_buf)?),
            ),
            def::BaseType::UINT16 => Ok(
                inst::FieldValue::ArrayU16(parse_primitive_array::<u16>(array_size, message_buf)?),
            ),
            def::BaseType::UINT32 => Ok(
                inst::FieldValue::ArrayU32(parse_primitive_array::<u32>(array_size, message_buf)?),
            ),
            def::BaseType::UINT64 => Ok(
                inst::FieldValue::ArrayU64(parse_primitive_array::<u64>(array_size, message_buf)?),
            ),
            def::BaseType::INT8 => Ok(
                inst::FieldValue::ArrayI8(parse_primitive_array::<i8>(array_size, message_buf)?),
            ),
            def::BaseType::INT16 => Ok(
                inst::FieldValue::ArrayI16(parse_primitive_array::<i16>(array_size, message_buf)?),
            ),
            def::BaseType::INT32 => Ok(
                inst::FieldValue::ArrayI32(parse_primitive_array::<i32>(array_size, message_buf)?),
            ),
            def::BaseType::INT64 => Ok(
                inst::FieldValue::ArrayI64(parse_primitive_array::<i64>(array_size, message_buf)?),
            ),
            def::BaseType::FLOAT => Ok(
                inst::FieldValue::ArrayF32(parse_primitive_array::<u32>(array_size, message_buf)?),
            ),
            def::BaseType::DOUBLE => Ok(
                inst::FieldValue::ArrayF64(parse_primitive_array::<u64>(array_size, message_buf)?),
            ),
            def::BaseType::BOOL => Ok(
                inst::FieldValue::ArrayBool(parse_primitive_array::<bool>(array_size, message_buf)?),
            ),
            def::BaseType::CHAR => Ok(
                inst::FieldValue::ArrayChar(parse_primitive_array::<CChar>(array_size, message_buf)?),
            ),
            def::BaseType::OTHER(tname) => {
                let child = self.get_format(tname.as_str())?;
                let ghost tbl = self.format_table();
                let ghost pad = self.includes_padding();
                let ghost start = message_buf@;
                let mut arr: Vec<inst::Format> = Vec::new();
                let mut i: usize = 0;
                while i < array_size
                    invariant
                        i <= array_size,
                        tbl == self.format_table(),
                        pad == self.includes_padding(),
                        start == old(message_buf)@,
                        field@.type_expr.array_size == Some(array_size),
                        field@.type_expr.base_type == SpecBaseType::OTHER(tname@),
                        lookup_format(tbl, tname@) == Some((*child)@),
                        data_others(tbl, pad, budget as nat, (*child)@, i as nat, start) == Ok::<
                            (Seq<SpecInstFormat>, Seq<u8>),
                            SpecError,
                        >((formats_view(arr@), message_buf@)),
                    decreases array_size - i,
                {
                    if budget == 0 {
                        proof {
                            lemma_others_err(
                                tbl,
                                pad,
                                budget as nat,
                                (*child)@,
                                (i + 1) as nat,
                                array_size as nat,
                                start,
                            );
                        }
                        return Err(ULogError::ParseError("formats nest deeper than the formats known".to_owned()));
                    }
                    let f = match self.parse_data_message_sub(share(&child), message_buf, budget - 1) {
                        Ok(f) => f,
                        Err(e) => {
                            proof {
                                lemma_others_err(
                                    tbl,
                                    pad,
                                    budget as nat,
                                    (*child)@,
                                    (i + 1) as nat,
                                    array_size as nat,
                                    start,
                                );
                            }
                            return Err(e);
                        },
                    };
                    proof {
                        lemma_formats_view_push(arr@, f);
                    }
                    arr.push(f);
                    i += 1;
                }
                Ok(inst::FieldValue::ArrayOther(arr))
            },
        }
    }

    /// Decodes a value of `format` at the front of the buffer: each field in turn, padding
    /// as `parse_padding` does, and the timestamp from the last `timestamp` field.
    pub(crate) fn parse_data_message_sub(
        &self,
        format: Rc<def::Format>,
        message_buf: &mut MessageBuf,
        budget: usize,
    ) -> (r: Result<inst::Format, ULogError>)
        ensures
            match data_format(
                self.format_table(),
                self.includes_padding(),
                budget as nat,
                (*format)@,
                old(message_buf)@,
            ) {
                Ok((f, rest)) => r matches Ok(x) && x@ == f && final(message_buf)@ == rest,
                Err(k) => r matches Err(e) && e.kind() == k,
            },
        decreases budget, 2nat,
    {
        let ghost tbl = self.format_table();
        let ghost pad = self.includes_padding();
        let ghost start = message_buf@;
        let ghost fs = (*format)@.fields;
        let n = format.fields.len();
        let mut fields: Vec<inst::Field> = Vec::new();
        let mut timestamp: Option<u64> = None;
        let mut i: usize = 0;
        assert(fs.take(0) =~= Seq::<SpecField>::empty());
        while i < n
            invariant
                i <= n,
                n == format.fields@.len(),
                fs == (*format)@.fields,
                fs.len() == n,
                tbl == self.format_table(),
                pad == self.includes_padding(),
                start == old(message_buf)@,
                data_fields(tbl, pad, budget as nat, fs.take(i as int), start) == Ok::<
                    (Seq<SpecInstField>, Option<u64>, Seq<u8>),
                    SpecError,
                >((fields_view(fields@), timestamp, message_buf@)),
            decreases n - i,
        {
            let field = &format.fields[i];
            proof {
                assert(fs.take(i + 1).drop_last() =~= fs.take(i as int));
                assert(fs.take(i + 1).last() == field@);
            }
            if is_padding(field.name.as_str()) {
                match self.parse_padding(field, message_buf) {
                    Ok(Some(pf)) => {
                        proof {
                            lemma_fields_view_push(fields@, pf);
                        }
                        fields.push(pf);
                    },
                    Ok(None) => {},
                    Err(e) => return Err(e),
                }
            } else {
                let value = match self.parse_field_value(field, message_buf, budget) {
                    Ok(v) => v,
                    Err(e) => {
                        proof {
                            lemma_fields_err(tbl, pad, budget as nat, fs, i + 1, n as int, start);
                            assert(fs.take(n as int) =~= fs);
                        }
                        return Err(e);
                    },
                };
                if is_timestamp(field.name.as_str()) {
                    match &value {
                        inst::FieldValue::ScalarU64(v) => {
                            timestamp = Some(*v);
                        },
                        _ => {},
                    }
                }
                let f = inst::Field {
                    name: field.name.clone(),
                    type_: field.type_.duplicate(),
                    value,
                };
                proof {
                    lemma_fields_view_push(fields@, f);
                }
                fields.push(f);
            }
            i += 1;
        }
        assert(fs.take(n as int) =~= fs);
        Ok(
            inst::Format {
                timestamp,
                name: format.name.clone(),
                fields,
                multi_id_index: None,
                def_format: format,
            },
        )
    }
}

/// Whether a format has a field named `timestamp`.
pub open spec fn has_timestamp_field(fmt: SpecFormat) -> bool {
    exists|i: int| 0 <= i < fmt.fields.len() && #[trigger] fmt.fields[i].name == timestamp_name()
}

/// The logged data of a data message of the subscription `sub`, whose format must have a
/// `timestamp` field that gives the data its timestamp. The data carries the subscription's
/// multi id when its format is logged under more than one instance. Bytes left over after the
/// value are ignored.
pub open spec fn spec_data_message(
    tbl: Seq<(Seq<char>, SpecFormat)>,
    pad: bool,
    multi: Seq<Seq<char>>,
    sub: (u8, u16, Seq<char>),
    bytes: Seq<u8>,
) -> Result<SpecLoggedData, SpecError> {
    match lookup_format(tbl, sub.2) {
        None => Err(SpecError::UndefinedFormat),
        Some(fmt) => if !has_timestamp_field(fmt) {
            Err(SpecError::MissingTimestamp)
        } else {
            match data_format(tbl, pad, tbl.len(), fmt, bytes) {
                Err(e) => Err(e),
                Ok((f, _)) => match f.timestamp {
                    None => Err(SpecError::MissingTimestamp),
                    Some(ts) => Ok(
                        SpecLoggedData {
                            timestamp: ts,
                            msg_id: sub.1,
                            data: SpecInstFormat {
                                multi_id_index: if multi.contains(sub.2) {
                                    Some(sub.0)
                                } else {
                                    None
                                },
                                ..f
                            },
                        },
                    ),
                },
            }
        },
    }
}

/// Whether a field stays in logged data: a `timestamp` field when timestamps are included, a
/// padding field when padding is, any other field always.
pub open spec fn keep_field(name: Seq<char>, include_timestamp: bool, include_padding: bool) -> bool {
    if name == timestamp_name() {
        include_timestamp
    } else if is_padding_name(name) {
        include_padding
    } else {
        true
    }
}

/// The model of field values is the model of each.
proof fn lemma_fields_view_map(fs: Seq<inst::Field>)
    ensures
        fields_view(fs) == fs.map_values(|f: inst::Field| field_view(f)),
    decreases fs.len(),
{
    if fs.len() > 0 {
        lemma_fields_view_map(fs.drop_last());
        assert(fs.map_values(|f: inst::Field| field_view(f)) =~= fs.drop_last().map_values(
            |f: inst::Field| field_view(f),
        ).push(field_view(fs.last())));
    } else {
        assert(fs.map_values(|f: inst::Field| field_view(f)) =~= Seq::<SpecInstField>::empty());
    }
}

impl LoggedData {
    /// Drops the `timestamp` fields unless `include_timestamp`, and the padding fields unless
    /// `include_padding`; the other fields stay, in order.
    pub fn filter_fields(&mut self, include_timestamp: bool, include_padding: bool)
        ensures
            final(self)@.data.fields == old(self)@.data.fields.filter(
                |f: SpecInstField| keep_field(f.name, include_timestamp, include_padding),
            ),
            final(self)@.timestamp == old(self)@.timestamp,
            final(self)@.msg_id == old(self)@.msg_id,
            final(self)@.data.timestamp == old(self)@.data.timestamp,
            final(self)@.data.name == old(self)@.data.name,
            final(self)@.data.multi_id_index == old(self)@.data.multi_id_index,
            final(self)@.data.def_format == old(self)@.data.def_format,
    {
        let ghost pred = |f: SpecInstField| keep_field(f.name, include_timestamp, include_padding);
        let ghost orig = self.data.fields@;
        let ghost origv = orig.map_values(|f: inst::Field| field_view(f));
        proof {
            lemma_fields_view_map(orig);
            reveal(Seq::filter);
        }
        let mut i: usize = 0;
        let ghost mut j: int = 0;
        assert(origv.take(0).filter(pred) =~= Seq::<SpecInstField>::empty());
        while i < self.data.fields.len()
            invariant
                0 <= i <= j <= orig.len(),
                self.data.fields@.len() == i + (orig.len() - j),
                self.data.fields@.take(i as int).map_values(|f: inst::Field| field_view(f))
                    == origv.take(j).filter(pred),
                self.data.fields@.skip(i as int) == orig.skip(j),
                origv == orig.map_values(|f: inst::Field| field_view(f)),
                pred == (|f: SpecInstField| keep_field(f.name, include_timestamp, include_padding)),
                orig == old(self).data.fields@,
                self.timestamp == old(self).timestamp,
                self.msg_id == old(self).msg_id,
                self.data.timestamp == old(self).data.timestamp,
                self.data.name == old(self).data.name,
                self.data.multi_id_index == old(self).data.multi_id_index,
                self.data.def_format == old(self).data.def_format,
            decreases self.data.fields@.len() - i,
        {
            let ghost before = self.data.fields@;
            proof {
                reveal(Seq::filter);
                assert(origv.take(j + 1).drop_last() =~= origv.take(j));
                assert(before[i as int] == before.skip(i as int)[0]);
                assert(orig[j] == orig.skip(j)[0]);
                assert(origv.take(j + 1).last() == field_view(orig[j]));
            }
            let name = self.data.fields[i].name.as_str();
            let keep = if is_timestamp(name) {
                include_timestamp
            } else if is_padding(name) {
                include_padding
            } else {
                true
            };
            if keep {
                proof {
                    assert(before.take(i + 1).map_values(|f: inst::Field| field_view(f))
                        =~= before.take(i as int).map_values(|f: inst::Field| field_view(f)).push(
                        field_view(before[i as int]),
                    ));
                    assert(before.skip(i + 1) =~= before.skip(i as int).skip(1));
                    assert(orig.skip(j + 1) =~= orig.skip(j).skip(1));
                }
                i += 1;
            } else {
                self.data.fields.remove(i);
                proof {
                    assert(self.data.fields@.take(i as int) =~= before.take(i as int));
                    assert(self.data.fields@.skip(i as int) =~= before.skip(i as int).skip(1));
                    assert(orig.skip(j + 1) =~= orig.skip(j).skip(1));
                }
            }
            proof {
                j = j + 1;
            }
        }
        proof {
            assert(j == orig.len());
            assert(origv.take(j) =~= origv);
            assert(self.data.fields@.take(i as int) =~= self.data.fields@);
            lemma_fields_view_map(self.data.fields@);
        }
    }
}

impl<R> ULogParser<R> {
    /// Decodes the body of a data message of the subscription `sub`, after its message id.
    pub(crate) fn parse_data_message(&self, sub: &Subscription, message_buf: MessageBuf) -> (r:
        Result<LoggedData, ULogError>)
        ensures
            match spec_data_message(
                self.format_table(),
                self.includes_padding(),
                self.multi_id_names(),
                sub@,
                message_buf@,
            ) {
                Ok(d) => r matches Ok(x) && x@ == d,
                Err(k) => r matches Err(e) && e.kind() == k,
            },
    {
        let mut message_buf = message_buf;
        let format = self.get_format(sub.message_name.as_str())?;
        let mut found = false;
        let mut i: usize = 0;
        while i < format.fields.len()
            invariant
                i <= format.fields@.len(),
                found <==> exists|k: int|
                    0 <= k < i && #[trigger] (*format)@.fields[k].name == timestamp_name(),
            decreases format.fields@.len() - i,
        {
            if is_timestamp(format.fields[i].name.as_str()) {
                assert((*format)@.fields[i as int].name == timestamp_name());
                found = true;
            }
            i += 1;
        }
        if !found {
            return Err(ULogError::MissingTimestamp);
        }
        let mut data_format = self.parse_data_message_sub(
            format,
            &mut message_buf,
            self.format_count(),
        )?;
        if self.is_multi_id_name(sub.message_name.as_str()) {
            data_format.multi_id_index = Some(sub.multi_id);
        }
        let timestamp = match data_format.timestamp {
            Some(t) => t,
            None => return Err(ULogError::MissingTimestamp),
        };
        Ok(LoggedData { timestamp, msg_id: sub.msg_id, data: data_format })
    }
}

} // verus!
