//! Binary fidelity: what the parser reads, the encoder writes back byte for byte.
use vstd::bytes::*;
use vstd::prelude::*;
use vstd::utf8::*;

use crate::data::{
    data_fields, data_format, data_others, data_value, decode_array_value, decode_scalar,
    is_padding_name, keep_field, padding_step, primitive_width,
};
use crate::encode::format_text;
use crate::encode_data::{field_bytes, fields_bytes, format_bytes, formats_bytes, value_bytes};
use crate::encode_msg::{
    content_bytes, flag_bits_bytes, framed_key_bytes, header_bytes, info_bytes, key_bytes,
    logged_data_bytes, logged_string_bytes, message_bytes, message_type_byte, param_value_bytes,
    parameter_bytes, subscription_bytes,
};
use crate::field_helpers::decode_array;
use crate::format_laws::{format_parse_encode_parse, format_well_formed};
use crate::message_buf::le_u16;
use crate::messages::{
    ULogMessageType, byte_of_type, level_of_byte, spec_file_header, spec_flag_bits, spec_info,
    spec_key, spec_logged_string, spec_parameter, spec_parameter_value, spec_subscription,
    type_of_byte,
};
use crate::model::def::{SpecBaseType, SpecField, SpecFormat, SpecTypeExpr};
use crate::model::inst::{SpecInstField, cchar_bytes};
use crate::model::msg::{SpecMessage, level_byte};
use crate::model::CChar;
use crate::parser::{Pending, State, lookup_format};
use crate::primitive::{LeBytes, array_bytes};
use crate::steps::{
    ParserModel, absorb_subscription, allowed, filter_logged, filter_message, initial_model,
    spec_parse_data, spec_parse_definition, supply_step,
};

verus! {

/// Whether the bytes of a value of type `te` at the front of `bytes` are the ones its
/// encoding gives back: every `bool` among them is 0 or 1.
pub open spec fn exact_value(
    tbl: Seq<(Seq<char>, SpecFormat)>,
    budget: nat,
    te: SpecTypeExpr,
    bytes: Seq<u8>,
) -> bool
    decreases budget, 1nat, 0nat,
{
    match te.array_size {
        None => match te.base_type {
            SpecBaseType::OTHER(name) => match lookup_format(tbl, name) {
                Some(child) => budget > 0 ==> exact_format(tbl, (budget - 1) as nat, child, bytes),
                None => true,
            },
            SpecBaseType::BOOL => bytes.len() >= 1 ==> bytes[0] <= 1,
            _ => true,
        },
        Some(n) => match te.base_type {
            SpecBaseType::OTHER(name) => match lookup_format(tbl, name) {
                Some(child) => exact_others(tbl, budget, child, n as nat, bytes),
                None => true,
            },
            SpecBaseType::BOOL => forall|k: int| 0 <= k < n && k < bytes.len() ==> bytes[k] <= 1,
            _ => true,
        },
    }
}

/// Whether the bytes of `n` values of the format `child` are exact.
pub open spec fn exact_others(
    tbl: Seq<(Seq<char>, SpecFormat)>,
    budget: nat,
    child: SpecFormat,
    n: nat,
    bytes: Seq<u8>,
) -> bool
    decreases budget, 0nat, n,
{
    if n == 0 || budget == 0 {
        true
    } else {
        &&& exact_others(tbl, budget, child, (n - 1) as nat, bytes)
        &&& match data_others(tbl, true, budget, child, (n - 1) as nat, bytes) {
            Ok((_, rest)) => exact_format(tbl, (budget - 1) as nat, child, rest),
            Err(_) => true,
        }
    }
}

/// Whether the bytes of the values of the fields `fs` are exact.
pub open spec fn exact_fields(
    tbl: Seq<(Seq<char>, SpecFormat)>,
    budget: nat,
    fs: Seq<SpecField>,
    bytes: Seq<u8>,
) -> bool
    decreases budget, 2nat, fs.len(),
{
    if fs.len() == 0 {
        true
    } else {
        &&& exact_fields(tbl, budget, fs.drop_last(), bytes)
        &&& match data_fields(tbl, true, budget, fs.drop_last(), bytes) {
            Ok((_, _, rest)) => is_padding_name(fs.last().name) || exact_value(
                tbl,
                budget,
                fs.last().type_expr,
                rest,
            ),
            Err(_) => true,
        }
    }
}

/// Whether the bytes of a value of the format `fmt` are exact.
pub open spec fn exact_format(
    tbl: Seq<(Seq<char>, SpecFormat)>,
    budget: nat,
    fmt: SpecFormat,
    bytes: Seq<u8>,
) -> bool
    decreases budget, 3nat, 0nat,
{
    exact_fields(tbl, budget, fmt.fields, bytes)
}

/// The encoding of an array read from exact bytes is those bytes.
proof fn lemma_array_fidelity<T: LeBytes>(bytes: Seq<u8>, n: nat)
    requires
        n * T::width() <= bytes.len(),
        forall|k: int| 0 <= k < n ==> T::exact(#[trigger] bytes.skip(k * T::width())),
    ensures
        array_bytes::<T>(decode_array::<T>(bytes, n)) == bytes.take((n * T::width()) as int),
    decreases n,
{
    let w = T::width();
    if n == 0 {
        assert(n * w == 0) by (nonlinear_arith)
            requires
                n == 0,
        ;
        assert(decode_array::<T>(bytes, n) =~= Seq::<T>::empty());
        assert(bytes.take(0) =~= Seq::<u8>::empty());
    } else {
        let m = (n - 1) as nat;
        assert(m * w <= n * w) by (nonlinear_arith)
            requires
                m < n,
        ;
        assert(n * w == m * w + w) by (nonlinear_arith)
            requires
                m == n - 1,
        ;
        lemma_array_fidelity::<T>(bytes, m);
        let a = decode_array::<T>(bytes, n);
        assert(a.drop_last() =~= decode_array::<T>(bytes, m));
        let tail = bytes.skip((m * w) as int);
        assert(T::exact(bytes.skip((m * w) as int)));
        T::lemma_le_decode(tail);
        assert(a.last() == T::decode(tail));
        assert(array_bytes::<T>(a) == array_bytes::<T>(a.drop_last()) + T::le_bytes(a.last()));
        assert(array_bytes::<T>(a.drop_last()) == bytes.take((m * w) as int));
        assert(T::le_bytes(a.last()) == tail.take(w as int));
        assert(bytes.take((n * w) as int) =~= bytes.take((m * w) as int) + tail.take(w as int));
    }
}

/// The bytes of a primitive value of type `b` at the front of exact bytes are its encoding.
proof fn lemma_scalar_fidelity(b: SpecBaseType, bytes: Seq<u8>)
    requires
        !(b is OTHER),
        primitive_width(b) <= bytes.len(),
        b is BOOL ==> bytes[0] <= 1,
    ensures
        value_bytes(decode_scalar(b, bytes)) == bytes.take(primitive_width(b) as int),
{
    match b {
        SpecBaseType::UINT8 => <u8 as LeBytes>::lemma_le_decode(bytes),
        SpecBaseType::UINT16 => <u16 as LeBytes>::lemma_le_decode(bytes),
        SpecBaseType::UINT32 => <u32 as LeBytes>::lemma_le_decode(bytes),
        SpecBaseType::UINT64 => <u64 as LeBytes>::lemma_le_decode(bytes),
        SpecBaseType::INT8 => <i8 as LeBytes>::lemma_le_decode(bytes),
        SpecBaseType::INT16 => <i16 as LeBytes>::lemma_le_decode(bytes),
        SpecBaseType::INT32 => <i32 as LeBytes>::lemma_le_decode(bytes),
        SpecBaseType::INT64 => <i64 as LeBytes>::lemma_le_decode(bytes),
        SpecBaseType::FLOAT => <u32 as LeBytes>::lemma_le_decode(bytes),
        SpecBaseType::DOUBLE => <u64 as LeBytes>::lemma_le_decode(bytes),
        SpecBaseType::BOOL => <bool as LeBytes>::lemma_le_decode(bytes),
        SpecBaseType::CHAR => {
            assert(seq![bytes[0]] =~= bytes.take(1));
        },
        SpecBaseType::OTHER(_) => {},
    }
}

/// The bytes of a primitive array of type `b` at the front of exact bytes are its encoding.
proof fn lemma_primitive_array_fidelity(b: SpecBaseType, bytes: Seq<u8>, n: nat)
    requires
        !(b is OTHER),
        n * primitive_width(b) <= bytes.len(),
        b is BOOL ==> forall|k: int| 0 <= k < n && k < bytes.len() ==> bytes[k] <= 1,
    ensures
        value_bytes(decode_array_value(b, bytes, n)) == bytes.take((n * primitive_width(b)) as int),
{
    match b {
        SpecBaseType::UINT8 => {
            assert(decode_array::<u8>(bytes, n) =~= bytes.take(n as int));
        },
        SpecBaseType::UINT16 => lemma_array_fidelity::<u16>(bytes, n),
        SpecBaseType::UINT32 => lemma_array_fidelity::<u32>(bytes, n),
        SpecBaseType::UINT64 => lemma_array_fidelity::<u64>(bytes, n),
        SpecBaseType::INT8 => lemma_array_fidelity::<i8>(bytes, n),
        SpecBaseType::INT16 => lemma_array_fidelity::<i16>(bytes, n),
        SpecBaseType::INT32 => lemma_array_fidelity::<i32>(bytes, n),
        SpecBaseType::INT64 => lemma_array_fidelity::<i64>(bytes, n),
        SpecBaseType::FLOAT => lemma_array_fidelity::<u32>(bytes, n),
        SpecBaseType::DOUBLE => lemma_array_fidelity::<u64>(bytes, n),
        SpecBaseType::BOOL => {
            assert forall|k: int| 0 <= k < n implies <bool as LeBytes>::exact(
                #[trigger] bytes.skip(k * 1),
            ) by {
                assert(bytes.skip(k * 1)[0] == bytes[k]);
            }
            lemma_array_fidelity::<bool>(bytes, n);
        },
        SpecBaseType::CHAR => {
            assert(cchar_bytes(decode_array::<CChar>(bytes, n)) =~= bytes.take(n as int));
        },
        SpecBaseType::OTHER(_) => {},
    }
}

/// Fidelity of a value: a value read from exact bytes is encoded as the bytes it was read from.
pub proof fn lemma_value_fidelity(
    tbl: Seq<(Seq<char>, SpecFormat)>,
    budget: nat,
    te: SpecTypeExpr,
    bytes: Seq<u8>,
)
    requires
        data_value(tbl, true, budget, te, bytes) is Ok,
        exact_value(tbl, budget, te, bytes),
    ensures
        value_bytes(data_value(tbl, true, budget, te, bytes)->Ok_0.0) + data_value(
            tbl,
            true,
            budget,
            te,
            bytes,
        )->Ok_0.1 == bytes,
    decreases budget, 1nat, 0nat,
{
    match te.array_size {
        None => match te.base_type {
            SpecBaseType::OTHER(name) => {
                let child = lookup_format(tbl, name)->Some_0;
                lemma_format_fidelity(tbl, (budget - 1) as nat, child, bytes);
            },
            b => {
                lemma_scalar_fidelity(b, bytes);
                assert(bytes.take(primitive_width(b) as int) + bytes.skip(primitive_width(b) as int)
                    =~= bytes);
            },
        },
        Some(n) => match te.base_type {
            SpecBaseType::OTHER(name) => {
                let child = lookup_format(tbl, name)->Some_0;
                lemma_others_fidelity(tbl, budget, child, n as nat, bytes);
            },
            b => {
                lemma_primitive_array_fidelity(b, bytes, n as nat);
                assert(bytes.take(n * primitive_width(b)) + bytes.skip(n * primitive_width(b))
                    =~= bytes);
            },
        },
    }
}

/// Fidelity of `n` values of a format read one after the other.
pub proof fn lemma_others_fidelity(
    tbl: Seq<(Seq<char>, SpecFormat)>,
    budget: nat,
    child: SpecFormat,
    n: nat,
    bytes: Seq<u8>,
)
    requires
        data_others(tbl, true, budget, child, n, bytes) is Ok,
        exact_others(tbl, budget, child, n, bytes),
    ensures
        formats_bytes(data_others(tbl, true, budget, child, n, bytes)->Ok_0.0) + data_others(
            tbl,
            true,
            budget,
            child,
            n,
            bytes,
        )->Ok_0.1 == bytes,
    decreases budget, 0nat, n,
{
    if n == 0 {
        assert(Seq::<u8>::empty() + bytes =~= bytes);
    } else {
        let m = (n - 1) as nat;
        lemma_others_fidelity(tbl, budget, child, m, bytes);
        let (vs, rest) = data_others(tbl, true, budget, child, m, bytes)->Ok_0;
        lemma_format_fidelity(tbl, (budget - 1) as nat, child, rest);
        let (f, rest2) = data_format(tbl, true, (budget - 1) as nat, child, rest)->Ok_0;
        assert(vs.push(f).drop_last() =~= vs);
        assert(formats_bytes(vs.push(f)) + rest2 =~= formats_bytes(vs) + (format_bytes(f)
            + rest2));
    }
}

/// Fidelity of the values of fields read one after the other, padding kept.
pub proof fn lemma_fields_fidelity(
    tbl: Seq<(Seq<char>, SpecFormat)>,
    budget: nat,
    fs: Seq<SpecField>,
    bytes: Seq<u8>,
)
    requires
        data_fields(tbl, true, budget, fs, bytes) is Ok,
        exact_fields(tbl, budget, fs, bytes),
    ensures
        fields_bytes(data_fields(tbl, true, budget, fs, bytes)->Ok_0.0) + data_fields(
            tbl,
            true,
            budget,
            fs,
            bytes,
        )->Ok_0.2 == bytes,
    decreases budget, 2nat, fs.len(),
{
    if fs.len() == 0 {
        assert(Seq::<u8>::empty() + bytes =~= bytes);
    } else {
        let init = fs.drop_last();
        let f = fs.last();
        lemma_fields_fidelity(tbl, budget, init, bytes);
        let (vs, ts, rest) = data_fields(tbl, true, budget, init, bytes)->Ok_0;
        if is_padding_name(f.name) {
            let (o, rest2) = padding_step(true, f, rest);
            match o {
                Some(pf) => {
                    let n = f.type_expr.array_size->Some_0;
                    assert(vs.push(pf).drop_last() =~= vs);
                    assert(fields_bytes(vs.push(pf)) == fields_bytes(vs) + field_bytes(pf));
                    assert(field_bytes(pf) == rest.take(n as int));
                    assert(rest.take(n as int) + rest.skip(n as int) =~= rest);
                    assert(fields_bytes(vs.push(pf)) + rest2 =~= fields_bytes(vs) + (
                    rest.take(n as int) + rest.skip(n as int)));
                },
                None => {},
            }
        } else {
            lemma_value_fidelity(tbl, budget, f.type_expr, rest);
            let (v, rest2) = data_value(tbl, true, budget, f.type_expr, rest)->Ok_0;
            let x = SpecInstField { name: f.name, type_expr: f.type_expr, value: v };
            assert(vs.push(x).drop_last() =~= vs);
            assert(fields_bytes(vs.push(x)) == fields_bytes(vs) + field_bytes(x));
            assert(field_bytes(x) == value_bytes(v));
            assert(fields_bytes(vs.push(x)) + rest2 =~= fields_bytes(vs) + (value_bytes(v)
                + rest2));
        }
    }
}

/// Fidelity of a value of a format: read from exact bytes with padding kept, its encoding is
/// the bytes it was read from.
pub proof fn lemma_format_fidelity(
    tbl: Seq<(Seq<char>, SpecFormat)>,
    budget: nat,
    fmt: SpecFormat,
    bytes: Seq<u8>,
)
    requires
        data_format(tbl, true, budget, fmt, bytes) is Ok,
        exact_format(tbl, budget, fmt, bytes),
    ensures
        format_bytes(data_format(tbl, true, budget, fmt, bytes)->Ok_0.0) + data_format(
            tbl,
            true,
            budget,
            fmt,
            bytes,
        )->Ok_0.1 == bytes,
    decreases budget, 3nat, 0nat,
{
    lemma_fields_fidelity(tbl, budget, fmt.fields, bytes);
}

/// Whether the key at the front of `bytes` is written the way the encoder writes the field it
/// defines: the type, one space, the name, and nothing else.
pub open spec fn key_canonical(bytes: Seq<u8>) -> bool {
    match spec_key(bytes) {
        Ok((f, _)) => bytes.skip(1).take(bytes[0] as int) == key_bytes(f.type_expr, f.name),
        Err(_) => true,
    }
}

/// A canonical key is written back as it was read, with its length byte.
proof fn lemma_key_fidelity(bytes: Seq<u8>)
    requires
        spec_key(bytes) is Ok,
        key_canonical(bytes),
    ensures
        framed_key_bytes(spec_key(bytes)->Ok_0.0.type_expr, spec_key(bytes)->Ok_0.0.name)
            + spec_key(bytes)->Ok_0.1 == bytes,
{
    let (f, rest) = spec_key(bytes)->Ok_0;
    let k = bytes[0] as int;
    let kb = key_bytes(f.type_expr, f.name);
    assert(kb.len() == k);
    assert((kb.len() as u8) == bytes[0]);
    assert(seq![bytes[0]] + bytes.skip(1).take(k) + bytes.skip(1).skip(k) =~= bytes);
}

/// A value that is read to the end of the bytes, from exact bytes, is written back as those
/// bytes.
proof fn lemma_whole_value_fidelity(
    tbl: Seq<(Seq<char>, SpecFormat)>,
    te: SpecTypeExpr,
    bytes: Seq<u8>,
)
    requires
        data_value(tbl, true, tbl.len(), te, bytes) is Ok,
        data_value(tbl, true, tbl.len(), te, bytes)->Ok_0.1.len() == 0,
        exact_value(tbl, tbl.len(), te, bytes),
    ensures
        value_bytes(data_value(tbl, true, tbl.len(), te, bytes)->Ok_0.0) == bytes,
{
    lemma_value_fidelity(tbl, tbl.len(), te, bytes);
    let (v, rest) = data_value(tbl, true, tbl.len(), te, bytes)->Ok_0;
    assert(value_bytes(v) + rest =~= value_bytes(v));
}

/// A text message is written back as it was read.
pub proof fn logged_string_fidelity(tagged: bool, bytes: Seq<u8>)
    requires
        spec_logged_string(tagged, bytes) is Ok,
    ensures
        logged_string_bytes(spec_logged_string(tagged, bytes)->Ok_0) == bytes,
{
    let l = spec_logged_string(tagged, bytes)->Ok_0;
    let b1 = bytes.skip(1);
    let tag_len: int = if tagged {
        2
    } else {
        0
    };
    let b2 = b1.skip(tag_len);
    let text = b2.skip(8);
    assert(level_byte(level_of_byte(bytes[0])) == bytes[0]);
    <u64 as LeBytes>::lemma_le_decode(b2);
    decode_utf8_encode_utf8(text);
    if tagged {
        <u16 as LeBytes>::lemma_le_decode(b1);
        assert(seq![bytes[0]] + b1.take(2) + b2.take(8) + text =~= bytes);
    } else {
        assert(seq![bytes[0]] + Seq::<u8>::empty() + b2.take(8) + text =~= bytes);
    }
}

/// A subscription is written back as it was read.
pub proof fn subscription_fidelity(tbl: Seq<(Seq<char>, SpecFormat)>, bytes: Seq<u8>)
    requires
        spec_subscription(tbl, bytes) is Ok,
    ensures
        subscription_bytes(spec_subscription(tbl, bytes)->Ok_0) == bytes,
{
    <u16 as LeBytes>::lemma_le_decode(bytes.skip(1));
    decode_utf8_encode_utf8(bytes.skip(3));
    assert(bytes.skip(1).skip(2) =~= bytes.skip(3));
    assert(seq![bytes[0]] + bytes.skip(1).take(2) + bytes.skip(3) =~= bytes);
}

/// Flag bits of exactly forty bytes are written back as they were read.
pub proof fn flag_bits_fidelity(bytes: Seq<u8>)
    requires
        spec_flag_bits(bytes) is Ok,
        bytes.len() == 40,
    ensures
        flag_bits_bytes(spec_flag_bits(bytes)->Ok_0) == bytes,
{
    <u64 as LeBytes>::lemma_le_decode(bytes.skip(16));
    <u64 as LeBytes>::lemma_le_decode(bytes.skip(24));
    <u64 as LeBytes>::lemma_le_decode(bytes.skip(32));
    assert(bytes.take(8) + bytes.subrange(8, 16) + bytes.skip(16).take(8) + bytes.skip(24).take(8)
        + bytes.skip(32).take(8) =~= bytes);
}

/// The file header is written back as the sixteen bytes it was read from.
pub proof fn header_fidelity(bytes: Seq<u8>)
    requires
        spec_file_header(bytes) is Ok,
    ensures
        header_bytes(spec_file_header(bytes)->Ok_0) == bytes.take(16),
{
    <u64 as LeBytes>::lemma_le_decode(bytes.skip(8));
    assert(bytes.take(7) + seq![bytes[7]] + bytes.skip(8).take(8) =~= bytes.take(16));
}

/// Whether the value after a key is read to the end of the bytes, from exact bytes.
pub open spec fn value_canonical(
    tbl: Seq<(Seq<char>, SpecFormat)>,
    te: SpecTypeExpr,
    bytes: Seq<u8>,
) -> bool {
    match data_value(tbl, true, tbl.len(), te, bytes) {
        Ok((_, rest)) => rest.len() == 0 && exact_value(tbl, tbl.len(), te, bytes),
        Err(_) => true,
    }
}

/// Whether an information message is written canonically: its key, and a value that takes
/// the rest of the bytes exactly.
pub open spec fn info_canonical(tbl: Seq<(Seq<char>, SpecFormat)>, bytes: Seq<u8>) -> bool {
    key_canonical(bytes) && match spec_key(bytes) {
        Ok((f, rest)) => value_canonical(tbl, f.type_expr, rest),
        Err(_) => true,
    }
}

/// Whether a parameter message is written canonically: its key, and a value of the four bytes
/// left.
pub open spec fn parameter_canonical(bytes: Seq<u8>) -> bool {
    key_canonical(bytes) && match spec_key(bytes) {
        Ok((_, rest)) => rest.len() == 4,
        Err(_) => true,
    }
}

/// Whether every stored subscription is stored under its own message id.
pub open spec fn subscriptions_keyed(m: ParserModel) -> bool {
    forall|k: u16| #[trigger] m.subscriptions.contains_key(k) ==> m.subscriptions[k].1 == k
}

/// Whether a data message is written canonically: when it is decoded, its value takes the
/// rest of the bytes exactly.
pub open spec fn data_message_canonical(m: ParserModel, bytes: Seq<u8>) -> bool {
    bytes.len() >= 2 && m.subscriptions.contains_key(le_u16(bytes)) && allowed(
        m.filter_ids,
        le_u16(bytes),
    ) ==> match lookup_format(m.formats, m.subscriptions[le_u16(bytes)].2) {
        Some(fmt) => match data_format(m.formats, true, m.formats.len(), fmt, bytes.skip(2)) {
            Ok((_, rest)) => rest.len() == 0 && exact_format(
                m.formats,
                m.formats.len(),
                fmt,
                bytes.skip(2),
            ),
            Err(_) => true,
        },
        None => true,
    }
}

/// Whether the body of a message of the definitions section is written canonically: a format
/// as the encoder writes some well-formed format, flag bits of forty bytes, canonical keys and
/// values, a continuation flag of 0 or 1.
pub open spec fn definition_canonical(m: ParserModel, t: ULogMessageType, body: Seq<u8>) -> bool {
    match t {
        ULogMessageType::FORMAT => exists|g: SpecFormat|
            format_well_formed(g) && body == encode_utf8(#[trigger] format_text(g)),
        ULogMessageType::FLAG_BITS => body.len() == 40,
        ULogMessageType::PARAMETER => parameter_canonical(body),
        ULogMessageType::PARAMETER_DEFAULT => body.len() >= 1 && parameter_canonical(
            body.skip(1),
        ),
        ULogMessageType::INFO => info_canonical(m.formats, body),
        ULogMessageType::INFO_MULTIPLE => body.len() >= 1 && body[0] <= 1 && info_canonical(
            m.formats,
            body.skip(1),
        ),
        _ => true,
    }
}

/// Whether the body of a message of the data section is written canonically.
pub open spec fn data_canonical(m: ParserModel, t: ULogMessageType, body: Seq<u8>) -> bool {
    match t {
        ULogMessageType::DATA => data_message_canonical(m, body),
        ULogMessageType::DROPOUT => body.len() == 2,
        ULogMessageType::PARAMETER => parameter_canonical(body),
        ULogMessageType::PARAMETER_DEFAULT => body.len() >= 1 && parameter_canonical(
            body.skip(1),
        ),
        ULogMessageType::INFO => info_canonical(m.formats, body),
        ULogMessageType::INFO_MULTIPLE => body.len() >= 1 && body[0] <= 1 && info_canonical(
            m.formats,
            body.skip(1),
        ),
        _ => true,
    }
}

/// The type byte names its type again.
pub proof fn type_byte_round_trip(b: u8)
    ensures
        byte_of_type(type_of_byte(b)) == b,
{
}

/// A parameter value of four bytes is written back as those bytes.
proof fn lemma_param_value_fidelity(f: SpecField, rest: Seq<u8>)
    requires
        spec_parameter_value(f, rest) is Ok,
        rest.len() == 4,
    ensures
        param_value_bytes(spec_parameter_value(f, rest)->Ok_0) == rest,
{
    <i32 as LeBytes>::lemma_le_decode(rest);
    <u32 as LeBytes>::lemma_le_decode(rest);
    assert(rest.take(4) =~= rest);
}

/// A canonical information message is written back as it was read.
proof fn lemma_info_fidelity(tbl: Seq<(Seq<char>, SpecFormat)>, bytes: Seq<u8>)
    requires
        spec_info(tbl, true, bytes) is Ok,
        info_canonical(tbl, bytes),
    ensures
        info_bytes(spec_info(tbl, true, bytes)->Ok_0) == bytes,
{
    let (f, rest) = spec_key(bytes)->Ok_0;
    lemma_key_fidelity(bytes);
    lemma_whole_value_fidelity(tbl, f.type_expr, rest);
}

/// A canonical parameter message is written back as it was read.
proof fn lemma_parameter_fidelity(bytes: Seq<u8>)
    requires
        spec_parameter(bytes) is Ok,
        parameter_canonical(bytes),
    ensures
        parameter_bytes(spec_parameter(bytes)->Ok_0) == bytes,
{
    let (f, rest) = spec_key(bytes)->Ok_0;
    lemma_key_fidelity(bytes);
    lemma_param_value_fidelity(f, rest);
}

/// Keeping every field keeps the fields as they are.
proof fn lemma_filter_keeps_all(fs: Seq<SpecInstField>)
    ensures
        fs.filter(|f: SpecInstField| keep_field(f.name, true, true)) == fs,
    decreases fs.len(),
{
    reveal(Seq::filter);
    if fs.len() > 0 {
        lemma_filter_keeps_all(fs.drop_last());
        assert(fs.drop_last().push(fs.last()) =~= fs);
    }
}

/// A canonical data message of a subscription stored under its own id is written back as it
/// was read.
proof fn lemma_data_message_fidelity(m: ParserModel, body: Seq<u8>)
    requires
        subscriptions_keyed(m),
        m.include_padding,
        spec_parse_data(m, ULogMessageType::DATA, body) matches Ok(SpecMessage::LoggedData(_)),
        data_message_canonical(m, body),
    ensures
        logged_data_bytes(
            filter_logged(spec_parse_data(m, ULogMessageType::DATA, body)->Ok_0->LoggedData_0, true, true),
        ) == body,
{
    let id = le_u16(body);
    let sub = m.subscriptions[id];
    let fmt = lookup_format(m.formats, sub.2)->Some_0;
    let tbl = m.formats;
    let rest = body.skip(2);
    lemma_format_fidelity(tbl, tbl.len(), fmt, rest);
    let (f, r) = data_format(tbl, true, tbl.len(), fmt, rest)->Ok_0;
    let d = spec_parse_data(m, ULogMessageType::DATA, body)->Ok_0->LoggedData_0;
    lemma_filter_keeps_all(d.data.fields);
    assert(format_bytes(f) + r =~= format_bytes(f));
    assert(filter_logged(d, true, true).data.fields == f.fields);
    <u16 as LeBytes>::lemma_le_decode(body);
    assert(body.take(2) + rest =~= body);
}

/// Binary fidelity of a message of the definitions section: with padding kept, a canonical
/// body is written back framed as it was read, its size, its type byte, then the body.
pub proof fn definition_fidelity(m: ParserModel, type_byte: u8, body: Seq<u8>)
    requires
        m.include_padding,
        body.len() <= 0xffff,
        definition_canonical(m, type_of_byte(type_byte), body),
        spec_parse_definition(m, type_of_byte(type_byte), body) is Ok,
    ensures
        message_bytes(spec_parse_definition(m, type_of_byte(type_byte), body)->Ok_0)
            == spec_u16_to_le_bytes(body.len() as u16) + seq![type_byte] + body,
{
    let t = type_of_byte(type_byte);
    let msg = spec_parse_definition(m, t, body)->Ok_0;
    match t {
        ULogMessageType::FLAG_BITS => flag_bits_fidelity(body),
        ULogMessageType::FORMAT => {
            format_parse_encode_parse(body);
        },
        ULogMessageType::PARAMETER => lemma_parameter_fidelity(body),
        ULogMessageType::PARAMETER_DEFAULT => {
            lemma_parameter_fidelity(body.skip(1));
            assert(seq![body[0]] + body.skip(1) =~= body);
        },
        ULogMessageType::ADD_SUBSCRIPTION => subscription_fidelity(m.formats, body),
        ULogMessageType::INFO => lemma_info_fidelity(m.formats, body),
        ULogMessageType::INFO_MULTIPLE => {
            lemma_info_fidelity(m.formats, body.skip(1));
            assert(seq![body[0]] + body.skip(1) =~= body);
        },
        _ => {
            type_byte_round_trip(type_byte);
        },
    }
    assert(content_bytes(msg) == body);
    assert(message_type_byte(msg) == type_byte);
}

/// Binary fidelity of a message of the data section: with timestamps and padding kept, a
/// canonical body is written back framed as it was read. Data that the filter leaves out is
/// handed out as its raw bytes, so it is written back too.
pub proof fn data_fidelity(m: ParserModel, type_byte: u8, body: Seq<u8>)
    requires
        m.include_timestamp,
        m.include_padding,
        subscriptions_keyed(m),
        body.len() <= 0xffff,
        data_canonical(m, type_of_byte(type_byte), body),
        spec_parse_data(m, type_of_byte(type_byte), body) is Ok,
    ensures
        message_bytes(
            filter_message(spec_parse_data(m, type_of_byte(type_byte), body)->Ok_0, true, true),
        ) == spec_u16_to_le_bytes(body.len() as u16) + seq![type_byte] + body,
{
    let t = type_of_byte(type_byte);
    let msg = spec_parse_data(m, t, body)->Ok_0;
    match t {
        ULogMessageType::DATA => {
            if msg is LoggedData {
                lemma_data_message_fidelity(m, body);
            }
        },
        ULogMessageType::LOGGING => logged_string_fidelity(false, body),
        ULogMessageType::LOGGING_TAGGED => logged_string_fidelity(true, body),
        ULogMessageType::DROPOUT => {
            <u16 as LeBytes>::lemma_le_decode(body);
            assert(body.take(2) =~= body);
        },
        ULogMessageType::PARAMETER => lemma_parameter_fidelity(body),
        ULogMessageType::PARAMETER_DEFAULT => {
            lemma_parameter_fidelity(body.skip(1));
            assert(seq![body[0]] + body.skip(1) =~= body);
        },
        ULogMessageType::ADD_SUBSCRIPTION => subscription_fidelity(m.formats, body),
        ULogMessageType::INFO => lemma_info_fidelity(m.formats, body),
        ULogMessageType::INFO_MULTIPLE => {
            lemma_info_fidelity(m.formats, body.skip(1));
            assert(seq![body[0]] + body.skip(1) =~= body);
        },
        _ => {
            type_byte_round_trip(type_byte);
        },
    }
    assert(content_bytes(filter_message(msg, true, true)) == body);
    assert(message_type_byte(filter_message(msg, true, true)) == type_byte);
}

/// The size of a message, read from its first two bytes, is written back as those bytes.
pub proof fn size_fidelity(bytes: Seq<u8>)
    requires
        bytes.len() >= 2,
    ensures
        spec_u16_to_le_bytes(le_u16(bytes)) == bytes.take(2),
{
    <u16 as LeBytes>::lemma_le_decode(bytes);
}

/// Binary fidelity of the parser, message by message: a parser that keeps timestamps and
/// padding hands out, for the body of a message read after its size and type byte, a message
/// that the encoder writes back as the size, the type byte and the body it was read from,
/// when the body is canonical.
pub proof fn supply_fidelity(m: ParserModel, bytes: Seq<u8>)
    requires
        m.include_timestamp,
        m.include_padding,
        subscriptions_keyed(m),
        m.state == State::DEFINITIONS || m.state == State::DATA,
        m.pending is Body,
        m.pending->Body_0 <= bytes.len(),
        m.state == State::DEFINITIONS ==> definition_canonical(
            m,
            type_of_byte(m.pending->Body_1),
            bytes.take(m.pending->Body_0 as int),
        ),
        m.state == State::DATA ==> data_canonical(
            m,
            type_of_byte(m.pending->Body_1),
            bytes.take(m.pending->Body_0 as int),
        ),
        supply_step(m, bytes).1 matches Ok(Some(_)),
    ensures
        message_bytes(supply_step(m, bytes).1->Ok_0->Some_0) == spec_u16_to_le_bytes(
            m.pending->Body_0,
        ) + seq![m.pending->Body_1] + bytes.take(m.pending->Body_0 as int),
{
    let n = m.pending->Body_0;
    let tb = m.pending->Body_1;
    let body = bytes.take(n as int);
    assert(body.len() as u16 == n);
    if m.state == State::DEFINITIONS {
        definition_fidelity(m, tb, body);
    } else {
        data_fidelity(m, tb, body);
    }
}

/// Binary fidelity of the file header: a parser that hands out the header hands out one that
/// the encoder writes back as the sixteen bytes it was read from.
pub proof fn header_supply_fidelity(m: ParserModel, bytes: Seq<u8>)
    requires
        m.state == State::HEADER,
        supply_step(m, bytes).1 matches Ok(Some(_)),
    ensures
        message_bytes(supply_step(m, bytes).1->Ok_0->Some_0) == bytes.take(16),
{
    header_fidelity(bytes);
}

/// A subscription absorbed is stored under its own id.
proof fn lemma_absorb_subscription_keyed(m: ParserModel, s: (u8, u16, Seq<char>))
    requires
        subscriptions_keyed(m),
    ensures
        subscriptions_keyed(absorb_subscription(m, s)),
{
}

/// Every subscription the parser stores is stored under its own message id: true at the
/// start, and kept by every step.
pub proof fn supply_keeps_subscriptions_keyed(m: ParserModel, bytes: Seq<u8>)
    requires
        subscriptions_keyed(m),
    ensures
        subscriptions_keyed(initial_model()),
        subscriptions_keyed(supply_step(m, bytes).0),
{
    match supply_step(m, bytes).1 {
        Ok(Some(msg)) => {
            match msg {
                SpecMessage::AddSubscription(s) => {
                    lemma_absorb_subscription_keyed(
                        ParserModel { pending: Pending::Size, ..m },
                        s,
                    );
                    lemma_absorb_subscription_keyed(
                        ParserModel {
                            pending: Pending::Size,
                            bytes_read: supply_step(m, bytes).0.bytes_read,
                            ..m
                        },
                        s,
                    );
                },
                _ => {},
            }
        },
        _ => {},
    }
}

} // verus!
