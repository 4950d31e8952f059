//! What the decoded values mean: the syslog level a log level byte names, the primitive type a
//! type name denotes, the continuation flag of a multi-part message, the instance a logged value
//! belongs to, and the number that the text of an integer value spells.
use vstd::prelude::*;

use crate::data::{decode_scalar, primitive_width, spec_data_message};
use crate::encode::base_type_name;
use crate::encode_msg::multi_info_bytes;
use crate::formats::spec_base_type_from_name;
use crate::info_text::{bool_text, list_text, hex_digit, hex_text, info_line, info_value_text, is_release_key, prefixed_hex_text, signed_text};
use crate::text::{decimal_text, digit_char};
use crate::messages::{level_of_byte, spec_multi_info};
use crate::model::def::{SpecBaseType, SpecFormat};
use crate::model::inst::SpecFieldValue;
use crate::model::msg::{LogLevel, SpecMultiInfo, level_byte};
use crate::steps::{ParserModel, absorb_subscription};
use crate::text_forms::level_name;

verus! {

/// The log levels, most severe first, as syslog numbers them: the level of severity `k` is
/// written as the digit `k`, and named as syslog names it. `EMERG` is `'0'`, `ALERT` `'1'`,
/// `CRIT` `'2'`, `ERR` `'3'`, `WARNING` `'4'`, `NOTICE` `'5'`, `INFO` `'6'`, `DEBUG` `'7'`; the
/// byte of each level decodes to that level.
pub proof fn log_levels_follow_syslog()
    ensures
        level_byte(LogLevel::Emerg) == 0x30 && level_name(LogLevel::Emerg) == "EMERG"@,
        level_byte(LogLevel::Alert) == 0x31 && level_name(LogLevel::Alert) == "ALERT"@,
        level_byte(LogLevel::Crit) == 0x32 && level_name(LogLevel::Crit) == "CRIT"@,
        level_byte(LogLevel::Error) == 0x33 && level_name(LogLevel::Error) == "ERR"@,
        level_byte(LogLevel::Warning) == 0x34 && level_name(LogLevel::Warning) == "WARNING"@,
        level_byte(LogLevel::Notice) == 0x35 && level_name(LogLevel::Notice) == "NOTICE"@,
        level_byte(LogLevel::Info) == 0x36 && level_name(LogLevel::Info) == "INFO"@,
        level_byte(LogLevel::Debug) == 0x37 && level_name(LogLevel::Debug) == "DEBUG"@,
        forall|l: LogLevel| #[trigger] level_of_byte(level_byte(l)) == l,
{
}

/// A more severe level has a smaller digit: the bytes of the levels rise from `EMERG` to
/// `DEBUG`, one apart.
pub proof fn log_level_bytes_rise_with_severity()
    ensures
        level_byte(LogLevel::Alert) == level_byte(LogLevel::Emerg) + 1,
        level_byte(LogLevel::Crit) == level_byte(LogLevel::Alert) + 1,
        level_byte(LogLevel::Error) == level_byte(LogLevel::Crit) + 1,
        level_byte(LogLevel::Warning) == level_byte(LogLevel::Error) + 1,
        level_byte(LogLevel::Notice) == level_byte(LogLevel::Warning) + 1,
        level_byte(LogLevel::Info) == level_byte(LogLevel::Notice) + 1,
        level_byte(LogLevel::Debug) == level_byte(LogLevel::Info) + 1,
        level_byte(LogLevel::Emerg) == 0x30,
{
}

/// Each primitive type name of a format definition denotes the type of that name: `intN_t`
/// and `uintN_t` take `N / 8` bytes and decode as signed and unsigned numbers of `N` bits,
/// `float` four bytes, `double` eight, `bool` and `char` one; and each type is written back
/// under its name.
pub proof fn type_names_denote_their_types(bytes: Seq<u8>)
    ensures
        spec_base_type_from_name("int8_t"@) == SpecBaseType::INT8,
        spec_base_type_from_name("int16_t"@) == SpecBaseType::INT16,
        spec_base_type_from_name("int32_t"@) == SpecBaseType::INT32,
        spec_base_type_from_name("int64_t"@) == SpecBaseType::INT64,
        spec_base_type_from_name("uint8_t"@) == SpecBaseType::UINT8,
        spec_base_type_from_name("uint16_t"@) == SpecBaseType::UINT16,
        spec_base_type_from_name("uint32_t"@) == SpecBaseType::UINT32,
        spec_base_type_from_name("uint64_t"@) == SpecBaseType::UINT64,
        spec_base_type_from_name("float"@) == SpecBaseType::FLOAT,
        spec_base_type_from_name("double"@) == SpecBaseType::DOUBLE,
        spec_base_type_from_name("bool"@) == SpecBaseType::BOOL,
        spec_base_type_from_name("char"@) == SpecBaseType::CHAR,
        primitive_width(SpecBaseType::INT8) == 1 && primitive_width(SpecBaseType::UINT8) == 1,
        primitive_width(SpecBaseType::INT16) == 2 && primitive_width(SpecBaseType::UINT16) == 2,
        primitive_width(SpecBaseType::INT32) == 4 && primitive_width(SpecBaseType::UINT32) == 4,
        primitive_width(SpecBaseType::INT64) == 8 && primitive_width(SpecBaseType::UINT64) == 8,
        primitive_width(SpecBaseType::FLOAT) == 4 && primitive_width(SpecBaseType::DOUBLE) == 8,
        primitive_width(SpecBaseType::BOOL) == 1 && primitive_width(SpecBaseType::CHAR) == 1,
        decode_scalar(SpecBaseType::INT8, bytes) is ScalarI8,
        decode_scalar(SpecBaseType::INT16, bytes) is ScalarI16,
        decode_scalar(SpecBaseType::INT32, bytes) is ScalarI32,
        decode_scalar(SpecBaseType::INT64, bytes) is ScalarI64,
        decode_scalar(SpecBaseType::UINT8, bytes) is ScalarU8,
        decode_scalar(SpecBaseType::UINT16, bytes) is ScalarU16,
        decode_scalar(SpecBaseType::UINT32, bytes) is ScalarU32,
        decode_scalar(SpecBaseType::UINT64, bytes) is ScalarU64,
        decode_scalar(SpecBaseType::FLOAT, bytes) is ScalarF32,
        decode_scalar(SpecBaseType::DOUBLE, bytes) is ScalarF64,
        decode_scalar(SpecBaseType::BOOL, bytes) is ScalarBool,
        decode_scalar(SpecBaseType::CHAR, bytes) is ScalarChar,
        base_type_name(SpecBaseType::INT8) == "int8_t"@,
        base_type_name(SpecBaseType::INT16) == "int16_t"@,
        base_type_name(SpecBaseType::INT32) == "int32_t"@,
        base_type_name(SpecBaseType::INT64) == "int64_t"@,
        base_type_name(SpecBaseType::UINT8) == "uint8_t"@,
        base_type_name(SpecBaseType::UINT16) == "uint16_t"@,
        base_type_name(SpecBaseType::UINT32) == "uint32_t"@,
        base_type_name(SpecBaseType::UINT64) == "uint64_t"@,
        base_type_name(SpecBaseType::FLOAT) == "float"@,
        base_type_name(SpecBaseType::DOUBLE) == "double"@,
        base_type_name(SpecBaseType::BOOL) == "bool"@,
        base_type_name(SpecBaseType::CHAR) == "char"@,
{
    reveal_strlit("int8_t");
    reveal_strlit("int16_t");
    reveal_strlit("int32_t");
    reveal_strlit("int64_t");
    reveal_strlit("uint8_t");
    reveal_strlit("uint16_t");
    reveal_strlit("uint32_t");
    reveal_strlit("uint64_t");
    reveal_strlit("float");
    reveal_strlit("double");
    reveal_strlit("bool");
    reveal_strlit("char");
    assert("int16_t"@.len() != "int8_t"@.len());
    assert("int32_t"@.len() != "int8_t"@.len());
    assert("int32_t"@[3] != "int16_t"@[3]);
    assert("int64_t"@.len() != "int8_t"@.len());
    assert("int64_t"@[3] != "int16_t"@[3]);
    assert("int64_t"@[3] != "int32_t"@[3]);
    assert("uint8_t"@.len() != "int8_t"@.len());
    assert("uint8_t"@[0] != "int16_t"@[0]);
    assert("uint8_t"@[0] != "int32_t"@[0]);
    assert("uint8_t"@[0] != "int64_t"@[0]);
    assert("uint16_t"@.len() != "int8_t"@.len());
    assert("uint16_t"@.len() != "int16_t"@.len());
    assert("uint16_t"@.len() != "int32_t"@.len());
    assert("uint16_t"@.len() != "int64_t"@.len());
    assert("uint16_t"@.len() != "uint8_t"@.len());
    assert("uint32_t"@.len() != "int8_t"@.len());
    assert("uint32_t"@.len() != "int16_t"@.len());
    assert("uint32_t"@.len() != "int32_t"@.len());
    assert("uint32_t"@.len() != "int64_t"@.len());
    assert("uint32_t"@.len() != "uint8_t"@.len());
    assert("uint32_t"@[4] != "uint16_t"@[4]);
    assert("uint64_t"@.len() != "int8_t"@.len());
    assert("uint64_t"@.len() != "int16_t"@.len());
    assert("uint64_t"@.len() != "int32_t"@.len());
    assert("uint64_t"@.len() != "int64_t"@.len());
    assert("uint64_t"@.len() != "uint8_t"@.len());
    assert("uint64_t"@[4] != "uint16_t"@[4]);
    assert("uint64_t"@[4] != "uint32_t"@[4]);
    assert("double"@[0] != "int8_t"@[0]);
    assert("double"@.len() != "int16_t"@.len());
    assert("double"@.len() != "int32_t"@.len());
    assert("double"@.len() != "int64_t"@.len());
    assert("double"@.len() != "uint8_t"@.len());
    assert("double"@.len() != "uint16_t"@.len());
    assert("double"@.len() != "uint32_t"@.len());
    assert("double"@.len() != "uint64_t"@.len());
    assert("float"@.len() != "int8_t"@.len());
    assert("float"@.len() != "int16_t"@.len());
    assert("float"@.len() != "int32_t"@.len());
    assert("float"@.len() != "int64_t"@.len());
    assert("float"@.len() != "uint8_t"@.len());
    assert("float"@.len() != "uint16_t"@.len());
    assert("float"@.len() != "uint32_t"@.len());
    assert("float"@.len() != "uint64_t"@.len());
    assert("float"@.len() != "double"@.len());
    assert("bool"@.len() != "int8_t"@.len());
    assert("bool"@.len() != "int16_t"@.len());
    assert("bool"@.len() != "int32_t"@.len());
    assert("bool"@.len() != "int64_t"@.len());
    assert("bool"@.len() != "uint8_t"@.len());
    assert("bool"@.len() != "uint16_t"@.len());
    assert("bool"@.len() != "uint32_t"@.len());
    assert("bool"@.len() != "uint64_t"@.len());
    assert("bool"@.len() != "double"@.len());
    assert("bool"@.len() != "float"@.len());
    assert("char"@.len() != "int8_t"@.len());
    assert("char"@.len() != "int16_t"@.len());
    assert("char"@.len() != "int32_t"@.len());
    assert("char"@.len() != "int64_t"@.len());
    assert("char"@.len() != "uint8_t"@.len());
    assert("char"@.len() != "uint16_t"@.len());
    assert("char"@.len() != "uint32_t"@.len());
    assert("char"@.len() != "uint64_t"@.len());
    assert("char"@.len() != "double"@.len());
    assert("char"@.len() != "float"@.len());
    assert("char"@[0] != "bool"@[0]);
}

/// A part of a multi-part information message continues in the next exactly when its first
/// byte is not zero, and it is written back with a first byte of 1 when it continues and 0 when
/// it does not.
pub proof fn continuation_flag_is_the_first_byte(
    tbl: Seq<(Seq<char>, SpecFormat)>,
    pad: bool,
    bytes: Seq<u8>,
    i: SpecMultiInfo,
)
    ensures
        spec_multi_info(tbl, pad, bytes) matches Ok(m) ==> m.is_continued == (bytes[0] != 0),
        multi_info_bytes(i)[0] == (if i.is_continued { 1u8 } else { 0u8 }),
{
}

/// Logged data carries the instance it was logged under whenever its topic is logged under
/// several instances, instance 0 included: for a topic named among those with a nonzero
/// instance, the data of its subscription of instance `k` is marked `k`; data of any other
/// topic is not marked.
pub proof fn data_carries_its_instance(
    tbl: Seq<(Seq<char>, SpecFormat)>,
    pad: bool,
    multi: Seq<Seq<char>>,
    sub: (u8, u16, Seq<char>),
    bytes: Seq<u8>,
)
    requires
        spec_data_message(tbl, pad, multi, sub, bytes) is Ok,
    ensures
        multi.contains(sub.2) ==> spec_data_message(tbl, pad, multi, sub, bytes)->Ok_0.data.multi_id_index
            == Some(sub.0),
        !multi.contains(sub.2) ==> spec_data_message(tbl, pad, multi, sub, bytes)->Ok_0.data.multi_id_index
            is None,
{
}

/// Once a topic has been subscribed under a nonzero instance, the data of every subscription
/// of that topic, instance 0 included, carries its instance number: `m` is the parser's model,
/// `s` the subscription of nonzero instance it takes in, and `t` any subscription of the same
/// topic.
pub proof fn every_instance_is_marked_once_one_is_nonzero(
    m: ParserModel,
    s: (u8, u16, Seq<char>),
    t: (u8, u16, Seq<char>),
    bytes: Seq<u8>,
)
    requires
        s.0 > 0,
        t.2 == s.2,
        spec_data_message(
            absorb_subscription(m, s).formats,
            absorb_subscription(m, s).include_padding,
            absorb_subscription(m, s).multi_id_names,
            t,
            bytes,
        ) is Ok,
    ensures
        spec_data_message(
            absorb_subscription(m, s).formats,
            absorb_subscription(m, s).include_padding,
            absorb_subscription(m, s).multi_id_names,
            t,
            bytes,
        )->Ok_0.data.multi_id_index == Some(t.0),
{
    let names = absorb_subscription(m, s).multi_id_names;
    assert(names[names.len() - 1] == s.2);
    assert(names.contains(s.2));
}

/// The value of a decimal digit; 10 for a character that is not one.
pub open spec fn digit_value(c: char) -> int {
    if c == '0' {
        0
    } else if c == '1' {
        1
    } else if c == '2' {
        2
    } else if c == '3' {
        3
    } else if c == '4' {
        4
    } else if c == '5' {
        5
    } else if c == '6' {
        6
    } else if c == '7' {
        7
    } else if c == '8' {
        8
    } else if c == '9' {
        9
    } else {
        10
    }
}

/// The value of a hexadecimal digit, upper case; 16 for a character that is not one.
pub open spec fn hex_digit_value(c: char) -> int {
    if digit_value(c) < 10 {
        digit_value(c)
    } else if c == 'A' {
        10
    } else if c == 'B' {
        11
    } else if c == 'C' {
        12
    } else if c == 'D' {
        13
    } else if c == 'E' {
        14
    } else if c == 'F' {
        15
    } else {
        16
    }
}

/// Whether `s` is one or more decimal digits.
pub open spec fn all_digits(s: Seq<char>) -> bool {
    s.len() > 0 && forall|i: int| 0 <= i < s.len() ==> digit_value(#[trigger] s[i]) < 10
}

/// Whether `s` is one or more hexadecimal digits.
pub open spec fn all_hex_digits(s: Seq<char>) -> bool {
    s.len() > 0 && forall|i: int| 0 <= i < s.len() ==> hex_digit_value(#[trigger] s[i]) < 16
}

/// The number that decimal digits spell.
pub open spec fn decimal_value(s: Seq<char>) -> int
    decreases s.len(),
{
    if s.len() == 0 {
        0
    } else {
        decimal_value(s.drop_last()) * 10 + digit_value(s.last())
    }
}

/// The number that hexadecimal digits spell.
pub open spec fn hex_value(s: Seq<char>) -> int
    decreases s.len(),
{
    if s.len() == 0 {
        0
    } else {
        hex_value(s.drop_last()) * 16 + hex_digit_value(s.last())
    }
}

/// The number that a text spells: decimal digits, with a minus sign before them for a negative
/// number; `None` for any other text.
pub open spec fn spelled_number(s: Seq<char>) -> Option<int> {
    if s.len() > 0 && s[0] == '-' && all_digits(s.drop_first()) {
        Some(-decimal_value(s.drop_first()))
    } else if all_digits(s) {
        Some(decimal_value(s))
    } else {
        None
    }
}

/// The number that a text spells in hexadecimal after `0x`; `None` for any other text.
pub open spec fn spelled_hex_number(s: Seq<char>) -> Option<int> {
    if s.len() > 2 && s[0] == '0' && s[1] == 'x' && all_hex_digits(s.skip(2)) {
        Some(hex_value(s.skip(2)))
    } else {
        None
    }
}

/// The integer that a scalar value holds; `None` for a value that is not an integer.
pub open spec fn integer_of(v: SpecFieldValue) -> Option<int> {
    match v {
        SpecFieldValue::ScalarU8(x) => Some(x as int),
        SpecFieldValue::ScalarU16(x) => Some(x as int),
        SpecFieldValue::ScalarU32(x) => Some(x as int),
        SpecFieldValue::ScalarU64(x) => Some(x as int),
        SpecFieldValue::ScalarI8(x) => Some(x as int),
        SpecFieldValue::ScalarI16(x) => Some(x as int),
        SpecFieldValue::ScalarI32(x) => Some(x as int),
        SpecFieldValue::ScalarI64(x) => Some(x as int),
        _ => None,
    }
}

/// A digit character has the value of its digit.
proof fn lemma_digit_char_value(d: nat)
    requires
        d < 10,
    ensures
        digit_value(digit_char(d)) == d,
        hex_digit_value(hex_digit(d)) == d,
{
    if d == 0 {
        assert(digit_char(0) == '0');
    } else if d == 1 {
        assert(digit_char(1) == '1');
    } else if d == 2 {
        assert(digit_char(2) == '2');
    } else if d == 3 {
        assert(digit_char(3) == '3');
    } else if d == 4 {
        assert(digit_char(4) == '4');
    } else if d == 5 {
        assert(digit_char(5) == '5');
    } else if d == 6 {
        assert(digit_char(6) == '6');
    } else if d == 7 {
        assert(digit_char(7) == '7');
    } else if d == 8 {
        assert(digit_char(8) == '8');
    } else {
        assert(digit_char(9) == '9');
    }
}

/// A hexadecimal digit character has the value of its digit.
proof fn lemma_hex_digit_value(d: nat)
    requires
        d < 16,
    ensures
        hex_digit_value(hex_digit(d)) == d,
{
    if d < 10 {
        lemma_digit_char_value(d);
    } else if d == 10 {
        assert(hex_digit(10) == 'A');
    } else if d == 11 {
        assert(hex_digit(11) == 'B');
    } else if d == 12 {
        assert(hex_digit(12) == 'C');
    } else if d == 13 {
        assert(hex_digit(13) == 'D');
    } else if d == 14 {
        assert(hex_digit(14) == 'E');
    } else {
        assert(hex_digit(15) == 'F');
    }
}

/// The decimal text of `n` is digits that spell `n`.
proof fn lemma_decimal_text_value(n: nat)
    ensures
        all_digits(decimal_text(n)),
        decimal_value(decimal_text(n)) == n,
    decreases n,
{
    if n < 10 {
        lemma_digit_char_value(n);
        assert(decimal_text(n).drop_last() =~= Seq::<char>::empty());
        assert(decimal_value(Seq::<char>::empty()) == 0);
        assert(decimal_value(decimal_text(n)) == decimal_value(decimal_text(n).drop_last()) * 10 + digit_value(decimal_text(n).last()));
    } else {
        lemma_decimal_text_value(n / 10);
        lemma_digit_char_value(n % 10);
        let t = decimal_text(n);
        assert(t.drop_last() =~= decimal_text(n / 10));
        assert(t.last() == digit_char((n % 10) as nat));
        assert(decimal_value(t) == decimal_value(t.drop_last()) * 10 + digit_value(t.last()));
        assert(n == (n / 10) * 10 + n % 10);
        assert forall|i: int| 0 <= i < t.len() implies digit_value(#[trigger] t[i]) < 10 by {
            if i < t.len() - 1 {
                assert(t[i] == decimal_text(n / 10)[i]);
            }
        }
    }
}

/// The hexadecimal text of `n` is digits that spell `n`.
proof fn lemma_hex_text_value(n: nat)
    ensures
        all_hex_digits(hex_text(n)),
        hex_value(hex_text(n)) == n,
    decreases n,
{
    if n < 16 {
        lemma_hex_digit_value(n);
        assert(hex_text(n).drop_last() =~= Seq::<char>::empty());
        assert(hex_value(Seq::<char>::empty()) == 0);
        assert(hex_value(hex_text(n)) == hex_value(hex_text(n).drop_last()) * 16 + hex_digit_value(hex_text(n).last()));
    } else {
        lemma_hex_text_value(n / 16);
        lemma_hex_digit_value(n % 16);
        let t = hex_text(n);
        assert(t.drop_last() =~= hex_text(n / 16));
        assert(t.last() == hex_digit((n % 16) as nat));
        assert(hex_value(t) == hex_value(t.drop_last()) * 16 + hex_digit_value(t.last()));
        assert(n == (n / 16) * 16 + n % 16);
        assert forall|i: int| 0 <= i < t.len() implies hex_digit_value(#[trigger] t[i]) < 16 by {
            if i < t.len() - 1 {
                assert(t[i] == hex_text(n / 16)[i]);
            }
        }
    }
}

/// The text of a signed number spells that number.
proof fn lemma_signed_text_value(v: int)
    ensures
        spelled_number(signed_text(v)) == Some(v),
{
    if v < 0 {
        lemma_decimal_text_value((-v) as nat);
        let t = signed_text(v);
        assert(t.drop_first() =~= decimal_text((-v) as nat));
    } else {
        lemma_decimal_text_value(v as nat);
        let t = decimal_text(v as nat);
        assert(digit_value(t[0]) < 10);
    }
}

/// The text of an integer value in an information message spells that integer: in decimal,
/// with a minus sign before a negative number, or, for a `uint32_t` under a `ver_*_release`
/// key, in hexadecimal after `0x`. The line of the message is its key, `: ` and that text.
pub proof fn integer_text_spells_its_value(key: Seq<char>, v: SpecFieldValue)
    requires
        integer_of(v) is Some,
    ensures
        info_value_text(key, v) is Some,
        info_line(key, v) == Some(key + seq![':', ' '] + info_value_text(key, v)->Some_0),
        !(v is ScalarU32 && is_release_key(key)) ==> spelled_number(info_value_text(key, v)->Some_0)
            == integer_of(v),
        v is ScalarU32 && is_release_key(key) ==> spelled_hex_number(
            info_value_text(key, v)->Some_0,
        ) == integer_of(v),
{
    match v {
        SpecFieldValue::ScalarU32(x) => {
            if is_release_key(key) {
                lemma_hex_text_value(x as nat);
                let t = prefixed_hex_text(x as nat);
                assert(t.skip(2) =~= hex_text(x as nat));
            } else {
                lemma_signed_text_value(x as int);
            }
        },
        SpecFieldValue::ScalarU8(x) => lemma_signed_text_value(x as int),
        SpecFieldValue::ScalarU16(x) => lemma_signed_text_value(x as int),
        SpecFieldValue::ScalarU64(x) => lemma_signed_text_value(x as int),
        SpecFieldValue::ScalarI8(x) => lemma_signed_text_value(x as int),
        SpecFieldValue::ScalarI16(x) => lemma_signed_text_value(x as int),
        SpecFieldValue::ScalarI32(x) => lemma_signed_text_value(x as int),
        SpecFieldValue::ScalarI64(x) => lemma_signed_text_value(x as int),
        _ => {},
    }
}

/// The integers that an array value holds; `None` for a value that is not an array of integers.
pub open spec fn integers_of(v: SpecFieldValue) -> Option<Seq<int>> {
    match v {
        SpecFieldValue::ArrayU8(a) => Some(a.map_values(|x: u8| x as int)),
        SpecFieldValue::ArrayU16(a) => Some(a.map_values(|x: u16| x as int)),
        SpecFieldValue::ArrayU32(a) => Some(a.map_values(|x: u32| x as int)),
        SpecFieldValue::ArrayU64(a) => Some(a.map_values(|x: u64| x as int)),
        SpecFieldValue::ArrayI8(a) => Some(a.map_values(|x: i8| x as int)),
        SpecFieldValue::ArrayI16(a) => Some(a.map_values(|x: i16| x as int)),
        SpecFieldValue::ArrayI32(a) => Some(a.map_values(|x: i32| x as int)),
        SpecFieldValue::ArrayI64(a) => Some(a.map_values(|x: i64| x as int)),
        _ => None,
    }
}

/// The texts of numbers, in order.
pub open spec fn number_texts(ns: Seq<int>) -> Seq<Seq<char>> {
    ns.map_values(|n: int| signed_text(n))
}

/// The texts of numbers spell those numbers.
proof fn lemma_texts_spell(ns: Seq<int>)
    ensures
        forall|i: int| 0 <= i < ns.len() ==> spelled_number(
            #[trigger] number_texts(ns)[i],
        ) == Some(ns[i]),
{
    assert forall|i: int| 0 <= i < ns.len() implies spelled_number(
        #[trigger] number_texts(ns)[i],
    ) == Some(ns[i]) by {
        lemma_signed_text_value(ns[i]);
    }
}

/// The text of an array of integers in an information message is the texts of its elements,
/// in order, joined by `, ` in brackets, and the text of each element spells that element.
pub proof fn integer_array_text_spells_its_elements(key: Seq<char>, v: SpecFieldValue)
    requires
        integers_of(v) is Some,
    ensures
        ({
            let ns = integers_of(v)->Some_0;
            let ts = number_texts(ns);
            &&& info_value_text(key, v) == Some(list_text(ts))
            &&& ts.len() == ns.len()
            &&& forall|i: int| 0 <= i < ns.len() ==> spelled_number(#[trigger] ts[i]) == Some(ns[i])
        }),
{
    let ns = integers_of(v)->Some_0;
    let ts = number_texts(ns);
    lemma_texts_spell(ns);
    match v {
        SpecFieldValue::ArrayU8(a) => {
            assert(a.map_values(|x: u8| decimal_text(x as nat)) =~= ts);
        },
        SpecFieldValue::ArrayU16(a) => {
            assert(a.map_values(|x: u16| decimal_text(x as nat)) =~= ts);
        },
        SpecFieldValue::ArrayU32(a) => {
            assert(a.map_values(|x: u32| decimal_text(x as nat)) =~= ts);
        },
        SpecFieldValue::ArrayU64(a) => {
            assert(a.map_values(|x: u64| decimal_text(x as nat)) =~= ts);
        },
        SpecFieldValue::ArrayI8(a) => {
            assert(a.map_values(|x: i8| signed_text(x as int)) =~= ts);
        },
        SpecFieldValue::ArrayI16(a) => {
            assert(a.map_values(|x: i16| signed_text(x as int)) =~= ts);
        },
        SpecFieldValue::ArrayI32(a) => {
            assert(a.map_values(|x: i32| signed_text(x as int)) =~= ts);
        },
        SpecFieldValue::ArrayI64(a) => {
            assert(a.map_values(|x: i64| signed_text(x as int)) =~= ts);
        },
        _ => {},
    }
}

/// A boolean value is shown as `true` or `false`, and an ASCII character as itself.
pub proof fn booleans_and_characters_show_as_themselves(key: Seq<char>, b: bool, c: u8)
    ensures
        info_value_text(key, SpecFieldValue::ScalarBool(b)) == Some(if b { "true"@ } else { "false"@ }),
        c < 128 ==> info_value_text(key, SpecFieldValue::ScalarChar(c)) == Some(seq![c as char]),
{
    reveal_strlit("true");
    reveal_strlit("false");
    assert(bool_text(true) =~= "true"@);
    assert(bool_text(false) =~= "false"@);
}

} // verus!
