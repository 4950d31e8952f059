//! The message types of a ULog file and the decoding of each message body but logged data.
use vstd::prelude::*;
use vstd::slice::slice_to_vec;
use vstd::utf8::*;

use crate::data::data_value;
use crate::errors::{SpecError, ULogError};
use crate::formats::{parse_field, spec_parse_field};
use crate::message_buf::{MessageBuf, le_u16, le_u32, le_u64};
use crate::model::def;
use crate::model::def::{SpecBaseType, SpecField, SpecFormat};
use crate::model::inst::ParameterValue;
use crate::model::msg;
use crate::model::msg::{
    FileHeader, LogLevel, SpecDefaultParameter, SpecFlagBits, SpecInfo, SpecLoggedString,
    SpecMultiInfo, SpecParameter, magic,
};
use crate::parser::{ULogParser, lookup_format};
use crate::text::string_from_utf8;
use crate::tokenizer::{TokenList, lex, numbers_fit};

verus! {

/// The type of a message, named by its type byte.
#[allow(non_camel_case_types)]
#[derive(Debug, Copy, Clone, PartialEq, Eq, Structural)]
pub enum ULogMessageType {
    FORMAT,
    DATA,
    INFO,
    INFO_MULTIPLE,
    PARAMETER,
    PARAMETER_DEFAULT,
    ADD_SUBSCRIPTION,
    REMOVE_SUBSCRIPTION,
    SYNC,
    DROPOUT,
    LOGGING,
    LOGGING_TAGGED,
    FLAG_BITS,
    HEADER,
    UNKNOWN(u8),
}

/// The type that a type byte names: `'F'`, `'D'`, `'I'`, `'M'`, `'P'`, `'Q'`, `'A'`, `'R'`,
/// `'S'`, `'O'`, `'L'`, `'C'` and `'B'` name the known types, any other byte is unknown.
pub open spec fn type_of_byte(byte: u8) -> ULogMessageType {
    if byte == 0x46 {
        ULogMessageType::FORMAT
    } else if byte == 0x44 {
        ULogMessageType::DATA
    } else if byte == 0x49 {
        ULogMessageType::INFO
    } else if byte == 0x4d {
        ULogMessageType::INFO_MULTIPLE
    } else if byte == 0x50 {
        ULogMessageType::PARAMETER
    } else if byte == 0x51 {
        ULogMessageType::PARAMETER_DEFAULT
    } else if byte == 0x41 {
        ULogMessageType::ADD_SUBSCRIPTION
    } else if byte == 0x52 {
        ULogMessageType::REMOVE_SUBSCRIPTION
    } else if byte == 0x53 {
        ULogMessageType::SYNC
    } else if byte == 0x4f {
        ULogMessageType::DROPOUT
    } else if byte == 0x4c {
        ULogMessageType::LOGGING
    } else if byte == 0x43 {
        ULogMessageType::LOGGING_TAGGED
    } else if byte == 0x42 {
        ULogMessageType::FLAG_BITS
    } else {
        ULogMessageType::UNKNOWN(byte)
    }
}

/// The byte that names a type; the file header, which is no real message, is 254.
pub open spec fn byte_of_type(t: ULogMessageType) -> u8 {
    match t {
        ULogMessageType::FORMAT => 0x46,
        ULogMessageType::DATA => 0x44,
        ULogMessageType::INFO => 0x49,
        ULogMessageType::INFO_MULTIPLE => 0x4d,
        ULogMessageType::PARAMETER => 0x50,
        ULogMessageType::PARAMETER_DEFAULT => 0x51,
        ULogMessageType::ADD_SUBSCRIPTION => 0x41,
        ULogMessageType::REMOVE_SUBSCRIPTION => 0x52,
        ULogMessageType::SYNC => 0x53,
        ULogMessageType::DROPOUT => 0x4f,
        ULogMessageType::LOGGING => 0x4c,
        ULogMessageType::LOGGING_TAGGED => 0x43,
        ULogMessageType::FLAG_BITS => 0x42,
        ULogMessageType::HEADER => 254,
        ULogMessageType::UNKNOWN(b) => b,
    }
}

impl ULogMessageType {
    /// The type that a type byte names.
    pub fn from_u8(byte: u8) -> (r: ULogMessageType)
        ensures
            r == type_of_byte(byte),
    {
        match byte {
            0x46u8 => ULogMessageType::FORMAT,
            0x44u8 => ULogMessageType::DATA,
            0x49u8 => ULogMessageType::INFO,
            0x4du8 => ULogMessageType::INFO_MULTIPLE,
            0x50u8 => ULogMessageType::PARAMETER,
            0x51u8 => ULogMessageType::PARAMETER_DEFAULT,
            0x41u8 => ULogMessageType::ADD_SUBSCRIPTION,
            0x52u8 => ULogMessageType::REMOVE_SUBSCRIPTION,
            0x53u8 => ULogMessageType::SYNC,
            0x4fu8 => ULogMessageType::DROPOUT,
            0x4cu8 => ULogMessageType::LOGGING,
            0x43u8 => ULogMessageType::LOGGING_TAGGED,
            0x42u8 => ULogMessageType::FLAG_BITS,
            _ => ULogMessageType::UNKNOWN(byte),
        }
    }

    /// The byte that names this type.
    pub fn to_u8(self) -> (r: u8)
        ensures
            r == byte_of_type(self),
    {
        match self {
            ULogMessageType::FORMAT => 0x46u8,
            ULogMessageType::DATA => 0x44u8,
            ULogMessageType::INFO => 0x49u8,
            ULogMessageType::INFO_MULTIPLE => 0x4du8,
            ULogMessageType::PARAMETER => 0x50u8,
            ULogMessageType::PARAMETER_DEFAULT => 0x51u8,
            ULogMessageType::ADD_SUBSCRIPTION => 0x41u8,
            ULogMessageType::REMOVE_SUBSCRIPTION => 0x52u8,
            ULogMessageType::SYNC => 0x53u8,
            ULogMessageType::DROPOUT => 0x4fu8,
            ULogMessageType::LOGGING => 0x4cu8,
            ULogMessageType::LOGGING_TAGGED => 0x43u8,
            ULogMessageType::FLAG_BITS => 0x42u8,
            ULogMessageType::HEADER => 254u8,
            ULogMessageType::UNKNOWN(b) => b,
        }
    }
}

impl From<u8> for ULogMessageType {
    fn from(byte: u8) -> (r: ULogMessageType) {
        ULogMessageType::from_u8(byte)
    }
}

impl vstd::std_specs::convert::FromSpecImpl<u8> for ULogMessageType {
    open spec fn obeys_from_spec() -> bool {
        true
    }

    open spec fn from_spec(v: u8) -> ULogMessageType {
        type_of_byte(v)
    }
}

impl From<ULogMessageType> for u8 {
    fn from(msg_type: ULogMessageType) -> (r: u8) {
        msg_type.to_u8()
    }
}

impl vstd::std_specs::convert::FromSpecImpl<ULogMessageType> for u8 {
    open spec fn obeys_from_spec() -> bool {
        true
    }

    open spec fn from_spec(v: ULogMessageType) -> u8 {
        byte_of_type(v)
    }
}

/// The header of a message: the size of its body and its type.
#[derive(Debug)]
pub struct ULogMessageHeader {
    pub msg_size: u16,
    pub msg_type: ULogMessageType,
}

/// The file header in the first sixteen bytes of a file: the magic bytes, the version, and
/// the little-endian start time. Fewer bytes are an unexpected end of the file.
pub open spec fn spec_file_header(bytes: Seq<u8>) -> Result<FileHeader, SpecError> {
    if bytes.len() < 16 {
        Err(SpecError::UnexpectedEndOfFile)
    } else if bytes.take(7) != magic() {
        Err(SpecError::InvalidMagicBits)
    } else {
        Ok(FileHeader { version: bytes[7], timestamp: le_u64(bytes.skip(8)) })
    }
}

/// The key of an information or parameter message at the front of `bytes`: a length byte,
/// then that many bytes of UTF-8 text holding a field definition, `type name`. Also the bytes
/// after the key.
pub open spec fn spec_key(bytes: Seq<u8>) -> Result<(SpecField, Seq<u8>), SpecError> {
    if bytes.len() < 1 {
        Err(SpecError::ParseError)
    } else {
        let k = bytes[0] as int;
        let b1 = bytes.skip(1);
        if k > b1.len() {
            Err(SpecError::ParseError)
        } else if !valid_utf8(b1.take(k)) {
            Err(SpecError::Utf8)
        } else {
            let ts = lex(decode_utf8(b1.take(k)));
            if !numbers_fit(ts) {
                Err(SpecError::ParseError)
            } else {
                match spec_parse_field(ts) {
                    Err(e) => Err(e),
                    Ok((f, _)) => Ok((f, b1.skip(k))),
                }
            }
        }
    }
}

/// An information message: a key, then its value.
pub open spec fn spec_info(tbl: Seq<(Seq<char>, SpecFormat)>, pad: bool, bytes: Seq<u8>) -> Result<
    SpecInfo,
    SpecError,
> {
    match spec_key(bytes) {
        Err(e) => Err(e),
        Ok((f, rest)) => match data_value(tbl, pad, tbl.len(), f.type_expr, rest) {
            Err(e) => Err(e),
            Ok((v, _)) => Ok(SpecInfo { key: f.name, type_expr: f.type_expr, value: v }),
        },
    }
}

/// A part of an information message that may continue: a flag byte (nonzero when the value
/// continues in the next message), a key, then its value.
pub open spec fn spec_multi_info(
    tbl: Seq<(Seq<char>, SpecFormat)>,
    pad: bool,
    bytes: Seq<u8>,
) -> Result<SpecMultiInfo, SpecError> {
    if bytes.len() < 1 {
        Err(SpecError::ParseError)
    } else {
        match spec_key(bytes.skip(1)) {
            Err(e) => Err(e),
            Ok((f, rest)) => match data_value(tbl, pad, tbl.len(), f.type_expr, rest) {
                Err(e) => Err(e),
                Ok((v, _)) => Ok(
                    SpecMultiInfo {
                        is_continued: bytes[0] != 0,
                        key: f.name,
                        type_expr: f.type_expr,
                        value: v,
                    },
                ),
            },
        }
    }
}

/// The value of a parameter whose key is `f`: an `int32_t` or a `float`, little-endian.
/// Arrays and other types are an `UnknownParameterType`.
pub open spec fn spec_parameter_value(f: SpecField, rest: Seq<u8>) -> Result<
    ParameterValue,
    SpecError,
> {
    if f.type_expr.array_size is Some {
        Err(SpecError::UnknownParameterType)
    } else {
        match f.type_expr.base_type {
            SpecBaseType::INT32 => if rest.len() >= 4 {
                Ok(ParameterValue::INT32(le_u32(rest) as i32))
            } else {
                Err(SpecError::ParseError)
            },
            SpecBaseType::FLOAT => if rest.len() >= 4 {
                Ok(ParameterValue::FLOAT(le_u32(rest)))
            } else {
                Err(SpecError::ParseError)
            },
            _ => Err(SpecError::UnknownParameterType),
        }
    }
}

/// A parameter message: a key, then the value.
pub open spec fn spec_parameter(bytes: Seq<u8>) -> Result<SpecParameter, SpecError> {
    match spec_key(bytes) {
        Err(e) => Err(e),
        Ok((f, rest)) => match spec_parameter_value(f, rest) {
            Err(e) => Err(e),
            Ok(v) => Ok(SpecParameter { key: f.name, type_expr: f.type_expr, value: v }),
        },
    }
}

/// A default parameter message: the byte of default kinds, a key, then the value.
pub open spec fn spec_default_parameter(bytes: Seq<u8>) -> Result<SpecDefaultParameter, SpecError> {
    if bytes.len() < 1 {
        Err(SpecError::ParseError)
    } else {
        match spec_key(bytes.skip(1)) {
            Err(e) => Err(e),
            Ok((f, rest)) => match spec_parameter_value(f, rest) {
                Err(e) => Err(e),
                Ok(v) => Ok(
                    SpecDefaultParameter {
                        key: f.name,
                        default_types: bytes[0],
                        type_expr: f.type_expr,
                        value: v,
                    },
                ),
            },
        }
    }
}

/// Whether any incompatible flag byte but the first is set, in the bytes of a flag bits
/// message.
pub open spec fn has_unknown_incompat_bits(bytes: Seq<u8>) -> bool {
    exists|i: int| 9 <= i < 16 && bytes[i] != 0
}

/// A flag bits message: eight compatible flag bytes, eight incompatible flag bytes of which
/// only the first may be set, and three little-endian offsets of appended data.
pub open spec fn spec_flag_bits(bytes: Seq<u8>) -> Result<SpecFlagBits, SpecError> {
    if bytes.len() < 16 {
        Err(SpecError::ParseError)
    } else if has_unknown_incompat_bits(bytes) {
        Err(SpecError::UnknownIncompatBits)
    } else if bytes.len() < 40 {
        Err(SpecError::ParseError)
    } else {
        Ok(
            SpecFlagBits {
                compat_flags: bytes.take(8),
                incompat_flags: bytes.subrange(8, 16),
                appended_data_offsets: seq![
                    le_u64(bytes.skip(16)),
                    le_u64(bytes.skip(24)),
                    le_u64(bytes.skip(32)),
                ],
            },
        )
    }
}

/// The level that a byte from `'0'` to `'7'` names.
pub open spec fn level_of_byte(byte: u8) -> LogLevel {
    if byte == 0x30 {
        LogLevel::Emerg
    } else if byte == 0x31 {
        LogLevel::Alert
    } else if byte == 0x32 {
        LogLevel::Crit
    } else if byte == 0x33 {
        LogLevel::Error
    } else if byte == 0x34 {
        LogLevel::Warning
    } else if byte == 0x35 {
        LogLevel::Notice
    } else if byte == 0x36 {
        LogLevel::Info
    } else {
        LogLevel::Debug
    }
}

/// A logged text message: the level byte, for a tagged message a little-endian tag, the
/// little-endian timestamp, then the UTF-8 text to the end.
pub open spec fn spec_logged_string(tagged: bool, bytes: Seq<u8>) -> Result<
    SpecLoggedString,
    SpecError,
> {
    if bytes.len() < 1 {
        Err(SpecError::ParseError)
    } else if !(0x30 <= bytes[0] <= 0x37) {
        Err(SpecError::ParseError)
    } else {
        let b1 = bytes.skip(1);
        let tag_len: int = if tagged {
            2
        } else {
            0
        };
        if b1.len() < tag_len + 8 {
            Err(SpecError::ParseError)
        } else {
            let b2 = b1.skip(tag_len);
            let text = b2.skip(8);
            if !valid_utf8(text) {
                Err(SpecError::Utf8)
            } else {
                Ok(
                    SpecLoggedString {
                        level: level_of_byte(bytes[0]),
                        tag: if tagged {
                            Some(le_u16(b1))
                        } else {
                            None
                        },
                        timestamp: le_u64(b2),
                        msg: decode_utf8(text),
                    },
                )
            }
        }
    }
}

/// A subscription message: the multi id, the little-endian message id, then the UTF-8 name
/// of a known format.
pub open spec fn spec_subscription(tbl: Seq<(Seq<char>, SpecFormat)>, bytes: Seq<u8>) -> Result<
    (u8, u16, Seq<char>),
    SpecError,
> {
    if bytes.len() < 3 {
        Err(SpecError::ParseError)
    } else if !valid_utf8(bytes.skip(3)) {
        Err(SpecError::Utf8)
    } else if lookup_format(tbl, decode_utf8(bytes.skip(3))) is None {
        Err(SpecError::UndefinedFormat)
    } else {
        Ok((bytes[0], le_u16(bytes.skip(1)), decode_utf8(bytes.skip(3))))
    }
}

/// Takes the key of an information or parameter message from the front of the buffer.
pub(crate) fn parse_key(message_buf: &mut MessageBuf) -> (r: Result<def::Field, ULogError>)
    ensures
        match spec_key(old(message_buf)@) {
            Ok((f, rest)) => r matches Ok(x) && x@ == f && final(message_buf)@ == rest,
            Err(k) => r matches Err(e) && e.kind() == k,
        },
{
    let ghost bytes = message_buf@;
    let key_len = message_buf.take_u8()?;
    let raw = match message_buf.advance(key_len as usize) {
        Ok(b) => slice_to_vec(b),
        Err(e) => return Err(e),
    };
    assert(raw@ =~= bytes.skip(1).take(key_len as int));
    let raw_key = match string_from_utf8(raw) {
        Ok(s) => s,
        Err(e) => return Err(ULogError::Utf8(e)),
    };
    let mut tokens = TokenList::from_str(raw_key.as_str())?;
    let field = parse_field(&mut tokens)?;
    Ok(field)
}

/// Decodes the value of a parameter whose key is `field`.
fn parse_parameter_value(field: &def::Field, message_buf: &mut MessageBuf) -> (r: Result<
    ParameterValue,
    ULogError,
>)
    ensures
        match spec_parameter_value(field@, old(message_buf)@) {
            Ok(v) => r == Ok::<ParameterValue, ULogError>(v),
            Err(k) => r matches Err(e) && e.kind() == k,
        },
{
    if field.type_.is_array() {
        return Err(ULogError::UnknownParameterType("a parameter cannot be an array".to_owned()));
    }
    match field.type_.base_type {
        def::BaseType::INT32 => Ok(ParameterValue::INT32(message_buf.take_i32()?)),
        def::BaseType::FLOAT => Ok(ParameterValue::FLOAT(message_buf.take_u32()?)),
        _ => Err(
            ULogError::UnknownParameterType("a parameter is an int32_t or a float".to_owned()),
        ),
    }
}

/// The byte of a level is a digit from `'0'` to `'7'` that names that level again.
pub proof fn lemma_level_of_byte(l: LogLevel)
    ensures
        0x30 <= msg::level_byte(l) <= 0x37,
        level_of_byte(msg::level_byte(l)) == l,
{
}

/// Decodes a logged text message, tagged or not.
pub(crate) fn parse_logged_string(tagged: bool, message_buf: MessageBuf) -> (r: Result<
    msg::LoggedString,
    ULogError,
>)
    ensures
        match spec_logged_string(tagged, message_buf@) {
            Ok(l) => r matches Ok(x) && x@ == l,
            Err(k) => r matches Err(e) && e.kind() == k,
        },
{
    let mut message_buf = message_buf;
    let ghost bytes = message_buf@;
    let level_byte = message_buf.take_u8()?;
    let level = LogLevel::try_from_u8(level_byte)?;
    proof {
        lemma_level_of_byte(level);
    }
    let ghost b1 = message_buf@;
    assert(b1 == bytes.skip(1));
    let tag = if tagged {
        Some(message_buf.take_u16()?)
    } else {
        None
    };
    let ghost tag_len: int = if tagged {
        2
    } else {
        0
    };
    assert(message_buf@ =~= b1.skip(tag_len));
    let timestamp = match message_buf.take_u64() {
        Ok(t) => t,
        Err(e) => return Err(e),
    };
    let ghost text = message_buf@;
    assert(text =~= b1.skip(tag_len).skip(8));
    let msg = match string_from_utf8(message_buf.into_remaining_bytes()) {
        Ok(s) => s,
        Err(e) => return Err(ULogError::Utf8(e)),
    };
    Ok(msg::LoggedString { level, tag, timestamp, msg })
}

impl<R> ULogParser<R> {
    /// Decodes a subscription message; its format must be known.
    pub fn parse_subscription(&self, message_buf: MessageBuf) -> (r: Result<
        msg::Subscription,
        ULogError,
    >)
        ensures
            match spec_subscription(self.format_table(), message_buf@) {
                Ok(s) => r matches Ok(x) && x@ == s,
                Err(k) => r matches Err(e) && e.kind() == k,
            },
    {
        let mut message_buf = message_buf;
        let ghost bytes = message_buf@;
        let multi_id = message_buf.take_u8()?;
        let msg_id = message_buf.take_u16()?;
        assert(message_buf@ =~= bytes.skip(3));
        let message_name = match string_from_utf8(message_buf.into_remaining_bytes()) {
            Ok(s) => s,
            Err(e) => return Err(ULogError::Utf8(e)),
        };
        let _format = self.get_format(message_name.as_str())?;
        Ok(msg::Subscription { multi_id, msg_id, message_name })
    }

    /// Decodes an information message.
    pub(crate) fn parse_info(&self, message_buf: MessageBuf) -> (r: Result<msg::Info, ULogError>)
        ensures
            match spec_info(self.format_table(), self.includes_padding(), message_buf@) {
                Ok(i) => r matches Ok(x) && x@ == i,
                Err(k) => r matches Err(e) && e.kind() == k,
            },
    {
        let mut message_buf = message_buf;
        let field = parse_key(&mut message_buf)?;
        let value = self.parse_field_value(&field, &mut message_buf, self.format_count())?;
        Ok(msg::Info { key: field.name, type_: field.type_, value })
    }

    /// Decodes a part of an information message that may continue.
    pub(crate) fn parse_multi_info(&self, message_buf: MessageBuf) -> (r: Result<
        msg::MultiInfo,
        ULogError,
    >)
        ensures
            match spec_multi_info(self.format_table(), self.includes_padding(), message_buf@) {
                Ok(i) => r matches Ok(x) && x@ == i,
                Err(k) => r matches Err(e) && e.kind() == k,
            },
    {
        let mut message_buf = message_buf;
        let is_continued = message_buf.take_u8()? != 0;
        let field = parse_key(&mut message_buf)?;
        let value = self.parse_field_value(&field, &mut message_buf, self.format_count())?;
        Ok(msg::MultiInfo { is_continued, key: field.name, type_: field.type_, value })
    }

    /// Decodes a parameter message.
    pub(crate) fn parse_parameter(&self, message_buf: MessageBuf) -> (r: Result<
        msg::Parameter,
        ULogError,
    >)
        ensures
            match spec_parameter(message_buf@) {
                Ok(p) => r matches Ok(x) && x@ == p,
                Err(k) => r matches Err(e) && e.kind() == k,
            },
    {
        let mut message_buf = message_buf;
        let field = parse_key(&mut message_buf)?;
        let value = parse_parameter_value(&field, &mut message_buf)?;
        Ok(msg::Parameter { key: field.name, type_: field.type_, value })
    }

    /// Decodes a default parameter message.
    pub(crate) fn parse_default_parameter(&self, message_buf: MessageBuf) -> (r: Result<
        msg::DefaultParameter,
        ULogError,
    >)
        ensures
            match spec_default_parameter(message_buf@) {
                Ok(p) => r matches Ok(x) && x@ == p,
                Err(k) => r matches Err(e) && e.kind() == k,
            },
    {
        let mut message_buf = message_buf;
        let default_types = message_buf.take_u8()?;
        let field = parse_key(&mut message_buf)?;
        let value = parse_parameter_value(&field, &mut message_buf)?;
        Ok(msg::DefaultParameter { key: field.name, default_types, type_: field.type_, value })
    }

    /// Decodes a flag bits message.
    pub(crate) fn parse_flag_bits(&self, message_buf: MessageBuf) -> (r: Result<
        msg::FlagBits,
        ULogError,
    >)
        ensures
            match spec_flag_bits(message_buf@) {
                Ok(f) => r matches Ok(x) && x@ == f,
                Err(k) => r matches Err(e) && e.kind() == k,
            },
    {
        let mut buf = message_buf;
        let ghost bytes = buf@;
        let compat_flags: [u8; 8] = match buf.advance(8) {
            Ok(b) => [b[0], b[1], b[2], b[3], b[4], b[5], b[6], b[7]],
            Err(e) => return Err(e),
        };
        let incompat_flags: [u8; 8] = match buf.advance(8) {
            Ok(b) => [b[0], b[1], b[2], b[3], b[4], b[5], b[6], b[7]],
            Err(e) => return Err(e),
        };
        assert(incompat_flags@ =~= bytes.subrange(8, 16));
        assert(buf@ =~= bytes.skip(16));
        let mut i: usize = 1;
        while i < 8
            invariant
                1 <= i <= 8,
                bytes.len() >= 16,
                buf@ == bytes.skip(16),
                bytes == message_buf@,
                incompat_flags@ == bytes.subrange(8, 16),
                forall|j: int| 9 <= j < 8 + i ==> bytes[j] == 0,
            decreases 8 - i,
        {
            if incompat_flags[i] != 0 {
                assert(bytes.subrange(8, 16)[i as int] == bytes[8 + i]);
                assert(bytes[8 + i] != 0);
                assert(has_unknown_incompat_bits(bytes));
                return Err(ULogError::UnknownIncompatBits);
            }
            i += 1;
        }
        let o0 = buf.take_u64()?;
        let o1 = buf.take_u64()?;
        let o2 = buf.take_u64()?;
        let appended_data_offsets: [u64; 3] = [o0, o1, o2];
        proof {
            assert(compat_flags@ =~= bytes.take(8));
            assert(bytes.skip(16).skip(8) =~= bytes.skip(24));
            assert(bytes.skip(24).skip(8) =~= bytes.skip(32));
            assert(appended_data_offsets@ =~= seq![
                le_u64(bytes.skip(16)),
                le_u64(bytes.skip(24)),
                le_u64(bytes.skip(32)),
            ]);
        }
        Ok(msg::FlagBits { compat_flags, incompat_flags, appended_data_offsets })
    }

    /// Decodes the file header from the first sixteen bytes of a file.
    pub(crate) fn read_file_header(&self, bytes: &Vec<u8>) -> (r: Result<FileHeader, ULogError>)
        ensures
            match spec_file_header(bytes@) {
                Ok(h) => r == Ok::<FileHeader, ULogError>(h),
                Err(k) => r matches Err(e) && e.kind() == k,
            },
    {
        if bytes.len() < 16 {
            return Err(ULogError::UnexpectedEndOfFile);
        }
        let ok = bytes[0] == 0x55u8 && bytes[1] == 0x4cu8 && bytes[2] == 0x6fu8 && bytes[3]
            == 0x67u8 && bytes[4] == 0x01u8 && bytes[5] == 0x12u8 && bytes[6] == 0x35u8;
        proof {
            let t = bytes@.take(7);
            if t == magic() {
                assert(t[0] == bytes@[0] && t[1] == bytes@[1] && t[2] == bytes@[2]);
                assert(t[3] == bytes@[3] && t[4] == bytes@[4] && t[5] == bytes@[5]);
                assert(t[6] == bytes@[6]);
            }
        }
        if !ok {
            return Err(ULogError::InvalidMagicBits);
        }
        assert(bytes@.take(7) =~= magic());
        let mut buf = MessageBuf::new(slice_to_vec(bytes.as_slice()));
        let _ = buf.skip(8);
        let timestamp = buf.take_u64()?;
        assert(buf@ =~= bytes@.skip(8).skip(8));
        Ok(FileHeader { version: bytes[7], timestamp })
    }
}

} // verus!
