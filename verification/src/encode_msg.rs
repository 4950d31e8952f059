//! The binary encoding of messages: each message's body, and the frame of size and type
//! around it.
use vstd::bytes::*;
use vstd::prelude::*;
use vstd::utf8::*;

use crate::encode::{Encode, push_ascii, push_str, type_text};
use crate::encode_data::{format_bytes, value_bytes};
use crate::messages::ULogMessageType;
use crate::model::def::SpecTypeExpr;
use crate::model::inst::ParameterValue;
use crate::model::msg;
use crate::model::msg::{
    FileHeader, SpecDefaultParameter, SpecFlagBits, SpecInfo, SpecLoggedData, SpecLoggedString,
    SpecMessage, SpecMultiInfo, SpecParameter, UlogMessage, level_byte, magic,
};
use crate::primitive::LeBytes;
use crate::text::lemma_encode_utf8_concat;

verus! {

/// The bytes of a key: the type as format definitions write it, a space, the name.
pub open spec fn key_bytes(t: SpecTypeExpr, key: Seq<char>) -> Seq<u8> {
    encode_utf8(type_text(t) + seq![' '] + key)
}

/// A key preceded by its length in one byte.
pub open spec fn framed_key_bytes(t: SpecTypeExpr, key: Seq<char>) -> Seq<u8> {
    seq![key_bytes(t, key).len() as u8] + key_bytes(t, key)
}

/// The bytes of a parameter's value.
pub open spec fn param_value_bytes(v: ParameterValue) -> Seq<u8> {
    match v {
        ParameterValue::INT32(x) => <i32 as LeBytes>::le_bytes(x),
        ParameterValue::FLOAT(bits) => <u32 as LeBytes>::le_bytes(bits),
    }
}

/// The body of a flag bits message.
pub open spec fn flag_bits_bytes(f: SpecFlagBits) -> Seq<u8> {
    f.compat_flags + f.incompat_flags + spec_u64_to_le_bytes(f.appended_data_offsets[0])
        + spec_u64_to_le_bytes(f.appended_data_offsets[1]) + spec_u64_to_le_bytes(
        f.appended_data_offsets[2],
    )
}

/// The body of a subscription message.
pub open spec fn subscription_bytes(s: (u8, u16, Seq<char>)) -> Seq<u8> {
    seq![s.0] + spec_u16_to_le_bytes(s.1) + encode_utf8(s.2)
}

/// The body of a data message.
pub open spec fn logged_data_bytes(d: SpecLoggedData) -> Seq<u8> {
    spec_u16_to_le_bytes(d.msg_id) + format_bytes(d.data)
}

/// The body of an information message.
pub open spec fn info_bytes(i: SpecInfo) -> Seq<u8> {
    framed_key_bytes(i.type_expr, i.key) + value_bytes(i.value)
}

/// The body of a part of an information message.
pub open spec fn multi_info_bytes(i: SpecMultiInfo) -> Seq<u8> {
    seq![
        if i.is_continued {
            1u8
        } else {
            0u8
        },
    ] + framed_key_bytes(i.type_expr, i.key) + value_bytes(i.value)
}

/// The body of a parameter message.
pub open spec fn parameter_bytes(p: SpecParameter) -> Seq<u8> {
    framed_key_bytes(p.type_expr, p.key) + param_value_bytes(p.value)
}

/// The body of a default parameter message.
pub open spec fn default_parameter_bytes(p: SpecDefaultParameter) -> Seq<u8> {
    seq![p.default_types] + framed_key_bytes(p.type_expr, p.key) + param_value_bytes(p.value)
}

/// The body of a logged text message: the tag is written when there is one.
pub open spec fn logged_string_bytes(l: SpecLoggedString) -> Seq<u8> {
    seq![level_byte(l.level)] + match l.tag {
        Some(t) => spec_u16_to_le_bytes(t),
        None => Seq::empty(),
    } + spec_u64_to_le_bytes(l.timestamp) + encode_utf8(l.msg)
}

/// The sixteen bytes of the file header.
pub open spec fn header_bytes(h: FileHeader) -> Seq<u8> {
    magic() + seq![h.version] + spec_u64_to_le_bytes(h.timestamp)
}

/// The byte that names the type of a message.
pub open spec fn message_type_byte(m: SpecMessage) -> u8 {
    match m {
        SpecMessage::Header(_) => 254,
        SpecMessage::FlagBits(_) => 0x42,
        SpecMessage::FormatDefinition(_) => 0x46,
        SpecMessage::LoggedData(_) => 0x44,
        SpecMessage::AddSubscription(_) => 0x41,
        SpecMessage::Info(_) => 0x49,
        SpecMessage::MultiInfo(_) => 0x4d,
        SpecMessage::Parameter(_) => 0x50,
        SpecMessage::DefaultParameter(_) => 0x51,
        SpecMessage::LoggedString(_) => 0x4c,
        SpecMessage::TaggedLoggedString(_) => 0x43,
        SpecMessage::DropoutMark(_) => 0x4f,
        SpecMessage::Unhandled(t, _) => t,
        SpecMessage::Ignored(t, _) => t,
    }
}

/// The body of a message; raw messages give back their bytes.
pub open spec fn content_bytes(m: SpecMessage) -> Seq<u8> {
    match m {
        SpecMessage::Header(_) => Seq::empty(),
        SpecMessage::FlagBits(f) => flag_bits_bytes(f),
        SpecMessage::FormatDefinition(f) => encode_utf8(crate::encode::format_text(f)),
        SpecMessage::LoggedData(d) => logged_data_bytes(d),
        SpecMessage::AddSubscription(s) => subscription_bytes(s),
        SpecMessage::Info(i) => info_bytes(i),
        SpecMessage::MultiInfo(i) => multi_info_bytes(i),
        SpecMessage::Parameter(p) => parameter_bytes(p),
        SpecMessage::DefaultParameter(p) => default_parameter_bytes(p),
        SpecMessage::LoggedString(l) => logged_string_bytes(l),
        SpecMessage::TaggedLoggedString(l) => logged_string_bytes(l),
        SpecMessage::DropoutMark(d) => spec_u16_to_le_bytes(d),
        SpecMessage::Unhandled(_, c) => c,
        SpecMessage::Ignored(_, c) => c,
    }
}

/// A whole message: the file header as is; any other message framed by the size of its body
/// (little-endian, in two bytes) and its type byte.
pub open spec fn message_bytes(m: SpecMessage) -> Seq<u8> {
    match m {
        SpecMessage::Header(h) => header_bytes(h),
        _ => spec_u16_to_le_bytes(content_bytes(m).len() as u16) + seq![message_type_byte(m)]
            + content_bytes(m),
    }
}

/// Appends a key, preceded by its length, to `out`.
fn push_key(type_: &crate::model::def::TypeExpr, key: &String, out: &mut Vec<u8>)
    ensures
        final(out)@ == old(out)@ + framed_key_bytes(type_@, key@),
{
    let mut key_bytes_v: Vec<u8> = type_.encode_to_vec();
    push_ascii(&mut key_bytes_v, 32u8);
    push_str(&mut key_bytes_v, key.as_str());
    proof {
        let t = type_text(type_@);
        let sp = seq![32u8 as char];
        assert(sp =~= seq![' ']);
        lemma_encode_utf8_concat(t, sp);
        lemma_encode_utf8_concat(t + sp, key@);
        assert(key_bytes_v@ =~= key_bytes(type_@, key@));
    }
    out.push(key_bytes_v.len() as u8);
    out.extend_from_slice(key_bytes_v.as_slice());
    assert(out@ =~= old(out)@ + framed_key_bytes(type_@, key@));
}

/// Appends the little-endian bytes of a `u64`.
fn push_u64(x: u64, out: &mut Vec<u8>)
    ensures
        final(out)@ == old(out)@ + spec_u64_to_le_bytes(x),
{
    x.push_le(out);
}

/// Appends the little-endian bytes of a `u16`.
fn push_u16(x: u16, out: &mut Vec<u8>)
    ensures
        final(out)@ == old(out)@ + spec_u16_to_le_bytes(x),
{
    x.push_le(out);
}

/// Appends eight bytes.
fn push_8(a: &[u8; 8], out: &mut Vec<u8>)
    ensures
        final(out)@ == old(out)@ + a@,
{
    let ghost start = out@;
    let mut i: usize = 0;
    while i < 8
        invariant
            i <= 8,
            a@.len() == 8,
            out@ == start + a@.take(i as int),
        decreases 8 - i,
    {
        out.push(a[i]);
        assert(out@ =~= start + a@.take(i + 1));
        i += 1;
    }
    assert(a@.take(8) =~= a@);
}

impl Encode for ParameterValue {
    open spec fn encoding(&self) -> Seq<u8> {
        param_value_bytes(*self)
    }

    fn encode(&self, out: &mut Vec<u8>) {
        match self {
            ParameterValue::INT32(x) => x.push_le(out),
            ParameterValue::FLOAT(bits) => bits.push_le(out),
        }
    }
}

impl Encode for msg::FlagBits {
    open spec fn encoding(&self) -> Seq<u8> {
        flag_bits_bytes(self@)
    }

    fn encode(&self, out: &mut Vec<u8>) {
        push_8(&self.compat_flags, out);
        push_8(&self.incompat_flags, out);
        push_u64(self.appended_data_offsets[0], out);
        push_u64(self.appended_data_offsets[1], out);
        push_u64(self.appended_data_offsets[2], out);
        assert(final(out)@ =~= old(out)@ + flag_bits_bytes(self@));
    }
}

impl Encode for msg::Subscription {
    open spec fn encoding(&self) -> Seq<u8> {
        subscription_bytes((self.multi_id, self.msg_id, self.message_name@))
    }

    fn encode(&self, out: &mut Vec<u8>) {
        out.push(self.multi_id);
        push_u16(self.msg_id, out);
        push_str(out, self.message_name.as_str());
        assert(final(out)@ =~= old(out)@ + subscription_bytes(
            (self.multi_id, self.msg_id, self.message_name@),
        ));
    }
}

impl Encode for msg::LoggedData {
    open spec fn encoding(&self) -> Seq<u8> {
        logged_data_bytes(self@)
    }

    fn encode(&self, out: &mut Vec<u8>) {
        push_u16(self.msg_id, out);
        self.data.encode(out);
        assert(final(out)@ =~= old(out)@ + logged_data_bytes(self@));
    }
}

impl Encode for msg::Info {
    open spec fn encoding(&self) -> Seq<u8> {
        info_bytes(self@)
    }

    fn encode(&self, out: &mut Vec<u8>) {
        push_key(&self.type_, &self.key, out);
        self.value.encode(out);
        assert(final(out)@ =~= old(out)@ + info_bytes(self@));
    }
}

impl Encode for msg::MultiInfo {
    open spec fn encoding(&self) -> Seq<u8> {
        multi_info_bytes(self@)
    }

    fn encode(&self, out: &mut Vec<u8>) {
        self.is_continued.push_le(out);
        push_key(&self.type_, &self.key, out);
        self.value.encode(out);
        assert(final(out)@ =~= old(out)@ + multi_info_bytes(self@));
    }
}

impl Encode for msg::Parameter {
    open spec fn encoding(&self) -> Seq<u8> {
        parameter_bytes(self@)
    }

    fn encode(&self, out: &mut Vec<u8>) {
        push_key(&self.type_, &self.key, out);
        self.value.encode(out);
        assert(final(out)@ =~= old(out)@ + parameter_bytes(self@));
    }
}

impl Encode for msg::DefaultParameter {
    open spec fn encoding(&self) -> Seq<u8> {
        default_parameter_bytes(self@)
    }

    fn encode(&self, out: &mut Vec<u8>) {
        out.push(self.default_types);
        push_key(&self.type_, &self.key, out);
        self.value.encode(out);
        assert(final(out)@ =~= old(out)@ + default_parameter_bytes(self@));
    }
}

impl Encode for msg::LogLevel {
    open spec fn encoding(&self) -> Seq<u8> {
        seq![level_byte(*self)]
    }

    fn encode(&self, out: &mut Vec<u8>) {
        out.push(self.to_u8());
        assert(final(out)@ =~= old(out)@ + seq![level_byte(*self)]);
    }
}

impl Encode for msg::LoggedString {
    open spec fn encoding(&self) -> Seq<u8> {
        logged_string_bytes(self@)
    }

    fn encode(&self, out: &mut Vec<u8>) {
        let ghost start = out@;
        self.level.encode(out);
        let ghost after_level = out@;
        match self.tag {
            Some(tag) => push_u16(tag, out),
            None => {},
        }
        push_u64(self.timestamp, out);
        push_str(out, self.msg.as_str());
        proof {
            let tag_bytes = match self.tag {
                Some(t) => spec_u16_to_le_bytes(t),
                None => Seq::empty(),
            };
            assert(out@ =~= start + logged_string_bytes(self@));
        }
    }
}

impl Encode for msg::Dropout {
    open spec fn encoding(&self) -> Seq<u8> {
        spec_u16_to_le_bytes(self@)
    }

    fn encode(&self, out: &mut Vec<u8>) {
        push_u16(self.duration(), out);
    }
}

impl UlogMessage {
    /// The type of this message; the file header has no type.
    pub fn message_type(&self) -> (r: ULogMessageType)
        requires
            !(self is Header),
        ensures
            crate::messages::byte_of_type(r) == message_type_byte(self@),
    {
        match self {
            UlogMessage::Header(_) => ULogMessageType::HEADER,
            UlogMessage::FlagBits(_) => ULogMessageType::FLAG_BITS,
            UlogMessage::FormatDefinition(_) => ULogMessageType::FORMAT,
            UlogMessage::LoggedData(_) => ULogMessageType::DATA,
            UlogMessage::AddSubscription(_) => ULogMessageType::ADD_SUBSCRIPTION,
            UlogMessage::Info(_) => ULogMessageType::INFO,
            UlogMessage::MultiInfo(_) => ULogMessageType::INFO_MULTIPLE,
            UlogMessage::Parameter(_) => ULogMessageType::PARAMETER,
            UlogMessage::DefaultParameter(_) => ULogMessageType::PARAMETER_DEFAULT,
            UlogMessage::LoggedString(_) => ULogMessageType::LOGGING,
            UlogMessage::TaggedLoggedString(_) => ULogMessageType::LOGGING_TAGGED,
            UlogMessage::DropoutMark(_) => ULogMessageType::DROPOUT,
            UlogMessage::Unhandled { msg_type, .. } => ULogMessageType::from_u8(*msg_type),
            UlogMessage::Ignored { msg_type, .. } => ULogMessageType::from_u8(*msg_type),
        }
    }

    /// Appends the body of this message, without its frame, to `out`.
    fn encode_content(&self, out: &mut Vec<u8>)
        ensures
            final(out)@ == old(out)@ + content_bytes(self@),
    {
        match self {
            UlogMessage::Header(_) => {
                assert(final(out)@ =~= old(out)@ + content_bytes(self@));
            },
            UlogMessage::FlagBits(flag_bits) => flag_bits.encode(out),
            UlogMessage::FormatDefinition(format) => format.encode(out),
            UlogMessage::LoggedData(logged_data) => logged_data.encode(out),
            UlogMessage::AddSubscription(sub) => sub.encode(out),
            UlogMessage::Info(info) => info.encode(out),
            UlogMessage::MultiInfo(info) => info.encode(out),
            UlogMessage::Parameter(param) => param.encode(out),
            UlogMessage::DefaultParameter(param) => param.encode(out),
            UlogMessage::LoggedString(logged_string) => logged_string.encode(out),
            UlogMessage::TaggedLoggedString(logged_string) => logged_string.encode(out),
            UlogMessage::DropoutMark(dropout) => dropout.encode(out),
            UlogMessage::Unhandled { message_contents, .. } => {
                out.extend_from_slice(message_contents.as_slice());
                assert(final(out)@ =~= old(out)@ + content_bytes(self@));
            },
            UlogMessage::Ignored { message_contents, .. } => {
                out.extend_from_slice(message_contents.as_slice());
                assert(final(out)@ =~= old(out)@ + content_bytes(self@));
            },
        }
    }
}

impl Encode for UlogMessage {
    open spec fn encoding(&self) -> Seq<u8> {
        message_bytes(self@)
    }

    fn encode(&self, out: &mut Vec<u8>) {
        match self {
            UlogMessage::Header(header) => {
                let bytes = header.to_bytes();
                out.extend_from_slice(bytes.as_slice());
                assert(final(out)@ =~= old(out)@ + message_bytes(self@));
            },
            _ => {
                let mut content: Vec<u8> = Vec::new();
                self.encode_content(&mut content);
                let msg_size = content.len() as u16;
                push_u16(msg_size, out);
                let t = self.message_type().to_u8();
                out.push(t);
                out.extend_from_slice(content.as_slice());
                assert(final(out)@ =~= old(out)@ + message_bytes(self@));
            },
        }
    }
}

} // verus!
