//! The messages of a ULog file.
use vstd::bytes::*;
use vstd::prelude::*;

use crate::errors::ULogError;
use crate::model::def::{SpecFormat, SpecTypeExpr};
use crate::model::inst::{SpecFieldValue, SpecInstFormat};
use crate::model::{def, inst};

verus! {

/// One message of a ULog file, or the file header.
#[derive(Debug)]
pub enum UlogMessage {
    Header(FileHeader),
    FlagBits(FlagBits),
    FormatDefinition(def::Format),
    LoggedData(LoggedData),
    AddSubscription(Subscription),
    Info(Info),
    MultiInfo(MultiInfo),
    Parameter(Parameter),
    DefaultParameter(DefaultParameter),
    LoggedString(LoggedString),
    TaggedLoggedString(LoggedString),
    DropoutMark(Dropout),
    Unhandled { msg_type: u8, message_contents: Vec<u8> },
    Ignored { msg_type: u8, message_contents: Vec<u8> },
}

/// The bytes every ULog file starts with.
pub open spec fn magic() -> Seq<u8> {
    seq![0x55u8, 0x4cu8, 0x6fu8, 0x67u8, 0x01u8, 0x12u8, 0x35u8]
}

/// The file header: the format version and the time logging started.
#[derive(Debug, Copy, Clone)]
pub struct FileHeader {
    pub version: u8,
    pub timestamp: u64,
}

impl FileHeader {
    /// The sixteen bytes of the header: the magic bytes, the version, the little-endian
    /// timestamp.
    pub fn to_bytes(&self) -> (r: Vec<u8>)
        ensures
            r@ == magic() + seq![self.version] + spec_u64_to_le_bytes(self.timestamp),
    {
        let mut bytes: Vec<u8> = Vec::with_capacity(16);
        bytes.push(0x55u8);
        bytes.push(0x4cu8);
        bytes.push(0x6fu8);
        bytes.push(0x67u8);
        bytes.push(0x01u8);
        bytes.push(0x12u8);
        bytes.push(0x35u8);
        bytes.push(self.version);
        let ts = u64_to_le_bytes(self.timestamp);
        bytes.extend_from_slice(ts.as_slice());
        assert(bytes@ =~= magic() + seq![self.version] + spec_u64_to_le_bytes(self.timestamp));
        bytes
    }
}

/// The flag bits message: compatibility flags, and where appended data starts.
#[derive(Debug)]
pub struct FlagBits {
    pub compat_flags: [u8; 8],
    pub incompat_flags: [u8; 8],
    pub appended_data_offsets: [u64; 3],
}

impl FlagBits {
    /// Whether bit 0 of the first compatible flag is set: the log holds default parameters.
    pub fn has_default_parameters(&self) -> (r: bool)
        ensures
            r == (self.compat_flags@[0] & 1 != 0),
    {
        self.compat_flags[0] & 1u8 != 0
    }

    /// Whether data is appended to the log: bit 0 of the first incompatible flag is set and at
    /// least one of the appended data offsets is not zero.
    pub fn has_data_appended(&self) -> (r: bool)
        ensures
            r == data_appended(self@),
    {
        let offsets = self.appended_data_offsets;
        let any_offset = offsets[0] != 0 || offsets[1] != 0 || offsets[2] != 0;
        proof {
            if any_offset {
                if offsets[0] != 0 {
                    assert(self@.appended_data_offsets[0] != 0);
                } else if offsets[1] != 0 {
                    assert(self@.appended_data_offsets[1] != 0);
                } else {
                    assert(self@.appended_data_offsets[2] != 0);
                }
            }
        }
        self.incompat_flags[0] & 1u8 != 0 && any_offset
    }
}

/// A logged text message, tagged or not.
#[derive(Debug)]
pub struct LoggedString {
    pub level: LogLevel,
    pub tag: Option<u16>,
    pub timestamp: u64,
    pub msg: String,
}

/// The level of a logged text message, written as the digits `'0'` to `'7'`.
#[derive(Debug, PartialEq, Eq, Copy, Clone)]
pub enum LogLevel {
    Emerg,
    Alert,
    Crit,
    Error,
    Warning,
    Notice,
    Info,
    Debug,
}

/// The byte that stands for a log level.
pub open spec fn level_byte(l: LogLevel) -> u8 {
    match l {
        LogLevel::Emerg => 0x30,
        LogLevel::Alert => 0x31,
        LogLevel::Crit => 0x32,
        LogLevel::Error => 0x33,
        LogLevel::Warning => 0x34,
        LogLevel::Notice => 0x35,
        LogLevel::Info => 0x36,
        LogLevel::Debug => 0x37,
    }
}

impl LogLevel {
    /// The level that a byte stands for; an error for any byte but `'0'` to `'7'`.
    pub fn try_from_u8(byte: u8) -> (r: Result<LogLevel, ULogError>)
        ensures
            r is Ok <==> 0x30 <= byte <= 0x37,
            r matches Ok(l) ==> level_byte(l) == byte,
            r matches Err(e) ==> e is ParseError,
    {
        match byte {
            0x30u8 => Ok(LogLevel::Emerg),
            0x31u8 => Ok(LogLevel::Alert),
            0x32u8 => Ok(LogLevel::Crit),
            0x33u8 => Ok(LogLevel::Error),
            0x34u8 => Ok(LogLevel::Warning),
            0x35u8 => Ok(LogLevel::Notice),
            0x36u8 => Ok(LogLevel::Info),
            0x37u8 => Ok(LogLevel::Debug),
            _ => Err(ULogError::ParseError("invalid log level; the levels are the digits 0 to 7".to_owned())),
        }
    }

    /// The byte that stands for this level.
    pub fn to_u8(&self) -> (r: u8)
        ensures
            r == level_byte(*self),
    {
        match self {
            LogLevel::Emerg => 0x30u8,
            LogLevel::Alert => 0x31u8,
            LogLevel::Crit => 0x32u8,
            LogLevel::Error => 0x33u8,
            LogLevel::Warning => 0x34u8,
            LogLevel::Notice => 0x35u8,
            LogLevel::Info => 0x36u8,
            LogLevel::Debug => 0x37u8,
        }
    }
}

/// A subscription: the message id under which data of a format is logged.
#[derive(Debug)]
pub struct Subscription {
    pub multi_id: u8,
    pub msg_id: u16,
    pub message_name: String,
}

impl Subscription {
    /// A copy of this subscription.
    pub fn duplicate(&self) -> (r: Self)
        ensures
            r.multi_id == self.multi_id,
            r.msg_id == self.msg_id,
            r.message_name@ == self.message_name@,
    {
        Subscription {
            multi_id: self.multi_id,
            msg_id: self.msg_id,
            message_name: self.message_name.clone(),
        }
    }
}

/// An information message: a key with a typed value.
#[derive(Debug)]
pub struct Info {
    pub key: String,
    pub type_: def::TypeExpr,
    pub value: inst::FieldValue,
}

/// A part of an information message that may continue over several messages.
#[derive(Debug)]
pub struct MultiInfo {
    pub is_continued: bool,
    pub key: String,
    pub type_: def::TypeExpr,
    pub value: inst::FieldValue,
}

/// A parameter and its value.
#[derive(Debug)]
pub struct Parameter {
    pub key: String,
    pub type_: def::TypeExpr,
    pub value: inst::ParameterValue,
}

/// A default value of a parameter, with the bits that say which defaults it is.
#[derive(Debug)]
pub struct DefaultParameter {
    pub key: String,
    pub default_types: u8,
    pub type_: def::TypeExpr,
    pub value: inst::ParameterValue,
}

/// Which kinds of default a default parameter gives.
#[derive(Debug, PartialEq, Eq)]
pub struct DefaultType {
    pub system_wide: bool,
    pub configuration: bool,
}

impl DefaultType {
    /// The kinds that the bits name: bit 0 system wide, bit 1 configuration.
    pub fn from_bits(bits: u8) -> (r: DefaultType)
        ensures
            r.system_wide == (bits & 1 != 0),
            r.configuration == (bits & 2 != 0),
    {
        DefaultType { system_wide: bits & 1u8 != 0, configuration: bits & 2u8 != 0 }
    }
}

impl DefaultParameter {
    /// The kinds of default this parameter gives.
    pub fn get_default_type(&self) -> (r: DefaultType)
        ensures
            r.system_wide == (self.default_types & 1 != 0),
            r.configuration == (self.default_types & 2 != 0),
    {
        DefaultType::from_bits(self.default_types)
    }
}

/// Logged data: a value of the subscribed format, with its timestamp.
#[derive(Debug)]
pub struct LoggedData {
    pub timestamp: u64,
    pub msg_id: u16,
    pub data: inst::Format,
}

/// A dropout mark: how long logging dropped messages, in milliseconds.
#[derive(Debug, Copy, Clone)]
pub struct Dropout {
    pub(crate) duration: u16,
}

/// The model of flag bits: the compatible and incompatible flag bytes and the offsets of
/// appended data.
pub struct SpecFlagBits {
    pub compat_flags: Seq<u8>,
    pub incompat_flags: Seq<u8>,
    pub appended_data_offsets: Seq<u64>,
}

/// Whether flag bits announce appended data: bit 0 of the first incompatible flag is set and
/// at least one of the appended data offsets is not zero.
pub open spec fn data_appended(fb: SpecFlagBits) -> bool {
    &&& fb.incompat_flags[0] & 1 != 0
    &&& exists|i: int| 0 <= i < 3 && fb.appended_data_offsets[i] != 0
}

/// The model of an information message.
pub struct SpecInfo {
    pub key: Seq<char>,
    pub type_expr: SpecTypeExpr,
    pub value: SpecFieldValue,
}

/// The model of a part of an information message that may continue.
pub struct SpecMultiInfo {
    pub is_continued: bool,
    pub key: Seq<char>,
    pub type_expr: SpecTypeExpr,
    pub value: SpecFieldValue,
}

/// The model of a parameter.
pub struct SpecParameter {
    pub key: Seq<char>,
    pub type_expr: SpecTypeExpr,
    pub value: inst::ParameterValue,
}

/// The model of a default parameter.
pub struct SpecDefaultParameter {
    pub key: Seq<char>,
    pub default_types: u8,
    pub type_expr: SpecTypeExpr,
    pub value: inst::ParameterValue,
}

/// The model of a logged text message.
pub struct SpecLoggedString {
    pub level: LogLevel,
    pub tag: Option<u16>,
    pub timestamp: u64,
    pub msg: Seq<char>,
}

/// The model of logged data.
pub struct SpecLoggedData {
    pub timestamp: u64,
    pub msg_id: u16,
    pub data: SpecInstFormat,
}

/// The model of a message.
pub enum SpecMessage {
    Header(FileHeader),
    FlagBits(SpecFlagBits),
    FormatDefinition(SpecFormat),
    LoggedData(SpecLoggedData),
    AddSubscription((u8, u16, Seq<char>)),
    Info(SpecInfo),
    MultiInfo(SpecMultiInfo),
    Parameter(SpecParameter),
    DefaultParameter(SpecDefaultParameter),
    LoggedString(SpecLoggedString),
    TaggedLoggedString(SpecLoggedString),
    DropoutMark(u16),
    Unhandled(u8, Seq<u8>),
    Ignored(u8, Seq<u8>),
}

impl View for FlagBits {
    type V = SpecFlagBits;

    open spec fn view(&self) -> SpecFlagBits {
        SpecFlagBits {
            compat_flags: self.compat_flags@,
            incompat_flags: self.incompat_flags@,
            appended_data_offsets: self.appended_data_offsets@,
        }
    }
}

impl View for Info {
    type V = SpecInfo;

    open spec fn view(&self) -> SpecInfo {
        SpecInfo { key: self.key@, type_expr: self.type_@, value: self.value@ }
    }
}

impl View for MultiInfo {
    type V = SpecMultiInfo;

    open spec fn view(&self) -> SpecMultiInfo {
        SpecMultiInfo {
            is_continued: self.is_continued,
            key: self.key@,
            type_expr: self.type_@,
            value: self.value@,
        }
    }
}

impl View for Parameter {
    type V = SpecParameter;

    open spec fn view(&self) -> SpecParameter {
        SpecParameter { key: self.key@, type_expr: self.type_@, value: self.value }
    }
}

impl View for DefaultParameter {
    type V = SpecDefaultParameter;

    open spec fn view(&self) -> SpecDefaultParameter {
        SpecDefaultParameter {
            key: self.key@,
            default_types: self.default_types,
            type_expr: self.type_@,
            value: self.value,
        }
    }
}

impl View for LoggedString {
    type V = SpecLoggedString;

    open spec fn view(&self) -> SpecLoggedString {
        SpecLoggedString {
            level: self.level,
            tag: self.tag,
            timestamp: self.timestamp,
            msg: self.msg@,
        }
    }
}

impl View for LoggedData {
    type V = SpecLoggedData;

    open spec fn view(&self) -> SpecLoggedData {
        SpecLoggedData { timestamp: self.timestamp, msg_id: self.msg_id, data: self.data@ }
    }
}

/// The model of a dropout mark: its duration.
impl View for Dropout {
    type V = u16;

    closed spec fn view(&self) -> u16 {
        self.duration
    }
}

impl Dropout {
    /// A dropout mark of `duration` milliseconds.
    pub fn new(duration: u16) -> (r: Self)
        ensures
            r@ == duration,
    {
        Dropout { duration }
    }

    /// How long logging dropped messages, in milliseconds.
    pub fn duration(&self) -> (r: u16)
        ensures
            r == self@,
    {
        self.duration
    }
}

impl View for UlogMessage {
    type V = SpecMessage;

    open spec fn view(&self) -> SpecMessage {
        match self {
            UlogMessage::Header(h) => SpecMessage::Header(*h),
            UlogMessage::FlagBits(f) => SpecMessage::FlagBits(f@),
            UlogMessage::FormatDefinition(f) => SpecMessage::FormatDefinition(f@),
            UlogMessage::LoggedData(d) => SpecMessage::LoggedData(d@),
            UlogMessage::AddSubscription(s) => SpecMessage::AddSubscription(
                (s.multi_id, s.msg_id, s.message_name@),
            ),
            UlogMessage::Info(i) => SpecMessage::Info(i@),
            UlogMessage::MultiInfo(i) => SpecMessage::MultiInfo(i@),
            UlogMessage::Parameter(p) => SpecMessage::Parameter(p@),
            UlogMessage::DefaultParameter(p) => SpecMessage::DefaultParameter(p@),
            UlogMessage::LoggedString(l) => SpecMessage::LoggedString(l@),
            UlogMessage::TaggedLoggedString(l) => SpecMessage::TaggedLoggedString(l@),
            UlogMessage::DropoutMark(d) => SpecMessage::DropoutMark(d@),
            UlogMessage::Unhandled { msg_type, message_contents } => SpecMessage::Unhandled(
                *msg_type,
                message_contents@,
            ),
            UlogMessage::Ignored { msg_type, message_contents } => SpecMessage::Ignored(
                *msg_type,
                message_contents@,
            ),
        }
    }
}

} // verus!
