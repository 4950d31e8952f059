use vstd::prelude::*;

verus! {

/// A `std::string::FromUtf8Error`, the error `String::from_utf8` reports for bytes that are
/// not UTF-8.
#[verifier::external_type_specification]
#[verifier::external_body]
pub struct ExFromUtf8Error(std::string::FromUtf8Error);

/// A `std::io::Error`, reported by the reader that feeds the parser.
#[verifier::external_type_specification]
#[verifier::external_body]
pub struct ExIoError(std::io::Error);

/// Every error the parser and its helpers report.
#[derive(Debug)]
pub enum ULogError {
    Io(std::io::Error),
    Utf8(std::string::FromUtf8Error),
    UnknownParameterType(String),
    InvalidMagicBits,
    InvalidHeader,
    InvalidDefinitions,
    UnexpectedEndOfFile,
    ParseError(String),
    InternalError(String),
    DatabaseError(String),
    UndefinedFormat(String),
    UndefinedSubscription(u16),
    UnknownIncompatBits,
    MissingTimestamp,
    InvalindMultiInfo(String),
    InvalidDefaultParameterType,
    TypeMismatch(String),
    InvalidFieldName(String),
    InvalidConfiguration(String),
}

/// The kind of a `ULogError`, without its payload.
pub enum SpecError {
    Io,
    Utf8,
    UnknownParameterType,
    InvalidMagicBits,
    InvalidHeader,
    InvalidDefinitions,
    UnexpectedEndOfFile,
    ParseError,
    InternalError,
    DatabaseError,
    UndefinedFormat,
    UndefinedSubscription,
    UnknownIncompatBits,
    MissingTimestamp,
    InvalindMultiInfo,
    InvalidDefaultParameterType,
    TypeMismatch,
    InvalidFieldName,
    InvalidConfiguration,
}

impl ULogError {
    /// The kind of this error.
    pub open spec fn kind(&self) -> SpecError {
        match self {
            ULogError::Io(_) => SpecError::Io,
            ULogError::Utf8(_) => SpecError::Utf8,
            ULogError::UnknownParameterType(_) => SpecError::UnknownParameterType,
            ULogError::InvalidMagicBits => SpecError::InvalidMagicBits,
            ULogError::InvalidHeader => SpecError::InvalidHeader,
            ULogError::InvalidDefinitions => SpecError::InvalidDefinitions,
            ULogError::UnexpectedEndOfFile => SpecError::UnexpectedEndOfFile,
            ULogError::ParseError(_) => SpecError::ParseError,
            ULogError::InternalError(_) => SpecError::InternalError,
            ULogError::DatabaseError(_) => SpecError::DatabaseError,
            ULogError::UndefinedFormat(_) => SpecError::UndefinedFormat,
            ULogError::UndefinedSubscription(_) => SpecError::UndefinedSubscription,
            ULogError::UnknownIncompatBits => SpecError::UnknownIncompatBits,
            ULogError::MissingTimestamp => SpecError::MissingTimestamp,
            ULogError::InvalindMultiInfo(_) => SpecError::InvalindMultiInfo,
            ULogError::InvalidDefaultParameterType => SpecError::InvalidDefaultParameterType,
            ULogError::TypeMismatch(_) => SpecError::TypeMismatch,
            ULogError::InvalidFieldName(_) => SpecError::InvalidFieldName,
            ULogError::InvalidConfiguration(_) => SpecError::InvalidConfiguration,
        }
    }
}

} // verus!
