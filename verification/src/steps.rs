//! The model of the parser and what each step of it does: which bytes it asks for, and what a
//! message's bytes give back and change.
use vstd::prelude::*;

use crate::data::{keep_field, spec_data_message};
use crate::errors::{SpecError, ULogError};
use crate::formats::spec_parse_format;
use crate::message_buf::le_u16;
use crate::messages::{
    ULogMessageType, byte_of_type, spec_default_parameter, spec_file_header, spec_flag_bits,
    spec_info, spec_logged_string, spec_multi_info, spec_parameter, spec_subscription,
    type_of_byte,
};
use crate::model::def::SpecFormat;
use crate::model::inst::{SpecInstField, SpecInstFormat};
use crate::model::msg::{FileHeader, data_appended, SpecLoggedData, SpecMessage, UlogMessage};
use crate::parser::{Pending, State};

verus! {

/// The model of a parser: where it stands, what it knows, and how it was configured.
pub struct ParserModel {
    pub state: State,
    pub pending: Pending,
    pub file_header: Option<FileHeader>,
    pub formats: Seq<(Seq<char>, SpecFormat)>,
    pub subscriptions: Map<u16, (u8, u16, Seq<char>)>,
    pub multi_id_names: Seq<Seq<char>>,
    pub filter_names: Option<Seq<Seq<char>>>,
    pub filter_ids: Option<Set<u16>>,
    pub bytes_read: usize,
    pub read_limit: Option<usize>,
    pub include_header: bool,
    pub include_timestamp: bool,
    pub include_padding: bool,
}

/// Whether logged data under `id` is decoded: always without a filter, else when the id is
/// among those allowed.
pub open spec fn allowed(ids: Option<Set<u16>>, id: u16) -> bool {
    match ids {
        None => true,
        Some(s) => s.contains(id),
    }
}

/// The message that the body of a message of type `t` in the data section gives. Logged data
/// of a known subscription is decoded when the filter allows it, and handed back as raw bytes
/// otherwise; data of an unknown subscription is an error.
pub open spec fn spec_parse_data(m: ParserModel, t: ULogMessageType, bytes: Seq<u8>) -> Result<
    SpecMessage,
    SpecError,
> {
    match t {
        ULogMessageType::ADD_SUBSCRIPTION => match spec_subscription(m.formats, bytes) {
            Ok(s) => Ok(SpecMessage::AddSubscription(s)),
            Err(e) => Err(e),
        },
        ULogMessageType::REMOVE_SUBSCRIPTION => if bytes.len() < 2 {
            Err(SpecError::ParseError)
        } else {
            Ok(SpecMessage::Unhandled(0x52, bytes))
        },
        ULogMessageType::DATA => if bytes.len() < 2 {
            Err(SpecError::ParseError)
        } else if !m.subscriptions.contains_key(le_u16(bytes)) {
            Err(SpecError::ParseError)
        } else if allowed(m.filter_ids, le_u16(bytes)) {
            match spec_data_message(
                m.formats,
                m.include_padding,
                m.multi_id_names,
                m.subscriptions[le_u16(bytes)],
                bytes.skip(2),
            ) {
                Ok(d) => Ok(SpecMessage::LoggedData(d)),
                Err(e) => Err(e),
            }
        } else {
            Ok(SpecMessage::Ignored(0x44, bytes))
        },
        ULogMessageType::LOGGING => match spec_logged_string(false, bytes) {
            Ok(l) => Ok(SpecMessage::LoggedString(l)),
            Err(e) => Err(e),
        },
        ULogMessageType::LOGGING_TAGGED => match spec_logged_string(true, bytes) {
            Ok(l) => Ok(SpecMessage::TaggedLoggedString(l)),
            Err(e) => Err(e),
        },
        ULogMessageType::DROPOUT => if bytes.len() < 2 {
            Err(SpecError::ParseError)
        } else {
            Ok(SpecMessage::DropoutMark(le_u16(bytes)))
        },
        ULogMessageType::PARAMETER => match spec_parameter(bytes) {
            Ok(p) => Ok(SpecMessage::Parameter(p)),
            Err(e) => Err(e),
        },
        ULogMessageType::PARAMETER_DEFAULT => match spec_default_parameter(bytes) {
            Ok(p) => Ok(SpecMessage::DefaultParameter(p)),
            Err(e) => Err(e),
        },
        ULogMessageType::INFO => match spec_info(m.formats, m.include_padding, bytes) {
            Ok(i) => Ok(SpecMessage::Info(i)),
            Err(e) => Err(e),
        },
        ULogMessageType::INFO_MULTIPLE => match spec_multi_info(
            m.formats,
            m.include_padding,
            bytes,
        ) {
            Ok(i) => Ok(SpecMessage::MultiInfo(i)),
            Err(e) => Err(e),
        },
        _ => Ok(SpecMessage::Unhandled(byte_of_type(t), bytes)),
    }
}

/// The message that the body of a message of type `t` in the definitions section gives.
pub open spec fn spec_parse_definition(
    m: ParserModel,
    t: ULogMessageType,
    bytes: Seq<u8>,
) -> Result<SpecMessage, SpecError> {
    match t {
        ULogMessageType::FLAG_BITS => match spec_flag_bits(bytes) {
            Ok(f) => Ok(SpecMessage::FlagBits(f)),
            Err(e) => Err(e),
        },
        ULogMessageType::FORMAT => match spec_parse_format(bytes) {
            Ok(f) => Ok(SpecMessage::FormatDefinition(f)),
            Err(e) => Err(e),
        },
        ULogMessageType::PARAMETER => match spec_parameter(bytes) {
            Ok(p) => Ok(SpecMessage::Parameter(p)),
            Err(e) => Err(e),
        },
        ULogMessageType::PARAMETER_DEFAULT => match spec_default_parameter(bytes) {
            Ok(p) => Ok(SpecMessage::DefaultParameter(p)),
            Err(e) => Err(e),
        },
        ULogMessageType::ADD_SUBSCRIPTION => match spec_subscription(m.formats, bytes) {
            Ok(s) => Ok(SpecMessage::AddSubscription(s)),
            Err(e) => Err(e),
        },
        ULogMessageType::INFO => match spec_info(m.formats, m.include_padding, bytes) {
            Ok(i) => Ok(SpecMessage::Info(i)),
            Err(e) => Err(e),
        },
        ULogMessageType::INFO_MULTIPLE => match spec_multi_info(
            m.formats,
            m.include_padding,
            bytes,
        ) {
            Ok(i) => Ok(SpecMessage::MultiInfo(i)),
            Err(e) => Err(e),
        },
        _ => Ok(SpecMessage::Unhandled(byte_of_type(t), bytes)),
    }
}

/// The first nonzero offset of appended data, where the log proper ends.
pub open spec fn first_nonzero_offset(offsets: Seq<u64>) -> Option<usize> {
    if offsets[0] > 0 {
        Some(offsets[0] as usize)
    } else if offsets[1] > 0 {
        Some(offsets[1] as usize)
    } else if offsets[2] > 0 {
        Some(offsets[2] as usize)
    } else {
        None
    }
}

/// The model after a new subscription: it is stored under its message id, its id is allowed
/// when its name is, and its name is noted when its multi id is not zero.
pub open spec fn absorb_subscription(m: ParserModel, s: (u8, u16, Seq<char>)) -> ParserModel {
    ParserModel {
        subscriptions: m.subscriptions.insert(s.1, s),
        filter_ids: match m.filter_names {
            Some(names) => if names.contains(s.2) {
                Some(m.filter_ids.unwrap().insert(s.1))
            } else {
                m.filter_ids
            },
            None => m.filter_ids,
        },
        multi_id_names: if s.0 > 0 {
            m.multi_id_names.push(s.2)
        } else {
            m.multi_id_names
        },
        ..m
    }
}

/// The model after a message of the definitions section: a format is stored under its name;
/// a subscription is stored and the data section starts; flag bits announcing appended data
/// set where reading stops.
pub open spec fn absorb_definition(m: ParserModel, msg: SpecMessage) -> ParserModel {
    match msg {
        SpecMessage::FormatDefinition(f) => ParserModel { formats: m.formats.push((f.name, f)), ..m },
        SpecMessage::AddSubscription(s) => ParserModel {
            state: State::DATA,
            ..absorb_subscription(m, s)
        },
        SpecMessage::FlagBits(fb) => if data_appended(fb) {
            ParserModel { read_limit: first_nonzero_offset(fb.appended_data_offsets), ..m }
        } else {
            m
        },
        _ => m,
    }
}

/// The model after a message of the data section: a subscription is stored, a removed one is
/// forgotten.
pub open spec fn absorb_data(
    m: ParserModel,
    t: ULogMessageType,
    bytes: Seq<u8>,
    msg: SpecMessage,
) -> ParserModel {
    match msg {
        SpecMessage::AddSubscription(s) => absorb_subscription(m, s),
        _ => if t == ULogMessageType::REMOVE_SUBSCRIPTION {
            ParserModel { subscriptions: m.subscriptions.remove(le_u16(bytes)), ..m }
        } else {
            m
        },
    }
}

/// Logged data without the fields that the options leave out.
pub open spec fn filter_logged(d: SpecLoggedData, include_timestamp: bool, include_padding: bool) -> SpecLoggedData {
    SpecLoggedData {
        data: SpecInstFormat {
            fields: d.data.fields.filter(
                |f: SpecInstField| keep_field(f.name, include_timestamp, include_padding),
            ),
            ..d.data
        },
        ..d
    }
}

/// A message as handed out: logged data without the fields that the options leave out.
pub open spec fn filter_message(msg: SpecMessage, include_timestamp: bool, include_padding: bool) -> SpecMessage {
    match msg {
        SpecMessage::LoggedData(d) => SpecMessage::LoggedData(
            filter_logged(d, include_timestamp, include_padding),
        ),
        _ => msg,
    }
}

/// How many bytes the parser asks for next: the sixteen of the file header, then for each
/// message the two of its size, the one of its type, and its body.
pub open spec fn wanted_size(m: ParserModel) -> nat {
    match m.state {
        State::HEADER => 16,
        State::EOF => 0,
        _ => match m.pending {
            Pending::Size => 2,
            Pending::Type(_) => 1,
            Pending::Body(n, _) => n as nat,
        },
    }
}

/// Whether the parser has read up to where appended data starts.
pub open spec fn at_limit(m: ParserModel) -> bool {
    match m.read_limit {
        Some(l) => m.bytes_read >= l,
        None => false,
    }
}

/// A count of bytes grown by `n`, held at the largest `usize`.
pub open spec fn count_up(c: usize, n: nat) -> usize {
    if c + n > usize::MAX {
        usize::MAX
    } else {
        (c + n) as usize
    }
}

/// What handing `bytes` to the parser does, when it asked for `wanted_size` bytes: the new
/// model and what is handed back (`Ok(None)` while a message is not complete). Fewer bytes than
/// asked mean that the file ended: before a message, that is its regular end; inside one, an
/// unexpected end.
pub open spec fn supply_step(m: ParserModel, bytes: Seq<u8>) -> (
    ParserModel,
    Result<Option<SpecMessage>, SpecError>,
) {
    let m1 = ParserModel { bytes_read: count_up(m.bytes_read, wanted_size(m)), ..m };
    match m.state {
        State::HEADER => match spec_file_header(bytes) {
            Ok(h) => (
                ParserModel {
                    file_header: Some(h),
                    state: State::DEFINITIONS,
                    pending: Pending::Size,
                    ..m1
                },
                Ok(
                    if m.include_header {
                        Some(SpecMessage::Header(h))
                    } else {
                        None
                    },
                ),
            ),
            Err(_) => (ParserModel { state: State::ERROR, ..m1 }, Err(SpecError::InvalidHeader)),
        },
        State::EOF => (m, Ok(None)),
        _ => match m.pending {
            Pending::Size => if bytes.len() < 2 {
                (ParserModel { state: State::EOF, ..m1 }, Ok(None))
            } else {
                (ParserModel { pending: Pending::Type(le_u16(bytes)), ..m1 }, Ok(None))
            },
            Pending::Type(n) => if bytes.len() < 1 {
                (
                    ParserModel { state: State::EOF, pending: Pending::Size, ..m1 },
                    Err(SpecError::UnexpectedEndOfFile),
                )
            } else {
                (ParserModel { pending: Pending::Body(n, bytes[0]), ..m1 }, Ok(None))
            },
            Pending::Body(n, tb) => if bytes.len() < n {
                (
                    ParserModel { state: State::EOF, pending: Pending::Size, ..m1 },
                    Err(SpecError::UnexpectedEndOfFile),
                )
            } else {
                let body = bytes.take(n as int);
                let t = type_of_byte(tb);
                let m2 = ParserModel { pending: Pending::Size, ..m1 };
                match m.state {
                    State::DEFINITIONS => match spec_parse_definition(m, t, body) {
                        Err(e) => (m2, Err(e)),
                        Ok(msg) => (absorb_definition(m2, msg), Ok(Some(msg))),
                    },
                    State::DATA => match spec_parse_data(m, t, body) {
                        Err(e) => (m2, Err(e)),
                        Ok(msg) => (
                            absorb_data(m2, t, body, msg),
                            Ok(
                                Some(
                                    filter_message(msg, m.include_timestamp, m.include_padding),
                                ),
                            ),
                        ),
                    },
                    _ => (m2, Err(SpecError::ParseError)),
                }
            },
        },
    }
}

/// What a failed read does to the parser: in the file header the parser gives up; elsewhere
/// the message is dropped and the next read starts a new one.
pub open spec fn fail_step(m: ParserModel) -> ParserModel {
    let m1 = ParserModel { bytes_read: count_up(m.bytes_read, wanted_size(m)), ..m };
    match m.state {
        State::HEADER => ParserModel { state: State::ERROR, ..m1 },
        State::EOF => m,
        _ => ParserModel { pending: Pending::Size, ..m1 },
    }
}

/// Whether a returned message matches its model, an error its kind.
pub open spec fn result_matches(
    r: Result<Option<UlogMessage>, ULogError>,
    s: Result<Option<SpecMessage>, SpecError>,
) -> bool {
    match s {
        Ok(None) => r matches Ok(None),
        Ok(Some(msg)) => r matches Ok(Some(x)) && x@ == msg,
        Err(k) => r matches Err(e) && e.kind() == k,
    }
}

/// What asking the parser for the size of the next read does: the size, or `None` once the
/// file is over. Reaching the start of appended data ends the file.
pub open spec fn want_step(m: ParserModel) -> (ParserModel, Option<nat>) {
    match m.state {
        State::EOF => (m, None),
        State::HEADER => (m, Some(16)),
        _ => if m.pending == Pending::Size && at_limit(m) {
            (ParserModel { state: State::EOF, ..m }, None)
        } else {
            (m, Some(wanted_size(m)))
        },
    }
}

/// The model of a parser at the start of a file: nothing known, every option off, all data
/// decoded.
pub open spec fn initial_model() -> ParserModel {
    ParserModel {
        state: State::HEADER,
        pending: Pending::Size,
        file_header: None,
        formats: Seq::empty(),
        subscriptions: Map::empty(),
        multi_id_names: Seq::empty(),
        filter_names: None,
        filter_ids: None,
        bytes_read: 0,
        read_limit: None,
        include_header: false,
        include_timestamp: false,
        include_padding: false,
    }
}

/// Once the file is over, it stays over: the parser asks for nothing more, and bytes handed
/// to it change nothing and give nothing.
pub proof fn eof_is_final(m: ParserModel, bytes: Seq<u8>)
    requires
        m.state == State::EOF,
    ensures
        want_step(m) == (m, None::<nat>),
        supply_step(m, bytes) == (m, Ok::<Option<SpecMessage>, SpecError>(None)),
{
}

/// No logged data is lost to the allow list: the data of a known subscription that the filter
/// leaves out comes back whole, as the raw bytes of an `Ignored` message.
pub proof fn filtered_data_comes_back_raw(m: ParserModel, bytes: Seq<u8>)
    requires
        bytes.len() >= 2,
        m.subscriptions.contains_key(le_u16(bytes)),
        !allowed(m.filter_ids, le_u16(bytes)),
    ensures
        spec_parse_data(m, ULogMessageType::DATA, bytes) == Ok::<SpecMessage, SpecError>(
            SpecMessage::Ignored(0x44, bytes),
        ),
{
}

/// A parser without an allow list decodes the logged data of every known subscription: none
/// of it comes back as raw bytes.
pub proof fn all_data_decoded_without_a_list(m: ParserModel, bytes: Seq<u8>)
    requires
        m.filter_ids is None,
    ensures
        !(spec_parse_data(m, ULogMessageType::DATA, bytes) matches Ok(SpecMessage::Ignored(_, _))),
{
}

} // verus!
