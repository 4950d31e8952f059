//! The streaming parser: its tables of formats and subscriptions, and the state machine that
//! turns the bytes of a ULog file into messages.
use std::collections::{HashMap, HashSet};
use std::rc::Rc;
use vstd::prelude::*;

use vstd::bytes::u16_from_le_bytes;
use vstd::slice::slice_subrange;

use crate::errors::ULogError;
use crate::formats::parse_format;
use crate::message_buf::{MessageBuf, le_u16};
use crate::messages::{ULogMessageType, parse_logged_string};
use crate::model::def;
use crate::model::def::SpecFormat;
use crate::model::msg::{Dropout, FileHeader, SpecMessage, Subscription, UlogMessage};
use crate::steps::{
    ParserModel, absorb_data, initial_model, absorb_definition, absorb_subscription, fail_step, filter_message,
    result_matches, spec_parse_data, spec_parse_definition, supply_step, want_step,
};
use crate::text::str_eq;

verus! {

/// Where the parser stands in the file.
#[allow(clippy::upper_case_acronyms)]
#[derive(Debug, PartialEq, Eq, Structural, Copy, Clone)]
pub enum State {
    HEADER,
    DEFINITIONS,
    DATA,
    EOF,
    ERROR,
}

/// The part of a message that the parser reads next: its size, its type, or its body.
#[derive(Debug, PartialEq, Eq, Structural, Copy, Clone)]
pub enum Pending {
    Size,
    Type(u16),
    Body(u16, u8),
}

/// The model of a subscription: its multi id, its message id and the name of its format.
impl View for Subscription {
    type V = (u8, u16, Seq<char>);

    open spec fn view(&self) -> (u8, u16, Seq<char>) {
        (self.multi_id, self.msg_id, self.message_name@)
    }
}

/// The models of the entries of a format table: each key with the format stored under it.
pub open spec fn table_view(formats: Seq<(String, Rc<def::Format>)>) -> Seq<(Seq<char>, SpecFormat)> {
    formats.map_values(|e: (String, Rc<def::Format>)| (e.0@, (*e.1)@))
}

/// The format stored under `name`: the last entry with that key, as later entries replace
/// earlier ones.
pub open spec fn lookup_format(tbl: Seq<(Seq<char>, SpecFormat)>, name: Seq<char>) -> Option<
    SpecFormat,
>
    decreases tbl.len(),
{
    if tbl.len() == 0 {
        None
    } else if tbl.last().0 == name {
        Some(tbl.last().1)
    } else {
        lookup_format(tbl.drop_last(), name)
    }
}

/// The names of a list of strings.
pub open spec fn names_view(names: Seq<String>) -> Seq<Seq<char>> {
    names.map_values(|s: String| s@)
}

/// Which logged data the parser decodes: all of it, or only that of the subscriptions named.
pub struct SubscriptionFilter {
    allowed_subscription_names: Option<Vec<String>>,
    allowed_subscription_ids: Option<HashSet<u16>>,
}

impl SubscriptionFilter {
    /// The names allowed, or `None` when every subscription is.
    pub closed spec fn allowed_names(&self) -> Option<Seq<Seq<char>>> {
        match self.allowed_subscription_names {
            None => None,
            Some(v) => Some(names_view(v@)),
        }
    }

    /// The message ids of the subscriptions seen so far whose names are allowed, or `None`
    /// when every subscription is allowed.
    pub closed spec fn allowed_ids(&self) -> Option<Set<u16>> {
        match self.allowed_subscription_ids {
            None => None,
            Some(s) => Some(s@),
        }
    }

    /// Names and ids are both given or both absent.
    pub open spec fn wf(&self) -> bool {
        self.allowed_names() is Some <==> self.allowed_ids() is Some
    }

    /// A filter that allows only the subscriptions named; no id is known yet.
    pub fn new(subscr_names: Vec<String>) -> (r: Self)
        ensures
            r.wf(),
            r.allowed_names() == Some(names_view(subscr_names@)),
            r.allowed_ids() == Some(Set::<u16>::empty()),
    {
        Self {
            allowed_subscription_names: Some(subscr_names),
            allowed_subscription_ids: Some(HashSet::new()),
        }
    }

    /// A filter that allows every subscription.
    pub fn allow_all() -> (r: Self)
        ensures
            r.wf(),
            r.allowed_names() is None,
            r.allowed_ids() is None,
    {
        Self { allowed_subscription_names: None, allowed_subscription_ids: None }
    }

    /// Records the id of a new subscription when its name is allowed.
    pub fn update_ids(&mut self, sub: &Subscription)
        requires
            old(self).wf(),
        ensures
            final(self).wf(),
            final(self).allowed_names() == old(self).allowed_names(),
            final(self).allowed_ids() == match old(self).allowed_names() {
                Some(names) => if names.contains(sub.message_name@) {
                    Some(old(self).allowed_ids().unwrap().insert(sub.msg_id))
                } else {
                    old(self).allowed_ids()
                },
                None => old(self).allowed_ids(),
            },
    {
        let allowed = match &self.allowed_subscription_names {
            Some(names) => contains_name(names, sub.message_name.as_str()),
            None => false,
        };
        if allowed {
            match &mut self.allowed_subscription_ids {
                Some(ids) => {
                    ids.insert(sub.msg_id);
                },
                None => {},
            }
        }
    }

    /// Whether data logged under `msg_id` is decoded.
    pub fn is_allowed(&self, msg_id: u16) -> (r: bool)
        ensures
            r == match self.allowed_ids() {
                None => true,
                Some(ids) => ids.contains(msg_id),
            },
    {
        match &self.allowed_subscription_ids {
            None => true,
            Some(set) => set.contains(&msg_id),
        }
    }
}

/// Whether `name` is among `names`.
pub fn contains_name(names: &Vec<String>, name: &str) -> (r: bool)
    ensures
        r == names_view(names@).contains(name@),
{
    let mut i: usize = 0;
    while i < names.len()
        invariant
            i <= names@.len(),
            forall|k: int| 0 <= k < i ==> names@[k]@ != name@,
        decreases names@.len() - i,
    {
        if str_eq(names[i].as_str(), name) {
            assert(names_view(names@)[i as int] == name@);
            return true;
        }
        i += 1;
    }
    assert(!names_view(names@).contains(name@)) by {
        if names_view(names@).contains(name@) {
            let k = choose|k: int| 0 <= k < names_view(names@).len() && names_view(names@)[k] == name@;
            assert(names@[k]@ == name@);
        }
    }
    false
}

/// `Rc::clone`: another pointer to the same allocation, so to the same value. std documents
/// that the clone points to the allocation of the original.
#[verifier::external_body]
pub(crate) fn share<T>(rc: &Rc<T>) -> (r: Rc<T>)
    ensures
        *r == **rc,
{
    Rc::clone(rc)
}

/// The streaming ULog parser. It owns the reader that the bytes come from; the reads
/// themselves are made by its caller, which asks `bytes_wanted` how many bytes come next and
/// hands them to `supply`.
pub struct ULogParser<R> {
    state: State,
    pending: Pending,
    file_header: Option<FileHeader>,
    pub formats: Vec<(String, Rc<def::Format>)>,
    subscriptions: HashMap<u16, Subscription>,
    message_name_with_multi_id: Vec<String>,
    subscription_filter: SubscriptionFilter,
    reader: R,
    num_bytes_read: usize,
    max_bytes_to_read: Option<usize>,
    include_header: bool,
    include_timestamp: bool,
    include_padding: bool,
}

impl<R> ULogParser<R> {
    /// The formats known, keyed by name, in the order they were stored.
    pub closed spec fn format_table(&self) -> Seq<(Seq<char>, SpecFormat)> {
        table_view(self.formats@)
    }

    /// The subscriptions known, by message id.
    pub closed spec fn subscription_table(&self) -> Map<u16, (u8, u16, Seq<char>)> {
        self.subscriptions@.map_values(|s: Subscription| s@)
    }

    /// The names of the formats logged under more than one instance (multi id).
    pub closed spec fn multi_id_names(&self) -> Seq<Seq<char>> {
        names_view(self.message_name_with_multi_id@)
    }

    /// The filter on logged data.
    pub closed spec fn filter_names(&self) -> Option<Seq<Seq<char>>> {
        self.subscription_filter.allowed_names()
    }

    /// The message ids whose logged data is decoded, or `None` when all of it is.
    pub closed spec fn filter_ids(&self) -> Option<Set<u16>> {
        self.subscription_filter.allowed_ids()
    }

    /// Whether padding fields stay in logged data.
    pub closed spec fn includes_padding(&self) -> bool {
        self.include_padding
    }

    /// The reader the bytes come from.
    pub closed spec fn source(&self) -> R {
        self.reader
    }

    /// The invariant of the parser: its filter is well formed, and every subscription is stored
    /// under its own message id.
    pub closed spec fn inv(&self) -> bool {
        &&& self.subscription_filter.wf()
        &&& forall|k: u16| #[trigger]
            self.subscription_table().contains_key(k) ==> self.subscription_table()[k].1 == k
    }

    /// The parts of the model are what the parser's readers speak of: its tables, its filter
    /// and its options.
    pub proof fn lemma_model_parts(&self)
        ensures
            self.model().formats == self.format_table(),
            self.model().subscriptions == self.subscription_table(),
            self.model().multi_id_names == self.multi_id_names(),
            self.model().filter_names == self.filter_names(),
            self.model().filter_ids == self.filter_ids(),
            self.model().include_padding == self.includes_padding(),
    {
    }

    /// The invariant, seen through the model: the filter's names and ids are both given or both
    /// absent, and every subscription is stored under its own message id.
    pub proof fn lemma_inv(&self)
        requires
            self.inv(),
        ensures
            self.model().filter_names is Some <==> self.model().filter_ids is Some,
            forall|k: u16| #[trigger]
                self.model().subscriptions.contains_key(k) ==> self.model().subscriptions[k].1 == k,
    {
    }

    /// The model of the parser.
    pub closed spec fn model(&self) -> ParserModel {
        ParserModel {
            state: self.state,
            pending: self.pending,
            file_header: self.file_header,
            formats: self.format_table(),
            subscriptions: self.subscription_table(),
            multi_id_names: self.multi_id_names(),
            filter_names: self.filter_names(),
            filter_ids: self.filter_ids(),
            bytes_read: self.num_bytes_read,
            read_limit: self.max_bytes_to_read,
            include_header: self.include_header,
            include_timestamp: self.include_timestamp,
            include_padding: self.include_padding,
        }
    }

    /// A parser at the start of a file: nothing known, every option off, all data decoded.
    pub fn new(reader: R) -> (r: Result<ULogParser<R>, ULogError>)
        ensures
            r matches Ok(p) && p.inv() && p.model() == initial_model() && p.source() == reader,
    {
        let p = ULogParser {
            state: State::HEADER,
            pending: Pending::Size,
            file_header: None,
            formats: Vec::new(),
            subscriptions: HashMap::new(),
            message_name_with_multi_id: Vec::new(),
            subscription_filter: SubscriptionFilter::allow_all(),
            reader,
            num_bytes_read: 0,
            max_bytes_to_read: None,
            include_header: false,
            include_timestamp: false,
            include_padding: false,
        };
        assert(p.format_table() =~= Seq::<(Seq<char>, SpecFormat)>::empty());
        assert(p.subscription_table() =~= Map::<u16, (u8, u16, Seq<char>)>::empty());
        assert(p.multi_id_names() =~= Seq::<Seq<char>>::empty());
        Ok(p)
    }

    /// The reader, for the caller that reads the bytes the parser asks for.
    pub fn reader_mut(&mut self) -> (r: &mut R)
        ensures
            *r == old(self).source(),
            final(self).model() == old(self).model(),
            final(self).inv() == old(self).inv(),
            final(self).source() == *final(r),
    {
        &mut self.reader
    }

    /// The format stored under `message_name`; `UndefinedFormat` when there is none.
    pub fn get_format(&self, message_name: &str) -> (r: Result<Rc<def::Format>, ULogError>)
        ensures
            match lookup_format(self.format_table(), message_name@) {
                Some(f) => r matches Ok(x) && (*x)@ == f,
                None => r matches Err(ULogError::UndefinedFormat(name)) && name@ == message_name@,
            },
    {
        let ghost tbl = self.format_table();
        let mut i: usize = self.formats.len();
        assert(tbl.take(i as int) =~= tbl);
        while i > 0
            invariant
                i <= self.formats@.len(),
                tbl == self.format_table(),
                tbl.len() == self.formats@.len(),
                lookup_format(tbl, message_name@) == lookup_format(tbl.take(i as int), message_name@),
            decreases i,
        {
            let ghost t = tbl.take(i as int);
            assert(t.drop_last() =~= tbl.take(i - 1));
            assert(t.last() == tbl[i - 1]);
            if str_eq(self.formats[i - 1].0.as_str(), message_name) {
                return Ok(share(&self.formats[i - 1].1));
            }
            i -= 1;
        }
        assert(tbl.take(0) =~= Seq::<(Seq<char>, SpecFormat)>::empty());
        Err(ULogError::UndefinedFormat(message_name.to_owned()))
    }

    /// Stores a format under `message_name`, replacing any stored under that name before.
    pub fn insert_format(&mut self, message_name: &str, format: def::Format)
        ensures
            final(self).model() == (ParserModel {
                formats: old(self).model().formats.push((message_name@, format@)),
                ..old(self).model()
            }),
            final(self).inv() == old(self).inv(),
            final(self).source() == old(self).source(),
    {
        let entry = (message_name.to_owned(), Rc::new(format));
        self.formats.push(entry);
        assert(self.format_table() =~= old(self).format_table().push((message_name@, format@)));
    }

    /// Whether padding fields stay in logged data.
    pub fn padding_included(&self) -> (r: bool)
        ensures
            r == self.includes_padding(),
    {
        self.include_padding
    }

    /// How many entries the format table holds.
    pub fn format_count(&self) -> (r: usize)
        ensures
            r == self.format_table().len(),
    {
        self.formats.len()
    }

    /// Whether `name` is the name of a format logged under more than one instance.
    pub fn is_multi_id_name(&self, name: &str) -> (r: bool)
        ensures
            r == self.multi_id_names().contains(name@),
    {
        contains_name(&self.message_name_with_multi_id, name)
    }

    /// The subscription with message id `msg_id`; `UndefinedSubscription` when there is none.
    pub fn get_subscription(&self, msg_id: u16) -> (r: Result<&Subscription, ULogError>)
        requires
            self.inv(),
        ensures
            match r {
                Ok(s) => self.subscription_table().contains_key(msg_id)
                    && self.subscription_table()[msg_id] == s@ && s.msg_id == msg_id,
                Err(e) => !self.subscription_table().contains_key(msg_id)
                    && e == ULogError::UndefinedSubscription(msg_id),
            },
    {
        match self.subscriptions.get(&msg_id) {
            None => Err(ULogError::UndefinedSubscription(msg_id)),
            Some(sub) => Ok(sub),
        }
    }
}

impl<R> ULogParser<R> {
    /// Stores a new subscription under its message id, allows its id when the filter names it,
    /// and notes its name when its multi id is not zero.
    fn add_subscription(&mut self, sub: &Subscription)
        requires
            old(self).inv(),
        ensures
            final(self).inv(),
            final(self).model() == absorb_subscription(old(self).model(), sub@),
            final(self).source() == old(self).source(),
    {
        let ghost old_subs = self.subscriptions@;
        let ghost old_names = self.message_name_with_multi_id@;
        self.subscriptions.insert(sub.msg_id, sub.duplicate());
        self.subscription_filter.update_ids(sub);
        if sub.multi_id > 0 {
            self.message_name_with_multi_id.push(sub.message_name.clone());
            assert(names_view(self.message_name_with_multi_id@) =~= names_view(old_names).push(
                sub.message_name@,
            ));
        }
        assert(self.subscription_table() =~= old(self).subscription_table().insert(
            sub.msg_id,
            sub@,
        ));
    }

    /// Decodes the body of a message of the data section. Removing a subscription forgets it.
    pub fn parse_data(&mut self, message_type: ULogMessageType, message_buf: MessageBuf) -> (r:
        Result<UlogMessage, ULogError>)
        requires
            old(self).inv(),
        ensures
            final(self).inv(),
            final(self).source() == old(self).source(),
            match spec_parse_data(old(self).model(), message_type, message_buf@) {
                Ok(msg) => r matches Ok(x) && x@ == msg && final(self).model() == (
                if message_type == ULogMessageType::REMOVE_SUBSCRIPTION {
                    ParserModel {
                        subscriptions: old(self).model().subscriptions.remove(
                            le_u16(message_buf@),
                        ),
                        ..old(self).model()
                    }
                } else {
                    old(self).model()
                }),
                Err(k) => r matches Err(e) && e.kind() == k && final(self).model() == old(
                    self,
                ).model(),
            },
    {
        match message_type {
            ULogMessageType::ADD_SUBSCRIPTION => {
                let sub = self.parse_subscription(message_buf)?;
                Ok(UlogMessage::AddSubscription(sub))
            },
            ULogMessageType::REMOVE_SUBSCRIPTION => {
                let contents = message_buf.into_remaining_bytes();
                if contents.len() < 2 {
                    return Err(ULogError::ParseError("the message is too short".to_owned()));
                }
                let msg_id = u16_from_le_bytes(slice_subrange(contents.as_slice(), 0, 2));
                self.subscriptions.remove(&msg_id);
                assert(self.subscription_table() =~= old(self).subscription_table().remove(msg_id));
                Ok(UlogMessage::Unhandled { msg_type: 0x52u8, message_contents: contents })
            },
            ULogMessageType::DATA => {
                let contents = message_buf.into_remaining_bytes();
                if contents.len() < 2 {
                    return Err(ULogError::ParseError("the message is too short".to_owned()));
                }
                let msg_id = u16_from_le_bytes(slice_subrange(contents.as_slice(), 0, 2));
                match self.subscriptions.get(&msg_id) {
                    None => Err(
                        ULogError::ParseError(
                            "logged data with an unknown msg_id: no subscription for it".to_owned(),
                        ),
                    ),
                    Some(sub) => {
                        if self.subscription_filter.is_allowed(msg_id) {
                            let mut rest = MessageBuf::new(contents);
                            let _ = rest.take_u16();
                            let logged_data = self.parse_data_message(sub, rest)?;
                            Ok(UlogMessage::LoggedData(logged_data))
                        } else {
                            Ok(UlogMessage::Ignored { msg_type: 0x44u8, message_contents: contents })
                        }
                    },
                }
            },
            ULogMessageType::LOGGING => Ok(
                UlogMessage::LoggedString(parse_logged_string(false, message_buf)?),
            ),
            ULogMessageType::LOGGING_TAGGED => Ok(
                UlogMessage::TaggedLoggedString(parse_logged_string(true, message_buf)?),
            ),
            ULogMessageType::DROPOUT => {
                let mut message_buf = message_buf;
                let duration = message_buf.take_u16()?;
                Ok(UlogMessage::DropoutMark(Dropout::new(duration)))
            },
            ULogMessageType::PARAMETER => Ok(
                UlogMessage::Parameter(self.parse_parameter(message_buf)?),
            ),
            ULogMessageType::PARAMETER_DEFAULT => Ok(
                UlogMessage::DefaultParameter(self.parse_default_parameter(message_buf)?),
            ),
            ULogMessageType::INFO => Ok(UlogMessage::Info(self.parse_info(message_buf)?)),
            ULogMessageType::INFO_MULTIPLE => Ok(
                UlogMessage::MultiInfo(self.parse_multi_info(message_buf)?),
            ),
            _ => Ok(
                UlogMessage::Unhandled {
                    msg_type: message_type.to_u8(),
                    message_contents: message_buf.into_remaining_bytes(),
                },
            ),
        }
    }

    /// Decodes the body of a message of the definitions section. Flag bits that announce
    /// appended data set where reading stops.
    fn parse_definition(&mut self, message_type: ULogMessageType, message_buf: MessageBuf) -> (r:
        Result<UlogMessage, ULogError>)
        requires
            old(self).inv(),
        ensures
            final(self).inv(),
            final(self).source() == old(self).source(),
            match spec_parse_definition(old(self).model(), message_type, message_buf@) {
                Ok(msg) => r matches Ok(x) && x@ == msg && final(self).model() == (match msg {
                    SpecMessage::FlagBits(_) => absorb_definition(old(self).model(), msg),
                    _ => old(self).model(),
                }),
                Err(k) => r matches Err(e) && e.kind() == k && final(self).model() == old(
                    self,
                ).model(),
            },
    {
        match message_type {
            ULogMessageType::FLAG_BITS => {
                let flag_bits = self.parse_flag_bits(message_buf)?;
                if flag_bits.has_data_appended() {
                    let offsets = flag_bits.appended_data_offsets;
                    self.max_bytes_to_read = if offsets[0] > 0 {
                        Some(offsets[0] as usize)
                    } else if offsets[1] > 0 {
                        Some(offsets[1] as usize)
                    } else {
                        Some(offsets[2] as usize)
                    };
                }
                Ok(UlogMessage::FlagBits(flag_bits))
            },
            ULogMessageType::FORMAT => Ok(UlogMessage::FormatDefinition(parse_format(message_buf)?)),
            ULogMessageType::PARAMETER => Ok(
                UlogMessage::Parameter(self.parse_parameter(message_buf)?),
            ),
            ULogMessageType::PARAMETER_DEFAULT => Ok(
                UlogMessage::DefaultParameter(self.parse_default_parameter(message_buf)?),
            ),
            ULogMessageType::ADD_SUBSCRIPTION => Ok(
                UlogMessage::AddSubscription(self.parse_subscription(message_buf)?),
            ),
            ULogMessageType::INFO => Ok(UlogMessage::Info(self.parse_info(message_buf)?)),
            ULogMessageType::INFO_MULTIPLE => Ok(
                UlogMessage::MultiInfo(self.parse_multi_info(message_buf)?),
            ),
            _ => Ok(
                UlogMessage::Unhandled {
                    msg_type: message_type.to_u8(),
                    message_contents: message_buf.into_remaining_bytes(),
                },
            ),
        }
    }
}

impl<R> ULogParser<R> {
    /// Decodes a message of the definitions section and takes in what it defines.
    fn handle_definition(&mut self, message_type: ULogMessageType, message_buf: MessageBuf) -> (r:
        Result<Option<UlogMessage>, ULogError>)
        requires
            old(self).inv(),
            old(self).model().state == State::DEFINITIONS,
        ensures
            final(self).inv(),
            final(self).source() == old(self).source(),
            match spec_parse_definition(old(self).model(), message_type, message_buf@) {
                Ok(msg) => r matches Ok(Some(x)) && x@ == msg && final(self).model()
                    == absorb_definition(old(self).model(), msg),
                Err(k) => r matches Err(e) && e.kind() == k && final(self).model() == old(
                    self,
                ).model(),
            },
    {
        let msg = self.parse_definition(message_type, message_buf)?;
        match msg {
            UlogMessage::FormatDefinition(format) => {
                let stored = format.duplicate();
                let name = format.name.clone();
                self.formats.push((name, Rc::new(stored)));
                assert(self.format_table() =~= old(self).format_table().push((format.name@, format@)));
                Ok(Some(UlogMessage::FormatDefinition(format)))
            },
            UlogMessage::AddSubscription(sub) => {
                self.add_subscription(&sub);
                self.state = State::DATA;
                Ok(Some(UlogMessage::AddSubscription(sub)))
            },
            other => Ok(Some(other)),
        }
    }

    /// Decodes a message of the data section and takes in a new subscription; logged data
    /// loses the fields that the options leave out.
    fn handle_data(&mut self, message_type: ULogMessageType, message_buf: MessageBuf) -> (r: Result<
        Option<UlogMessage>,
        ULogError,
    >)
        requires
            old(self).inv(),
            old(self).model().state == State::DATA,
        ensures
            final(self).inv(),
            final(self).source() == old(self).source(),
            match spec_parse_data(old(self).model(), message_type, message_buf@) {
                Ok(msg) => r matches Ok(Some(x)) && x@ == filter_message(
                    msg,
                    old(self).model().include_timestamp,
                    old(self).model().include_padding,
                ) && final(self).model() == absorb_data(
                    old(self).model(),
                    message_type,
                    message_buf@,
                    msg,
                ),
                Err(k) => r matches Err(e) && e.kind() == k && final(self).model() == old(
                    self,
                ).model(),
            },
    {
        let msg = self.parse_data(message_type, message_buf)?;
        match msg {
            UlogMessage::AddSubscription(sub) => {
                self.add_subscription(&sub);
                Ok(Some(UlogMessage::AddSubscription(sub)))
            },
            UlogMessage::LoggedData(logged_data) => {
                let mut logged_data = logged_data;
                logged_data.filter_fields(self.include_timestamp, self.include_padding);
                Ok(Some(UlogMessage::LoggedData(logged_data)))
            },
            other => Ok(Some(other)),
        }
    }

    /// How many bytes to read next and hand to `supply`, or `None` once the file is over. Once
    /// the parser has read up to where appended data starts, the file is over.
    pub fn bytes_wanted(&mut self) -> (r: Option<usize>)
        ensures
            final(self).inv() == old(self).inv(),
            final(self).source() == old(self).source(),
            final(self).model() == want_step(old(self).model()).0,
            match want_step(old(self).model()).1 {
                None => r is None,
                Some(n) => r == Some(n as usize),
            },
    {
        match self.state {
            State::EOF => None,
            State::HEADER => Some(16),
            _ => {
                match self.pending {
                    Pending::Size => {
                        match self.max_bytes_to_read {
                            Some(limit) => {
                                if self.num_bytes_read >= limit {
                                    self.state = State::EOF;
                                    return None;
                                }
                            },
                            None => {},
                        }
                        Some(2)
                    },
                    Pending::Type(_) => Some(1),
                    Pending::Body(n, _) => Some(n as usize),
                }
            },
        }
    }

    /// Takes the last part of a message, its body, and decodes the message by the section the
    /// parser is in.
    #[verifier::spinoff_prover]
    #[verifier::rlimit(40)]
    fn supply_body(&mut self, size: u16, type_byte: u8, bytes: Vec<u8>) -> (r: Result<
        Option<UlogMessage>,
        ULogError,
    >)
        requires
            old(self).inv(),
            old(self).model().state != State::HEADER,
            old(self).model().state != State::EOF,
            old(self).model().pending == Pending::Body(size, type_byte),
        ensures
            final(self).inv(),
            final(self).source() == old(self).source(),
            final(self).model() == supply_step(old(self).model(), bytes@).0,
            result_matches(r, supply_step(old(self).model(), bytes@).1),
    {
        let ghost m = self.model();
        self.num_bytes_read = self.num_bytes_read.saturating_add(size as usize);
        self.pending = Pending::Size;
        if bytes.len() < size as usize {
            self.state = State::EOF;
            return Err(ULogError::UnexpectedEndOfFile);
        }
        let ghost m2 = self.model();
        let mut body = bytes;
        body.truncate(size as usize);
        let message_type = ULogMessageType::from_u8(type_byte);
        let message_buf = MessageBuf::new(body);
        match self.state {
            State::DEFINITIONS => {
                let r = self.handle_definition(message_type, message_buf);
                proof {
                    assert(spec_parse_definition(m2, message_type, body@) == spec_parse_definition(
                        m,
                        message_type,
                        body@,
                    ));
                }
                r
            },
            State::DATA => {
                let r = self.handle_data(message_type, message_buf);
                proof {
                    assert(spec_parse_data(m2, message_type, body@) == spec_parse_data(
                        m,
                        message_type,
                        body@,
                    ));
                }
                r
            },
            _ => Err(ULogError::ParseError("the parser is in an invalid state".to_owned())),
        }
    }

    /// Hands the parser the bytes it asked for: fewer mean that the file ended. Gives back a
    /// message once one is complete, `Ok(None)` while it is not, or the error in it.
    pub fn supply(&mut self, bytes: Vec<u8>) -> (r: Result<Option<UlogMessage>, ULogError>)
        requires
            old(self).inv(),
        ensures
            final(self).inv(),
            final(self).source() == old(self).source(),
            final(self).model() == supply_step(old(self).model(), bytes@).0,
            result_matches(r, supply_step(old(self).model(), bytes@).1),
    {
        match self.state {
            State::EOF => Ok(None),
            State::HEADER => {
                self.num_bytes_read = self.num_bytes_read.saturating_add(16);
                match self.read_file_header(&bytes) {
                    Ok(header) => {
                        self.file_header = Some(header);
                        self.state = State::DEFINITIONS;
                        self.pending = Pending::Size;
                        if self.include_header {
                            Ok(Some(UlogMessage::Header(header)))
                        } else {
                            Ok(None)
                        }
                    },
                    Err(_) => {
                        self.state = State::ERROR;
                        Err(ULogError::InvalidHeader)
                    },
                }
            },
            _ => {
                match self.pending {
                    Pending::Size => {
                        self.num_bytes_read = self.num_bytes_read.saturating_add(2);
                        if bytes.len() < 2 {
                            self.state = State::EOF;
                        } else {
                            let size = u16_from_le_bytes(slice_subrange(bytes.as_slice(), 0, 2));
                            self.pending = Pending::Type(size);
                        }
                        Ok(None)
                    },
                    Pending::Type(size) => {
                        self.num_bytes_read = self.num_bytes_read.saturating_add(1);
                        if bytes.len() < 1 {
                            self.state = State::EOF;
                            self.pending = Pending::Size;
                            Err(ULogError::UnexpectedEndOfFile)
                        } else {
                            self.pending = Pending::Body(size, bytes[0]);
                            Ok(None)
                        }
                    },
                    Pending::Body(size, type_byte) => self.supply_body(size, type_byte, bytes),
                }
            },
        }
    }

    /// Tells the parser that the read it asked for failed with `err`, and gives back the error
    /// to report: a failed read of the file header leaves the file unreadable; a failed read
    /// inside a message drops that message.
    pub fn fail_read(&mut self, err: std::io::Error) -> (r: ULogError)
        ensures
            final(self).inv() == old(self).inv(),
            final(self).source() == old(self).source(),
            final(self).model() == fail_step(old(self).model()),
            old(self).model().state == State::HEADER ==> r is InvalidHeader,
            old(self).model().state != State::HEADER ==> r == ULogError::Io(err),
    {
        match self.state {
            State::HEADER => {
                self.num_bytes_read = self.num_bytes_read.saturating_add(16);
                self.state = State::ERROR;
                ULogError::InvalidHeader
            },
            State::EOF => ULogError::Io(err),
            _ => {
                let wanted: usize = match self.pending {
                    Pending::Size => 2,
                    Pending::Type(_) => 1,
                    Pending::Body(n, _) => n as usize,
                };
                self.num_bytes_read = self.num_bytes_read.saturating_add(wanted);
                self.pending = Pending::Size;
                ULogError::Io(err)
            },
        }
    }
}

impl<R> ULogParser<R> {
    /// Decodes only the logged data of the subscriptions named.
    pub(crate) fn set_allowed_subscription_names(&mut self, subscr_names: Vec<String>)
        requires
            old(self).inv(),
        ensures
            final(self).inv(),
            final(self).source() == old(self).source(),
            final(self).model() == (ParserModel {
                filter_names: Some(names_view(subscr_names@)),
                filter_ids: Some(Set::<u16>::empty()),
                ..old(self).model()
            }),
    {
        self.subscription_filter = SubscriptionFilter::new(subscr_names);
    }

    /// Decodes only the logged data of the subscriptions named. The builder's
    /// `set_subscription_allow_list` does the same before parsing starts.
    pub fn set_subscription_allow_list(&mut self, set: Vec<String>)
        requires
            old(self).inv(),
        ensures
            final(self).inv(),
            final(self).source() == old(self).source(),
            final(self).model() == (ParserModel {
                filter_names: Some(names_view(set@)),
                filter_ids: Some(Set::<u16>::empty()),
                ..old(self).model()
            }),
    {
        self.set_allowed_subscription_names(set);
    }

    /// Sets whether the file header is handed out, and whether `timestamp` fields and padding
    /// fields stay in logged data.
    pub(crate) fn set_options(
        &mut self,
        include_header: bool,
        include_timestamp: bool,
        include_padding: bool,
    )
        ensures
            final(self).inv() == old(self).inv(),
            final(self).source() == old(self).source(),
            final(self).model() == (ParserModel {
                include_header,
                include_timestamp,
                include_padding,
                ..old(self).model()
            }),
    {
        self.include_header = include_header;
        self.include_timestamp = include_timestamp;
        self.include_padding = include_padding;
    }
}

impl<R> ULogParser<R> {
    /// What a read gives back of a write: once `insert_format` has stored `f` under `name`,
    /// `get_format(name)` gives `f`. `before` is a parser, `after` what `insert_format` makes of it.
    pub proof fn format_read_after_insert(before: &Self, after: &Self, name: Seq<char>, f: SpecFormat)
        requires
            after.model() == (ParserModel {
                formats: before.model().formats.push((name, f)),
                ..before.model()
            }),
        ensures
            lookup_format(after.format_table(), name) == Some(f),
    {
        after.lemma_model_parts();
        assert(after.format_table().drop_last() == before.model().formats);
    }

    /// A subscription taken in is read back: `get_subscription` finds it under its message id.
    /// `after` is what taking in the subscription `s` makes of `before`.
    pub proof fn subscription_read_after_add(before: &Self, after: &Self, s: (u8, u16, Seq<char>))
        requires
            after.model() == absorb_subscription(before.model(), s),
        ensures
            after.subscription_table().contains_key(s.1),
            after.subscription_table()[s.1] == s,
    {
        after.lemma_model_parts();
        before.lemma_model_parts();
    }

    /// A removed subscription is gone: after a REMOVE_SUBSCRIPTION message naming `id`,
    /// `get_subscription(id)` fails; the other subscriptions stay. `after` is what removing
    /// `id` makes of `before`.
    pub proof fn subscription_gone_after_remove(before: &Self, after: &Self, id: u16)
        requires
            after.model() == (ParserModel {
                subscriptions: before.model().subscriptions.remove(id),
                ..before.model()
            }),
        ensures
            !after.subscription_table().contains_key(id),
            forall|k: u16| k != id ==> #[trigger] after.subscription_table().contains_key(k)
                == before.subscription_table().contains_key(k),
    {
        after.lemma_model_parts();
        before.lemma_model_parts();
    }
}

} // verus!
