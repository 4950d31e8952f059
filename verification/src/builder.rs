//! A builder that configures a parser before parsing starts.
use vstd::prelude::*;

use crate::errors::ULogError;
use crate::parser::{ULogParser, names_view};
use crate::steps::{ParserModel, initial_model};

verus! {

/// The options of a parser to be built: the reader, whether the file header is handed out,
/// whether `timestamp` and padding fields stay in logged data, and which subscriptions' data
/// is decoded.
pub struct ULogParserBuilder<R> {
    reader: R,
    include_header: bool,
    include_timestamp: bool,
    include_padding: bool,
    allowed_subscription_names: Option<Vec<String>>,
}

impl<R> ULogParserBuilder<R> {
    /// The reader the parser will read.
    pub closed spec fn source(&self) -> R {
        self.reader
    }

    /// The options chosen: file header, timestamps, padding.
    pub closed spec fn options(&self) -> (bool, bool, bool) {
        (self.include_header, self.include_timestamp, self.include_padding)
    }

    /// The names of the subscriptions whose data is decoded, or `None` for all.
    pub closed spec fn allow_list(&self) -> Option<Seq<Seq<char>>> {
        match self.allowed_subscription_names {
            None => None,
            Some(v) => Some(names_view(v@)),
        }
    }

    /// A builder for a parser of `reader`, with every option off and all data decoded.
    pub fn new(reader: R) -> (r: Self)
        ensures
            r.source() == reader,
            r.options() == (false, false, false),
            r.allow_list() is None,
    {
        ULogParserBuilder {
            reader,
            include_header: false,
            include_timestamp: false,
            include_padding: false,
            allowed_subscription_names: None,
        }
    }

    /// Whether the file header is handed out as a message.
    pub fn include_header(self, enabled: bool) -> (r: Self)
        ensures
            r.source() == self.source(),
            r.options() == (enabled, self.options().1, self.options().2),
            r.allow_list() == self.allow_list(),
    {
        let mut b = self;
        b.include_header = enabled;
        b
    }

    /// Whether `timestamp` fields stay in logged data (its timestamp is given apart).
    pub fn include_timestamp(self, enabled: bool) -> (r: Self)
        ensures
            r.source() == self.source(),
            r.options() == (self.options().0, enabled, self.options().2),
            r.allow_list() == self.allow_list(),
    {
        let mut b = self;
        b.include_timestamp = enabled;
        b
    }

    /// Whether padding fields stay in logged data.
    pub fn include_padding(self, enabled: bool) -> (r: Self)
        ensures
            r.source() == self.source(),
            r.options() == (self.options().0, self.options().1, enabled),
            r.allow_list() == self.allow_list(),
    {
        let mut b = self;
        b.include_padding = enabled;
        b
    }

    /// Sets the names of the subscriptions whose logged data is decoded. The data of any other
    /// subscription is handed out as the raw bytes of an `Ignored` message, so no message is
    /// lost; decoding only what is needed saves work.
    pub fn set_subscription_allow_list(self, subs: Vec<String>) -> (r: Self)
        ensures
            r.source() == self.source(),
            r.options() == self.options(),
            r.allow_list() == Some(names_view(subs@)),
    {
        let mut b = self;
        b.allowed_subscription_names = Some(subs);
        b
    }

    /// The parser with the options chosen.
    pub fn build(self) -> (r: Result<ULogParser<R>, ULogError>)
        ensures
            r matches Ok(p) && p.inv() && p.source() == self.source() && p.model() == (ParserModel {
                include_header: self.options().0,
                include_timestamp: self.options().1,
                include_padding: self.options().2,
                filter_names: self.allow_list(),
                filter_ids: if self.allow_list() is Some {
                    Some(Set::<u16>::empty())
                } else {
                    None
                },
                ..initial_model()
            }),
    {
        let ULogParserBuilder {
            reader,
            include_header,
            include_timestamp,
            include_padding,
            allowed_subscription_names,
        } = self;
        let mut parser = ULogParser::new(reader)?;
        parser.set_options(include_header, include_timestamp, include_padding);
        match allowed_subscription_names {
            Some(names) => parser.set_allowed_subscription_names(names),
            None => {},
        }
        Ok(parser)
    }
}

} // verus!
