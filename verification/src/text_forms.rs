//! The text forms of definitions and messages, for people to read: types and fields as format
//! definitions write them, subscriptions, dropouts, log messages and parameters.
use vstd::prelude::*;
use vstd::utf8::*;

use crate::encode::{Encode, base_type_name, field_text, push_str, type_text};
use crate::info_text::{lemma_append_text, push_decimal, push_signed, signed_text};
use crate::model::def;
use crate::model::def::{SpecField, field_views};
use crate::model::inst::ParameterValue;
use crate::model::msg::{DefaultParameter, Dropout, LogLevel, LoggedString, Parameter, Subscription};
use crate::text::{decimal_text, string_from_utf8};

verus! {

/// The string whose UTF-8 bytes `bytes` hold.
fn text_of_bytes(bytes: Vec<u8>, Ghost(t): Ghost<Seq<char>>) -> (r: String)
    requires
        bytes@ == encode_utf8(t),
    ensures
        r@ == t,
{
    proof {
        encode_utf8_valid_utf8(t);
        encode_utf8_decode_utf8(t);
    }
    match string_from_utf8(bytes) {
        Ok(s) => s,
        Err(_) => String::new(),
    }
}

/// Appends `s` to a buffer holding the UTF-8 bytes of `text`.
fn append_str(out: &mut Vec<u8>, Ghost(text): Ghost<Seq<char>>, s: &str)
    requires
        old(out)@ == encode_utf8(text),
    ensures
        final(out)@ == encode_utf8(text + s@),
{
    push_str(out, s);
    proof {
        lemma_append_text(text, s@);
    }
}

/// Appends the decimal digits of `n` to a buffer holding the UTF-8 bytes of `text`.
fn append_decimal(out: &mut Vec<u8>, Ghost(text): Ghost<Seq<char>>, n: u64)
    requires
        old(out)@ == encode_utf8(text),
    ensures
        final(out)@ == encode_utf8(text + decimal_text(n as nat)),
{
    push_decimal(out, n);
    proof {
        lemma_append_text(text, decimal_text(n as nat));
    }
}

/// Field definitions joined by `; `.
pub open spec fn fields_display(fs: Seq<SpecField>) -> Seq<char>
    decreases fs.len(),
{
    if fs.len() == 0 {
        Seq::empty()
    } else if fs.len() == 1 {
        field_text(fs[0])
    } else {
        fields_display(fs.drop_last()) + "; "@ + field_text(fs.last())
    }
}

/// The name of a log level.
pub open spec fn level_name(l: LogLevel) -> Seq<char> {
    match l {
        LogLevel::Emerg => "EMERG"@,
        LogLevel::Alert => "ALERT"@,
        LogLevel::Crit => "CRIT"@,
        LogLevel::Error => "ERR"@,
        LogLevel::Warning => "WARNING"@,
        LogLevel::Notice => "NOTICE"@,
        LogLevel::Info => "INFO"@,
        LogLevel::Debug => "DEBUG"@,
    }
}

/// The text of a parameter value; `None` for a floating-point one.
pub open spec fn parameter_value_text(v: ParameterValue) -> Option<Seq<char>> {
    match v {
        ParameterValue::INT32(x) => Some(signed_text(x as int)),
        ParameterValue::FLOAT(_) => None,
    }
}

/// The kinds of default a default parameter gives, as its text names them.
pub open spec fn default_kinds_text(bits: u8) -> Seq<char> {
    let system = bits & 1 != 0;
    let config = bits & 2 != 0;
    if system && config {
        "SystemWide|Configuration"@
    } else if system {
        "SystemWide"@
    } else if config {
        "Configuration"@
    } else {
        Seq::empty()
    }
}

impl def::BaseType {
    /// The name of the type as format definitions write it.
    pub fn to_text(&self) -> (r: String)
        ensures
            r@ == base_type_name(self@),
    {
        text_of_bytes(self.encode_to_vec(), Ghost(base_type_name(self@)))
    }
}

impl def::TypeExpr {
    /// The type as format definitions write it: the base type, then `[n]` for an array.
    pub fn to_text(&self) -> (r: String)
        ensures
            r@ == type_text(self@),
    {
        text_of_bytes(self.encode_to_vec(), Ghost(type_text(self@)))
    }
}

impl def::Field {
    /// The field as format definitions write it: its type, a space, its name.
    pub fn to_text(&self) -> (r: String)
        ensures
            r@ == field_text(self@),
    {
        text_of_bytes(self.encode_to_vec(), Ghost(field_text(self@)))
    }
}

impl def::Format {
    /// The fields of the format, joined by `; `.
    pub fn to_text(&self) -> (r: String)
        ensures
            r@ == fields_display(field_views(self.fields@)),
    {
        let ghost fs = field_views(self.fields@);
        let mut out: Vec<u8> = Vec::new();
        proof {
            assert(fs.take(0) =~= Seq::<SpecField>::empty());
            assert(encode_utf8(Seq::<char>::empty()) =~= Seq::<u8>::empty());
        }
        let mut i: usize = 0;
        while i < self.fields.len()
            invariant
                i <= self.fields@.len(),
                fs == field_views(self.fields@),
                out@ == encode_utf8(fields_display(fs.take(i as int))),
            decreases self.fields@.len() - i,
        {
            let ghost head = fields_display(fs.take(i as int));
            assert(fs.take(i + 1).drop_last() =~= fs.take(i as int));
            if i > 0 {
                append_str(&mut out, Ghost(head), "; ");
                let ghost h2 = head + "; "@;
                let ghost before = out@;
                self.fields[i].encode(&mut out);
                proof {
                    lemma_append_text(h2, field_text(fs[i as int]));
                    assert(h2 + field_text(fs[i as int]) == fields_display(fs.take(i + 1)));
                }
            } else {
                self.fields[i].encode(&mut out);
                proof {
                    assert(out@ =~= encode_utf8(field_text(fs[0])));
                }
            }
            i += 1;
        }
        assert(fs.take(i as int) =~= fs);
        text_of_bytes(out, Ghost(fields_display(fs)))
    }
}

impl Subscription {
    /// `Subscription: `, the name of the subscribed format, ` msg_id: ` and the message id.
    pub fn to_text(&self) -> (r: String)
        ensures
            r@ == "Subscription: "@ + self.message_name@ + " msg_id: "@ + decimal_text(
                self.msg_id as nat,
            ),
    {
        let mut out: Vec<u8> = Vec::new();
        assert(encode_utf8(Seq::<char>::empty()) =~= Seq::<u8>::empty());
        append_str(&mut out, Ghost(Seq::empty()), "Subscription: ");
        let ghost t1 = Seq::<char>::empty() + "Subscription: "@;
        append_str(&mut out, Ghost(t1), self.message_name.as_str());
        let ghost t2 = t1 + self.message_name@;
        append_str(&mut out, Ghost(t2), " msg_id: ");
        let ghost t3 = t2 + " msg_id: "@;
        append_decimal(&mut out, Ghost(t3), self.msg_id as u64);
        let ghost t4 = t3 + decimal_text(self.msg_id as nat);
        assert(t4 =~= "Subscription: "@ + self.message_name@ + " msg_id: "@ + decimal_text(
            self.msg_id as nat,
        ));
        text_of_bytes(out, Ghost(t4))
    }
}

impl Dropout {
    /// The duration, in decimal.
    pub fn to_text(&self) -> (r: String)
        ensures
            r@ == decimal_text(self@ as nat),
    {
        let mut out: Vec<u8> = Vec::new();
        assert(encode_utf8(Seq::<char>::empty()) =~= Seq::<u8>::empty());
        append_decimal(&mut out, Ghost(Seq::empty()), self.duration() as u64);
        assert(Seq::<char>::empty() + decimal_text(self@ as nat) =~= decimal_text(self@ as nat));
        text_of_bytes(out, Ghost(decimal_text(self@ as nat)))
    }
}

impl LogLevel {
    /// The name of the level.
    pub fn to_text(&self) -> (r: &'static str)
        ensures
            r@ == level_name(*self),
    {
        match self {
            LogLevel::Emerg => "EMERG",
            LogLevel::Alert => "ALERT",
            LogLevel::Crit => "CRIT",
            LogLevel::Error => "ERR",
            LogLevel::Warning => "WARNING",
            LogLevel::Notice => "NOTICE",
            LogLevel::Info => "INFO",
            LogLevel::Debug => "DEBUG",
        }
    }
}

impl LoggedString {
    /// The level, then ` Tag: ` and the tag for a tagged message, then a space, the timestamp,
    /// `: ` and the text.
    pub fn to_text(&self) -> (r: String)
        ensures
            r@ == level_name(self.level) + match self.tag {
                None => Seq::empty(),
                Some(t) => " Tag: "@ + decimal_text(t as nat),
            } + " "@ + decimal_text(self.timestamp as nat) + ": "@ + self.msg@,
    {
        let mut out: Vec<u8> = Vec::new();
        assert(encode_utf8(Seq::<char>::empty()) =~= Seq::<u8>::empty());
        append_str(&mut out, Ghost(Seq::empty()), self.level.to_text());
        let ghost mut t = Seq::<char>::empty() + level_name(self.level);
        assert(t =~= level_name(self.level));
        match self.tag {
            Some(tag) => {
                append_str(&mut out, Ghost(t), " Tag: ");
                proof {
                    t = t + " Tag: "@;
                }
                append_decimal(&mut out, Ghost(t), tag as u64);
                proof {
                    t = t + decimal_text(tag as nat);
                }
            },
            None => {},
        }
        let ghost t0 = t;
        append_str(&mut out, Ghost(t0), " ");
        let ghost t1 = t0 + " "@;
        append_decimal(&mut out, Ghost(t1), self.timestamp);
        let ghost t2 = t1 + decimal_text(self.timestamp as nat);
        append_str(&mut out, Ghost(t2), ": ");
        let ghost t3 = t2 + ": "@;
        append_str(&mut out, Ghost(t3), self.msg.as_str());
        let ghost t4 = t3 + self.msg@;
        assert(t4 =~= level_name(self.level) + match self.tag {
            None => Seq::empty(),
            Some(tg) => " Tag: "@ + decimal_text(tg as nat),
        } + " "@ + decimal_text(self.timestamp as nat) + ": "@ + self.msg@);
        text_of_bytes(out, Ghost(t4))
    }
}

impl ParameterValue {
    /// The value in decimal; `None` for a floating-point value, whose text is left to the
    /// caller.
    pub fn to_text(&self) -> (r: Option<String>)
        ensures
            match parameter_value_text(*self) {
                Some(t) => r matches Some(s) && s@ == t,
                None => r is None,
            },
    {
        match self {
            ParameterValue::INT32(x) => {
                let mut out: Vec<u8> = Vec::new();
                push_signed(&mut out, *x as i64);
                assert(out@ =~= encode_utf8(signed_text(*x as int)));
                Some(text_of_bytes(out, Ghost(signed_text(*x as int))))
            },
            ParameterValue::FLOAT(_) => None,
        }
    }
}

impl Parameter {
    /// The key, `: ` and the value; `None` for a floating-point value, whose text is left to
    /// the caller.
    pub fn to_text(&self) -> (r: Option<String>)
        ensures
            match parameter_value_text(self.value) {
                Some(t) => r matches Some(s) && s@ == self.key@ + ": "@ + t,
                None => r is None,
            },
    {
        match self.value.to_text() {
            None => None,
            Some(v) => {
                let mut out: Vec<u8> = Vec::new();
                assert(encode_utf8(Seq::<char>::empty()) =~= Seq::<u8>::empty());
                append_str(&mut out, Ghost(Seq::empty()), self.key.as_str());
                let ghost t1 = Seq::<char>::empty() + self.key@;
                append_str(&mut out, Ghost(t1), ": ");
                let ghost t2 = t1 + ": "@;
                append_str(&mut out, Ghost(t2), v.as_str());
                let ghost t3 = t2 + v@;
                assert(t3 =~= self.key@ + ": "@ + v@);
                Some(text_of_bytes(out, Ghost(t3)))
            },
        }
    }
}

impl DefaultParameter {
    /// The kinds of default the parameter gives: `SystemWide`, `Configuration`, both joined by
    /// `|`, or nothing.
    pub fn default_kinds(&self) -> (r: &'static str)
        ensures
            r@ == default_kinds_text(self.default_types),
    {
        let kinds = self.get_default_type();
        proof {
            reveal_strlit("");
        }
        if kinds.system_wide && kinds.configuration {
            "SystemWide|Configuration"
        } else if kinds.system_wide {
            "SystemWide"
        } else if kinds.configuration {
            "Configuration"
        } else {
            ""
        }
    }

    /// The key, the kinds of default in brackets (`SystemWide`, `Configuration`, or both
    /// joined by `|`), `: ` and the value; `None` for a floating-point value, whose text is
    /// left to the caller.
    pub fn to_text(&self) -> (r: Option<String>)
        ensures
            match parameter_value_text(self.value) {
                Some(t) => r matches Some(s) && s@ == self.key@ + " ("@ + default_kinds_text(
                    self.default_types,
                ) + "): "@ + t,
                None => r is None,
            },
    {
        match self.value.to_text() {
            None => None,
            Some(v) => {
                let k = self.default_kinds();
                let mut out: Vec<u8> = Vec::new();
                assert(encode_utf8(Seq::<char>::empty()) =~= Seq::<u8>::empty());
                append_str(&mut out, Ghost(Seq::empty()), self.key.as_str());
                let ghost t1 = Seq::<char>::empty() + self.key@;
                append_str(&mut out, Ghost(t1), " (");
                let ghost t2 = t1 + " ("@;
                append_str(&mut out, Ghost(t2), k);
                let ghost t3 = t2 + k@;
                append_str(&mut out, Ghost(t3), "): ");
                let ghost t4 = t3 + "): "@;
                append_str(&mut out, Ghost(t4), v.as_str());
                let ghost t5 = t4 + v@;
                assert(t5 =~= self.key@ + " ("@ + default_kinds_text(self.default_types) + "): "@
                    + v@);
                Some(text_of_bytes(out, Ghost(t5)))
            },
        }
    }
}

} // verus!
