pub mod def;
pub mod inst;
pub mod msg;

use vstd::prelude::*;

use crate::model::inst::cchar_bytes;
use crate::text::{lossy_text, string_from_utf8_lossy};

verus! {

/// A byte of character data.
#[derive(Clone, Copy, Debug, PartialEq, Eq)]
pub struct CChar(pub u8);

impl From<u8> for CChar {
    fn from(byte: u8) -> (r: CChar) {
        CChar(byte)
    }
}

impl vstd::std_specs::convert::FromSpecImpl<u8> for CChar {
    open spec fn obeys_from_spec() -> bool {
        true
    }

    open spec fn from_spec(v: u8) -> CChar {
        CChar(v)
    }
}

/// Text made of character data.
pub trait CCharSlice {
    /// The characters as text; bytes that are not UTF-8 become U+FFFD. Strings in a log are not
    /// terminated by a NUL, so every byte counts.
    fn to_string_lossy(&self) -> String;
}

impl CCharSlice for [CChar] {
    fn to_string_lossy(&self) -> (r: String)
        ensures
            r@ == lossy_text(cchar_bytes(self@)),
    {
        let mut bytes: Vec<u8> = Vec::with_capacity(self.len());
        let mut i: usize = 0;
        while i < self.len()
            invariant
                i <= self@.len(),
                bytes@ == cchar_bytes(self@).take(i as int),
            decreases self@.len() - i,
        {
            bytes.push(self[i].0);
            assert(bytes@ =~= cchar_bytes(self@).take(i + 1));
            i += 1;
        }
        assert(cchar_bytes(self@).take(self@.len() as int) =~= cchar_bytes(self@));
        string_from_utf8_lossy(bytes.as_slice())
    }
}

impl From<CChar> for u8 {
    fn from(c: CChar) -> (r: u8) {
        c.0
    }
}

impl vstd::std_specs::convert::FromSpecImpl<CChar> for u8 {
    open spec fn obeys_from_spec() -> bool {
        true
    }

    open spec fn from_spec(v: CChar) -> u8 {
        v.0
    }
}

} // verus!
