//! Conversions between bytes and text, and equality of text.
use vstd::prelude::*;
use vstd::utf8::*;

use crate::tokenizer::chars_of;

verus! {

/// `String::from_utf8`: the text that `bytes` encode, or an error when they are not UTF-8.
/// The documentation of std states both; the decoded characters are those of vstd's model of
/// UTF-8.
#[verifier::external_body]
pub(crate) fn string_from_utf8(bytes: Vec<u8>) -> (r: Result<String, std::string::FromUtf8Error>)
    ensures
        r is Ok <==> valid_utf8(bytes@),
        r matches Ok(s) ==> s@ == decode_utf8(bytes@),
{
    String::from_utf8(bytes)
}

/// The text that `String::from_utf8_lossy` makes of `bytes`: each sequence that is not UTF-8
/// replaced by U+FFFD.
pub uninterp spec fn lossy_text(bytes: Seq<u8>) -> Seq<char>;

/// `String::from_utf8_lossy`, made an owned `String`: the text of `bytes` with each invalid
/// sequence replaced by U+FFFD. std documents that it depends on the bytes alone and that valid
/// UTF-8 comes back as the text it encodes; which replacement characters appear otherwise is
/// left to the name `lossy_text`.
#[verifier::external_body]
pub(crate) fn string_from_utf8_lossy(bytes: &[u8]) -> (r: String)
    ensures
        r@ == lossy_text(bytes@),
        valid_utf8(bytes@) ==> r@ == decode_utf8(bytes@),
{
    String::from_utf8_lossy(bytes).into_owned()
}

/// Whether two texts hold the same characters.
pub fn str_eq(a: &str, b: &str) -> (r: bool)
    ensures
        r == (a@ == b@),
{
    let x = chars_of(a);
    let y = chars_of(b);
    if x.len() != y.len() {
        return false;
    }
    let mut i: usize = 0;
    while i < x.len()
        invariant
            x@ == a@,
            y@ == b@,
            x@.len() == y@.len(),
            i <= x@.len(),
            forall|k: int| 0 <= k < i ==> x@[k] == y@[k],
        decreases x@.len() - i,
    {
        if x[i] != y[i] {
            return false;
        }
        i += 1;
    }
    assert(a@ =~= b@);
    true
}

/// The encoding of a concatenation is the concatenation of the encodings.
pub proof fn lemma_encode_utf8_concat(a: Seq<char>, b: Seq<char>)
    ensures
        encode_utf8(a + b) == encode_utf8(a) + encode_utf8(b),
    decreases a.len(),
{
    if a.len() == 0 {
        assert(a + b =~= b);
    } else {
        assert((a + b).drop_first() =~= a.drop_first() + b);
        lemma_encode_utf8_concat(a.drop_first(), b);
        assert(encode_utf8(a + b) =~= encode_utf8(a) + encode_utf8(b));
    }
}

/// An ASCII character is encoded as its own value in one byte.
pub proof fn lemma_encode_ascii_char(c: char)
    requires
        c <= '\u{7f}',
    ensures
        encode_utf8(seq![c]) == seq![c as u8],
{
    let s = seq![c];
    assert(is_ascii_chars(s));
    is_ascii_chars_encode_utf8(s);
    assert(encode_utf8(s) =~= seq![c as u8]);
}

/// The character whose scalar value is `v`.
pub open spec fn char_from_value(v: nat) -> char {
    v as char
}

/// The character of a decimal digit.
pub open spec fn digit_char(d: nat) -> char {
    char_from_value(48 + d)
}

/// The decimal representation of `n`, without leading zeros.
pub open spec fn decimal_text(n: nat) -> Seq<char>
    decreases n,
{
    if n < 10 {
        seq![digit_char(n)]
    } else {
        decimal_text(n / 10) + seq![digit_char(n % 10)]
    }
}

/// The bytes of the decimal representation of `n`.
pub fn decimal_bytes(n: usize) -> (r: Vec<u8>)
    ensures
        r@ == encode_utf8(decimal_text(n as nat)),
    decreases n,
{
    let d = (n % 10) as u8;
    let c: u8 = 48u8 + d;
    proof {
        lemma_encode_ascii_char(digit_char((n % 10) as nat));
        assert(digit_char((n % 10) as nat) as u8 == c);
    }
    if n < 10 {
        let mut v: Vec<u8> = Vec::new();
        v.push(c);
        assert(v@ =~= seq![c]);
        v
    } else {
        let mut v = decimal_bytes(n / 10);
        v.push(c);
        proof {
            lemma_encode_utf8_concat(decimal_text((n / 10) as nat), seq![digit_char((n % 10) as nat)]);
            assert(v@ =~= encode_utf8(decimal_text((n / 10) as nat)) + seq![c]);
        }
        v
    }
}

} // verus!
