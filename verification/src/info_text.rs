//! The text form of information messages, `key: value`, for every value that is not a
//! floating-point number: numbers in decimal (`ver_*_release` numbers in hexadecimal), characters
//! bare, text in quotes, arrays in brackets, values of formats by name in braces.
use vstd::prelude::*;
use vstd::utf8::*;

use crate::encode::{push_ascii, push_str};
use crate::model::inst::{self, FieldValue, SpecFieldValue, cchar_bytes, formats_view};
use crate::model::CChar;
use crate::tokenizer::chars_of;
use crate::model::msg::{Info, MultiInfo};
use crate::text::{
    char_from_value, decimal_text, digit_char, lemma_encode_ascii_char, lemma_encode_utf8_concat,
    string_from_utf8,
};
use crate::values::{display_name, lemma_formats_view_index};

verus! {

/// The text of a signed number: a minus sign before the decimal digits of a negative one.
pub open spec fn signed_text(v: int) -> Seq<char> {
    if v < 0 {
        seq!['-'] + decimal_text((-v) as nat)
    } else {
        decimal_text(v as nat)
    }
}

/// The character of a hexadecimal digit, upper case.
pub open spec fn hex_digit(d: nat) -> char {
    if d < 10 {
        digit_char(d)
    } else {
        char_from_value(55 + d)
    }
}

/// The hexadecimal digits of `n`, upper case, without leading zeros.
pub open spec fn hex_text(n: nat) -> Seq<char>
    decreases n,
{
    if n < 16 {
        seq![hex_digit(n)]
    } else {
        hex_text(n / 16) + seq![hex_digit(n % 16)]
    }
}

/// A `uint32_t` shown with `0x` before its hexadecimal digits.
pub open spec fn prefixed_hex_text(n: nat) -> Seq<char> {
    seq!['0', 'x'] + hex_text(n)
}

/// A character byte: itself when ASCII, else `\x` and its two hexadecimal digits.
pub open spec fn cchar_text(c: u8) -> Seq<char> {
    if c < 128 {
        seq![char_from_value(c as nat)]
    } else {
        seq!['\\', 'x', hex_digit((c / 16) as nat), hex_digit((c % 16) as nat)]
    }
}

/// The texts of the character bytes, one after the other.
pub open spec fn cchars_text(cs: Seq<u8>) -> Seq<char>
    decreases cs.len(),
{
    if cs.len() == 0 {
        Seq::empty()
    } else {
        cchars_text(cs.drop_last()) + cchar_text(cs.last())
    }
}

/// `true` or `false`.
pub open spec fn bool_text(b: bool) -> Seq<char> {
    if b {
        seq!['t', 'r', 'u', 'e']
    } else {
        seq!['f', 'a', 'l', 's', 'e']
    }
}

/// Texts joined by `, `.
pub open spec fn joined(items: Seq<Seq<char>>) -> Seq<char>
    decreases items.len(),
{
    if items.len() == 0 {
        Seq::empty()
    } else if items.len() == 1 {
        items[0]
    } else {
        joined(items.drop_last()) + seq![',', ' '] + items.last()
    }
}

/// Texts joined by `, ` in brackets.
pub open spec fn list_text(items: Seq<Seq<char>>) -> Seq<char> {
    seq!['['] + joined(items) + seq![']']
}

/// A value of a format, shown by its name in braces.
pub open spec fn braced_name(f: inst::SpecInstFormat) -> Seq<char> {
    seq!['{'] + display_name(f) + seq!['}']
}

/// Whether a key names a release number, shown in hexadecimal: `ver_` before, `_release`
/// after.
pub open spec fn is_release_key(key: Seq<char>) -> bool {
    let pre = seq!['v', 'e', 'r', '_'];
    let post = seq!['_', 'r', 'e', 'l', 'e', 'a', 's', 'e'];
    &&& key.len() >= 4 && key.take(4) == pre
    &&& key.len() >= 8 && key.skip(key.len() - 8) == post
}

/// Whether a value is a floating-point number or an array of them.
pub open spec fn is_float_value(v: SpecFieldValue) -> bool {
    v is ScalarF32 || v is ScalarF64 || v is ArrayF32 || v is ArrayF64
}

/// The text of the value of an information message with key `key`; `None` for a
/// floating-point value.
pub open spec fn info_value_text(key: Seq<char>, v: SpecFieldValue) -> Option<Seq<char>> {
    match v {
        SpecFieldValue::ScalarU8(x) => Some(decimal_text(x as nat)),
        SpecFieldValue::ScalarU16(x) => Some(decimal_text(x as nat)),
        SpecFieldValue::ScalarU32(x) => Some(
            if is_release_key(key) {
                prefixed_hex_text(x as nat)
            } else {
                decimal_text(x as nat)
            },
        ),
        SpecFieldValue::ScalarU64(x) => Some(decimal_text(x as nat)),
        SpecFieldValue::ScalarI8(x) => Some(signed_text(x as int)),
        SpecFieldValue::ScalarI16(x) => Some(signed_text(x as int)),
        SpecFieldValue::ScalarI32(x) => Some(signed_text(x as int)),
        SpecFieldValue::ScalarI64(x) => Some(signed_text(x as int)),
        SpecFieldValue::ScalarBool(b) => Some(bool_text(b)),
        SpecFieldValue::ScalarChar(c) => Some(cchar_text(c)),
        SpecFieldValue::ScalarOther(f) => Some(braced_name(f)),
        SpecFieldValue::ArrayU8(a) => Some(list_text(a.map_values(|x: u8| decimal_text(x as nat)))),
        SpecFieldValue::ArrayU16(a) => Some(list_text(a.map_values(|x: u16| decimal_text(x as nat)))),
        SpecFieldValue::ArrayU32(a) => Some(list_text(a.map_values(|x: u32| decimal_text(x as nat)))),
        SpecFieldValue::ArrayU64(a) => Some(list_text(a.map_values(|x: u64| decimal_text(x as nat)))),
        SpecFieldValue::ArrayI8(a) => Some(list_text(a.map_values(|x: i8| signed_text(x as int)))),
        SpecFieldValue::ArrayI16(a) => Some(list_text(a.map_values(|x: i16| signed_text(x as int)))),
        SpecFieldValue::ArrayI32(a) => Some(list_text(a.map_values(|x: i32| signed_text(x as int)))),
        SpecFieldValue::ArrayI64(a) => Some(list_text(a.map_values(|x: i64| signed_text(x as int)))),
        SpecFieldValue::ArrayBool(a) => Some(list_text(a.map_values(|x: bool| bool_text(x)))),
        SpecFieldValue::ArrayChar(a) => Some(seq!['"'] + cchars_text(a) + seq!['"']),
        SpecFieldValue::ArrayOther(a) => Some(
            list_text(a.map_values(|f: inst::SpecInstFormat| braced_name(f))),
        ),
        _ => None,
    }
}

/// The line of an information message: its key, `: ` and its value; `None` for a
/// floating-point value.
pub open spec fn info_line(key: Seq<char>, v: SpecFieldValue) -> Option<Seq<char>> {
    match info_value_text(key, v) {
        Some(t) => Some(key + seq![':', ' '] + t),
        None => None,
    }
}

/// Appends the UTF-8 bytes of `piece` to a buffer that holds those of `text`.
pub(crate) proof fn lemma_append_text(text: Seq<char>, piece: Seq<char>)
    ensures
        encode_utf8(text) + encode_utf8(piece) == encode_utf8(text + piece),
{
    lemma_encode_utf8_concat(text, piece);
}

/// Appends one ASCII character, `c`, to `out`.
pub(crate) fn push_char(out: &mut Vec<u8>, c: u8)
    requires
        c < 128,
    ensures
        final(out)@ == old(out)@ + encode_utf8(seq![char_from_value(c as nat)]),
{
    push_ascii(out, c);
}

/// Appends the decimal digits of `n`.
pub(crate) fn push_decimal(out: &mut Vec<u8>, n: u64)
    ensures
        final(out)@ == old(out)@ + encode_utf8(decimal_text(n as nat)),
    decreases n,
{
    let ghost start = out@;
    if n >= 10 {
        push_decimal(out, n / 10);
    }
    let d = (n % 10) as u8;
    push_char(out, 48u8 + d);
    proof {
        if n >= 10 {
            lemma_append_text(decimal_text((n / 10) as nat), seq![digit_char((n % 10) as nat)]);
            assert(out@ =~= start + encode_utf8(decimal_text((n / 10) as nat)) + encode_utf8(
                seq![digit_char((n % 10) as nat)],
            ));
        } else {
            assert(out@ =~= start + encode_utf8(decimal_text(n as nat)));
        }
    }
}

/// Appends the hexadecimal digits of `n`, upper case.
fn push_hex(out: &mut Vec<u8>, n: u64)
    ensures
        final(out)@ == old(out)@ + encode_utf8(hex_text(n as nat)),
    decreases n,
{
    let ghost start = out@;
    if n >= 16 {
        push_hex(out, n / 16);
    }
    let d = (n % 16) as u8;
    if d < 10 {
        push_char(out, 48u8 + d);
    } else {
        push_char(out, 55u8 + d);
    }
    proof {
        assert(seq![char_from_value(if d < 10 { 48 + d } else { 55 + d } as nat)] == seq![hex_digit(
            (n % 16) as nat,
        )]);
        if n >= 16 {
            lemma_append_text(hex_text((n / 16) as nat), seq![hex_digit((n % 16) as nat)]);
            assert(out@ =~= start + encode_utf8(hex_text((n / 16) as nat)) + encode_utf8(
                seq![hex_digit((n % 16) as nat)],
            ));
        } else {
            assert(out@ =~= start + encode_utf8(hex_text(n as nat)));
        }
    }
}

/// Appends the text of a signed number.
pub(crate) fn push_signed(out: &mut Vec<u8>, v: i64)
    ensures
        final(out)@ == old(out)@ + encode_utf8(signed_text(v as int)),
{
    let ghost start = out@;
    if v < 0 {
        push_char(out, 45u8);
        let m: u64 = ((-(v + 1)) as u64) + 1;
        push_decimal(out, m);
        proof {
            assert(seq![char_from_value(45)] == seq!['-']);
            lemma_append_text(seq!['-'], decimal_text(m as nat));
            assert(out@ =~= start + encode_utf8(seq!['-']) + encode_utf8(decimal_text(m as nat)));
        }
    } else {
        push_decimal(out, v as u64);
    }
}

/// Appends the text of a character byte.
fn push_cchar(out: &mut Vec<u8>, c: u8)
    ensures
        final(out)@ == old(out)@ + encode_utf8(cchar_text(c)),
{
    let ghost start = out@;
    if c < 128 {
        push_char(out, c);
    } else {
        let hi = c / 16;
        let lo = c % 16;
        push_char(out, 92u8);
        push_char(out, 120u8);
        let ghost mid = out@;
        let hi_c: u8 = if hi < 10 { 48u8 + hi } else { 55u8 + hi };
        let lo_c: u8 = if lo < 10 { 48u8 + lo } else { 55u8 + lo };
        push_char(out, hi_c);
        push_char(out, lo_c);
        proof {
            let t = cchar_text(c);
            assert(char_from_value(92) == '\\');
            assert(char_from_value(120) == 'x');
            assert(char_from_value(hi_c as nat) == hex_digit(hi as nat));
            assert(char_from_value(lo_c as nat) == hex_digit(lo as nat));
            lemma_append_text(seq!['\\'], seq!['x']);
            lemma_append_text(seq!['\\', 'x'], seq![hex_digit(hi as nat)]);
            lemma_append_text(seq!['\\', 'x', hex_digit(hi as nat)], seq![hex_digit(lo as nat)]);
            assert(seq!['\\'] + seq!['x'] =~= seq!['\\', 'x']);
            assert(seq!['\\', 'x'] + seq![hex_digit(hi as nat)] =~= seq!['\\', 'x', hex_digit(hi as nat)]);
            assert(seq!['\\', 'x', hex_digit(hi as nat)] + seq![hex_digit(lo as nat)] =~= t);
            assert(out@ =~= start + encode_utf8(t));
        }
    }
}

/// A value that is shown as an element of an array.
pub(crate) trait ElementText {
    /// The text of the value.
    spec fn element_text(&self) -> Seq<char>;

    /// Appends the text of the value.
    fn push_element(&self, out: &mut Vec<u8>)
        ensures
            final(out)@ == old(out)@ + encode_utf8(self.element_text()),
    ;
}

impl ElementText for u8 {
    open spec fn element_text(&self) -> Seq<char> {
        decimal_text(*self as nat)
    }

    fn push_element(&self, out: &mut Vec<u8>) {
        push_decimal(out, *self as u64);
    }
}

impl ElementText for u16 {
    open spec fn element_text(&self) -> Seq<char> {
        decimal_text(*self as nat)
    }

    fn push_element(&self, out: &mut Vec<u8>) {
        push_decimal(out, *self as u64);
    }
}

impl ElementText for u32 {
    open spec fn element_text(&self) -> Seq<char> {
        decimal_text(*self as nat)
    }

    fn push_element(&self, out: &mut Vec<u8>) {
        push_decimal(out, *self as u64);
    }
}

impl ElementText for u64 {
    open spec fn element_text(&self) -> Seq<char> {
        decimal_text(*self as nat)
    }

    fn push_element(&self, out: &mut Vec<u8>) {
        push_decimal(out, *self);
    }
}

impl ElementText for i8 {
    open spec fn element_text(&self) -> Seq<char> {
        signed_text(*self as int)
    }

    fn push_element(&self, out: &mut Vec<u8>) {
        push_signed(out, *self as i64);
    }
}

impl ElementText for i16 {
    open spec fn element_text(&self) -> Seq<char> {
        signed_text(*self as int)
    }

    fn push_element(&self, out: &mut Vec<u8>) {
        push_signed(out, *self as i64);
    }
}

impl ElementText for i32 {
    open spec fn element_text(&self) -> Seq<char> {
        signed_text(*self as int)
    }

    fn push_element(&self, out: &mut Vec<u8>) {
        push_signed(out, *self as i64);
    }
}

impl ElementText for i64 {
    open spec fn element_text(&self) -> Seq<char> {
        signed_text(*self as int)
    }

    fn push_element(&self, out: &mut Vec<u8>) {
        push_signed(out, *self);
    }
}

impl ElementText for bool {
    open spec fn element_text(&self) -> Seq<char> {
        bool_text(*self)
    }

    fn push_element(&self, out: &mut Vec<u8>) {
        proof {
            reveal_strlit("true");
            reveal_strlit("false");
            assert("true"@ =~= bool_text(true));
            assert("false"@ =~= bool_text(false));
        }
        if *self {
            push_str(out, "true");
        } else {
            push_str(out, "false");
        }
    }
}

impl ElementText for inst::Format {
    open spec fn element_text(&self) -> Seq<char> {
        braced_name(self@)
    }

    fn push_element(&self, out: &mut Vec<u8>) {
        let ghost start = out@;
        let name = self.display_name();
        push_char(out, 123u8);
        push_str(out, name.as_str());
        push_char(out, 125u8);
        proof {
            assert(char_from_value(123) == '{');
            assert(char_from_value(125) == '}');
            lemma_append_text(seq!['{'], display_name(self@));
            lemma_append_text(seq!['{'] + display_name(self@), seq!['}']);
        }
    }
}

/// The texts of the elements of an array.
spec fn element_texts<T: ElementText>(items: Seq<T>) -> Seq<Seq<char>> {
    items.map_values(|x: T| x.element_text())
}

/// Appends the elements' texts, joined by `, `, in brackets.
fn push_list<T: ElementText>(out: &mut Vec<u8>, items: &Vec<T>)
    ensures
        final(out)@ == old(out)@ + encode_utf8(list_text(element_texts(items@))),
{
    let ghost start = out@;
    let ghost texts = element_texts(items@);
    push_char(out, 91u8);
    proof {
        assert(char_from_value(91) == '[');
        assert(texts.take(0) =~= Seq::<Seq<char>>::empty());
        assert(seq!['['] + joined(texts.take(0)) =~= seq!['[']);
    }
    let mut i: usize = 0;
    while i < items.len()
        invariant
            i <= items@.len(),
            texts == element_texts(items@),
            out@ == start + encode_utf8(seq!['['] + joined(texts.take(i as int))),
        decreases items@.len() - i,
    {
        let ghost p = seq!['['] + joined(texts.take(i as int));
        let ghost t = texts[i as int];
        assert(texts.take(i + 1).drop_last() =~= texts.take(i as int));
        if i > 0 {
            push_char(out, 44u8);
            push_char(out, 32u8);
            items[i].push_element(out);
            proof {
                assert(char_from_value(44) == ',');
                assert(char_from_value(32) == ' ');
                lemma_append_text(p, seq![',']);
                lemma_append_text(p + seq![','], seq![' ']);
                lemma_append_text(p + seq![','] + seq![' '], t);
                assert(p + seq![','] + seq![' '] + t =~= seq!['['] + joined(texts.take(i + 1)));
            }
        } else {
            items[i].push_element(out);
            proof {
                lemma_append_text(p, t);
                assert(p + t =~= seq!['['] + joined(texts.take(i + 1)));
            }
        }
        i += 1;
    }
    let ghost p = seq!['['] + joined(texts.take(i as int));
    push_char(out, 93u8);
    proof {
        assert(char_from_value(93) == ']');
        assert(texts.take(i as int) =~= texts);
        lemma_append_text(p, seq![']']);
        assert(p + seq![']'] =~= list_text(texts));
    }
}

/// Appends the texts of character bytes in double quotes.
fn push_quoted(out: &mut Vec<u8>, cs: &Vec<CChar>)
    ensures
        final(out)@ == old(out)@ + encode_utf8(seq!['"'] + cchars_text(cchar_bytes(cs@)) + seq!['"']),
{
    let ghost start = out@;
    let ghost bytes = cchar_bytes(cs@);
    push_char(out, 34u8);
    proof {
        assert(char_from_value(34) == '"');
        assert(bytes.take(0) =~= Seq::<u8>::empty());
        assert(seq!['"'] + cchars_text(bytes.take(0)) =~= seq!['"']);
    }
    let mut i: usize = 0;
    while i < cs.len()
        invariant
            i <= cs@.len(),
            bytes == cchar_bytes(cs@),
            out@ == start + encode_utf8(seq!['"'] + cchars_text(bytes.take(i as int))),
        decreases cs@.len() - i,
    {
        let ghost p = seq!['"'] + cchars_text(bytes.take(i as int));
        push_cchar(out, cs[i].0);
        proof {
            assert(bytes.take(i + 1).drop_last() =~= bytes.take(i as int));
            lemma_append_text(p, cchar_text(cs@[i as int].0));
            assert(p + cchar_text(cs@[i as int].0) =~= seq!['"'] + cchars_text(bytes.take(i + 1)));
        }
        i += 1;
    }
    let ghost p = seq!['"'] + cchars_text(bytes.take(i as int));
    push_char(out, 34u8);
    proof {
        assert(bytes.take(i as int) =~= bytes);
        lemma_append_text(p, seq!['"']);
    }
}

/// The UTF-8 bytes of the line of an information message with key `key` and value `value`;
/// `None` for a floating-point value.
fn line_bytes(key: &String, value: &FieldValue) -> (r: Option<Vec<u8>>)
    ensures
        match info_line(key@, value@) {
            Some(t) => r matches Some(b) && b@ == encode_utf8(t),
            None => r is None,
        },
{
    let mut out: Vec<u8> = Vec::new();
    push_str(&mut out, key.as_str());
    push_char(&mut out, 58u8);
    push_char(&mut out, 32u8);
    let ghost head = key@ + seq![':', ' '];
    proof {
        assert(char_from_value(58) == ':');
        assert(char_from_value(32) == ' ');
        lemma_append_text(key@, seq![':']);
        lemma_append_text(key@ + seq![':'], seq![' ']);
        assert(key@ + seq![':'] + seq![' '] =~= head);
        assert(out@ =~= encode_utf8(head));
    }
    let ghost mid = out@;
    match value {
        FieldValue::ScalarU8(x) => push_decimal(&mut out, *x as u64),
        FieldValue::ScalarU16(x) => push_decimal(&mut out, *x as u64),
        FieldValue::ScalarU32(x) => {
            if is_release_key_exec(key.as_str()) {
                push_char(&mut out, 48u8);
                push_char(&mut out, 120u8);
                push_hex(&mut out, *x as u64);
                proof {
                    assert(char_from_value(48) == '0');
                    assert(char_from_value(120) == 'x');
                    lemma_append_text(seq!['0'], seq!['x']);
                    lemma_append_text(seq!['0', 'x'], hex_text(*x as nat));
                    assert(seq!['0'] + seq!['x'] =~= seq!['0', 'x']);
                    assert(out@ =~= mid + encode_utf8(prefixed_hex_text(*x as nat)));
                }
            } else {
                push_decimal(&mut out, *x as u64);
            }
        },
        FieldValue::ScalarU64(x) => push_decimal(&mut out, *x),
        FieldValue::ScalarI8(x) => push_signed(&mut out, *x as i64),
        FieldValue::ScalarI16(x) => push_signed(&mut out, *x as i64),
        FieldValue::ScalarI32(x) => push_signed(&mut out, *x as i64),
        FieldValue::ScalarI64(x) => push_signed(&mut out, *x),
        FieldValue::ScalarBool(b) => b.push_element(&mut out),
        FieldValue::ScalarChar(c) => push_cchar(&mut out, c.0),
        FieldValue::ScalarOther(f) => {
            let f: &inst::Format = f;
            f.push_element(&mut out);
        },
        FieldValue::ArrayU8(a) => {
            push_list(&mut out, a);
            assert(element_texts(a@) =~= a@.map_values(|x: u8| decimal_text(x as nat)));
        },
        FieldValue::ArrayU16(a) => {
            push_list(&mut out, a);
            assert(element_texts(a@) =~= a@.map_values(|x: u16| decimal_text(x as nat)));
        },
        FieldValue::ArrayU32(a) => {
            push_list(&mut out, a);
            assert(element_texts(a@) =~= a@.map_values(|x: u32| decimal_text(x as nat)));
        },
        FieldValue::ArrayU64(a) => {
            push_list(&mut out, a);
            assert(element_texts(a@) =~= a@.map_values(|x: u64| decimal_text(x as nat)));
        },
        FieldValue::ArrayI8(a) => {
            push_list(&mut out, a);
            assert(element_texts(a@) =~= a@.map_values(|x: i8| signed_text(x as int)));
        },
        FieldValue::ArrayI16(a) => {
            push_list(&mut out, a);
            assert(element_texts(a@) =~= a@.map_values(|x: i16| signed_text(x as int)));
        },
        FieldValue::ArrayI32(a) => {
            push_list(&mut out, a);
            assert(element_texts(a@) =~= a@.map_values(|x: i32| signed_text(x as int)));
        },
        FieldValue::ArrayI64(a) => {
            push_list(&mut out, a);
            assert(element_texts(a@) =~= a@.map_values(|x: i64| signed_text(x as int)));
        },
        FieldValue::ArrayBool(a) => {
            push_list(&mut out, a);
            assert(element_texts(a@) =~= a@.map_values(|x: bool| bool_text(x)));
        },
        FieldValue::ArrayChar(a) => push_quoted(&mut out, a),
        FieldValue::ArrayOther(a) => {
            push_list(&mut out, a);
            proof {
                lemma_formats_view_index(a@);
                assert(element_texts(a@) =~= formats_view(a@).map_values(
                    |f: inst::SpecInstFormat| braced_name(f),
                ));
            }
        },
        _ => {
            return None;
        },
    }
    proof {
        let t = info_value_text(key@, value@)->Some_0;
        assert(out@ == mid + encode_utf8(t));
        lemma_append_text(head, t);
    }
    Some(out)
}

/// Whether a key names a release number: `ver_` before, `_release` after.
fn is_release_key_exec(key: &str) -> (r: bool)
    ensures
        r == is_release_key(key@),
{
    let cs = chars_of(key);
    let n = cs.len();
    if n < 8 {
        return false;
    }
    let pre_ok = cs[0] == 'v' && cs[1] == 'e' && cs[2] == 'r' && cs[3] == '_';
    let post_ok = cs[n - 8] == '_' && cs[n - 7] == 'r' && cs[n - 6] == 'e' && cs[n - 5] == 'l'
        && cs[n - 4] == 'e' && cs[n - 3] == 'a' && cs[n - 2] == 's' && cs[n - 1] == 'e';
    proof {
        let pre = seq!['v', 'e', 'r', '_'];
        let post = seq!['_', 'r', 'e', 'l', 'e', 'a', 's', 'e'];
        if pre_ok {
            assert(key@.take(4) =~= pre);
        }
        if key@.take(4) == pre {
            assert(key@.take(4)[3] == '_');
        }
        if post_ok {
            assert(key@.skip(key@.len() - 8) =~= post);
        }
        if key@.skip(key@.len() - 8) == post {
            assert(key@.skip(key@.len() - 8)[7] == 'e');
        }
    }
    pre_ok && post_ok
}

impl Info {
    /// The text of the message, `key: value`, with a `ver_*_release` number in hexadecimal;
    /// `None` when the value is a floating-point number, whose text is left to the caller.
    pub fn info_text(&self) -> (r: Option<String>)
        ensures
            r is None <==> is_float_value(self.value@),
            r matches Some(s) ==> s@ == info_line(self.key@, self.value@)->Some_0,
    {
        line_text(&self.key, &self.value)
    }
}

impl MultiInfo {
    /// The text of the message, `key: value`, as for an information message; `None` when the
    /// value is a floating-point number, whose text is left to the caller.
    pub fn info_text(&self) -> (r: Option<String>)
        ensures
            r is None <==> is_float_value(self.value@),
            r matches Some(s) ==> s@ == info_line(self.key@, self.value@)->Some_0,
    {
        line_text(&self.key, &self.value)
    }
}

/// The text of the line of an information message; `None` for a floating-point value.
fn line_text(key: &String, value: &FieldValue) -> (r: Option<String>)
    ensures
        r is None <==> is_float_value(value@),
        r matches Some(s) ==> s@ == info_line(key@, value@)->Some_0,
{
    match line_bytes(key, value) {
        None => None,
        Some(bytes) => {
            let ghost t = info_line(key@, value@)->Some_0;
            proof {
                encode_utf8_valid_utf8(t);
                encode_utf8_decode_utf8(t);
            }
            match string_from_utf8(bytes) {
                Ok(s) => Some(s),
                Err(_) => None,
            }
        },
    }
}

} // verus!
