use std::collections::VecDeque;
use vstd::prelude::*;
use vstd::string::StrSliceExecFns;

use crate::errors::ULogError;

verus! {

/// A lexical token of a format or field definition, borrowing its text from the input.
#[derive(Debug, PartialEq, Eq)]
pub enum Token<'a> {
    Identifier(&'a str),
    Number(usize),
    Colon,
    Semicolon,
    LBrace,
    RBrace,
    Unknown(char),
}

/// The model of a token: identifiers by their characters, numbers by their value.
pub enum SpecToken {
    Identifier(Seq<char>),
    Number(nat),
    Colon,
    Semicolon,
    LBrace,
    RBrace,
    Unknown(char),
}

impl<'a> View for Token<'a> {
    type V = SpecToken;

    open spec fn view(&self) -> SpecToken {
        match self {
            Token::Identifier(s) => SpecToken::Identifier(s@),
            Token::Number(n) => SpecToken::Number(*n as nat),
            Token::Colon => SpecToken::Colon,
            Token::Semicolon => SpecToken::Semicolon,
            Token::LBrace => SpecToken::LBrace,
            Token::RBrace => SpecToken::RBrace,
            Token::Unknown(c) => SpecToken::Unknown(*c),
        }
    }
}

/// A character that may start an identifier: `[a-zA-Z_]`.
pub open spec fn is_ident_start(c: char) -> bool {
    ('a' <= c && c <= 'z') || ('A' <= c && c <= 'Z') || c == '_'
}

/// A decimal digit.
pub open spec fn is_digit(c: char) -> bool {
    '0' <= c && c <= '9'
}

/// A character that may continue an identifier: `[a-zA-Z0-9_]`.
pub open spec fn is_ident_char(c: char) -> bool {
    is_ident_start(c) || is_digit(c)
}

/// A Unicode white space character, the class `\s`.
pub open spec fn is_space(c: char) -> bool {
    ('\u{9}' <= c && c <= '\u{d}') || c == ' ' || c == '\u{85}' || c == '\u{a0}' || c == '\u{1680}'
        || ('\u{2000}' <= c && c <= '\u{200a}') || c == '\u{2028}' || c == '\u{2029}' || c
        == '\u{202f}' || c == '\u{205f}' || c == '\u{3000}'
}

/// The end of the run of identifier characters that starts at `i`.
pub open spec fn ident_end(s: Seq<char>, i: int) -> int
    decreases s.len() - i,
{
    if 0 <= i < s.len() && is_ident_char(s[i]) {
        ident_end(s, i + 1)
    } else {
        i
    }
}

/// The end of the run of digits that starts at `i`.
pub open spec fn digits_end(s: Seq<char>, i: int) -> int
    decreases s.len() - i,
{
    if 0 <= i < s.len() && is_digit(s[i]) {
        digits_end(s, i + 1)
    } else {
        i
    }
}

/// The end of the run of white space that starts at `i`.
pub open spec fn space_end(s: Seq<char>, i: int) -> int
    decreases s.len() - i,
{
    if 0 <= i < s.len() && is_space(s[i]) {
        space_end(s, i + 1)
    } else {
        i
    }
}

/// The value of a decimal digit.
pub open spec fn digit_value(c: char) -> nat {
    (c as nat - '0' as nat) as nat
}

/// The value of the decimal digits `s[i..j]`.
pub open spec fn decimal_value(s: Seq<char>, i: int, j: int) -> nat
    decreases j - i,
{
    if j <= i {
        0
    } else {
        decimal_value(s, i, j - 1) * 10 + digit_value(s[j - 1])
    }
}

/// The token that starts at `i` (none for white space) and where the next one starts. A token
/// is the longest match of the first alternative that matches: an identifier, a number, one of
/// `:` `;` `[` `]`, a run of white space, or any other single character.
pub open spec fn next_token(s: Seq<char>, i: int) -> (Option<SpecToken>, int) {
    let c = s[i];
    if is_ident_start(c) {
        let j = ident_end(s, i + 1);
        (Some(SpecToken::Identifier(s.subrange(i, j))), j)
    } else if is_digit(c) {
        let j = digits_end(s, i + 1);
        (Some(SpecToken::Number(decimal_value(s, i, j))), j)
    } else if c == ':' {
        (Some(SpecToken::Colon), i + 1)
    } else if c == ';' {
        (Some(SpecToken::Semicolon), i + 1)
    } else if c == '[' {
        (Some(SpecToken::LBrace), i + 1)
    } else if c == ']' {
        (Some(SpecToken::RBrace), i + 1)
    } else if is_space(c) {
        (None, space_end(s, i + 1))
    } else {
        (Some(SpecToken::Unknown(c)), i + 1)
    }
}

/// The tokens of `s[i..]`.
pub open spec fn lex_from(s: Seq<char>, i: int) -> Seq<SpecToken>
    decreases s.len() - i,
{
    if i < 0 || i >= s.len() {
        Seq::empty()
    } else {
        let (t, j) = next_token(s, i);
        if j <= i || j > s.len() {
            Seq::empty()
        } else {
            match t {
                Some(t) => seq![t] + lex_from(s, j),
                None => lex_from(s, j),
            }
        }
    }
}

/// The tokens of the text `s`.
pub open spec fn lex(s: Seq<char>) -> Seq<SpecToken> {
    lex_from(s, 0)
}

/// Every number among `tokens` fits in a `usize`.
pub open spec fn numbers_fit(tokens: Seq<SpecToken>) -> bool {
    forall|k: int| 0 <= k < tokens.len() ==> (#[trigger] tokens[k] matches SpecToken::Number(n)
        ==> n <= usize::MAX)
}

pub(crate) fn chars_of(input: &str) -> (r: Vec<char>)
    ensures
        r@ == input@,
{
    let mut out: Vec<char> = Vec::new();
    for c in it: input.chars()
        invariant
            out@ == it.seq().take(it.index() as int),
    {
        out.push(c);
    }
    out
}

fn is_ident_start_char(c: char) -> (r: bool)
    ensures
        r == is_ident_start(c),
{
    ('a' <= c && c <= 'z') || ('A' <= c && c <= 'Z') || c == '_'
}

fn is_digit_char(c: char) -> (r: bool)
    ensures
        r == is_digit(c),
{
    '0' <= c && c <= '9'
}

fn is_ident_continue_char(c: char) -> (r: bool)
    ensures
        r == is_ident_char(c),
{
    is_ident_start_char(c) || is_digit_char(c)
}

fn is_space_char(c: char) -> (r: bool)
    ensures
        r == is_space(c),
{
    ('\u{9}' <= c && c <= '\u{d}') || c == ' ' || c == '\u{85}' || c == '\u{a0}' || c == '\u{1680}'
        || ('\u{2000}' <= c && c <= '\u{200a}') || c == '\u{2028}' || c == '\u{2029}' || c
        == '\u{202f}' || c == '\u{205f}' || c == '\u{3000}'
}

/// The models of a sequence of tokens.
pub open spec fn token_views<'a>(tokens: Seq<Token<'a>>) -> Seq<SpecToken> {
    tokens.map_values(|t: Token<'a>| t@)
}

proof fn lemma_lex_other(s: Seq<char>, i: int)
    requires
        0 <= i < s.len(),
        !is_ident_start(s[i]),
        !is_digit(s[i]),
        !is_space(s[i]),
        s[i] != ':' && s[i] != ';' && s[i] != '[' && s[i] != ']',
    ensures
        lex_from(s, i) == seq![SpecToken::Unknown(s[i])] + lex_from(s, i + 1),
{
}

proof fn lemma_token_views_push<'a>(tokens: Seq<Token<'a>>, t: Token<'a>)
    ensures
        token_views(tokens.push(t)) == token_views(tokens).push(t@),
{
    assert(token_views(tokens.push(t)) =~= token_views(tokens).push(t@));
}

/// Splits `input` into tokens; `None` when a number does not fit in a `usize`.
fn lex_str<'a>(input: &'a str) -> (r: Option<VecDeque<Token<'a>>>)
    ensures
        r is Some <==> numbers_fit(lex(input@)),
        r matches Some(t) ==> token_views(t@) == lex(input@),
{
    let cs = chars_of(input);
    let n = cs.len();
    let ghost s = input@;
    let mut out: VecDeque<Token<'a>> = VecDeque::new();
    let mut i: usize = 0;
    while i < n
        invariant
            cs@ == s,
            s == input@,
            n == s.len(),
            i <= n,
            token_views(out@) + lex_from(s, i as int) == lex(s),
            numbers_fit(token_views(out@)),
        decreases n - i,
    {
        let c = cs[i];
        let ghost before = token_views(out@);
        if is_ident_start_char(c) {
            let mut j = i + 1;
            while j < n && is_ident_continue_char(cs[j])
                invariant
                    cs@ == s,
                    n == s.len(),
                    i < j <= n,
                    ident_end(s, i + 1) == ident_end(s, j as int),
                decreases n - j,
            {
                j += 1;
            }
            let text = input.substring_char(i, j);
            let ghost old_out = out@;
            out.push_back(Token::Identifier(text));
            proof {
                lemma_token_views_push(old_out, Token::Identifier(text));
                assert(numbers_fit(token_views(out@)));
                assert(before + lex_from(s, i as int) =~= token_views(out@) + lex_from(s, j as int));
            }
            i = j;
        } else if is_digit_char(c) {
            let mut j = i + 1;
            let mut val: usize = (c as u32 - '0' as u32) as usize;
            let mut overflow = false;
            assert(decimal_value(s, i as int, i as int) == 0);
            while j < n && is_digit_char(cs[j])
                invariant
                    cs@ == s,
                    n == s.len(),
                    i < j <= n,
                    digits_end(s, i + 1) == digits_end(s, j as int),
                    !overflow ==> val == decimal_value(s, i as int, j as int),
                    overflow ==> decimal_value(s, i as int, j as int) > usize::MAX,
                decreases n - j,
            {
                let d = (cs[j] as u32 - '0' as u32) as usize;
                if !overflow {
                    if val > (usize::MAX - d) / 10 {
                        overflow = true;
                    } else {
                        val = val * 10 + d;
                    }
                }
                j += 1;
            }
            if overflow {
                proof {
                    assert(lex_from(s, i as int)[0] == SpecToken::Number(decimal_value(s, i as int, j as int)));
                    assert(lex(s)[before.len() as int] == lex_from(s, i as int)[0]);
                }
                return None;
            }
            let ghost old_out = out@;
            out.push_back(Token::Number(val));
            proof {
                lemma_token_views_push(old_out, Token::Number(val));
                assert(numbers_fit(token_views(out@)));
                assert(before + lex_from(s, i as int) =~= token_views(out@) + lex_from(s, j as int));
            }
            i = j;
        } else if c == ':' || c == ';' || c == '[' || c == ']' {
            let t = if c == ':' {
                Token::Colon
            } else if c == ';' {
                Token::Semicolon
            } else if c == '[' {
                Token::LBrace
            } else {
                Token::RBrace
            };
            let ghost old_out = out@;
            out.push_back(t);
            proof {
                lemma_token_views_push(old_out, t);
                assert(before + lex_from(s, i as int) =~= token_views(out@) + lex_from(s, i + 1));
            }
            i = i + 1;
        } else if is_space_char(c) {
            let mut j = i + 1;
            while j < n && is_space_char(cs[j])
                invariant
                    cs@ == s,
                    n == s.len(),
                    i < j <= n,
                    space_end(s, i + 1) == space_end(s, j as int),
                decreases n - j,
            {
                j += 1;
            }
            i = j;
        } else {
            let t = Token::Unknown(c);
            let ghost old_out = out@;
            out.push_back(t);
            proof {
                lemma_token_views_push(old_out, t);
                lemma_lex_other(s, i as int);
                assert(before + lex_from(s, i as int) =~= token_views(out@) + lex_from(s, i + 1));
            }
            i = i + 1;
        }
    }
    assert(token_views(out@) =~= lex(s));
    Some(out)
}

/// Splits `input` into tokens: identifiers, numbers, `:` `;` `[` `]`, and any other character
/// that is not white space as an unknown token. White space separates tokens and yields none.
pub fn tokenize(input: &str) -> (r: VecDeque<Token<'_>>)
    requires
        numbers_fit(lex(input@)),
    ensures
        token_views(r@) == lex(input@),
{
    match lex_str(input) {
        Some(t) => t,
        None => VecDeque::new(),
    }
}

/// A queue of tokens, consumed from the front.
#[derive(Debug)]
pub struct TokenList<'a>(VecDeque<Token<'a>>);

impl<'a> View for TokenList<'a> {
    type V = Seq<SpecToken>;

    closed spec fn view(&self) -> Seq<SpecToken> {
        token_views(self.0@)
    }
}

impl<'a> TokenList<'a> {
    /// A list holding `tokens`.
    pub fn new(tokens: VecDeque<Token<'a>>) -> (r: Self)
        ensures
            r@ == token_views(tokens@),
    {
        TokenList(tokens)
    }

    /// The tokens of `s`. Fails with a parse error when a number in `s` does not fit in a
    /// `usize`.
    pub fn from_str(s: &'a str) -> (r: Result<Self, ULogError>)
        ensures
            r is Ok <==> numbers_fit(lex(s@)),
            r matches Ok(t) ==> t@ == lex(s@),
            r matches Err(e) ==> e is ParseError,
    {
        match lex_str(s) {
            Some(tokens) => Ok(TokenList(tokens)),
            None => Err(ULogError::ParseError("a number is too large".to_owned())),
        }
    }

    /// Whether no token is left.
    pub fn is_empty(&self) -> (r: bool)
        ensures
            r == (self@.len() == 0),
    {
        self.0.len() == 0
    }

    /// The number of tokens left.
    pub fn remaining(&self) -> (r: usize)
        ensures
            r == self@.len(),
    {
        self.0.len()
    }

    /// The next token, if any, without taking it.
    pub fn peek(&self) -> (r: Option<&Token<'a>>)
        ensures
            r is Some <==> self@.len() > 0,
            r matches Some(t) ==> t@ == self@[0],
    {
        if self.0.len() == 0 {
            None
        } else {
            Some(&self.0[0])
        }
    }

    /// Takes the next token. Fails when none is left.
    pub fn consume_one(&mut self) -> (r: Result<Token<'a>, ULogError>)
        ensures
            r is Ok <==> old(self)@.len() >= 1,
            r matches Ok(t) ==> t@ == old(self)@[0] && final(self)@ == old(self)@.skip(1),
            r matches Err(e) ==> e is UnexpectedEndOfFile && final(self)@ == old(self)@,
    {
        let ghost before = self.0@;
        match self.0.pop_front() {
            Some(t) => {
                assert(token_views(self.0@) =~= token_views(before).skip(1));
                Ok(t)
            },
            None => Err(ULogError::UnexpectedEndOfFile),
        }
    }

    /// Takes the next two tokens. Fails when fewer are left; every token left is then taken.
    pub fn consume_two(&mut self) -> (r: Result<(Token<'a>, Token<'a>), ULogError>)
        ensures
            r is Ok <==> old(self)@.len() >= 2,
            r matches Ok(t) ==> t.0@ == old(self)@[0] && t.1@ == old(self)@[1] && final(self)@
                == old(self)@.skip(2),
            r matches Err(e) ==> e is UnexpectedEndOfFile && final(self)@.len() == 0,
    {
        let t0 = match self.consume_one() {
            Ok(t) => t,
            Err(e) => return Err(e),
        };
        let t1 = match self.consume_one() {
            Ok(t) => t,
            Err(e) => return Err(e),
        };
        assert(self@ =~= old(self)@.skip(2));
        Ok((t0, t1))
    }

    /// Takes the next three tokens. Fails when fewer are left; every token left is then taken.
    pub fn consume_three(&mut self) -> (r: Result<(Token<'a>, Token<'a>, Token<'a>), ULogError>)
        ensures
            r is Ok <==> old(self)@.len() >= 3,
            r matches Ok(t) ==> t.0@ == old(self)@[0] && t.1@ == old(self)@[1] && t.2@ == old(
                self,
            )@[2] && final(self)@ == old(self)@.skip(3),
            r matches Err(e) ==> e is UnexpectedEndOfFile && final(self)@.len() == 0,
    {
        let t0 = match self.consume_one() {
            Ok(t) => t,
            Err(e) => return Err(e),
        };
        let t1 = match self.consume_one() {
            Ok(t) => t,
            Err(e) => return Err(e),
        };
        let t2 = match self.consume_one() {
            Ok(t) => t,
            Err(e) => return Err(e),
        };
        assert(self@ =~= old(self)@.skip(3));
        Ok((t0, t1, t2))
    }
}

} // verus!
