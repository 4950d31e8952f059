//! Laws of format definitions: a well-formed format is read back from its encoding, and every
//! format that parsing yields is well-formed, so re-encoding a parsed format and parsing it
//! again gives the same format.
use vstd::prelude::*;
use vstd::utf8::*;

use crate::encode::{base_type_name, field_text, fields_text, format_text, type_text};
use crate::errors::SpecError;
use crate::formats::{spec_base_type_from_name, spec_parse_field, spec_parse_fields, spec_parse_format};
use crate::model::def::{SpecBaseType, SpecField, SpecFormat};
use crate::text::{decimal_text, digit_char};
use crate::tokenizer::{SpecToken, decimal_value, digit_value, digits_end, ident_end, is_digit, is_ident_char, is_ident_start, is_space, lex, lex_from, next_token, numbers_fit};

verus! {

/// A nonempty run of identifier characters that starts with a letter or `_`.
pub open spec fn is_identifier(s: Seq<char>) -> bool {
    &&& s.len() > 0
    &&& is_ident_start(s[0])
    &&& forall|k: int| 0 <= k < s.len() ==> #[trigger] is_ident_char(s[k])
}

/// A base type that its name denotes again: another format's name must be an identifier that
/// is not one of the primitive type names.
pub open spec fn base_type_well_formed(b: SpecBaseType) -> bool {
    match b {
        SpecBaseType::OTHER(s) => is_identifier(s) && spec_base_type_from_name(s) == b,
        _ => true,
    }
}

/// A field whose name is an identifier and whose base type is well-formed.
pub open spec fn field_well_formed(f: SpecField) -> bool {
    is_identifier(f.name) && base_type_well_formed(f.type_expr.base_type)
}

/// A format whose name is an identifier, whose fields are well-formed, and without padding.
pub open spec fn format_well_formed(f: SpecFormat) -> bool {
    &&& is_identifier(f.name)
    &&& forall|k: int| 0 <= k < f.fields.len() ==> #[trigger] field_well_formed(f.fields[k])
    &&& f.padding == 0
}

/// The tokens of a field definition.
pub open spec fn field_tokens(f: SpecField) -> Seq<SpecToken> {
    seq![SpecToken::Identifier(base_type_name(f.type_expr.base_type))] + match f.type_expr.array_size {
        None => Seq::empty(),
        Some(n) => seq![SpecToken::LBrace, SpecToken::Number(n as nat), SpecToken::RBrace],
    } + seq![SpecToken::Identifier(f.name)]
}

/// The tokens of field definitions, each followed by `;`.
pub open spec fn fields_tokens(fs: Seq<SpecField>) -> Seq<SpecToken>
    decreases fs.len(),
{
    if fs.len() == 0 {
        Seq::empty()
    } else {
        field_tokens(fs[0]) + seq![SpecToken::Semicolon] + fields_tokens(fs.drop_first())
    }
}

proof fn lemma_ident_end(s: Seq<char>, k: int, j: int)
    requires
        0 <= k <= j <= s.len(),
        forall|m: int| k <= m < j ==> is_ident_char(s[m]),
        j == s.len() || !is_ident_char(s[j]),
    ensures
        ident_end(s, k) == j,
    decreases j - k,
{
    if k < j {
        lemma_ident_end(s, k + 1, j);
    }
}

proof fn lemma_digits_end(s: Seq<char>, k: int, j: int)
    requires
        0 <= k <= j <= s.len(),
        forall|m: int| k <= m < j ==> is_digit(s[m]),
        j == s.len() || !is_digit(s[j]),
    ensures
        digits_end(s, k) == j,
    decreases j - k,
{
    if k < j {
        lemma_digits_end(s, k + 1, j);
    }
}

/// An identifier in the text, followed by a character that cannot continue it, is one token.
proof fn lemma_lex_identifier(s: Seq<char>, i: int, w: Seq<char>)
    requires
        0 <= i,
        i + w.len() <= s.len(),
        s.subrange(i, i + w.len()) == w,
        is_identifier(w),
        i + w.len() == s.len() || !is_ident_char(s[i + w.len()]),
    ensures
        lex_from(s, i) == seq![SpecToken::Identifier(w)] + lex_from(s, i + w.len()),
{
    let j = i + w.len();
    assert forall|m: int| i + 1 <= m < j implies is_ident_char(s[m]) by {
        assert(s[m] == w[m - i]);
    }
    assert(s[i] == w[0]);
    lemma_ident_end(s, i + 1, j);
}

/// One of `:` `;` `[` `]` in the text is one token.
proof fn lemma_lex_punct(s: Seq<char>, i: int)
    requires
        0 <= i < s.len(),
        s[i] == ':' || s[i] == ';' || s[i] == '[' || s[i] == ']',
    ensures
        lex_from(s, i) == seq![
            if s[i] == ':' {
                SpecToken::Colon
            } else if s[i] == ';' {
                SpecToken::Semicolon
            } else if s[i] == '[' {
                SpecToken::LBrace
            } else {
                SpecToken::RBrace
            },
        ] + lex_from(s, i + 1),
{
}

/// A single space before a character that is not white space yields no token.
proof fn lemma_lex_space(s: Seq<char>, i: int)
    requires
        0 <= i,
        i + 1 < s.len(),
        s[i] == ' ',
        !is_space(s[i + 1]),
    ensures
        lex_from(s, i) == lex_from(s, i + 1),
{
}

proof fn lemma_digit_char(d: nat)
    requires
        d < 10,
    ensures
        is_digit(digit_char(d)),
        digit_value(digit_char(d)) == d,
        !is_ident_start(digit_char(d)),
        is_ident_char(digit_char(d)),
{
    assert((48 + d) as char as nat == 48 + d);
}

proof fn lemma_decimal_text(n: nat)
    ensures
        decimal_text(n).len() > 0,
        forall|k: int| 0 <= k < decimal_text(n).len() ==> #[trigger] is_digit(decimal_text(n)[k]),
    decreases n,
{
    if n < 10 {
        lemma_digit_char(n);
    } else {
        lemma_decimal_text(n / 10);
        lemma_digit_char(n % 10);
        let t = decimal_text(n);
        assert forall|k: int| 0 <= k < t.len() implies #[trigger] is_digit(t[k]) by {
            if k < decimal_text(n / 10).len() {
                assert(t[k] == decimal_text(n / 10)[k]);
            }
        }
    }
}

proof fn lemma_decimal_value(s: Seq<char>, i: int, n: nat)
    requires
        0 <= i,
        i + decimal_text(n).len() <= s.len(),
        s.subrange(i, i + decimal_text(n).len()) == decimal_text(n),
    ensures
        decimal_value(s, i, i + decimal_text(n).len()) == n,
    decreases n,
{
    let t = decimal_text(n);
    let j = i + t.len();
    if n < 10 {
        lemma_digit_char(n);
        assert(s[i] == t[0]);
        assert(decimal_value(s, i, i) == 0);
    } else {
        let p = decimal_text(n / 10);
        lemma_digit_char(n % 10);
        assert(s.subrange(i, i + p.len()) =~= p) by {
            assert forall|k: int| 0 <= k < p.len() implies s.subrange(i, i + p.len())[k] == p[k] by {
                assert(s[i + k] == t[k]);
            }
        }
        lemma_decimal_value(s, i, n / 10);
        assert(s[j - 1] == t[t.len() - 1]);
    }
}

/// The decimal digits of a number, before a character that is not a digit, are one token.
proof fn lemma_lex_number(s: Seq<char>, i: int, n: nat)
    requires
        0 <= i,
        i + decimal_text(n).len() < s.len(),
        s.subrange(i, i + decimal_text(n).len()) == decimal_text(n),
        !is_digit(s[i + decimal_text(n).len()]),
    ensures
        lex_from(s, i) == seq![SpecToken::Number(n)] + lex_from(s, i + decimal_text(n).len()),
{
    let t = decimal_text(n);
    let j = i + t.len();
    lemma_decimal_text(n);
    assert forall|m: int| i + 1 <= m < j implies is_digit(s[m]) by {
        assert(s[m] == t[m - i]);
    }
    assert(s[i] == t[0]);
    lemma_digits_end(s, i + 1, j);
    lemma_decimal_value(s, i, n);
    assert(is_digit(t[0]));
    assert(!is_ident_start(s[i]));
}

/// The primitive type names are identifiers, and each names its own type.
proof fn lemma_base_type_name(b: SpecBaseType)
    requires
        base_type_well_formed(b),
    ensures
        is_identifier(base_type_name(b)),
        spec_base_type_from_name(base_type_name(b)) == b,
{
    reveal_strlit("int8_t");
    reveal_strlit("int16_t");
    reveal_strlit("int32_t");
    reveal_strlit("int64_t");
    reveal_strlit("uint8_t");
    reveal_strlit("uint16_t");
    reveal_strlit("uint32_t");
    reveal_strlit("uint64_t");
    reveal_strlit("double");
    reveal_strlit("float");
    reveal_strlit("bool");
    reveal_strlit("char");
    assert("int8_t"@[0] != "double"@[0]);
    assert("int16_t"@[3] != "int32_t"@[3]);
    assert("int16_t"@[3] != "int64_t"@[3]);
    assert("int32_t"@[3] != "int64_t"@[3]);
    assert("uint16_t"@[4] != "uint32_t"@[4]);
    assert("uint16_t"@[4] != "uint64_t"@[4]);
    assert("uint32_t"@[4] != "uint64_t"@[4]);
    assert("bool"@[0] != "char"@[0]);
    assert("uint8_t"@[0] != "int16_t"@[0]);
    assert("uint8_t"@[0] != "int32_t"@[0]);
    assert("uint8_t"@[0] != "int64_t"@[0]);
    let n = base_type_name(b);
    if !(b is OTHER) {
        assert(is_identifier(n));
    }
}

proof fn lemma_subrange_within(s: Seq<char>, i: int, t: Seq<char>, a: int, b: int)
    requires
        0 <= i,
        i + t.len() <= s.len(),
        s.subrange(i, i + t.len()) == t,
        0 <= a <= b <= t.len(),
    ensures
        s.subrange(i + a, i + b) == t.subrange(a, b),
        forall|k: int| a <= k < b ==> s[i + k] == t[k],
{
    assert forall|k: int| a <= k < b implies s[i + k] == t[k] by {
        assert(s.subrange(i, i + t.len())[k] == s[i + k]);
    }
    assert(s.subrange(i + a, i + b) =~= t.subrange(a, b));
}

/// A field definition followed by `;` lexes to the field's tokens and a semicolon.
proof fn lemma_lex_field(s: Seq<char>, i: int, f: SpecField)
    requires
        field_well_formed(f),
        0 <= i,
        i + field_text(f).len() < s.len(),
        s.subrange(i, i + field_text(f).len()) == field_text(f),
        s[i + field_text(f).len()] == ';',
    ensures
        lex_from(s, i) == field_tokens(f) + seq![SpecToken::Semicolon] + lex_from(
            s,
            i + field_text(f).len() + 1,
        ),
{
    let ft = field_text(f);
    let tt = type_text(f.type_expr);
    let b = base_type_name(f.type_expr.base_type);
    let end = i + ft.len();
    let tl = tt.len() as int;
    let bl = b.len() as int;
    let fl = ft.len() as int;
    lemma_base_type_name(f.type_expr.base_type);
    assert(ft == tt + seq![' '] + f.name);
    assert(tt.subrange(0, bl) =~= b);
    lemma_subrange_within(s, i, ft, 0, tl);
    assert(ft.subrange(0, tl) =~= tt);
    lemma_subrange_within(s, i, ft, 0, bl);
    assert(ft.subrange(0, bl) =~= b);
    // the space and the name
    let p = i + tl;
    assert(ft[tl] == ' ');
    lemma_subrange_within(s, i, ft, tl + 1, fl);
    assert(ft.subrange(tl + 1, fl) =~= f.name);
    assert(s[p] == ' ');
    assert(s[p + 1] == f.name[0]);
    assert(!is_space(s[p + 1]));
    assert(!is_ident_char(s[end]));
    lemma_lex_identifier(s, p + 1, f.name);
    lemma_lex_punct(s, end);
    lemma_lex_space(s, p);
    let tail = lex_from(s, end + 1);
    match f.type_expr.array_size {
        None => {
            assert(tt =~= b);
            assert(!is_ident_char(s[i + bl]));
            lemma_lex_identifier(s, i, b);
            assert(lex_from(s, i) =~= field_tokens(f) + seq![SpecToken::Semicolon] + tail);
        },
        Some(n) => {
            let d = decimal_text(n as nat);
            let dl = d.len() as int;
            let q = i + bl;
            assert(tt == b + (seq!['['] + d + seq![']']));
            assert(tt[bl] == '[');
            assert(s[q] == '[');
            assert(!is_ident_char(s[q]));
            lemma_lex_identifier(s, i, b);
            lemma_lex_punct(s, q);
            assert(tt.subrange(bl + 1, bl + 1 + dl) =~= d);
            lemma_subrange_within(s, i, ft, bl + 1, bl + 1 + dl);
            assert(ft.subrange(bl + 1, bl + 1 + dl) =~= d);
            assert(tt[bl + 1 + dl] == ']');
            assert(s[q + 1 + dl] == ']');
            lemma_lex_number(s, q + 1, n as nat);
            lemma_lex_punct(s, q + 1 + dl);
            assert(q + 1 + dl + 1 == p);
            assert(lex_from(s, i) =~= field_tokens(f) + seq![SpecToken::Semicolon] + tail);
        },
    }
}

proof fn lemma_fields_text_first(fs: Seq<SpecField>)
    requires
        fs.len() > 0,
    ensures
        fields_text(fs) == field_text(fs[0]) + seq![';'] + fields_text(fs.drop_first()),
    decreases fs.len(),
{
    if fs.len() == 1 {
        assert(fs.drop_last() =~= Seq::<SpecField>::empty());
        assert(fs.drop_first() =~= Seq::<SpecField>::empty());
        assert(fields_text(fs) =~= field_text(fs[0]) + seq![';'] + fields_text(fs.drop_first()));
    } else {
        lemma_fields_text_first(fs.drop_last());
        assert(fs.drop_last().drop_first() =~= fs.drop_first().drop_last());
        assert(fs.drop_first().last() == fs.last());
        assert(fs.drop_last()[0] == fs[0]);
        assert(fields_text(fs) =~= field_text(fs[0]) + seq![';'] + fields_text(fs.drop_first()));
    }
}

proof fn lemma_lex_fields(s: Seq<char>, i: int, fs: Seq<SpecField>)
    requires
        forall|k: int| 0 <= k < fs.len() ==> #[trigger] field_well_formed(fs[k]),
        0 <= i <= s.len(),
        s.subrange(i, s.len() as int) == fields_text(fs),
    ensures
        lex_from(s, i) == fields_tokens(fs),
    decreases fs.len(),
{
    if fs.len() == 0 {
        assert(s.subrange(i, s.len() as int).len() == 0);
    } else {
        let f = fs[0];
        let ft = field_text(f);
        let rest = fs.drop_first();
        let t = s.subrange(i, s.len() as int);
        lemma_fields_text_first(fs);
        let fl = ft.len() as int;
        let rt = fields_text(rest);
        assert(t == ft + seq![';'] + rt);
        assert(t.len() == fl + 1 + rt.len());
        assert(i + t.len() == s.len());
        assert(t.subrange(0, fl) =~= ft);
        lemma_subrange_within(s, i, t, 0, fl);
        lemma_subrange_within(s, i, t, fl, fl + 1);
        lemma_subrange_within(s, i, t, fl + 1, t.len() as int);
        assert(t.subrange(fl + 1, t.len() as int) =~= rt);
        assert(t[fl] == ';');
        assert(s[i + fl] == ';');
        assert(field_well_formed(fs[0]));
        lemma_lex_field(s, i, f);
        assert(s.subrange(i + fl + 1, s.len() as int) == fields_text(rest));
        assert forall|k: int| 0 <= k < rest.len() implies #[trigger] field_well_formed(rest[k]) by {
            assert(rest[k] == fs[k + 1]);
        }
        lemma_lex_fields(s, i + fl + 1, rest);
    }
}

/// The text of a well-formed format lexes to the format's name, `:`, and its fields' tokens.
proof fn lemma_lex_format(f: SpecFormat)
    requires
        format_well_formed(f),
    ensures
        lex(format_text(f)) == seq![SpecToken::Identifier(f.name), SpecToken::Colon]
            + fields_tokens(f.fields),
{
    let s = format_text(f);
    let nl = f.name.len() as int;
    assert(s.subrange(0, nl) =~= f.name);
    assert(s[nl] == ':');
    lemma_lex_identifier(s, 0, f.name);
    lemma_lex_punct(s, nl);
    assert(s.subrange(nl + 1, s.len() as int) =~= fields_text(f.fields));
    lemma_lex_fields(s, nl + 1, f.fields);
    assert(lex(format_text(f)) =~= seq![SpecToken::Identifier(f.name), SpecToken::Colon]
        + fields_tokens(f.fields));
}

proof fn lemma_parse_field_tokens(f: SpecField, rest: Seq<SpecToken>)
    requires
        field_well_formed(f),
    ensures
        spec_parse_field(field_tokens(f) + rest) == Ok::<(SpecField, int), SpecError>(
            (f, field_tokens(f).len() as int),
        ),
{
    lemma_base_type_name(f.type_expr.base_type);
    let ts = field_tokens(f) + rest;
    assert(ts[0] == SpecToken::Identifier(base_type_name(f.type_expr.base_type)));
    match f.type_expr.array_size {
        None => {
            assert(ts[1] == SpecToken::Identifier(f.name));
        },
        Some(n) => {
            assert(ts[1] == SpecToken::LBrace);
            assert(ts[2] == SpecToken::Number(n as nat));
            assert(ts[3] == SpecToken::RBrace);
            assert(ts[4] == SpecToken::Identifier(f.name));
        },
    }
}

proof fn lemma_parse_fields_tokens(fs: Seq<SpecField>)
    requires
        forall|k: int| 0 <= k < fs.len() ==> #[trigger] field_well_formed(fs[k]),
    ensures
        spec_parse_fields(fields_tokens(fs)) == Ok::<Seq<SpecField>, SpecError>(fs),
        numbers_fit(fields_tokens(fs)),
    decreases fs.len(),
{
    if fs.len() == 0 {
        assert(fields_tokens(fs) =~= Seq::<SpecToken>::empty());
        assert(fs =~= Seq::<SpecField>::empty());
    } else {
        let f = fs[0];
        let rest = fs.drop_first();
        assert(field_well_formed(fs[0]));
        assert forall|k: int| 0 <= k < rest.len() implies #[trigger] field_well_formed(rest[k]) by {
            assert(rest[k] == fs[k + 1]);
        }
        lemma_parse_fields_tokens(rest);
        let ft = field_tokens(f);
        let ts = fields_tokens(fs);
        assert(ts == ft + (seq![SpecToken::Semicolon] + fields_tokens(rest)));
        lemma_parse_field_tokens(f, seq![SpecToken::Semicolon] + fields_tokens(rest));
        let k = ft.len() as int;
        assert(ts[k] == SpecToken::Semicolon);
        assert(ts.skip(k + 1) =~= fields_tokens(rest));
        assert(seq![f] + rest =~= fs);
        assert(spec_parse_field(ts) == Ok::<(SpecField, int), SpecError>((f, k)));
        assert(1 <= k && k + 1 <= ts.len());
        assert(spec_parse_fields(ts.skip(k + 1)) == Ok::<Seq<SpecField>, SpecError>(rest));
        assert(spec_parse_fields(ts) == Ok::<Seq<SpecField>, SpecError>(seq![f] + rest));
        assert forall|m: int| 0 <= m < ts.len() implies (#[trigger] ts[m] matches SpecToken::Number(
            n,
        ) ==> n <= usize::MAX) by {
            if m > k {
                assert(ts[m] == fields_tokens(rest)[m - k - 1]);
            }
        }
    }
}

/// A well-formed format is read back from its encoding.
pub proof fn format_round_trip(f: SpecFormat)
    requires
        format_well_formed(f),
    ensures
        spec_parse_format(encode_utf8(format_text(f))) == Ok::<SpecFormat, SpecError>(f),
{
    let s = format_text(f);
    encode_utf8_valid_utf8(s);
    encode_utf8_decode_utf8(s);
    lemma_lex_format(f);
    lemma_parse_fields_tokens(f.fields);
    let ts = lex(s);
    assert(ts.skip(2) =~= fields_tokens(f.fields));
    assert forall|m: int| 0 <= m < ts.len() implies (#[trigger] ts[m] matches SpecToken::Number(n)
        ==> n <= usize::MAX) by {
        if m >= 2 {
            assert(ts[m] == fields_tokens(f.fields)[m - 2]);
        }
    }
}

/// Every identifier token is an identifier.
pub open spec fn identifiers_well_formed(ts: Seq<SpecToken>) -> bool {
    forall|k: int| 0 <= k < ts.len() ==> (#[trigger] ts[k] matches SpecToken::Identifier(w)
        ==> is_identifier(w))
}

proof fn lemma_ident_end_props(s: Seq<char>, k: int)
    requires
        0 <= k <= s.len(),
    ensures
        k <= ident_end(s, k) <= s.len(),
        forall|m: int| k <= m < ident_end(s, k) ==> is_ident_char(s[m]),
    decreases s.len() - k,
{
    if k < s.len() && is_ident_char(s[k]) {
        lemma_ident_end_props(s, k + 1);
    }
}

proof fn lemma_lex_identifiers(s: Seq<char>, i: int)
    ensures
        identifiers_well_formed(lex_from(s, i)),
    decreases s.len() - i,
{
    if 0 <= i < s.len() {
        let (t, j) = next_token(s, i);
        if i < j <= s.len() {
            lemma_lex_identifiers(s, j);
            let rest = lex_from(s, j);
            let ts = lex_from(s, i);
            if is_ident_start(s[i]) {
                lemma_ident_end_props(s, i + 1);
                let w = s.subrange(i, j);
                assert(is_identifier(w)) by {
                    assert forall|k: int| 0 <= k < w.len() implies #[trigger] is_ident_char(w[k]) by {
                        assert(w[k] == s[i + k]);
                    }
                }
            }
            match t {
                Some(tok) => {
                    assert(ts == seq![tok] + rest);
                    assert forall|k: int| 0 <= k < ts.len() implies (#[trigger] ts[k] matches SpecToken::Identifier(w)
                        ==> is_identifier(w)) by {
                        if k > 0 {
                            assert(ts[k] == rest[k - 1]);
                        }
                    }
                },
                None => {},
            }
        }
    }
}

proof fn lemma_parsed_field_well_formed(ts: Seq<SpecToken>)
    requires
        identifiers_well_formed(ts),
        spec_parse_field(ts) is Ok,
    ensures
        field_well_formed(spec_parse_field(ts)->Ok_0.0),
{
    let tname = ts[0]->Identifier_0;
    assert(is_identifier(tname));
    let (f, k) = spec_parse_field(ts)->Ok_0;
    assert(ts[k - 1] is Identifier);
    assert(is_identifier(ts[k - 1]->Identifier_0));
}

proof fn lemma_parsed_fields_well_formed(ts: Seq<SpecToken>)
    requires
        identifiers_well_formed(ts),
        spec_parse_fields(ts) is Ok,
    ensures
        forall|m: int| 0 <= m < spec_parse_fields(ts)->Ok_0.len() ==> #[trigger] field_well_formed(
            spec_parse_fields(ts)->Ok_0[m],
        ),
    decreases ts.len(),
{
    if ts.len() > 0 {
        let (f, k) = spec_parse_field(ts)->Ok_0;
        lemma_parsed_field_well_formed(ts);
        let rest = ts.skip(k + 1);
        assert(identifiers_well_formed(rest)) by {
            assert forall|m: int| 0 <= m < rest.len() implies (#[trigger] rest[m] matches SpecToken::Identifier(w)
                ==> is_identifier(w)) by {
                assert(rest[m] == ts[m + k + 1]);
            }
        }
        lemma_parsed_fields_well_formed(rest);
        let fs = spec_parse_fields(ts)->Ok_0;
        let rs = spec_parse_fields(rest)->Ok_0;
        assert(fs == seq![f] + rs);
        assert forall|m: int| 0 <= m < fs.len() implies #[trigger] field_well_formed(fs[m]) by {
            if m > 0 {
                assert(fs[m] == rs[m - 1]);
            }
        }
    }
}

/// Every format that parsing yields is well-formed.
pub proof fn parsed_format_well_formed(bytes: Seq<u8>)
    requires
        spec_parse_format(bytes) is Ok,
    ensures
        format_well_formed(spec_parse_format(bytes)->Ok_0),
{
    let ts = lex(decode_utf8(bytes));
    lemma_lex_identifiers(decode_utf8(bytes), 0);
    assert(is_identifier(ts[0]->Identifier_0));
    let body = ts.skip(2);
    assert(identifiers_well_formed(body)) by {
        assert forall|m: int| 0 <= m < body.len() implies (#[trigger] body[m] matches SpecToken::Identifier(w)
            ==> is_identifier(w)) by {
            assert(body[m] == ts[m + 2]);
        }
    }
    lemma_parsed_fields_well_formed(body);
}

/// Re-encoding a parsed format and parsing the bytes again gives the same format; and the
/// encoding equals the parsed bytes whenever those bytes are the encoding of some well-formed
/// format.
pub proof fn format_parse_encode_parse(bytes: Seq<u8>)
    requires
        spec_parse_format(bytes) is Ok,
    ensures
        spec_parse_format(encode_utf8(format_text(spec_parse_format(bytes)->Ok_0))) == spec_parse_format(
            bytes,
        ),
        forall|f: SpecFormat|
            format_well_formed(f) && bytes == encode_utf8(#[trigger] format_text(f)) ==> encode_utf8(
                format_text(spec_parse_format(bytes)->Ok_0),
            ) == bytes,
{
    parsed_format_well_formed(bytes);
    format_round_trip(spec_parse_format(bytes)->Ok_0);
    assert forall|f: SpecFormat|
        format_well_formed(f) && bytes == encode_utf8(#[trigger] format_text(f)) implies encode_utf8(
        format_text(spec_parse_format(bytes)->Ok_0),
    ) == bytes by {
        format_round_trip(f);
    }
}

} // verus!
