//! The binary encoding of every message, as the ULog format lays it out.
use vstd::prelude::*;
use vstd::utf8::*;

use crate::model::def;
use crate::model::def::{SpecBaseType, SpecField, SpecFormat, SpecTypeExpr, field_views};
use crate::text::{decimal_bytes, decimal_text, lemma_encode_ascii_char, lemma_encode_utf8_concat};

verus! {

/// A value with a binary encoding.
pub trait Encode {
    /// The bytes that encode this value.
    spec fn encoding(&self) -> Seq<u8>;

    /// Appends the encoding of this value to `out`.
    fn encode(&self, out: &mut Vec<u8>)
        ensures
            final(out)@ == old(out)@ + self.encoding(),
    ;

    /// The encoding of this value in a vector of its own.
    fn encode_to_vec(&self) -> (r: Vec<u8>)
        ensures
            r@ == self.encoding(),
    {
        let mut v: Vec<u8> = Vec::new();
        self.encode(&mut v);
        assert(v@ =~= self.encoding());
        v
    }
}

/// The name of a base type as format definitions write it.
pub open spec fn base_type_name(b: SpecBaseType) -> Seq<char> {
    match b {
        SpecBaseType::UINT8 => "uint8_t"@,
        SpecBaseType::UINT16 => "uint16_t"@,
        SpecBaseType::UINT32 => "uint32_t"@,
        SpecBaseType::UINT64 => "uint64_t"@,
        SpecBaseType::INT8 => "int8_t"@,
        SpecBaseType::INT16 => "int16_t"@,
        SpecBaseType::INT32 => "int32_t"@,
        SpecBaseType::INT64 => "int64_t"@,
        SpecBaseType::FLOAT => "float"@,
        SpecBaseType::DOUBLE => "double"@,
        SpecBaseType::BOOL => "bool"@,
        SpecBaseType::CHAR => "char"@,
        SpecBaseType::OTHER(s) => s,
    }
}

/// A type expression as format definitions write it: the base type, then `[n]` for arrays.
pub open spec fn type_text(t: SpecTypeExpr) -> Seq<char> {
    base_type_name(t.base_type) + match t.array_size {
        None => Seq::empty(),
        Some(n) => seq!['['] + decimal_text(n as nat) + seq![']'],
    }
}

/// A field definition as format definitions write it: the type, a space, the name.
pub open spec fn field_text(f: SpecField) -> Seq<char> {
    type_text(f.type_expr) + seq![' '] + f.name
}

/// Field definitions, each followed by `;`.
pub open spec fn fields_text(fs: Seq<SpecField>) -> Seq<char>
    decreases fs.len(),
{
    if fs.len() == 0 {
        Seq::empty()
    } else {
        fields_text(fs.drop_last()) + field_text(fs.last()) + seq![';']
    }
}

/// A format definition as written: the name, `:`, then the fields.
pub open spec fn format_text(f: SpecFormat) -> Seq<char> {
    f.name + seq![':'] + fields_text(f.fields)
}

/// Appends the UTF-8 bytes of `s` to `out`.
pub(crate) fn push_str(out: &mut Vec<u8>, s: &str)
    ensures
        final(out)@ == old(out)@ + encode_utf8(s@),
{
    out.extend_from_slice(s.as_bytes());
}

/// Appends one ASCII character to `out`.
pub(crate) fn push_ascii(out: &mut Vec<u8>, c: u8)
    requires
        c < 128,
    ensures
        final(out)@ == old(out)@ + encode_utf8(seq![c as char]),
{
    proof {
        lemma_encode_ascii_char(c as char);
        assert((c as char) as u8 == c);
    }
    out.push(c);
}

impl Encode for def::BaseType {
    open spec fn encoding(&self) -> Seq<u8> {
        encode_utf8(base_type_name(self@))
    }

    fn encode(&self, out: &mut Vec<u8>) {
        match self {
            def::BaseType::UINT8 => push_str(out, "uint8_t"),
            def::BaseType::UINT16 => push_str(out, "uint16_t"),
            def::BaseType::UINT32 => push_str(out, "uint32_t"),
            def::BaseType::UINT64 => push_str(out, "uint64_t"),
            def::BaseType::INT8 => push_str(out, "int8_t"),
            def::BaseType::INT16 => push_str(out, "int16_t"),
            def::BaseType::INT32 => push_str(out, "int32_t"),
            def::BaseType::INT64 => push_str(out, "int64_t"),
            def::BaseType::FLOAT => push_str(out, "float"),
            def::BaseType::DOUBLE => push_str(out, "double"),
            def::BaseType::BOOL => push_str(out, "bool"),
            def::BaseType::CHAR => push_str(out, "char"),
            def::BaseType::OTHER(s) => push_str(out, s.as_str()),
        }
    }
}

impl Encode for def::TypeExpr {
    open spec fn encoding(&self) -> Seq<u8> {
        encode_utf8(type_text(self@))
    }

    fn encode(&self, out: &mut Vec<u8>) {
        let ghost start = out@;
        self.base_type.encode(out);
        match self.array_size {
            None => {
                assert(type_text(self@) =~= base_type_name(self.base_type@));
            },
            Some(n) => {
                push_ascii(out, 91u8);
                let digits = decimal_bytes(n);
                out.extend_from_slice(digits.as_slice());
                push_ascii(out, 93u8);
                proof {
                    let b = base_type_name(self.base_type@);
                    let l = seq![91u8 as char];
                    let d = decimal_text(n as nat);
                    let r = seq![93u8 as char];
                    assert(l =~= seq!['[']);
                    assert(r =~= seq![']']);
                    lemma_encode_utf8_concat(b, l);
                    lemma_encode_utf8_concat(b + l, d);
                    lemma_encode_utf8_concat(b + l + d, r);
                    assert(type_text(self@) =~= b + l + d + r);
                    assert(out@ =~= start + encode_utf8(type_text(self@)));
                }
            },
        }
    }
}

impl Encode for def::Field {
    open spec fn encoding(&self) -> Seq<u8> {
        encode_utf8(field_text(self@))
    }

    fn encode(&self, out: &mut Vec<u8>) {
        let ghost start = out@;
        self.type_.encode(out);
        push_ascii(out, 32u8);
        push_str(out, self.name.as_str());
        proof {
            let t = type_text(self.type_@);
            let sp = seq![32u8 as char];
            assert(sp =~= seq![' ']);
            lemma_encode_utf8_concat(t, sp);
            lemma_encode_utf8_concat(t + sp, self.name@);
            assert(out@ =~= start + encode_utf8(field_text(self@)));
        }
    }
}

impl Encode for def::Format {
    open spec fn encoding(&self) -> Seq<u8> {
        encode_utf8(format_text(self@))
    }

    fn encode(&self, out: &mut Vec<u8>) {
        let ghost start = out@;
        push_str(out, self.name.as_str());
        push_ascii(out, 58u8);
        proof {
            assert(seq![58u8 as char] =~= seq![':']);
            lemma_encode_utf8_concat(self.name@, seq![':']);
            assert(field_views(self.fields@).take(0) =~= Seq::<SpecField>::empty());
        }
        let mut i: usize = 0;
        while i < self.fields.len()
            invariant
                i <= self.fields@.len(),
                out@ == start + encode_utf8(self.name@ + seq![':'] + fields_text(
                    field_views(self.fields@).take(i as int),
                )),
            decreases self.fields@.len() - i,
        {
            let ghost before = out@;
            self.fields[i].encode(out);
            push_ascii(out, 59u8);
            proof {
                let fs = field_views(self.fields@);
                let head = self.name@ + seq![':'] + fields_text(fs.take(i as int));
                let f = field_text(fs[i as int]);
                assert(seq![59u8 as char] =~= seq![';']);
                assert(fs.take(i + 1).drop_last() =~= fs.take(i as int));
                assert(fields_text(fs.take(i + 1)) == fields_text(fs.take(i as int)) + f + seq![
                    ';',
                ]);
                lemma_encode_utf8_concat(head, f);
                lemma_encode_utf8_concat(head + f, seq![';']);
                assert(head + f + seq![';'] =~= self.name@ + seq![':'] + fields_text(
                    fs.take(i + 1),
                ));
                assert(out@ =~= start + encode_utf8(head + f + seq![';']));
            }
            i += 1;
        }
        assert(field_views(self.fields@).take(self.fields@.len() as int) =~= field_views(
            self.fields@,
        ));
    }
}

} // verus!
