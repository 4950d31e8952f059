//! The little-endian encoding of primitive values, and how it undoes their decoding.
use vstd::bytes::*;
use vstd::prelude::*;

use crate::field_helpers::ParseFromBuf;
use crate::model::CChar;

verus! {

/// A primitive value with a little-endian encoding of `width` bytes.
pub trait LeBytes: ParseFromBuf {
    /// The bytes that encode `v`.
    spec fn le_bytes(v: Self) -> Seq<u8>;

    /// Whether the leading bytes of `bytes` are the ones that encode the value they decode to:
    /// always, but for a `bool`, whose byte must be 0 or 1.
    spec fn exact(bytes: Seq<u8>) -> bool;

    /// Appends the encoding of this value to `out`.
    fn push_le(&self, out: &mut Vec<u8>)
        ensures
            final(out)@ == old(out)@ + Self::le_bytes(*self),
    ;

    /// Decoding the encoding of a value gives the value back, whatever follows it.
    proof fn lemma_decode_le(v: Self, rest: Seq<u8>)
        ensures
            Self::le_bytes(v).len() == Self::width(),
            Self::decode(Self::le_bytes(v) + rest) == v,
            Self::exact(Self::le_bytes(v) + rest),
    ;

    /// Encoding a decoded value gives the bytes back, when they are exact.
    proof fn lemma_le_decode(bytes: Seq<u8>)
        requires
            bytes.len() >= Self::width(),
            Self::exact(bytes),
        ensures
            Self::le_bytes(Self::decode(bytes)) == bytes.take(Self::width() as int),
    ;
}

impl LeBytes for u8 {
    open spec fn le_bytes(v: u8) -> Seq<u8> {
        seq![v]
    }

    open spec fn exact(bytes: Seq<u8>) -> bool {
        true
    }

    fn push_le(&self, out: &mut Vec<u8>) {
        out.push(*self);
    }

    proof fn lemma_decode_le(v: u8, rest: Seq<u8>) {
    }

    proof fn lemma_le_decode(bytes: Seq<u8>) {
        assert(seq![bytes[0]] =~= bytes.take(1));
    }
}

impl LeBytes for i8 {
    open spec fn le_bytes(v: i8) -> Seq<u8> {
        seq![v as u8]
    }

    open spec fn exact(bytes: Seq<u8>) -> bool {
        true
    }

    fn push_le(&self, out: &mut Vec<u8>) {
        out.push(*self as u8);
    }

    proof fn lemma_decode_le(v: i8, rest: Seq<u8>) {
        assert((v as u8) as i8 == v) by (bit_vector);
    }

    proof fn lemma_le_decode(bytes: Seq<u8>) {
        let b = bytes[0];
        assert((b as i8) as u8 == b) by (bit_vector);
        assert(seq![(b as i8) as u8] =~= bytes.take(1));
    }
}

impl LeBytes for bool {
    open spec fn le_bytes(v: bool) -> Seq<u8> {
        seq![
            if v {
                1u8
            } else {
                0u8
            },
        ]
    }

    open spec fn exact(bytes: Seq<u8>) -> bool {
        bytes[0] <= 1
    }

    fn push_le(&self, out: &mut Vec<u8>) {
        if *self {
            out.push(1u8);
        } else {
            out.push(0u8);
        }
    }

    proof fn lemma_decode_le(v: bool, rest: Seq<u8>) {
        assert((Self::le_bytes(v) + rest)[0] == Self::le_bytes(v)[0]);
    }

    proof fn lemma_le_decode(bytes: Seq<u8>) {
        assert(Self::le_bytes(Self::decode(bytes)) =~= bytes.take(1));
    }
}

impl LeBytes for CChar {
    open spec fn le_bytes(v: CChar) -> Seq<u8> {
        seq![v.0]
    }

    open spec fn exact(bytes: Seq<u8>) -> bool {
        true
    }

    fn push_le(&self, out: &mut Vec<u8>) {
        let b: u8 = self.0;
        out.push(b);
        assert(<CChar as LeBytes>::le_bytes(*self) =~= seq![b]);
        assert(out@ =~= old(out)@ + seq![b]);
    }

    proof fn lemma_decode_le(v: CChar, rest: Seq<u8>) {
    }

    proof fn lemma_le_decode(bytes: Seq<u8>) {
        assert(seq![bytes[0]] =~= bytes.take(1));
    }
}

impl LeBytes for u16 {
    open spec fn le_bytes(v: u16) -> Seq<u8> {
        spec_u16_to_le_bytes(v)
    }

    open spec fn exact(bytes: Seq<u8>) -> bool {
        true
    }

    fn push_le(&self, out: &mut Vec<u8>) {
        let b = u16_to_le_bytes(*self);
        out.extend_from_slice(b.as_slice());
        assert(out@ =~= old(out)@ + b@);
    }

    proof fn lemma_decode_le(v: u16, rest: Seq<u8>) {
        lemma_auto_spec_u16_to_from_le_bytes();
        assert((spec_u16_to_le_bytes(v) + rest).subrange(0, 2) =~= spec_u16_to_le_bytes(v));
    }

    proof fn lemma_le_decode(bytes: Seq<u8>) {
        lemma_auto_spec_u16_to_from_le_bytes();
        assert(bytes.subrange(0, 2) =~= bytes.take(2));
    }
}

impl LeBytes for i16 {
    open spec fn le_bytes(v: i16) -> Seq<u8> {
        spec_u16_to_le_bytes(v as u16)
    }

    open spec fn exact(bytes: Seq<u8>) -> bool {
        true
    }

    fn push_le(&self, out: &mut Vec<u8>) {
        let b = u16_to_le_bytes(*self as u16);
        out.extend_from_slice(b.as_slice());
        assert(out@ =~= old(out)@ + b@);
    }

    proof fn lemma_decode_le(v: i16, rest: Seq<u8>) {
        lemma_auto_spec_u16_to_from_le_bytes();
        assert((spec_u16_to_le_bytes(v as u16) + rest).subrange(0, 2) =~= spec_u16_to_le_bytes(
            v as u16,
        ));
        assert((v as u16) as i16 == v) by (bit_vector);
    }

    proof fn lemma_le_decode(bytes: Seq<u8>) {
        lemma_auto_spec_u16_to_from_le_bytes();
        let x = spec_u16_from_le_bytes(bytes.subrange(0, 2));
        assert((x as i16) as u16 == x) by (bit_vector);
        assert(bytes.subrange(0, 2) =~= bytes.take(2));
    }
}

impl LeBytes for u32 {
    open spec fn le_bytes(v: u32) -> Seq<u8> {
        spec_u32_to_le_bytes(v)
    }

    open spec fn exact(bytes: Seq<u8>) -> bool {
        true
    }

    fn push_le(&self, out: &mut Vec<u8>) {
        let b = u32_to_le_bytes(*self);
        out.extend_from_slice(b.as_slice());
        assert(out@ =~= old(out)@ + b@);
    }

    proof fn lemma_decode_le(v: u32, rest: Seq<u8>) {
        lemma_auto_spec_u32_to_from_le_bytes();
        assert((spec_u32_to_le_bytes(v) + rest).subrange(0, 4) =~= spec_u32_to_le_bytes(v));
    }

    proof fn lemma_le_decode(bytes: Seq<u8>) {
        lemma_auto_spec_u32_to_from_le_bytes();
        assert(bytes.subrange(0, 4) =~= bytes.take(4));
    }
}

impl LeBytes for i32 {
    open spec fn le_bytes(v: i32) -> Seq<u8> {
        spec_u32_to_le_bytes(v as u32)
    }

    open spec fn exact(bytes: Seq<u8>) -> bool {
        true
    }

    fn push_le(&self, out: &mut Vec<u8>) {
        let b = u32_to_le_bytes(*self as u32);
        out.extend_from_slice(b.as_slice());
        assert(out@ =~= old(out)@ + b@);
    }

    proof fn lemma_decode_le(v: i32, rest: Seq<u8>) {
        lemma_auto_spec_u32_to_from_le_bytes();
        assert((spec_u32_to_le_bytes(v as u32) + rest).subrange(0, 4) =~= spec_u32_to_le_bytes(
            v as u32,
        ));
        assert((v as u32) as i32 == v) by (bit_vector);
    }

    proof fn lemma_le_decode(bytes: Seq<u8>) {
        lemma_auto_spec_u32_to_from_le_bytes();
        let x = spec_u32_from_le_bytes(bytes.subrange(0, 4));
        assert((x as i32) as u32 == x) by (bit_vector);
        assert(bytes.subrange(0, 4) =~= bytes.take(4));
    }
}

impl LeBytes for u64 {
    open spec fn le_bytes(v: u64) -> Seq<u8> {
        spec_u64_to_le_bytes(v)
    }

    open spec fn exact(bytes: Seq<u8>) -> bool {
        true
    }

    fn push_le(&self, out: &mut Vec<u8>) {
        let b = u64_to_le_bytes(*self);
        out.extend_from_slice(b.as_slice());
        assert(out@ =~= old(out)@ + b@);
    }

    proof fn lemma_decode_le(v: u64, rest: Seq<u8>) {
        lemma_auto_spec_u64_to_from_le_bytes();
        assert((spec_u64_to_le_bytes(v) + rest).subrange(0, 8) =~= spec_u64_to_le_bytes(v));
    }

    proof fn lemma_le_decode(bytes: Seq<u8>) {
        lemma_auto_spec_u64_to_from_le_bytes();
        assert(bytes.subrange(0, 8) =~= bytes.take(8));
    }
}

impl LeBytes for i64 {
    open spec fn le_bytes(v: i64) -> Seq<u8> {
        spec_u64_to_le_bytes(v as u64)
    }

    open spec fn exact(bytes: Seq<u8>) -> bool {
        true
    }

    fn push_le(&self, out: &mut Vec<u8>) {
        let b = u64_to_le_bytes(*self as u64);
        out.extend_from_slice(b.as_slice());
        assert(out@ =~= old(out)@ + b@);
    }

    proof fn lemma_decode_le(v: i64, rest: Seq<u8>) {
        lemma_auto_spec_u64_to_from_le_bytes();
        assert((spec_u64_to_le_bytes(v as u64) + rest).subrange(0, 8) =~= spec_u64_to_le_bytes(
            v as u64,
        ));
        assert((v as u64) as i64 == v) by (bit_vector);
    }

    proof fn lemma_le_decode(bytes: Seq<u8>) {
        lemma_auto_spec_u64_to_from_le_bytes();
        let x = spec_u64_from_le_bytes(bytes.subrange(0, 8));
        assert((x as i64) as u64 == x) by (bit_vector);
        assert(bytes.subrange(0, 8) =~= bytes.take(8));
    }
}

/// The encoding of an array: the encodings of its elements, in order.
pub open spec fn array_bytes<T: LeBytes>(a: Seq<T>) -> Seq<u8>
    decreases a.len(),
{
    if a.len() == 0 {
        Seq::empty()
    } else {
        array_bytes(a.drop_last()) + T::le_bytes(a.last())
    }
}

/// Appends the encoding of an array to `out`.
pub fn push_array<T: LeBytes>(a: &Vec<T>, out: &mut Vec<u8>)
    ensures
        final(out)@ == old(out)@ + array_bytes(a@),
{
    let ghost start = out@;
    let mut i: usize = 0;
    assert(a@.take(0) =~= Seq::<T>::empty());
    assert(out@ =~= start + array_bytes(a@.take(0)));
    while i < a.len()
        invariant
            i <= a@.len(),
            out@ == start + array_bytes(a@.take(i as int)),
        decreases a@.len() - i,
    {
        a[i].push_le(out);
        proof {
            assert(a@.take(i + 1).drop_last() =~= a@.take(i as int));
            assert(out@ =~= start + array_bytes(a@.take(i + 1)));
        }
        i += 1;
    }
    assert(a@.take(a@.len() as int) =~= a@);
}

/// A copy of a vector of plain values.
pub(crate) fn copy_vec<T: Copy>(v: &Vec<T>) -> (r: Vec<T>)
    ensures
        r@ == v@,
{
    let mut r: Vec<T> = Vec::with_capacity(v.len());
    let mut i: usize = 0;
    while i < v.len()
        invariant
            i <= v@.len(),
            r@ == v@.take(i as int),
        decreases v@.len() - i,
    {
        r.push(v[i]);
        assert(r@ =~= v@.take(i + 1));
        i += 1;
    }
    assert(v@.take(v@.len() as int) =~= v@);
    r
}

} // verus!
