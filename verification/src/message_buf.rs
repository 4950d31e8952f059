use byteorder::{ByteOrder, LittleEndian};
use vstd::bytes::*;
use vstd::prelude::*;
use vstd::slice::slice_subrange;

use crate::errors::ULogError;

verus! {

/// `byteorder::LittleEndian::read_u16`: the first two bytes of `buf`, read as a little-endian
/// number. The crate's source indexes `buf[..2]`, so it needs at least two bytes.
#[verifier::external_body]
fn le_read_u16(buf: &[u8]) -> (r: u16)
    requires
        buf@.len() >= 2,
    ensures
        r == spec_u16_from_le_bytes(buf@.subrange(0, 2)),
{
    LittleEndian::read_u16(buf)
}

/// `byteorder::LittleEndian::read_u32`: the first four bytes of `buf`, read as a little-endian
/// number. The crate's source indexes `buf[..4]`, so it needs at least four bytes.
#[verifier::external_body]
fn le_read_u32(buf: &[u8]) -> (r: u32)
    requires
        buf@.len() >= 4,
    ensures
        r == spec_u32_from_le_bytes(buf@.subrange(0, 4)),
{
    LittleEndian::read_u32(buf)
}

/// `byteorder::LittleEndian::read_u64`: the first eight bytes of `buf`, read as a little-endian
/// number. The crate's source indexes `buf[..8]`, so it needs at least eight bytes.
#[verifier::external_body]
fn le_read_u64(buf: &[u8]) -> (r: u64)
    requires
        buf@.len() >= 8,
    ensures
        r == spec_u64_from_le_bytes(buf@.subrange(0, 8)),
{
    LittleEndian::read_u64(buf)
}

/// `byteorder::LittleEndian::read_i16`: the first two bytes of `buf` as a little-endian two's
/// complement number (the crate computes `read_u16(buf) as i16`).
#[verifier::external_body]
fn le_read_i16(buf: &[u8]) -> (r: i16)
    requires
        buf@.len() >= 2,
    ensures
        r == spec_u16_from_le_bytes(buf@.subrange(0, 2)) as i16,
{
    LittleEndian::read_i16(buf)
}

/// `byteorder::LittleEndian::read_i32`: the first four bytes of `buf` as a little-endian two's
/// complement number (the crate computes `read_u32(buf) as i32`).
#[verifier::external_body]
fn le_read_i32(buf: &[u8]) -> (r: i32)
    requires
        buf@.len() >= 4,
    ensures
        r == spec_u32_from_le_bytes(buf@.subrange(0, 4)) as i32,
{
    LittleEndian::read_i32(buf)
}

/// `byteorder::LittleEndian::read_i64`: the first eight bytes of `buf` as a little-endian two's
/// complement number (the crate computes `read_u64(buf) as i64`).
#[verifier::external_body]
fn le_read_i64(buf: &[u8]) -> (r: i64)
    requires
        buf@.len() >= 8,
    ensures
        r == spec_u64_from_le_bytes(buf@.subrange(0, 8)) as i64,
{
    LittleEndian::read_i64(buf)
}

/// The first two bytes of `s`, read as a little-endian number.
pub open spec fn le_u16(s: Seq<u8>) -> u16 {
    spec_u16_from_le_bytes(s.subrange(0, 2))
}

/// The first four bytes of `s`, read as a little-endian number.
pub open spec fn le_u32(s: Seq<u8>) -> u32 {
    spec_u32_from_le_bytes(s.subrange(0, 4))
}

/// The first eight bytes of `s`, read as a little-endian number.
pub open spec fn le_u64(s: Seq<u8>) -> u64 {
    spec_u64_from_le_bytes(s.subrange(0, 8))
}

/// `MessageBuf` wraps a vector of bytes and hands out successive values from it, little-endian.
/// Its model is the sequence of bytes not yet taken.
pub struct MessageBuf {
    buf: Vec<u8>,
    current_index: usize,
}

impl View for MessageBuf {
    type V = Seq<u8>;

    closed spec fn view(&self) -> Seq<u8> {
        self.buf@.subrange(self.current_index as int, self.buf@.len() as int)
    }
}

impl MessageBuf {
    #[verifier::type_invariant]
    spec fn inv(self) -> bool {
        self.current_index <= self.buf@.len()
    }

    /// A buffer whose remaining bytes are `buf`.
    pub fn new(buf: Vec<u8>) -> (r: Self)
        ensures
            r@ == buf@,
    {
        let r = Self { buf, current_index: 0 };
        assert(r@ =~= r.buf@);
        r
    }

    /// A buffer whose remaining bytes are `buf`.
    pub fn from_vec(buf: Vec<u8>) -> (r: Self)
        ensures
            r@ == buf@,
    {
        Self::new(buf)
    }

    /// The number of bytes not yet taken.
    pub fn len(&self) -> (r: usize)
        ensures
            r == self@.len(),
    {
        proof {
            use_type_invariant(self);
        }
        self.buf.len() - self.current_index
    }

    /// Whether every byte has been taken.
    pub fn is_empty(&self) -> (r: bool)
        ensures
            r == (self@.len() == 0),
    {
        self.len() == 0
    }

    /// The bytes not yet taken.
    pub fn into_remaining_bytes(self) -> (r: Vec<u8>)
        ensures
            r@ == self@,
    {
        proof {
            use_type_invariant(&self);
        }
        let mut out: Vec<u8> = Vec::with_capacity(self.buf.len() - self.current_index);
        let mut i = self.current_index;
        while i < self.buf.len()
            invariant
                self.current_index <= i <= self.buf@.len(),
                out@ == self.buf@.subrange(self.current_index as int, i as int),
            decreases self.buf@.len() - i,
        {
            out.push(self.buf[i]);
            i += 1;
            assert(out@ =~= self.buf@.subrange(self.current_index as int, i as int));
        }
        out
    }

    /// Takes the next `size` bytes. Fails, taking nothing, when fewer remain.
    pub fn advance(&mut self, size: usize) -> (r: Result<&[u8], ULogError>)
        ensures
            r is Ok <==> size <= old(self)@.len(),
            r matches Ok(bytes) ==> bytes@ == old(self)@.subrange(0, size as int)
                && final(self)@ == old(self)@.skip(size as int),
            r is Err ==> final(self)@ == old(self)@ && r->Err_0 is ParseError,
    {
        proof {
            use_type_invariant(&*self);
        }
        if size > self.buf.len() - self.current_index {
            Err(ULogError::ParseError("the message is too short".to_owned()))
        } else {
            let start = self.current_index;
            self.current_index = start + size;
            let bytes = slice_subrange(self.buf.as_slice(), start, start + size);
            assert(bytes@ =~= old(self)@.subrange(0, size as int));
            assert(self@ =~= old(self)@.skip(size as int));
            Ok(bytes)
        }
    }

    /// Takes the next byte.
    pub fn take_u8(&mut self) -> (r: Result<u8, ULogError>)
        ensures
            r is Ok <==> 1 <= old(self)@.len(),
            r matches Ok(v) ==> v == old(self)@[0] && final(self)@ == old(self)@.skip(1),
            r is Err ==> final(self)@ == old(self)@ && r->Err_0 is ParseError,
    {
        let bytes = self.advance(1)?;
        Ok(bytes[0])
    }

    /// Takes the next byte as a two's complement number.
    pub fn take_i8(&mut self) -> (r: Result<i8, ULogError>)
        ensures
            r is Ok <==> 1 <= old(self)@.len(),
            r matches Ok(v) ==> v == old(self)@[0] as i8 && final(self)@ == old(self)@.skip(1),
            r is Err ==> final(self)@ == old(self)@ && r->Err_0 is ParseError,
    {
        let bytes = self.advance(1)?;
        Ok(bytes[0] as i8)
    }

    /// Takes the next two bytes as a little-endian number.
    pub fn take_u16(&mut self) -> (r: Result<u16, ULogError>)
        ensures
            r is Ok <==> 2 <= old(self)@.len(),
            r matches Ok(v) ==> v == le_u16(old(self)@) && final(self)@ == old(self)@.skip(2),
            r is Err ==> final(self)@ == old(self)@ && r->Err_0 is ParseError,
    {
        let bytes = self.advance(2)?;
        assert(bytes@.subrange(0, 2) =~= old(self)@.subrange(0, 2));
        Ok(le_read_u16(bytes))
    }

    /// Takes the next two bytes as a little-endian two's complement number.
    pub fn take_i16(&mut self) -> (r: Result<i16, ULogError>)
        ensures
            r is Ok <==> 2 <= old(self)@.len(),
            r matches Ok(v) ==> v == le_u16(old(self)@) as i16 && final(self)@ == old(self)@.skip(2),
            r is Err ==> final(self)@ == old(self)@ && r->Err_0 is ParseError,
    {
        let bytes = self.advance(2)?;
        assert(bytes@.subrange(0, 2) =~= old(self)@.subrange(0, 2));
        Ok(le_read_i16(bytes))
    }

    /// Takes the next four bytes as a little-endian number.
    pub fn take_u32(&mut self) -> (r: Result<u32, ULogError>)
        ensures
            r is Ok <==> 4 <= old(self)@.len(),
            r matches Ok(v) ==> v == le_u32(old(self)@) && final(self)@ == old(self)@.skip(4),
            r is Err ==> final(self)@ == old(self)@ && r->Err_0 is ParseError,
    {
        let bytes = self.advance(4)?;
        assert(bytes@.subrange(0, 4) =~= old(self)@.subrange(0, 4));
        Ok(le_read_u32(bytes))
    }

    /// Takes the next four bytes as a little-endian two's complement number.
    pub fn take_i32(&mut self) -> (r: Result<i32, ULogError>)
        ensures
            r is Ok <==> 4 <= old(self)@.len(),
            r matches Ok(v) ==> v == le_u32(old(self)@) as i32 && final(self)@ == old(self)@.skip(4),
            r is Err ==> final(self)@ == old(self)@ && r->Err_0 is ParseError,
    {
        let bytes = self.advance(4)?;
        assert(bytes@.subrange(0, 4) =~= old(self)@.subrange(0, 4));
        Ok(le_read_i32(bytes))
    }

    /// Takes the next eight bytes as a little-endian number.
    pub fn take_u64(&mut self) -> (r: Result<u64, ULogError>)
        ensures
            r is Ok <==> 8 <= old(self)@.len(),
            r matches Ok(v) ==> v == le_u64(old(self)@) && final(self)@ == old(self)@.skip(8),
            r is Err ==> final(self)@ == old(self)@ && r->Err_0 is ParseError,
    {
        let bytes = self.advance(8)?;
        assert(bytes@.subrange(0, 8) =~= old(self)@.subrange(0, 8));
        Ok(le_read_u64(bytes))
    }

    /// Takes the next eight bytes as a little-endian two's complement number.
    pub fn take_i64(&mut self) -> (r: Result<i64, ULogError>)
        ensures
            r is Ok <==> 8 <= old(self)@.len(),
            r matches Ok(v) ==> v == le_u64(old(self)@) as i64 && final(self)@ == old(self)@.skip(8),
            r is Err ==> final(self)@ == old(self)@ && r->Err_0 is ParseError,
    {
        let bytes = self.advance(8)?;
        assert(bytes@.subrange(0, 8) =~= old(self)@.subrange(0, 8));
        Ok(le_read_i64(bytes))
    }

    /// Takes the next byte as a boolean: zero is `false`, anything else `true`.
    pub fn take_bool(&mut self) -> (r: Result<bool, ULogError>)
        ensures
            r is Ok <==> 1 <= old(self)@.len(),
            r matches Ok(v) ==> v == (old(self)@[0] != 0) && final(self)@ == old(self)@.skip(1),
            r is Err ==> final(self)@ == old(self)@ && r->Err_0 is ParseError,
    {
        let v = self.take_u8()?;
        Ok(v != 0)
    }

    /// Skips the next `size` bytes. Fails, skipping nothing, when fewer remain.
    pub fn skip(&mut self, size: usize) -> (r: Result<(), ULogError>)
        ensures
            r is Ok <==> size <= old(self)@.len(),
            r is Ok ==> final(self)@ == old(self)@.skip(size as int),
            r is Err ==> final(self)@ == old(self)@ && r->Err_0 is ParseError,
    {
        let _ = self.advance(size)?;
        assert(self@ =~= old(self)@.skip(size as int));
        Ok(())
    }
}

/// The bytes left of `s` after reads of the sizes `sizes`, in order: each read of a buffer
/// (`advance(n)` and `skip(n)`, `take_u8`, `take_i8` and `take_bool` of one byte, `take_u16` and
/// `take_i16` of two, `take_u32` and `take_i32` of four, `take_u64` and `take_i64` of eight)
/// takes its size when that many bytes remain, and takes nothing when fewer do.
pub open spec fn after_reads(s: Seq<u8>, sizes: Seq<nat>) -> Seq<u8>
    decreases sizes.len(),
{
    if sizes.len() == 0 {
        s
    } else {
        let t = after_reads(s, sizes.drop_last());
        if sizes.last() <= t.len() {
            t.skip(sizes.last() as int)
        } else {
            t
        }
    }
}

/// How many bytes of `s` the reads of the sizes `sizes` that succeed take in all.
pub open spec fn taken_by_reads(s: Seq<u8>, sizes: Seq<nat>) -> nat
    decreases sizes.len(),
{
    if sizes.len() == 0 {
        0
    } else {
        let t = after_reads(s, sizes.drop_last());
        taken_by_reads(s, sizes.drop_last()) + if sizes.last() <= t.len() {
            sizes.last()
        } else {
            0
        }
    }
}

/// Whatever reads are made of a buffer, and whichever of them fail, the bytes left are those
/// of the input after what the successful reads took, which is never more than the input: its
/// `len` is the input's length less that count. A failed read changes nothing.
pub proof fn reads_take_what_they_consume(s: Seq<u8>, sizes: Seq<nat>)
    ensures
        taken_by_reads(s, sizes) <= s.len(),
        after_reads(s, sizes) == s.skip(taken_by_reads(s, sizes) as int),
        after_reads(s, sizes).len() == s.len() - taken_by_reads(s, sizes),
        sizes.len() > 0 && sizes.last() > after_reads(s, sizes.drop_last()).len() ==> after_reads(
            s,
            sizes,
        ) == after_reads(s, sizes.drop_last()),
    decreases sizes.len(),
{
    if sizes.len() > 0 {
        let prev = sizes.drop_last();
        reads_take_what_they_consume(s, prev);
        let k = taken_by_reads(s, prev);
        let t = after_reads(s, prev);
        if sizes.last() <= t.len() {
            assert(t.skip(sizes.last() as int) =~= s.skip((k + sizes.last()) as int));
        }
    } else {
        assert(s.skip(0) =~= s);
    }
}

} // verus!
