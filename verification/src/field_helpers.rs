//! Decoding of primitive values and arrays of them from a message buffer.
use vstd::prelude::*;

use crate::errors::ULogError;
use crate::message_buf::{MessageBuf, le_u16, le_u32, le_u64};
use crate::model::def;
use crate::model::CChar;

verus! {

/// A primitive value that is decoded from a fixed number of leading bytes.
pub trait ParseFromBuf: Sized {
    /// How many bytes a value takes.
    spec fn width() -> nat;

    /// The value that the leading bytes of `bytes` encode.
    spec fn decode(bytes: Seq<u8>) -> Self;

    /// Takes one value from the front of `buf`. Fails, taking nothing, when too few bytes
    /// remain.
    fn parse_from_buf(buf: &mut MessageBuf) -> (r: Result<Self, ULogError>)
        ensures
            r is Ok <==> Self::width() <= old(buf)@.len(),
            r matches Ok(v) ==> v == Self::decode(old(buf)@) && final(buf)@ == old(buf)@.skip(
                Self::width() as int,
            ),
            r matches Err(e) ==> e is ParseError && final(buf)@ == old(buf)@,
    ;
}

impl ParseFromBuf for u8 {
    open spec fn width() -> nat {
        1
    }

    open spec fn decode(bytes: Seq<u8>) -> u8 {
        bytes[0]
    }

    fn parse_from_buf(buf: &mut MessageBuf) -> (r: Result<u8, ULogError>) {
        buf.take_u8()
    }
}

impl ParseFromBuf for u16 {
    open spec fn width() -> nat {
        2
    }

    open spec fn decode(bytes: Seq<u8>) -> u16 {
        le_u16(bytes)
    }

    fn parse_from_buf(buf: &mut MessageBuf) -> (r: Result<u16, ULogError>) {
        buf.take_u16()
    }
}

impl ParseFromBuf for u32 {
    open spec fn width() -> nat {
        4
    }

    open spec fn decode(bytes: Seq<u8>) -> u32 {
        le_u32(bytes)
    }

    fn parse_from_buf(buf: &mut MessageBuf) -> (r: Result<u32, ULogError>) {
        buf.take_u32()
    }
}

impl ParseFromBuf for u64 {
    open spec fn width() -> nat {
        8
    }

    open spec fn decode(bytes: Seq<u8>) -> u64 {
        le_u64(bytes)
    }

    fn parse_from_buf(buf: &mut MessageBuf) -> (r: Result<u64, ULogError>) {
        buf.take_u64()
    }
}

impl ParseFromBuf for i8 {
    open spec fn width() -> nat {
        1
    }

    open spec fn decode(bytes: Seq<u8>) -> i8 {
        bytes[0] as i8
    }

    fn parse_from_buf(buf: &mut MessageBuf) -> (r: Result<i8, ULogError>) {
        buf.take_i8()
    }
}

impl ParseFromBuf for i16 {
    open spec fn width() -> nat {
        2
    }

    open spec fn decode(bytes: Seq<u8>) -> i16 {
        le_u16(bytes) as i16
    }

    fn parse_from_buf(buf: &mut MessageBuf) -> (r: Result<i16, ULogError>) {
        buf.take_i16()
    }
}

impl ParseFromBuf for i32 {
    open spec fn width() -> nat {
        4
    }

    open spec fn decode(bytes: Seq<u8>) -> i32 {
        le_u32(bytes) as i32
    }

    fn parse_from_buf(buf: &mut MessageBuf) -> (r: Result<i32, ULogError>) {
        buf.take_i32()
    }
}

impl ParseFromBuf for i64 {
    open spec fn width() -> nat {
        8
    }

    open spec fn decode(bytes: Seq<u8>) -> i64 {
        le_u64(bytes) as i64
    }

    fn parse_from_buf(buf: &mut MessageBuf) -> (r: Result<i64, ULogError>) {
        buf.take_i64()
    }
}

impl ParseFromBuf for bool {
    open spec fn width() -> nat {
        1
    }

    open spec fn decode(bytes: Seq<u8>) -> bool {
        bytes[0] != 0
    }

    fn parse_from_buf(buf: &mut MessageBuf) -> (r: Result<bool, ULogError>) {
        buf.take_bool()
    }
}

impl ParseFromBuf for CChar {
    open spec fn width() -> nat {
        1
    }

    open spec fn decode(bytes: Seq<u8>) -> CChar {
        CChar(bytes[0])
    }

    fn parse_from_buf(buf: &mut MessageBuf) -> (r: Result<CChar, ULogError>) {
        let b = buf.take_u8()?;
        Ok(CChar(b))
    }
}

/// Takes one value of type `T` from the front of the buffer; the field says what is parsed
/// but not how.
pub fn parse_data_field<T: ParseFromBuf>(_field: &def::Field, message_buf: &mut MessageBuf) -> (r:
    Result<T, ULogError>)
    ensures
        r is Ok <==> T::width() <= old(message_buf)@.len(),
        r matches Ok(v) ==> v == T::decode(old(message_buf)@) && final(message_buf)@ == old(
            message_buf,
        )@.skip(T::width() as int),
        r matches Err(e) ==> e is ParseError && final(message_buf)@ == old(message_buf)@,
{
    T::parse_from_buf(message_buf)
}

/// The values of an array of `n` elements of type `T` at the front of `bytes`.
pub open spec fn decode_array<T: ParseFromBuf>(bytes: Seq<u8>, n: nat) -> Seq<T> {
    Seq::new(n, |k: int| T::decode(bytes.skip(k * T::width())))
}

/// Takes an array of `array_size` values of type `T` from the front of the buffer. Fails when
/// the buffer holds fewer than `array_size` values.
pub fn parse_primitive_array<T: ParseFromBuf>(array_size: usize, message_buf: &mut MessageBuf) -> (r:
    Result<Vec<T>, ULogError>)
    ensures
        r is Ok <==> array_size * T::width() <= old(message_buf)@.len(),
        r matches Ok(v) ==> v@ == decode_array::<T>(old(message_buf)@, array_size as nat)
            && final(message_buf)@ == old(message_buf)@.skip(array_size * T::width()),
        r matches Err(e) ==> e is ParseError,
{
    let ghost start = message_buf@;
    let mut array: Vec<T> = Vec::new();
    let mut i: usize = 0;
    assert(message_buf@ =~= start.skip(0));
    while i < array_size
        invariant
            i <= array_size,
            start == old(message_buf)@,
            i * T::width() <= start.len(),
            message_buf@ == start.skip(i * T::width()),
            array@ == decode_array::<T>(start, i as nat),
        decreases array_size - i,
    {
        let ghost before = message_buf@;
        let v = match T::parse_from_buf(message_buf) {
            Ok(v) => v,
            Err(e) => {
                proof {
                    assert(i * T::width() + T::width() > start.len());
                    assert((i + 1) * T::width() == i * T::width() + T::width()) by (nonlinear_arith);
                    assert(array_size * T::width() >= (i + 1) * T::width()) by (nonlinear_arith)
                        requires
                            array_size >= i + 1,
                    ;
                }
                return Err(e);
            },
        };
        proof {
            assert(v == T::decode(start.skip(i * T::width())));
            assert((i + 1) * T::width() == i * T::width() + T::width()) by (nonlinear_arith);
            assert(message_buf@ =~= start.skip((i + 1) * T::width()));
        }
        array.push(v);
        assert(array@ =~= decode_array::<T>(start, (i + 1) as nat));
        i += 1;
    }
    Ok(array)
}

/// Whether `vals` are the values that `f` reads one after the other, from the buffers `bufs`:
/// `f` reads the i-th value from the i-th buffer and leaves the next.
pub open spec fn reads_chain<T, F: Fn(MessageBuf) -> (MessageBuf, Result<T, ULogError>)>(
    f: F,
    bufs: Seq<MessageBuf>,
    vals: Seq<T>,
) -> bool {
    &&& bufs.len() == vals.len() + 1
    &&& forall|i: int| 0 <= i < vals.len() ==> #[trigger] f.ensures((bufs[i],), (bufs[i + 1], Ok::<T, ULogError>(vals[i])))
}

/// Reads `array_size` values one after the other with `parse_element`, which takes the buffer
/// and hands it back with what it read. Stops at the first error, which it gives back, with the
/// buffer as that read left it.
pub fn parse_array<T, F>(array_size: usize, message_buf: &mut MessageBuf, parse_element: F) -> (r: Result<Vec<T>, ULogError>)
    where F: Fn(MessageBuf) -> (MessageBuf, Result<T, ULogError>),
    requires
        forall|b: MessageBuf| #[trigger] parse_element.requires((b,)),
    ensures
        r matches Ok(v) ==> v@.len() == array_size && exists|bufs: Seq<MessageBuf>|
            reads_chain(parse_element, bufs, v@) && bufs[0] == *old(message_buf)
                && bufs.last() == *final(message_buf),
        r matches Err(e) ==> exists|bufs: Seq<MessageBuf>, vals: Seq<T>|
            reads_chain(parse_element, bufs, vals) && vals.len() < array_size && bufs[0]
                == *old(message_buf) && parse_element.ensures((bufs.last(),), (*final(message_buf), Err::<T, ULogError>(e))),
{
    let mut cur = MessageBuf::new(Vec::new());
    std::mem::swap(&mut cur, message_buf);
    let ghost mut bufs: Seq<MessageBuf> = seq![cur];
    let mut array: Vec<T> = Vec::with_capacity(array_size);
    let mut i: usize = 0;
    while i < array_size
        invariant
            forall|b: MessageBuf| #[trigger] parse_element.requires((b,)),
            i <= array_size,
            array@.len() == i,
            reads_chain(parse_element, bufs, array@),
            bufs[0] == *old(message_buf),
            bufs.last() == cur,
        decreases array_size - i,
    {
        let ghost before = cur;
        let (next, res) = parse_element(cur);
        cur = next;
        match res {
            Ok(v) => {
                proof { bufs = bufs.push(cur); }
                array.push(v);
                assert forall|k: int| 0 <= k < array@.len() implies #[trigger] parse_element.ensures((bufs[k],), (bufs[k + 1], Ok::<T, ULogError>(array@[k]))) by {
                    if k < array@.len() - 1 {
                        assert(bufs.drop_last()[k] == bufs[k]);
                    }
                }
            },
            Err(e) => {
                *message_buf = cur;
                assert(bufs.last() == before);
                return Err(e);
            },
        }
        i += 1;
    }
    *message_buf = cur;
    Ok(array)
}

} // verus!
