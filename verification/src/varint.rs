//! Variable-length unsigned integers.
//!
//! A number is written in groups of seven bits, the least significant group
//! first, one group per byte. The top bit of a byte is set when another byte
//! follows. A 32-bit number therefore takes one to five bytes, and smaller
//! numbers take fewer.
//!
//! A writer writes the shortest form. A reader takes every form of five
//! bytes at most that stays within 32 bits, the shortest or not.

use crate::error::ProtocolError;
use vstd::prelude::*;

verus! {

/// Most bytes that the encoding of a 32-bit number takes.
pub const MAX_VARINT_BYTES: usize = 5;

/// Why no number could be read.
#[derive(Clone, Copy, Debug, PartialEq, Eq, Hash)]
pub enum VarintError {
    /// The buffer ends before the last byte of the number.
    Truncated,
    /// The number does not fit in 32 bits, or runs over more than five bytes.
    TooLarge,
}

/// The encoding of `v`.
pub open spec fn varint_bytes(v: nat) -> Seq<u8>
    decreases v,
{
    if v < 128 {
        seq![v as u8]
    } else {
        seq![(128 + v % 128) as u8] + varint_bytes(v / 128)
    }
}

/// Reads one number from the front of `buf`, looking at `width` bytes at most.
/// Gives the number and how many bytes it took.
pub open spec fn parse_varint(buf: Seq<u8>, width: nat) -> Result<(nat, nat), VarintError>
    decreases width,
{
    if width == 0 {
        Err(VarintError::TooLarge)
    } else if buf.len() == 0 {
        Err(VarintError::Truncated)
    } else if buf[0] < 128 {
        Ok((buf[0] as nat, 1))
    } else {
        match parse_varint(buf.skip(1), (width - 1) as nat) {
            Ok((high, n)) => Ok(((buf[0] - 128) as nat + 128 * high, n + 1)),
            Err(e) => Err(e),
        }
    }
}

/// Reads one 32-bit number from the front of `buf`.
pub open spec fn spec_from_varint_bytes(buf: Seq<u8>) -> Result<(u32, nat), VarintError> {
    match parse_varint(buf, MAX_VARINT_BYTES as nat) {
        Ok((v, n)) => if v <= u32::MAX {
            Ok((v as u32, n))
        } else {
            Err(VarintError::TooLarge)
        },
        Err(e) => Err(e),
    }
}

/// Reads one 32-bit number that may not be above `max_value`.
pub open spec fn spec_from_varint_bytes_bounded(buf: Seq<u8>, max_value: u32) -> Result<
    (u32, nat),
    ProtocolError,
> {
    match spec_from_varint_bytes(buf) {
        Ok((v, n)) => if v <= max_value {
            Ok((v, n))
        } else {
            Err(ProtocolError::BoundExceeded)
        },
        Err(VarintError::Truncated) => Err(ProtocolError::Truncated),
        Err(VarintError::TooLarge) => Err(ProtocolError::BoundExceeded),
    }
}

/// 128 to the power `k`.
pub open spec fn pow128(k: nat) -> nat
    decreases k,
{
    if k == 0 {
        1
    } else {
        128 * pow128((k - 1) as nat)
    }
}

/// The encoding is never empty, every byte but the last has its top bit set,
/// and a number below `128^k` takes `k` bytes at most.
pub proof fn lemma_varint_bytes_shape(v: nat, k: nat)
    requires
        k >= 1,
        v < pow128(k),
    ensures
        1 <= varint_bytes(v).len() <= k,
        varint_bytes(v).last() < 128,
        forall|i: int| 0 <= i < varint_bytes(v).len() - 1 ==> #[trigger] varint_bytes(v)[i] >= 128,
    decreases v,
{
    if v >= 128 {
        if k == 1 {
            assert(pow128(1) == 128) by {
                reveal_with_fuel(pow128, 2);
            }
        }
        lemma_varint_bytes_shape(v / 128, (k - 1) as nat);
    }
}

/// A 32-bit number takes one to five bytes.
pub proof fn lemma_u32_varint_len(v: u32)
    ensures
        1 <= varint_bytes(v as nat).len() <= MAX_VARINT_BYTES,
{
    assert(pow128(5) == 128 * 128 * 128 * 128 * 128) by {
        reveal_with_fuel(pow128, 6);
    }
    lemma_varint_bytes_shape(v as nat, 5);
}

/// Reading back what was written gives the number and the length of its
/// encoding, whatever follows it in the buffer.
pub proof fn lemma_parse_varint_round_trip(v: nat, rest: Seq<u8>, width: nat)
    requires
        varint_bytes(v).len() <= width,
    ensures
        parse_varint(varint_bytes(v) + rest, width) == Ok::<(nat, nat), VarintError>(
            (v, varint_bytes(v).len()),
        ),
    decreases v,
{
    let buf = varint_bytes(v) + rest;
    if v >= 128 {
        let tail = varint_bytes(v / 128);
        assert(buf.skip(1) =~= tail + rest);
        lemma_parse_varint_round_trip(v / 128, rest, (width - 1) as nat);
    }
}

/// A buffer that holds only a strict prefix of an encoding is short, never
/// taken for another number.
pub proof fn lemma_parse_varint_truncated(v: nat, n: int, width: nat)
    requires
        0 <= n < varint_bytes(v).len(),
        n < width,
    ensures
        parse_varint(varint_bytes(v).take(n), width) == Err::<(nat, nat), VarintError>(
            VarintError::Truncated,
        ),
    decreases v,
{
    let buf = varint_bytes(v).take(n);
    if n > 0 {
        let tail = varint_bytes(v / 128);
        assert(buf.skip(1) =~= tail.take(n - 1));
        lemma_parse_varint_truncated(v / 128, n - 1, (width - 1) as nat);
    }
}

/// A number that was read took at least one byte, no more than the buffer
/// holds nor than `width`, and is below `128` to the number of bytes taken.
pub proof fn lemma_parse_varint_consumed(buf: Seq<u8>, width: nat)
    ensures
        parse_varint(buf, width) matches Ok((v, n)) ==> 1 <= n <= buf.len() && n <= width && v
            < pow128(n),
    decreases width,
{
    if width > 0 && buf.len() > 0 {
        if buf[0] < 128 {
            assert(pow128(1) == 128) by {
                reveal_with_fuel(pow128, 2);
            }
        } else {
            lemma_parse_varint_consumed(buf.skip(1), (width - 1) as nat);
        }
    }
}

/// What a reader that has taken `i` bytes, and holds `acc` from them, makes
/// of what the rest of the buffer gives.
pub open spec fn resume_varint(
    acc: nat,
    scale: nat,
    i: nat,
    rest: Result<(nat, nat), VarintError>,
) -> Result<(nat, nat), VarintError> {
    match rest {
        Ok((high, n)) => Ok((acc + scale * high, n + i)),
        Err(e) => Err(e),
    }
}

proof fn lemma_resume_step(buf: Seq<u8>, acc: nat, scale: nat, i: nat, width: nat)
    requires
        i < buf.len(),
        width > 0,
        buf[i as int] >= 128,
    ensures
        resume_varint(acc, scale, i, parse_varint(buf.skip(i as int), width)) == resume_varint(
            acc + scale * (buf[i as int] - 128) as nat,
            scale * 128,
            i + 1,
            parse_varint(buf.skip((i + 1) as int), (width - 1) as nat),
        ),
{
    let here = buf.skip(i as int);
    assert(here.skip(1) =~= buf.skip((i + 1) as int));
    let low = (buf[i as int] - 128) as nat;
    match parse_varint(buf.skip((i + 1) as int), (width - 1) as nat) {
        Ok((high, n)) => {
            assert(acc + scale * (low + 128 * high) == (acc + scale * low) + (scale * 128) * high)
                by (nonlinear_arith);
        },
        Err(_) => {},
    }
}

/// Writes `v`.
pub fn to_varint_bytes(v: u32) -> (out: Vec<u8>)
    ensures
        out@ == varint_bytes(v as nat),
        1 <= out@.len() <= MAX_VARINT_BYTES,
{
    let mut out: Vec<u8> = Vec::new();
    let mut left: u32 = v;
    while left >= 128
        invariant
            out@ + varint_bytes(left as nat) == varint_bytes(v as nat),
        decreases left,
    {
        let low: u32 = left % 128;
        out.push((128 + low) as u8);
        left = left / 128;
    }
    proof {
        lemma_u32_varint_len(v);
    }
    out.push(left as u8);
    out
}

/// Reads one 32-bit number from the front of `buffer`: the number and how
/// many bytes it took.
pub fn from_varint_bytes(buffer: &[u8]) -> (r: Result<(u32, usize), VarintError>)
    ensures
        match r {
            Ok((v, n)) => spec_from_varint_bytes(buffer@) == Ok::<(u32, nat), VarintError>(
                (v, n as nat),
            ) && 1 <= n <= buffer@.len() && n <= MAX_VARINT_BYTES,
            Err(e) => spec_from_varint_bytes(buffer@) == Err::<(u32, nat), VarintError>(e),
        },
{
    let mut acc: u64 = 0;
    let mut scale: u64 = 1;
    let mut i: usize = 0;
    proof {
        assert(buffer@.skip(0) =~= buffer@);
        reveal_with_fuel(pow128, 6);
    }
    while i < 5
        invariant
            i <= 5,
            i <= buffer@.len(),
            scale == pow128(i as nat),
            acc < scale,
            scale <= 128 * 128 * 128 * 128 * 128,
            pow128(5) == 128 * 128 * 128 * 128 * 128,
            parse_varint(buffer@, 5) == resume_varint(
                acc as nat,
                scale as nat,
                i as nat,
                parse_varint(buffer@.skip(i as int), (5 - i) as nat),
            ),
        decreases 5 - i,
    {
        if i >= buffer.len() {
            return Err(VarintError::Truncated);
        }
        let b: u8 = buffer[i];
        if b < 128 {
            assert(scale * b <= scale * 127) by (nonlinear_arith)
                requires
                    b <= 127,
                    scale >= 0,
            ;
            let value: u64 = acc + scale * (b as u64);
            if value > 0xffff_ffff {
                return Err(VarintError::TooLarge);
            }
            return Ok((value as u32, i + 1));
        }
        proof {
            lemma_resume_step(buffer@, acc as nat, scale as nat, i as nat, (5 - i) as nat);
            assert(scale * (b - 128) <= scale * 127) by (nonlinear_arith)
                requires
                    b - 128 <= 127,
                    scale >= 0,
            ;
            assert(i < 5 ==> scale <= 128 * 128 * 128 * 128) by {
                reveal_with_fuel(pow128, 6);
            }
        }
        acc = acc + scale * ((b - 128) as u64);
        scale = scale * 128;
        i = i + 1;
    }
    Err(VarintError::TooLarge)
}

/// Reads one 32-bit number that may not be above `max_value`. The bound is
/// part of the read: a number above it is refused before the caller sees it.
pub fn from_varint_bytes_bounded(buffer: &[u8], max_value: u32) -> (r: Result<
    (u32, usize),
    ProtocolError,
>)
    ensures
        match r {
            Ok((v, n)) => spec_from_varint_bytes_bounded(buffer@, max_value) == Ok::<
                (u32, nat),
                ProtocolError,
            >((v, n as nat)) && v <= max_value && 1 <= n <= buffer@.len() && n
                <= MAX_VARINT_BYTES,
            Err(e) => spec_from_varint_bytes_bounded(buffer@, max_value) == Err::<
                (u32, nat),
                ProtocolError,
            >(e),
        },
{
    match from_varint_bytes(buffer) {
        Ok((v, n)) => {
            if v > max_value {
                Err(ProtocolError::BoundExceeded)
            } else {
                Ok((v, n))
            }
        },
        Err(VarintError::Truncated) => Err(ProtocolError::Truncated),
        Err(VarintError::TooLarge) => Err(ProtocolError::BoundExceeded),
    }
}

} // verus!
