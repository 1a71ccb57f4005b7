//! Big-endian integers in byte buffers.

use vstd::prelude::*;
use crate::error::DecodeError;

verus! {

/// The number that two bytes denote, most significant byte first.
pub open spec fn be16(b0: u8, b1: u8) -> int {
    b0 as int * 0x100 + b1 as int
}

/// The number that four bytes denote, most significant byte first.
pub open spec fn be32(b0: u8, b1: u8, b2: u8, b3: u8) -> int {
    b0 as int * 0x100_0000 + b1 as int * 0x1_0000 + b2 as int * 0x100 + b3 as int
}

/// The 16-bit big-endian number at `at` in `s`.
pub open spec fn u16_at(s: Seq<u8>, at: int) -> int
    recommends
        0 <= at,
        at + 2 <= s.len(),
{
    be16(s[at], s[at + 1])
}

/// The 32-bit big-endian number at `at` in `s`.
pub open spec fn u32_at(s: Seq<u8>, at: int) -> int
    recommends
        0 <= at,
        at + 4 <= s.len(),
{
    be32(s[at], s[at + 1], s[at + 2], s[at + 3])
}

/// The four bytes that encode `v`, most significant first.
#[verifier::opaque]
pub open spec fn u32_bytes(v: int) -> Seq<u8>
    recommends
        0 <= v < 0x1_0000_0000,
{
    seq![
        (v / 0x100_0000) as u8,
        (v / 0x1_0000 % 0x100) as u8,
        (v / 0x100 % 0x100) as u8,
        (v % 0x100) as u8,
    ]
}

/// The two bytes that encode `v`, most significant first.
#[verifier::opaque]
pub open spec fn u16_bytes(v: int) -> Seq<u8>
    recommends
        0 <= v < 0x1_0000,
{
    seq![(v / 0x100) as u8, (v % 0x100) as u8]
}

/// The signed reading of a 32-bit pattern (two's complement).
pub open spec fn as_signed32(v: int) -> int
    recommends
        0 <= v < 0x1_0000_0000,
{
    if v < 0x8000_0000 {
        v
    } else {
        v - 0x1_0000_0000
    }
}

/// Decoding the encoding of a 32-bit number gives the number back.
pub proof fn lemma_u32_round_trip(v: int)
    requires
        0 <= v < 0x1_0000_0000,
    ensures
        u32_bytes(v).len() == 4,
        u32_at(u32_bytes(v), 0) == v,
{
    reveal(u32_bytes);
}

/// The four bytes of a number are recovered from it by division.
proof fn lemma_be32_parts(b0: int, b1: int, b2: int, b3: int)
    requires
        0 <= b0 < 0x100,
        0 <= b1 < 0x100,
        0 <= b2 < 0x100,
        0 <= b3 < 0x100,
    ensures
        ({
            let v = b0 * 0x100_0000 + b1 * 0x1_0000 + b2 * 0x100 + b3;
            &&& 0 <= v < 0x1_0000_0000
            &&& v / 0x100_0000 == b0
            &&& v / 0x1_0000 % 0x100 == b1
            &&& v / 0x100 % 0x100 == b2
            &&& v % 0x100 == b3
        }),
{
    let v = b0 * 0x100_0000 + b1 * 0x1_0000 + b2 * 0x100 + b3;
    assert(v / 0x100 == b0 * 0x1_0000 + b1 * 0x100 + b2);
}

/// Encoding the number read from four bytes gives the four bytes back.
pub proof fn lemma_u32_bytes_of_read(s: Seq<u8>, at: int)
    requires
        0 <= at,
        at + 4 <= s.len(),
    ensures
        0 <= u32_at(s, at) < 0x1_0000_0000,
        u32_bytes(u32_at(s, at)) == s.subrange(at, at + 4),
{
    reveal(u32_bytes);
    lemma_be32_parts(s[at] as int, s[at + 1] as int, s[at + 2] as int, s[at + 3] as int);
}

/// Decoding the encoding of a 16-bit number gives the number back.
pub proof fn lemma_u16_round_trip(v: int)
    requires
        0 <= v < 0x1_0000,
    ensures
        u16_bytes(v).len() == 2,
        u16_at(u16_bytes(v), 0) == v,
{
    reveal(u16_bytes);
}

/// Where a buffer holds the encoding of `v` at `at`, reading there gives
/// `v`.
pub proof fn lemma_u32_at_encoded(buf: Seq<u8>, at: int, v: int)
    requires
        0 <= v < 0x1_0000_0000,
        0 <= at,
        at + 4 <= buf.len(),
        buf.subrange(at, at + 4) == u32_bytes(v),
    ensures
        u32_at(buf, at) == v,
{
    lemma_u32_round_trip(v);
    let part = buf.subrange(at, at + 4);
    assert(part[0] == buf[at] && part[1] == buf[at + 1] && part[2] == buf[at + 2] && part[3]
        == buf[at + 3]);
}

/// Where a buffer holds the encoding of `v` at `at`, reading there gives
/// `v`.
pub proof fn lemma_u16_at_encoded(buf: Seq<u8>, at: int, v: int)
    requires
        0 <= v < 0x1_0000,
        0 <= at,
        at + 2 <= buf.len(),
        buf.subrange(at, at + 2) == u16_bytes(v),
    ensures
        u16_at(buf, at) == v,
{
    lemma_u16_round_trip(v);
}

/// The length of an encoded 32-bit number.
pub proof fn lemma_u32_bytes_len(v: int)
    ensures
        u32_bytes(v).len() == 4,
{
    reveal(u32_bytes);
}

/// The length of an encoded 16-bit number.
pub proof fn lemma_u16_bytes_len(v: int)
    ensures
        u16_bytes(v).len() == 2,
{
    reveal(u16_bytes);
}

/// Reads a big-endian `u16` at `at`, if two bytes are there.
pub fn read_u16(buf: &[u8], at: usize) -> (r: Result<u16, DecodeError>)
    ensures
        at + 2 <= buf@.len() ==> r == Ok::<u16, DecodeError>(u16_at(buf@, at as int) as u16),
        at + 2 > buf@.len() ==> r == Err::<u16, DecodeError>(DecodeError::TruncatedInput),
        r matches Ok(v) ==> v as int == u16_at(buf@, at as int) && at + 2 <= buf@.len() <= usize::MAX,
{
    if buf.len() < 2 || at > buf.len() - 2 {
        return Err(DecodeError::TruncatedInput);
    }
    let hi: u16 = buf[at] as u16;
    let lo: u16 = buf[at + 1] as u16;
    Ok(hi * 0x100 + lo)
}

/// Reads a big-endian `u32` at `at`, if four bytes are there.
pub fn read_u32(buf: &[u8], at: usize) -> (r: Result<u32, DecodeError>)
    ensures
        at + 4 <= buf@.len() ==> r == Ok::<u32, DecodeError>(u32_at(buf@, at as int) as u32),
        at + 4 > buf@.len() ==> r == Err::<u32, DecodeError>(DecodeError::TruncatedInput),
        r matches Ok(v) ==> v as int == u32_at(buf@, at as int) && at + 4 <= buf@.len() <= usize::MAX,
{
    if buf.len() < 4 || at > buf.len() - 4 {
        return Err(DecodeError::TruncatedInput);
    }
    let b0: u32 = buf[at] as u32;
    let b1: u32 = buf[at + 1] as u32;
    let b2: u32 = buf[at + 2] as u32;
    let b3: u32 = buf[at + 3] as u32;
    Ok(b0 * 0x100_0000 + b1 * 0x1_0000 + b2 * 0x100 + b3)
}

/// Appends the big-endian encoding of `v` to `out`.
pub fn push_u32(out: &mut Vec<u8>, v: u32)
    ensures
        final(out)@ == old(out)@ + u32_bytes(v as int),
{
    out.push((v / 0x100_0000) as u8);
    out.push((v / 0x1_0000 % 0x100) as u8);
    out.push((v / 0x100 % 0x100) as u8);
    out.push((v % 0x100) as u8);
    proof {
        reveal(u32_bytes);
    }
}

/// Appends the big-endian encoding of `v` to `out`.
pub fn push_u16(out: &mut Vec<u8>, v: u16)
    ensures
        final(out)@ == old(out)@ + u16_bytes(v as int),
{
    out.push((v / 0x100) as u8);
    out.push((v % 0x100) as u8);
    proof {
        reveal(u16_bytes);
    }
}

/// `n` zero bytes.
pub open spec fn zeros(n: int) -> Seq<u8> {
    Seq::new(n as nat, |i: int| 0u8)
}

/// Appends `n` zero bytes to `out`.
pub fn push_zeros(out: &mut Vec<u8>, n: usize)
    ensures
        final(out)@ == old(out)@ + zeros(n as int),
{
    let mut i: usize = 0;
    while i < n
        invariant
            i <= n,
            out@ == old(out)@ + zeros(i as int),
        decreases n - i,
    {
        out.push(0);
        i += 1;
    }
}

/// Appends the bytes of `data` to `out`.
pub fn push_all(out: &mut Vec<u8>, data: &[u8])
    ensures
        final(out)@ == old(out)@ + data@,
{
    let mut i: usize = 0;
    while i < data.len()
        invariant
            i <= data@.len(),
            out@ == old(out)@ + data@.subrange(0, i as int),
        decreases data@.len() - i,
    {
        out.push(data[i]);
        i += 1;
    }
}

} // verus!
