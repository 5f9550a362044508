//! Little-endian integer fields in byte sequences.

use vstd::prelude::*;

verus! {

/// The 16-bit little-endian value stored at `b[at..at + 2]`.
pub open spec fn u16_at(b: Seq<u8>, at: int) -> u16 {
    (b[at] + 0x100 * b[at + 1]) as u16
}

/// The 32-bit little-endian value stored at `b[at..at + 4]`.
pub open spec fn u32_at(b: Seq<u8>, at: int) -> u32 {
    (b[at] + 0x100 * b[at + 1] + 0x1_0000 * b[at + 2] + 0x100_0000 * b[at + 3]) as u32
}

/// The two little-endian bytes of `x`.
pub open spec fn u16_bytes(x: u16) -> Seq<u8> {
    seq![(x % 0x100) as u8, (x / 0x100) as u8]
}

/// The four little-endian bytes of `x`.
pub open spec fn u32_bytes(x: u32) -> Seq<u8> {
    seq![
        (x % 0x100) as u8,
        (x / 0x100 % 0x100) as u8,
        (x / 0x1_0000 % 0x100) as u8,
        (x / 0x100_0000) as u8,
    ]
}

/// Reads the little-endian `u16` at `b[at..at + 2]`.
pub fn u16_le(b: &[u8], at: usize) -> (x: u16)
    requires
        at + 2 <= b@.len(),
    ensures
        x == u16_at(b@, at as int),
{
    b[at] as u16 + 0x100 * (b[at + 1] as u16)
}

/// Reads the little-endian `u32` at `b[at..at + 4]`.
pub fn u32_le(b: &[u8], at: usize) -> (x: u32)
    requires
        at + 4 <= b@.len(),
    ensures
        x == u32_at(b@, at as int),
{
    b[at] as u32 + 0x100 * (b[at + 1] as u32) + 0x1_0000 * (b[at + 2] as u32) + 0x100_0000 * (
    b[at + 3] as u32)
}

/// Appends the four little-endian bytes of `x` to `out`.
pub fn push_u32(out: &mut Vec<u8>, x: u32)
    ensures
        final(out)@ == old(out)@ + u32_bytes(x),
{
    out.push((x % 0x100) as u8);
    out.push((x / 0x100 % 0x100) as u8);
    out.push((x / 0x1_0000 % 0x100) as u8);
    out.push((x / 0x100_0000) as u8);
    assert(out@ =~= old(out)@ + u32_bytes(x));
}

/// Reading back a written `u16` gives the value that was written.
pub proof fn lemma_u16_write_read(s: Seq<u8>, at: int, x: u16)
    requires
        0 <= at,
        at + 2 <= s.len(),
        s.subrange(at, at + 2) == u16_bytes(x),
    ensures
        u16_at(s, at) == x,
{
    assert(s[at] == s.subrange(at, at + 2)[0]);
    assert(s[at + 1] == s.subrange(at, at + 2)[1]);
}

/// Reading back a written `u32` gives the value that was written.
pub proof fn lemma_u32_write_read(s: Seq<u8>, at: int, x: u32)
    requires
        0 <= at,
        at + 4 <= s.len(),
        s.subrange(at, at + 4) == u32_bytes(x),
    ensures
        u32_at(s, at) == x,
{
    assert(s[at] == s.subrange(at, at + 4)[0]);
    assert(s[at + 1] == s.subrange(at, at + 4)[1]);
    assert(s[at + 2] == s.subrange(at, at + 4)[2]);
    assert(s[at + 3] == s.subrange(at, at + 4)[3]);
}

/// Writing back a `u16` that was read gives the bytes it was read from.
pub proof fn lemma_u16_read_write(s: Seq<u8>, at: int)
    requires
        0 <= at,
        at + 2 <= s.len(),
    ensures
        u16_bytes(u16_at(s, at)) == s.subrange(at, at + 2),
{
    assert(u16_bytes(u16_at(s, at)) =~= s.subrange(at, at + 2));
}

/// Writing back a `u32` that was read gives the bytes it was read from.
pub proof fn lemma_u32_read_write(s: Seq<u8>, at: int)
    requires
        0 <= at,
        at + 4 <= s.len(),
    ensures
        u32_bytes(u32_at(s, at)) == s.subrange(at, at + 4),
{
    let x: int = u32_at(s, at) as int;
    let (a, b, c, d) = (s[at] as int, s[at + 1] as int, s[at + 2] as int, s[at + 3] as int);
    assert(x == 0x100 * (b + 0x100 * c + 0x1_0000 * d) + a);
    assert(x / 0x100 == b + 0x100 * c + 0x1_0000 * d && x % 0x100 == a);
    assert(x == 0x1_0000 * (c + 0x100 * d) + (a + 0x100 * b));
    assert(x / 0x1_0000 == c + 0x100 * d);
    assert(x == 0x100_0000 * d + (a + 0x100 * b + 0x1_0000 * c));
    assert(x / 0x100_0000 == d);
    assert(u32_bytes(u32_at(s, at)) =~= s.subrange(at, at + 4));
}

/// Byte `k` of a number is the number shifted right by `8 * k` bits, as far as a byte goes.
pub proof fn law_bytes_are_shifts(x: u32, y: u16)
    ensures
        u32_bytes(x) == seq![
            (x & 0xFF) as u8,
            ((x >> 8) & 0xFF) as u8,
            ((x >> 16) & 0xFF) as u8,
            ((x >> 24) & 0xFF) as u8,
        ],
        u16_bytes(y) == seq![(y & 0xFF) as u8, ((y >> 8) & 0xFF) as u8],
{
    assert(x & 0xFF == x % 0x100 && (x >> 8) & 0xFF == x / 0x100 % 0x100 && (x >> 16) & 0xFF == x
        / 0x1_0000 % 0x100 && (x >> 24) & 0xFF == x / 0x100_0000) by (bit_vector);
    assert(y & 0xFF == y % 0x100 && (y >> 8) & 0xFF == y / 0x100) by (bit_vector);
}

/// No two numbers have the same bytes, and a number is read from its own four bytes alone.
pub proof fn law_numbers_are_told_apart(s: Seq<u8>, t: Seq<u8>, at: int)
    requires
        0 <= at,
        at + 4 <= s.len(),
        at + 4 <= t.len(),
    ensures
        u32_at(s, at) == u32_at(t, at) <==> s.subrange(at, at + 4) == t.subrange(at, at + 4),
        u16_at(s, at) == u16_at(t, at) <==> s.subrange(at, at + 2) == t.subrange(at, at + 2),
{
    lemma_u32_read_write(s, at);
    lemma_u32_read_write(t, at);
    lemma_u16_read_write(s, at);
    lemma_u16_read_write(t, at);
    if s.subrange(at, at + 4) == t.subrange(at, at + 4) {
        lemma_u32_write_read(t, at, u32_at(s, at));
    }
    if s.subrange(at, at + 2) == t.subrange(at, at + 2) {
        lemma_u16_write_read(t, at, u16_at(s, at));
    }
}

} // verus!
