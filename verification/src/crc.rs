//! CRC-32b (ISO 3309 / ITU-T V.42, same polynomial as zlib and Ethernet).

use vstd::prelude::*;

verus! {

/// The reflected CRC-32b generator polynomial.
pub const CRC32B_POLY: u32 = 0xEDB8_8320;

/// The register every CRC-32b computation starts from.
pub const CRC32B_INIT: u32 = 0xFFFF_FFFF;

/// The register after one bit has been shifted out.
pub open spec fn crc_shift(c: u32) -> u32 {
    if c & 1 != 0 {
        (c >> 1) ^ CRC32B_POLY
    } else {
        c >> 1
    }
}

/// The register after `n` bits have been shifted out.
pub open spec fn crc_shifts(c: u32, n: nat) -> u32
    decreases n,
{
    if n == 0 {
        c
    } else {
        crc_shift(crc_shifts(c, (n - 1) as nat))
    }
}

/// The register after the byte `b` has been absorbed.
pub open spec fn crc_absorb(c: u32, b: u8) -> u32 {
    crc_shifts(c ^ (b as u32), 8)
}

/// The register after all of `data` has been absorbed, first byte first.
pub open spec fn crc_run(c: u32, data: Seq<u8>) -> u32
    decreases data.len(),
{
    if data.len() == 0 {
        c
    } else {
        crc_absorb(crc_run(c, data.drop_last()), data.last())
    }
}

/// The CRC-32b of `data`.
pub open spec fn crc32_of(data: Seq<u8>) -> u32 {
    !crc_run(CRC32B_INIT, data)
}

/// Absorbs one byte into the register.
fn absorb(c: u32, b: u8) -> (r: u32)
    ensures
        r == crc_absorb(c, b),
{
    let mut crc: u32 = c ^ (b as u32);
    let mut i: u8 = 0;
    while i < 8
        invariant
            i <= 8,
            crc == crc_shifts(c ^ (b as u32), i as nat),
        decreases 8 - i,
    {
        if crc & 1 != 0 {
            crc = (crc >> 1) ^ CRC32B_POLY;
        } else {
            crc = crc >> 1;
        }
        i = i + 1;
    }
    crc
}

/// Compute CRC-32b over a byte slice.
pub fn crc32b(data: &[u8]) -> (crc: u32)
    ensures
        crc == crc32_of(data@),
{
    let mut state = Crc32State::new();
    state.update(data);
    state.finalize()
}

/// Incremental CRC-32b state for streaming computation.
#[derive(Clone, Copy)]
pub struct Crc32State {
    crc: u32,
}

impl View for Crc32State {
    type V = u32;

    closed spec fn view(&self) -> u32 {
        self.crc
    }
}

impl Crc32State {
    /// Create a new CRC-32b accumulator.
    pub fn new() -> (s: Self)
        ensures
            s@ == CRC32B_INIT,
    {
        Crc32State { crc: CRC32B_INIT }
    }

    /// Feed a chunk of bytes.
    pub fn update(&mut self, data: &[u8])
        ensures
            final(self)@ == crc_run(old(self)@, data@),
    {
        let mut i: usize = 0;
        while i < data.len()
            invariant
                i <= data@.len(),
                self@ == crc_run(old(self)@, data@.take(i as int)),
            decreases data.len() - i,
        {
            self.crc = absorb(self.crc, data[i]);
            i = i + 1;
            assert(data@.take(i as int).drop_last() =~= data@.take(i - 1));
        }
        assert(data@.take(i as int) =~= data@);
    }

    /// Finalize and return the CRC-32b value.
    pub fn finalize(self) -> (crc: u32)
        ensures
            crc == !self@,
    {
        !self.crc
    }
}

/// Streaming law: absorbing two chunks one after the other is absorbing their concatenation.
pub proof fn law_crc_chunks(c: u32, a: Seq<u8>, b: Seq<u8>)
    ensures
        crc_run(crc_run(c, a), b) == crc_run(c, a + b),
    decreases b.len(),
{
    if b.len() == 0 {
        assert(a + b =~= a);
    } else {
        law_crc_chunks(c, a, b.drop_last());
        assert((a + b).drop_last() =~= a + b.drop_last());
    }
}

proof fn lemma_shift_injective(a: u32, b: u32)
    requires
        crc_shift(a) == crc_shift(b),
    ensures
        a == b,
{
    assert((if a & 1 != 0 {
        (a >> 1) ^ 0xEDB8_8320u32
    } else {
        a >> 1
    }) == (if b & 1 != 0 {
        (b >> 1) ^ 0xEDB8_8320u32
    } else {
        b >> 1
    }) ==> a == b) by (bit_vector);
}

proof fn lemma_shifts_injective(a: u32, b: u32, n: nat)
    requires
        crc_shifts(a, n) == crc_shifts(b, n),
    ensures
        a == b,
    decreases n,
{
    if n > 0 {
        lemma_shift_injective(crc_shifts(a, (n - 1) as nat), crc_shifts(b, (n - 1) as nat));
        lemma_shifts_injective(a, b, (n - 1) as nat);
    }
}

proof fn lemma_run_injective(a: u32, b: u32, data: Seq<u8>)
    requires
        crc_run(a, data) == crc_run(b, data),
    ensures
        a == b,
    decreases data.len(),
{
    if data.len() > 0 {
        let x = crc_run(a, data.drop_last());
        let y = crc_run(b, data.drop_last());
        let d = data.last() as u32;
        lemma_shifts_injective(x ^ d, y ^ d, 8);
        assert(x ^ d == y ^ d ==> x == y) by (bit_vector);
        lemma_run_injective(a, b, data.drop_last());
    }
}

/// Detection law: changing a single byte of an image, anywhere, changes its CRC-32b.
pub proof fn law_crc_detects_byte_change(data: Seq<u8>, at: int, b: u8)
    requires
        0 <= at < data.len(),
        data[at] != b,
    ensures
        crc32_of(data.update(at, b)) != crc32_of(data),
{
    let head = data.take(at);
    let tail = data.skip(at + 1);
    let changed = data.update(at, b);
    let c = crc_run(CRC32B_INIT, head);
    let (p, q) = (data[at], b);
    assert(data =~= (head + seq![p]) + tail);
    assert(changed =~= (head + seq![q]) + tail);
    law_crc_chunks(CRC32B_INIT, head + seq![p], tail);
    law_crc_chunks(CRC32B_INIT, head + seq![q], tail);
    assert((head + seq![p]).drop_last() =~= head);
    assert((head + seq![q]).drop_last() =~= head);
    if crc32_of(changed) == crc32_of(data) {
        let (u, v) = (crc_run(CRC32B_INIT, data), crc_run(CRC32B_INIT, changed));
        assert(!u == !v ==> u == v) by (bit_vector);
        lemma_run_injective(crc_absorb(c, p), crc_absorb(c, q), tail);
        let (pw, qw) = (p as u32, q as u32);
        lemma_shifts_injective(c ^ pw, c ^ qw, 8);
        assert(c ^ pw == c ^ qw ==> pw == qw) by (bit_vector);
    }
}

// ---------------------------------------------------------------------------
//  The standard CRC-32
// ---------------------------------------------------------------------------

/// `value` if bit `k` of `x` is set, else nothing.
pub open spec fn taken_if(x: u32, k: u32, value: u32) -> u32 {
    if (x >> k) & 1 == 1 {
        value
    } else {
        0
    }
}

/// The entry of the standard CRC-32 table for the byte `x`: the sum, over the bits of `x`, of
/// the entries for the powers of two.
pub open spec fn table_entry(x: u32) -> u32 {
    taken_if(x, 0, 0x7707_3096) ^ taken_if(x, 1, 0xEE0E_612C) ^ taken_if(x, 2, 0x076D_C419)
        ^ taken_if(x, 3, 0x0EDB_8832) ^ taken_if(x, 4, 0x1DB7_1064) ^ taken_if(
        x,
        5,
        0x3B6E_20C8,
    ) ^ taken_if(x, 6, 0x76DC_4190) ^ taken_if(x, 7, 0xEDB8_8320)
}

/// Absorbing a byte is one step of the standard table-driven computation: the byte is added to
/// the low eight bits of the register, these select a table entry, and the entry is added to
/// the register shifted by a byte.
pub proof fn law_absorb_is_table_step(c: u32, b: u8)
    ensures
        crc_absorb(c, b) == (c >> 8) ^ table_entry((c ^ (b as u32)) & 0xFF),
{
    let x = c ^ (b as u32);
    reveal_with_fuel(crc_shifts, 9);
    lemma_eight_shifts(x);
    let w = b as u32;
    assert(w < 0x100);
    assert((c ^ w) >> 8 == c >> 8) by (bit_vector)
        requires
            w < 0x100,
    ;
}

/// Eight shifts drop the low byte, and add its table entry.
proof fn lemma_eight_shifts(x: u32)
    ensures
        crc_shifts(x, 8) == (x >> 8) ^ table_entry(x & 0xFF),
{
    reveal_with_fuel(crc_shifts, 9);
    let x1 = crc_shift(x);
    let x2 = crc_shift(x1);
    let x3 = crc_shift(x2);
    let x4 = crc_shift(x3);
    let x5 = crc_shift(x4);
    let x6 = crc_shift(x5);
    let x7 = crc_shift(x6);
    let x8 = crc_shift(x7);
    assert(crc_shifts(x, 8) == x8);
    lemma_shifted_eight(x, x1, x2, x3, x4, x5, x6, x7, x8);
}

proof fn lemma_shifted_eight(
    x: u32,
    x1: u32,
    x2: u32,
    x3: u32,
    x4: u32,
    x5: u32,
    x6: u32,
    x7: u32,
    x8: u32,
)
    by (bit_vector)
    requires
        x1 == (if x & 1 != 0 { (x >> 1) ^ 0xEDB8_8320u32 } else { x >> 1 }),
        x2 == (if x1 & 1 != 0 { (x1 >> 1) ^ 0xEDB8_8320u32 } else { x1 >> 1 }),
        x3 == (if x2 & 1 != 0 { (x2 >> 1) ^ 0xEDB8_8320u32 } else { x2 >> 1 }),
        x4 == (if x3 & 1 != 0 { (x3 >> 1) ^ 0xEDB8_8320u32 } else { x3 >> 1 }),
        x5 == (if x4 & 1 != 0 { (x4 >> 1) ^ 0xEDB8_8320u32 } else { x4 >> 1 }),
        x6 == (if x5 & 1 != 0 { (x5 >> 1) ^ 0xEDB8_8320u32 } else { x5 >> 1 }),
        x7 == (if x6 & 1 != 0 { (x6 >> 1) ^ 0xEDB8_8320u32 } else { x6 >> 1 }),
        x8 == (if x7 & 1 != 0 { (x7 >> 1) ^ 0xEDB8_8320u32 } else { x7 >> 1 }),
    ensures
        x8 == (x >> 8) ^ ((if ((x & 0xFF) >> 0) & 1 == 1 { 0x7707_3096u32 } else { 0 }) ^ (
        if ((x & 0xFF) >> 1) & 1 == 1 { 0xEE0E_612Cu32 } else { 0 }) ^ (
        if ((x & 0xFF) >> 2) & 1 == 1 { 0x076D_C419u32 } else { 0 }) ^ (
        if ((x & 0xFF) >> 3) & 1 == 1 { 0x0EDB_8832u32 } else { 0 }) ^ (
        if ((x & 0xFF) >> 4) & 1 == 1 { 0x1DB7_1064u32 } else { 0 }) ^ (
        if ((x & 0xFF) >> 5) & 1 == 1 { 0x3B6E_20C8u32 } else { 0 }) ^ (
        if ((x & 0xFF) >> 6) & 1 == 1 { 0x76DC_4190u32 } else { 0 }) ^ (
        if ((x & 0xFF) >> 7) & 1 == 1 { 0xEDB8_8320u32 } else { 0 })),
{
}

/// The CRC of an image is the complement of the register that starts with all ones and takes
/// one step of the standard computation per byte, from the first to the last: here for an
/// image of which nothing is left, and for one with a byte more.
pub proof fn law_crc_takes_every_byte(data: Seq<u8>, b: u8, c: u32)
    ensures
        crc32_of(data) == !crc_run(0xFFFF_FFFF, data),
        crc_run(c, Seq::empty()) == c,
        crc_run(c, data.push(b)) == (crc_run(c, data) >> 8) ^ table_entry(
            (crc_run(c, data) ^ (b as u32)) & 0xFF,
        ),
{
    assert(data.push(b).drop_last() =~= data);
    law_absorb_is_table_step(crc_run(c, data), b);
}

/// An image followed by its own CRC, little-endian, has a CRC that does not depend on the image.
pub proof fn law_crc_residue(data: Seq<u8>, trailer: Seq<u8>)
    requires
        trailer.len() == 4,
        trailer[0] + 0x100 * trailer[1] + 0x1_0000 * trailer[2] + 0x100_0000 * trailer[3]
            == crc32_of(data),
    ensures
        crc32_of(data + trailer) == 0x2144_DF1C,
{
    let c = crc_run(CRC32B_INIT, data);
    let (b0, b1, b2, b3) = (trailer[0], trailer[1], trailer[2], trailer[3]);
    let c1 = crc_absorb(c, b0);
    let c2 = crc_absorb(c1, b1);
    let c3 = crc_absorb(c2, b2);
    let c4 = crc_absorb(c3, b3);
    law_absorb_is_table_step(c, b0);
    law_absorb_is_table_step(c1, b1);
    law_absorb_is_table_step(c2, b2);
    law_absorb_is_table_step(c3, b3);
    let t0 = Seq::<u8>::empty().push(b0);
    let t1 = t0.push(b1);
    let t2 = t1.push(b2);
    let t3 = t2.push(b3);
    assert(t3 =~= trailer);
    law_crc_chunks(CRC32B_INIT, data, trailer);
    assert(t0.drop_last() =~= Seq::<u8>::empty());
    assert(t1.drop_last() =~= t0);
    assert(t2.drop_last() =~= t1);
    assert(t3.drop_last() =~= t2);
    assert(crc_run(c, t0.drop_last()) == c);
    assert(crc_run(c, t0) == c1);
    assert(crc_run(c, t1) == c2);
    assert(crc_run(c, t2) == c3);
    assert(crc_run(c, trailer) == c4);
    let n = !c;
    let (w0, w1, w2, w3) = (b0 as u32, b1 as u32, b2 as u32, b3 as u32);
    assert(w0 == n & 0xFF && w1 == (n >> 8) & 0xFF && w2 == (n >> 16) & 0xFF && w3 == (n >> 24)
        & 0xFF) by (bit_vector)
        requires
            w0 + 0x100 * w1 + 0x1_0000 * w2 + 0x100_0000 * w3 == n,
            w0 < 0x100,
            w1 < 0x100,
            w2 < 0x100,
            w3 < 0x100,
    ;
    // What each step looks up is known: it does not depend on the register.
    assert(table_entry(0xFF) == 0x2D02_EF8D && table_entry(0x72) == 0xBE0B_1010 && table_entry(0)
        == 0 && table_entry(0xED) == 0xDEBB_9EC5) by (bit_vector);
    assert((c ^ w0) & 0xFF == 0xFF && (((c >> 8) ^ 0x2D02_EF8D) ^ w1) & 0xFF == 0x72) by (bit_vector)
        requires
            w0 == !c & 0xFF,
            w1 == (!c >> 8) & 0xFF,
    ;
    assert((c2 ^ w2) & 0xFF == 0) by (bit_vector)
        requires
            w2 == (!c >> 16) & 0xFF,
            c2 == (((c >> 8) ^ 0x2D02_EF8D) >> 8) ^ 0xBE0B_1010,
    ;
    assert((c3 ^ w3) & 0xFF == 0xED) by (bit_vector)
        requires
            w3 == (!c >> 24) & 0xFF,
            c3 == (((((c >> 8) ^ 0x2D02_EF8D) >> 8) ^ 0xBE0B_1010) >> 8) ^ 0,
    ;
    assert(!c4 == 0x2144_DF1C) by (bit_vector)
        requires
            c4 == ((((((((c >> 8) ^ 0x2D02_EF8D) >> 8) ^ 0xBE0B_1010) >> 8) ^ 0)) >> 8)
                ^ 0xDEBB_9EC5,
    ;
}

} // verus!
