//! Building a delta image from a pristine pair of component images.
//!
//! The device stores the base component post-relocation and rewrites its trailer, so the only
//! base offsets where flash equals the pristine old image are those outside every
//! relocation-site word and outside the 4-byte trailer.  COPY sources are therefore forbidden
//! from those offsets; the corresponding bytes of the new image travel as ADD literals
//! instead.
//!
//! Output layout:
//! ```text
//! [ fixed header, copied from the new image, IS_DELTA flag set ]
//! [ 32-byte delta header ]
//! [ patch payload (COPY/ADD/END opcode stream) ]
//! [ 4-byte CRC-32b trailer over everything preceding ]
//! ```

use std::ops::Range;

use vstd::prelude::*;

use crate::bytes::{copy_of, part_of, same_bytes};
use crate::crc;
use crate::crc::crc32b;
use crate::decoder::{decode_whole, DecoderAction, DecoderState};
use crate::encoder;
use crate::encoder::encode_faithful;
use crate::error::DecodeError;
use crate::format::{DeltaHeader, ALGO_COPY_ADD_V1, DELTA_FORMAT_V1, DELTA_MAGIC};
use crate::le;
use crate::patch;
use crate::patch::DecodedOp;
use crate::ranges;
use crate::ranges::{normalize_ranges, OutOfBounds};
use crate::roundtrip;

verus! {

/// `IS_DELTA` = bit 1 of the component flags.
pub const IS_DELTA_BIT: u16 = 2;

/// The bits of a relocation entry that hold the file offset of its site.
pub const SITE_MASK: u32 = 0x00FF_FFFF;

/// Why no delta image could be built.
#[derive(Debug, Clone, Copy, PartialEq, Eq, Structural)]
pub enum GenError {
    /// A forbidden range reaches past the end of the old image.
    ForbiddenOutOfBounds(OutOfBounds),
    /// The patch could not be decoded.
    Decode(DecodeError),
    /// The patch does not reconstruct the new image from the pristine base.
    PristineMismatch,
    /// A COPY read a forbidden (relocation or trailer) byte: the patch would fail on the
    /// device's post-relocation base.
    ForbiddenCopied,
    /// The new image is shorter than a fixed header.
    ShorterThanFixedHeader,
    /// The component flags are not where they were expected in the fixed header.
    FlagsNotFound,
}

// ---------------------------------------------------------------------------
//  Masked CRC
// ---------------------------------------------------------------------------

/// `data` with every byte that a range covers set to zero.
pub open spec fn masked(data: Seq<u8>, forbidden: Seq<Range<usize>>) -> Seq<u8> {
    Seq::new(
        data.len(),
        |i: int|
            if encoder::covered(forbidden, i) {
                0u8
            } else {
                data[i]
            },
    )
}

/// CRC-32b over `data` with every byte inside a `forbidden` range treated as 0.
pub fn masked_crc32(data: &[u8], forbidden: &[Range<usize>]) -> (crc: u32)
    requires
        ranges::within(forbidden@, data@.len()),
    ensures
        crc == crc::crc32_of(masked(data@, forbidden@)),
{
    let mut bytes: Vec<u8> = copy_of(data);
    let mut k: usize = 0;
    while k < forbidden.len()
        invariant
            k <= forbidden@.len(),
            ranges::within(forbidden@, data@.len()),
            bytes@.len() == data@.len(),
            forall|i: int|
                0 <= i < data@.len() ==> #[trigger] bytes@[i] == masked(
                    data@,
                    forbidden@.take(k as int),
                )[i],
        decreases forbidden@.len() - k,
    {
        let start: usize = forbidden[k].start;
        let end: usize = forbidden[k].end;
        assert(forbidden@[k as int].start <= forbidden@[k as int].end <= data@.len());
        let ghost before = forbidden@.take(k as int);
        let ghost after = forbidden@.take(k + 1);
        let ghost prior = bytes@;
        let mut at: usize = start;
        while at < end
            invariant
                start <= at <= end <= bytes@.len(),
                bytes@.len() == prior.len(),
                forall|i: int|
                    0 <= i < prior.len() ==> #[trigger] bytes@[i] == (if start <= i < at {
                        0u8
                    } else {
                        prior[i]
                    }),
            decreases end - at,
        {
            bytes.set(at, 0);
            at = at + 1;
        }
        assert forall|i: int| 0 <= i < data@.len() implies #[trigger] bytes@[i] == masked(
            data@,
            after,
        )[i] by {
            ranges::lemma_covered_push(before, forbidden@[k as int], i);
            assert(before.push(forbidden@[k as int]) =~= after);
            assert(prior[i] == masked(data@, before)[i]);
        }
        k = k + 1;
    }
    assert(forbidden@.take(k as int) =~= forbidden@);
    assert(bytes@ =~= masked(data@, forbidden@));
    crc32b(&bytes)
}

// ---------------------------------------------------------------------------
//  Self-check
// ---------------------------------------------------------------------------

/// How many of the opcodes are COPYs.
pub open spec fn copies_in(ops: Seq<DecodedOp>) -> nat
    decreases ops.len(),
{
    if ops.len() == 0 {
        0
    } else {
        copies_in(ops.drop_last()) + (if ops.last() is Copy {
            1nat
        } else {
            0nat
        })
    }
}

/// How many of the opcodes are ADDs.
pub open spec fn adds_in(ops: Seq<DecodedOp>) -> nat
    decreases ops.len(),
{
    if ops.len() == 0 {
        0
    } else {
        adds_in(ops.drop_last()) + (if ops.last() is Add {
            1nat
        } else {
            0nat
        })
    }
}

/// `image` followed by zeros up to `len` bytes.
pub open spec fn zero_filled(image: Seq<u8>, len: nat) -> Seq<u8> {
    Seq::new(
        len,
        |i: int|
            if i < image.len() {
                image[i]
            } else {
                0u8
            },
    )
}

/// The opcodes of a patch as they are decoded against a base of `base_len` bytes.
pub open spec fn ops_of(patch: Seq<u8>, base_len: nat, target_len: nat) -> Seq<DecodedOp> {
    patch::trace(
        DecoderState::fresh(patch.len() as u32, base_len as u32, target_len as u32),
        patch,
        0,
    )
}

/// Decodes `patch` against `base`.
/// Returns what the patch yields, and the number of COPY and ADD opcodes.
fn decode_counted(patch: &[u8], base: &[u8], target_len: usize) -> (r: Result<
    (Vec<u8>, usize, usize),
    DecodeError,
>)
    ensures
        match patch::apply(patch@, base@, target_len as u32) {
            Err(e) => r == Err::<(Vec<u8>, usize, usize), DecodeError>(e),
            Ok(image) => r matches Ok((out, copy_ops, add_ops)) && out@ == image && copy_ops
                == copies_in(ops_of(patch@, base@.len(), target_len as nat)) && add_ops == adds_in(
                ops_of(patch@, base@.len(), target_len as nat),
            ),
        },
{
    let (list, _, outcome) = decode_whole(patch, base, target_len as u32);
    let ghost ops = ops_of(patch@, base@.len(), target_len as nat);
    match outcome {
        Err(e) => Err(e),
        Ok(image) => {
            let mut copy_ops: usize = 0;
            let mut add_ops: usize = 0;
            let mut i: usize = 0;
            while i < list.len()
                invariant
                    i <= list@.len(),
                    copy_ops == copies_in(list@.take(i as int)),
                    add_ops == adds_in(list@.take(i as int)),
                    copy_ops <= i,
                    add_ops <= i,
                decreases list@.len() - i,
            {
                assert(list@.take(i + 1).drop_last() =~= list@.take(i as int));
                match list[i] {
                    DecodedOp::Copy { .. } => {
                        copy_ops = copy_ops + 1;
                    },
                    DecodedOp::Add { .. } => {
                        add_ops = add_ops + 1;
                    },
                    DecodedOp::End => {},
                }
                i = i + 1;
            }
            assert(list@.take(i as int) =~= ops);
            Ok((image, copy_ops, add_ops))
        },
    }
}

/// Apply `patch` to `base` in memory via the streaming decoder.
/// Returns the reconstructed image in a buffer of `target_len` bytes, and the number of COPY
/// and ADD opcodes.  What the patch does not yield of the buffer stays zero.
pub fn decode_against(patch: &[u8], base: &[u8], target_len: usize) -> (r: Result<
    (Vec<u8>, usize, usize),
    DecodeError,
>)
    ensures
        match patch::apply(patch@, base@, target_len as u32) {
            Err(e) => r == Err::<(Vec<u8>, usize, usize), DecodeError>(e),
            Ok(image) => r matches Ok((out, copy_ops, add_ops)) && out@ == zero_filled(
                image,
                target_len as nat,
            ) && copy_ops == copies_in(ops_of(patch@, base@.len(), target_len as nat)) && add_ops
                == adds_in(ops_of(patch@, base@.len(), target_len as nat)),
        },
{
    match decode_counted(patch, base, target_len) {
        Err(e) => Err(e),
        Ok((image, copy_ops, add_ops)) => {
            let mut out: Vec<u8> = image;
            proof {
                patch::lemma_low_word(target_len as nat);
                patch::lemma_output_fits(
                    DecoderState::fresh(patch@.len() as u32, base@.len() as u32, target_len as u32),
                    patch@,
                    base@,
                );
            }
            let ghost produced = out@;
            while out.len() < target_len
                invariant
                    produced.len() <= out@.len() <= target_len,
                    forall|j: int|
                        0 <= j < out@.len() ==> #[trigger] out@[j] == (if j < produced.len() {
                            produced[j]
                        } else {
                            0u8
                        }),
                decreases target_len - out@.len(),
            {
                out.push(0);
            }
            assert(out@ =~= zero_filled(produced, target_len as nat));
            Ok((out, copy_ops, add_ops))
        },
    }
}

/// `data` with the bytes of each range flipped, once for every range that holds them.
pub open spec fn poisoned(data: Seq<u8>, forbidden: Seq<Range<usize>>) -> Seq<u8>
    decreases forbidden.len(),
{
    if forbidden.len() == 0 {
        data
    } else {
        let rest = poisoned(data, forbidden.drop_last());
        Seq::new(
            data.len(),
            |i: int|
                if ranges::holds(forbidden.last(), i) {
                    rest[i] ^ 0xFF
                } else {
                    rest[i]
                },
        )
    }
}

/// The number of bytes in all the ranges together.
pub open spec fn bytes_in(forbidden: Seq<Range<usize>>) -> nat
    decreases forbidden.len(),
{
    if forbidden.len() == 0 {
        0
    } else {
        bytes_in(forbidden.drop_last()) + (forbidden.last().end - forbidden.last().start) as nat
    }
}

/// What the self-check of a patch comes to: nothing to object to, or the first objection.
pub open spec fn objection(
    patch: Seq<u8>,
    old: Seq<u8>,
    new: Seq<u8>,
    forbidden: Seq<Range<usize>>,
) -> Option<GenError> {
    let target = new.len() as u32;
    match patch::apply(patch, old, target) {
        Err(e) => Some(GenError::Decode(e)),
        Ok(image) => if image != new {
            Some(GenError::PristineMismatch)
        } else {
            match patch::apply(patch, poisoned(old, forbidden), target) {
                Err(e) => Some(GenError::Decode(e)),
                Ok(again) => if again != new {
                    Some(GenError::ForbiddenCopied)
                } else {
                    None
                },
            }
        },
    }
}

/// Flips every byte of every range.
fn poison(data: &[u8], forbidden: &[Range<usize>]) -> (bytes: Vec<u8>)
    requires
        ranges::within(forbidden@, data@.len()),
    ensures
        bytes@ == poisoned(data@, forbidden@),
{
    let mut bytes: Vec<u8> = copy_of(data);
    let mut k: usize = 0;
    while k < forbidden.len()
        invariant
            k <= forbidden@.len(),
            ranges::within(forbidden@, data@.len()),
            bytes@.len() == data@.len(),
            bytes@ == poisoned(data@, forbidden@.take(k as int)),
        decreases forbidden@.len() - k,
    {
        let start: usize = forbidden[k].start;
        let end: usize = forbidden[k].end;
        assert(forbidden@[k as int].start <= forbidden@[k as int].end <= data@.len());
        let ghost prior = bytes@;
        let mut at: usize = start;
        while at < end
            invariant
                start <= at <= end <= bytes@.len(),
                bytes@.len() == prior.len(),
                forall|i: int|
                    0 <= i < prior.len() ==> #[trigger] bytes@[i] == (if start <= i < at {
                        prior[i] ^ 0xFF
                    } else {
                        prior[i]
                    }),
            decreases end - at,
        {
            let flipped: u8 = bytes[at] ^ 0xFF;
            bytes.set(at, flipped);
            at = at + 1;
        }
        assert(forbidden@.take(k + 1).drop_last() =~= forbidden@.take(k as int));
        assert(bytes@ =~= poisoned(data@, forbidden@.take(k + 1)));
        k = k + 1;
    }
    assert(forbidden@.take(k as int) =~= forbidden@);
    bytes
}

/// Adds up the lengths of the ranges.
fn count_bytes(forbidden: &[Range<usize>]) -> (n: usize)
    requires
        forall|k: int| 0 <= k < forbidden@.len() ==> (#[trigger] forbidden@[k]).start
            <= forbidden@[k].end,
        bytes_in(forbidden@) <= usize::MAX,
    ensures
        n == bytes_in(forbidden@),
{
    let mut n: usize = 0;
    let mut k: usize = 0;
    while k < forbidden.len()
        invariant
            k <= forbidden@.len(),
            forall|j: int| 0 <= j < forbidden@.len() ==> (#[trigger] forbidden@[j]).start
                <= forbidden@[j].end,
            bytes_in(forbidden@) <= usize::MAX,
            n == bytes_in(forbidden@.take(k as int)),
        decreases forbidden@.len() - k,
    {
        proof {
            assert(forbidden@.take(k + 1).drop_last() =~= forbidden@.take(k as int));
            lemma_bytes_in_prefix(forbidden@, k + 1);
        }
        n = n + (forbidden[k].end - forbidden[k].start);
        k = k + 1;
    }
    assert(forbidden@.take(k as int) =~= forbidden@);
    n
}

/// A part of the ranges holds no more bytes than all of them.
proof fn lemma_bytes_in_prefix(forbidden: Seq<Range<usize>>, k: int)
    requires
        0 <= k <= forbidden.len(),
    ensures
        bytes_in(forbidden.take(k)) <= bytes_in(forbidden),
    decreases forbidden.len(),
{
    if k < forbidden.len() {
        lemma_bytes_in_prefix(forbidden.drop_last(), k);
        assert(forbidden.drop_last().take(k) =~= forbidden.take(k));
    } else {
        assert(forbidden.take(k) =~= forbidden);
    }
}

/// Decode the patch against `old` and against a poisoned copy of `old` (every forbidden byte
/// flipped, simulating the on-device post-relocation base).  Both must reconstruct `new`
/// exactly: the second decode proves that no COPY source ever depends on a relocation-site or
/// trailer byte, which is exactly what differs between the host's pristine base and device
/// flash.
///
/// Returns the reconstructed image, the number of COPY and of ADD opcodes, and the number of
/// bytes in the forbidden ranges.
pub fn self_check(
    patch: &[u8],
    old: &[u8],
    new: &[u8],
    forbidden: &[Range<usize>],
) -> (r: Result<(Vec<u8>, usize, usize, usize), GenError>)
    requires
        ranges::within(forbidden@, old@.len()),
        bytes_in(forbidden@) <= usize::MAX,
    ensures
        match objection(patch@, old@, new@, forbidden@) {
            Some(e) => r == Err::<(Vec<u8>, usize, usize, usize), GenError>(e),
            None => r matches Ok((out, copy_ops, add_ops, bytes)) && out@ == new@ && copy_ops
                == copies_in(ops_of(patch@, old@.len(), new@.len())) && add_ops == adds_in(
                ops_of(patch@, old@.len(), new@.len()),
            ) && bytes == bytes_in(forbidden@),
        },
{
    assert(new.len() as u32 == new@.len() as u32);
    let (out, copy_ops, add_ops) = match decode_counted(patch, old, new.len()) {
        Err(e) => {
            return Err(GenError::Decode(e));
        },
        Ok(t) => t,
    };
    if !same_bytes(&out, new) {
        return Err(GenError::PristineMismatch);
    }
    let base: Vec<u8> = poison(old, forbidden);
    match decode_counted(patch, &base, new.len()) {
        Err(e) => {
            return Err(GenError::Decode(e));
        },
        Ok((again, _, _)) => {
            if !same_bytes(&again, new) {
                return Err(GenError::ForbiddenCopied);
            }
        },
    }
    let bytes: usize = count_bytes(forbidden);
    Ok((out, copy_ops, add_ops, bytes))
}

/// A poisoned image differs from the pristine one at most where a range lies.
proof fn lemma_poison_agrees(old: Seq<u8>, forbidden: Seq<Range<usize>>)
    ensures
        roundtrip::agrees_outside(poisoned(old, forbidden), old, forbidden),
    decreases forbidden.len(),
{
    if forbidden.len() > 0 {
        let rest = forbidden.drop_last();
        lemma_poison_agrees(old, rest);
        assert forall|i: int|
            0 <= i < old.len() && !encoder::covered(forbidden, i) implies #[trigger] poisoned(
            old,
            forbidden,
        )[i] == old[i] by {
            ranges::lemma_covered_push(rest, forbidden.last(), i);
            assert(rest.push(forbidden.last()) =~= forbidden);
            assert(poisoned(old, rest)[i] == old[i]);
        }
    }
}

/// The self-check has nothing to object to in a patch that was encoded with the same
/// forbidden ranges.
pub proof fn law_self_check_accepts(
    old: Seq<u8>,
    new: Seq<u8>,
    forbidden: Seq<Range<usize>>,
)
    requires
        encoder::sorted_by_start(forbidden),
        old.len() <= usize::MAX,
        old.len() <= u32::MAX,
        new.len() <= usize::MAX,
        new.len() <= u32::MAX,
        encoder::patch_of(old, new, forbidden).len() <= u32::MAX,
    ensures
        objection(encoder::patch_of(old, new, forbidden), old, new, forbidden) is None,
{
    lemma_poison_agrees(old, forbidden);
    roundtrip::law_faithful(old, new, forbidden, old, new.len() as u32);
    roundtrip::law_faithful(old, new, forbidden, poisoned(old, forbidden), new.len() as u32);
}

/// Whether two ranges have no byte in common.
pub open spec fn apart(a: Range<usize>, b: Range<usize>) -> bool {
    a.end <= b.start || b.end <= a.start
}

/// Whether no two of the ranges overlap.
pub open spec fn disjoint(forbidden: Seq<Range<usize>>) -> bool {
    forall|i: int, j: int|
        0 <= i < j < forbidden.len() ==> apart(#[trigger] forbidden[i], #[trigger] forbidden[j])
}

/// Poisoning changes every byte that one of the disjoint ranges holds.
proof fn lemma_poison_changes(old: Seq<u8>, forbidden: Seq<Range<usize>>, i: int)
    requires
        disjoint(forbidden),
        ranges::within(forbidden, old.len()),
        0 <= i < old.len(),
        encoder::covered(forbidden, i),
    ensures
        poisoned(old, forbidden)[i] != old[i],
    decreases forbidden.len(),
{
    let rest = forbidden.drop_last();
    let last = forbidden.last();
    assert(rest.push(last) =~= forbidden);
    ranges::lemma_covered_push(rest, last, i);
    if ranges::holds(last, i) {
        assert(!encoder::covered(rest, i)) by {
            if encoder::covered(rest, i) {
                let k = choose|k: int|
                    0 <= k < rest.len() && (#[trigger] rest[k]).start <= i < rest[k].end;
                assert(rest[k] == forbidden[k]);
                assert(forbidden[forbidden.len() - 1] == last);
            }
        }
        lemma_poison_agrees(old, rest);
        assert(poisoned(old, rest)[i] == old[i]);
        let b = old[i];
        assert(b ^ 0xFF != b) by (bit_vector);
    } else {
        assert forall|k: int| 0 <= k < rest.len() implies (#[trigger] rest[k]).start
            <= rest[k].end <= old.len() by {
            assert(rest[k] == forbidden[k]);
        }
        assert forall|i: int, j: int| 0 <= i < j < rest.len() implies apart(
            #[trigger] rest[i],
            #[trigger] rest[j],
        ) by {
            assert(apart(forbidden[i], forbidden[j]));
        }
        lemma_poison_changes(old, rest, i);
    }
}

/// A stream that decodes to the same image from the pristine and from the poisoned base
/// decodes to it from every base that agrees outside the ranges.
proof fn lemma_same_from_both(
    d: DecoderState,
    stream: Seq<u8>,
    old: Seq<u8>,
    forbidden: Seq<Range<usize>>,
    base: Seq<u8>,
    image: Seq<u8>,
)
    requires
        d.wf(),
        d.base_size == old.len(),
        disjoint(forbidden),
        ranges::within(forbidden, old.len()),
        roundtrip::agrees_outside(base, old, forbidden),
        patch::decode(d, stream, old) == Ok::<Seq<u8>, DecodeError>(image),
        patch::decode(d, stream, poisoned(old, forbidden)) == Ok::<Seq<u8>, DecodeError>(image),
    ensures
        patch::decode(d, stream, base) == Ok::<Seq<u8>, DecodeError>(image),
    decreases stream.len(),
{
    let other = poisoned(old, forbidden);
    lemma_poison_agrees(old, forbidden);
    patch::lemma_step(d, stream, old, 0);
    patch::lemma_step(d, stream, other, 0);
    patch::lemma_step(d, stream, base, 0);
    match d.next(stream).1 {
        Ok((DecoderAction::Copy { src_offset, len }, _)) => {
            let (from, to) = (src_offset as int, src_offset + len);
            let rest = image.skip(len as int);
            let after = patch::decode(d.next(stream).0, stream.skip(9), old);
            let after_other = patch::decode(d.next(stream).0, stream.skip(9), other);
            assert(image =~= old.subrange(from, to) + after->Ok_0);
            assert(image =~= other.subrange(from, to) + after_other->Ok_0);
            assert(rest =~= after->Ok_0);
            assert(rest =~= after_other->Ok_0);
            lemma_same_from_both(d.next(stream).0, stream.skip(9), old, forbidden, base, rest);
            assert forall|i: int| 0 <= i < len implies base.subrange(from, to)[i]
                == old.subrange(from, to)[i] by {
                assert(image[i] == old.subrange(from, to)[i]);
                assert(image[i] == other.subrange(from, to)[i]);
                if encoder::covered(forbidden, from + i) {
                    lemma_poison_changes(old, forbidden, from + i);
                }
            }
            assert(base.subrange(from, to) =~= old.subrange(from, to));
        },
        Ok((DecoderAction::Add { len }, _)) => {
            let later = stream.skip(5 + len);
            let added = stream.subrange(5, 5 + len);
            let after = d.next(stream).0.advance(len).0;
            let rest = image.skip(len as int);
            let tail = patch::decode(after, later, old);
            let tail_other = patch::decode(after, later, other);
            assert(image =~= added + tail->Ok_0);
            assert(image =~= added + tail_other->Ok_0);
            assert(rest =~= tail->Ok_0);
            assert(rest =~= tail_other->Ok_0);
            lemma_same_from_both(after, later, old, forbidden, base, rest);
        },
        _ => {},
    }
}

/// What the self-check is for: a patch that it has nothing to object to depends on no
/// forbidden byte.  It reconstructs `new` from every base that agrees with `old` outside the
/// ranges, whoever made the patch.
pub proof fn law_accepted_patch_is_faithful(
    patch: Seq<u8>,
    old: Seq<u8>,
    new: Seq<u8>,
    forbidden: Seq<Range<usize>>,
    base: Seq<u8>,
)
    requires
        old.len() <= u32::MAX,
        disjoint(forbidden),
        ranges::within(forbidden, old.len()),
        objection(patch, old, new, forbidden) is None,
        roundtrip::agrees_outside(base, old, forbidden),
    ensures
        patch::apply(patch, base, new.len() as u32) == Ok::<Seq<u8>, DecodeError>(new),
{
    lemma_poison_agrees(old, forbidden);
    lemma_same_from_both(
        DecoderState::fresh(patch.len() as u32, old.len() as u32, new.len() as u32),
        patch,
        old,
        forbidden,
        base,
        new,
    );
}

// ---------------------------------------------------------------------------
//  Assembling the delta image
// ---------------------------------------------------------------------------

/// What the builder has to know of the fixed header of the new image.
#[derive(Debug, Clone, Copy, PartialEq, Eq, Structural)]
pub struct FixedHeader {
    /// Length of the fixed header.
    pub len: usize,
    /// Byte offset of the component flags within the fixed header.
    pub flags_offset: usize,
    /// The parsed component flags.
    pub flags: u16,
}

impl FixedHeader {
    /// Whether the flags lie within the fixed header.
    pub open spec fn wf(self) -> bool {
        self.flags_offset + 2 <= self.len
    }
}

/// The fixed header of the new image with the delta flag set.
pub open spec fn flagged_header(new: Seq<u8>, fixed: FixedHeader) -> Seq<u8> {
    let bytes = le::u16_bytes(fixed.flags | IS_DELTA_BIT);
    new.take(fixed.len as int).update(fixed.flags_offset as int, bytes[0]).update(
        fixed.flags_offset + 1,
        bytes[1],
    )
}

/// Everything in a delta image before the trailer.
pub open spec fn delta_body(
    new: Seq<u8>,
    fixed: FixedHeader,
    header: DeltaHeader,
    patch: Seq<u8>,
) -> Seq<u8> {
    flagged_header(new, fixed) + header.wire() + patch
}

/// A delta image: its body, and the CRC-32b of the body.
pub open spec fn delta_image(
    new: Seq<u8>,
    fixed: FixedHeader,
    header: DeltaHeader,
    patch: Seq<u8>,
) -> Seq<u8> {
    let body = delta_body(new, fixed, header, patch);
    body + le::u32_bytes(crc::crc32_of(body))
}

/// Why the fixed header of the new image cannot be taken over, if it cannot.
pub open spec fn header_objection(new: Seq<u8>, fixed: FixedHeader) -> Option<GenError> {
    if new.len() < fixed.len {
        Some(GenError::ShorterThanFixedHeader)
    } else if le::u16_at(new, fixed.flags_offset as int) != fixed.flags {
        Some(GenError::FlagsNotFound)
    } else {
        None
    }
}

/// Assemble `[fixed header (IS_DELTA set)][delta header][patch][CRC-32b trailer]`.
pub fn assemble(
    new: &[u8],
    fixed: &FixedHeader,
    header: &DeltaHeader,
    patch: &[u8],
) -> (r: Result<Vec<u8>, GenError>)
    requires
        fixed.wf(),
    ensures
        match header_objection(new@, *fixed) {
            Some(e) => r == Err::<Vec<u8>, GenError>(e),
            None => r matches Ok(image) && image@ == delta_image(new@, *fixed, *header, patch@),
        },
{
    if new.len() < fixed.len {
        return Err(GenError::ShorterThanFixedHeader);
    }
    if le::u16_le(new, fixed.flags_offset) != fixed.flags {
        return Err(GenError::FlagsNotFound);
    }
    let mut out: Vec<u8> = part_of(new, 0, fixed.len);
    assert(out@ =~= new@.take(fixed.len as int));
    let flags: u16 = fixed.flags | IS_DELTA_BIT;
    out.set(fixed.flags_offset, (flags % 0x100) as u8);
    out.set(fixed.flags_offset + 1, (flags / 0x100) as u8);
    assert(out@ =~= flagged_header(new@, *fixed));
    let wire = header.to_bytes();
    out.extend_from_slice(&wire);
    out.extend_from_slice(patch);
    assert(out@ =~= delta_body(new@, *fixed, *header, patch@));
    let trailer: u32 = crc32b(&out);
    le::push_u32(&mut out, trailer);
    Ok(out)
}

// ---------------------------------------------------------------------------
//  From a pair of images to a delta image
// ---------------------------------------------------------------------------

/// What the builder has to know of the old image besides its bytes.
pub struct BaseFacts {
    /// The entries of the relocation table.
    pub relocations: Vec<u32>,
    /// Offset of the 4-byte trailer.
    pub trailer_start: usize,
    pub component_id: u16,
    pub component_version: u32,
}

/// The file offset of the word that a relocation entry patches.  Offsets are relative to the
/// start of the whole image file.
pub open spec fn site_of(entry: u32) -> u32 {
    entry & SITE_MASK
}

/// The site of a relocation entry is the entry modulo 2^24: what stands in its highest byte does
/// not matter, and every lower bit does.
pub proof fn law_site_is_low_24_bits(entry: u32)
    ensures
        site_of(entry) == entry % 0x100_0000,
{
    assert(entry & SITE_MASK == entry % 0x100_0000) by (bit_vector);
}

/// Whether byte `i` lies in the 4-byte word at the site of one of the relocation entries.
pub open spec fn in_relocated_word(relocations: Seq<u32>, i: int) -> bool {
    exists|k: int|
        0 <= k < relocations.len() && (#[trigger] relocations[k]) % 0x100_0000 <= i
            < relocations[k] % 0x100_0000 + 4
}

/// The 4-byte words of the old image that the device does not hold as they were built: one
/// per relocation entry, and the trailer.
pub open spec fn unreliable_words(relocations: Seq<u32>, trailer_start: usize) -> Seq<
    Range<usize>,
> {
    Seq::new(
        relocations.len(),
        |i: int|
            Range {
                start: site_of(relocations[i]) as usize,
                end: (site_of(relocations[i]) + 4) as usize,
            },
    ).push(Range { start: trailer_start, end: (trailer_start + 4) as usize })
}

/// The file offset of the word that a relocation entry patches.
pub fn relocation_site(entry: u32) -> (site: u32)
    ensures
        site == site_of(entry),
        site == entry % 0x100_0000,
        site <= SITE_MASK,
{
    proof {
        law_site_is_low_24_bits(entry);
    }
    entry & SITE_MASK
}

fn list_unreliable_words(relocations: &[u32], trailer_start: usize) -> (v: Vec<Range<usize>>)
    requires
        trailer_start + 4 <= usize::MAX,
    ensures
        v@ == unreliable_words(relocations@, trailer_start),
        forall|k: int| 0 <= k < v@.len() ==> (#[trigger] v@[k]).end == v@[k].start + 4,
{
    let mut v: Vec<Range<usize>> = Vec::new();
    let mut i: usize = 0;
    while i < relocations.len()
        invariant
            i <= relocations@.len(),
            v@.len() == i,
            forall|k: int|
                0 <= k < i ==> (#[trigger] v@[k]).start == site_of(relocations@[k]) && v@[k].end
                    == site_of(relocations@[k]) + 4,
        decreases relocations@.len() - i,
    {
        let site: usize = relocation_site(relocations[i]) as usize;
        v.push(Range { start: site, end: site + 4 });
        i = i + 1;
    }
    v.push(Range { start: trailer_start, end: trailer_start + 4 });
    assert(v@ =~= unreliable_words(relocations@, trailer_start));
    v
}

/// A delta image with what was found on the way to it.
pub struct DeltaBuild {
    pub image: Vec<u8>,
    pub header: DeltaHeader,
    pub patch: Vec<u8>,
    /// The bytes of the old image that no COPY reads.
    pub forbidden: Vec<Range<usize>>,
    pub copy_ops: usize,
    pub add_ops: usize,
    pub forbidden_bytes: usize,
}

/// The delta header for a patch from `old` to `new`.
pub open spec fn is_header_for(
    h: DeltaHeader,
    old: Seq<u8>,
    new: Seq<u8>,
    facts: BaseFacts,
    forbidden: Seq<Range<usize>>,
    patch: Seq<u8>,
) -> bool {
    &&& h.is_valid()
    &&& h.base_component_id == facts.component_id
    &&& h.base_component_version == facts.component_version
    &&& h.base_crc32 == crc::crc32_of(masked(old, forbidden))
    &&& h.reconstructed_crc32 == crc::crc32_of(new)
    &&& h.patch_payload_size == patch.len() as u32
    &&& h.target_size == new.len() as u32
}

/// The forbidden ranges of an old image.
pub open spec fn forbidden_ranges(facts: BaseFacts) -> Seq<Range<usize>> {
    ranges::normal_form(unreliable_words(facts.relocations@, facts.trailer_start))
}

/// Build a delta image that takes a device from `old` to `new`.
///
/// The patch is checked before anything is handed out: a malformed patch must be
/// un-shippable.
pub fn build_delta(old: &[u8], facts: &BaseFacts, new: &[u8], fixed: &FixedHeader) -> (r: Result<
    DeltaBuild,
    GenError,
>)
    requires
        fixed.wf(),
        facts.trailer_start + 4 <= usize::MAX,
    ensures
        ({
            let words = unreliable_words(facts.relocations@, facts.trailer_start);
            let forbidden = forbidden_ranges(*facts);
            let patch = encoder::patch_of(old@, new@, forbidden);
            match ranges::first_past(words, old@.len()) {
                Some(past) => r == Err::<DeltaBuild, GenError>(
                    GenError::ForbiddenOutOfBounds(
                        OutOfBounds { start: past.start, end: past.end, len: old.len() },
                    ),
                ),
                None => match objection(patch, old@, new@, forbidden) {
                    Some(e) => r == Err::<DeltaBuild, GenError>(e),
                    None => match header_objection(new@, *fixed) {
                        Some(e) => r == Err::<DeltaBuild, GenError>(e),
                        None => r matches Ok(b) && {
                            &&& b.forbidden@ == forbidden
                            &&& b.patch@ == patch
                            &&& is_header_for(b.header, old@, new@, *facts, forbidden, patch)
                            &&& b.image@ == delta_image(new@, *fixed, b.header, patch)
                            &&& b.copy_ops == copies_in(ops_of(patch, old@.len(), new@.len()))
                            &&& b.add_ops == adds_in(ops_of(patch, old@.len(), new@.len()))
                            &&& b.forbidden_bytes == bytes_in(forbidden)
                        },
                    },
                },
            }
        }),
{
    let words: Vec<Range<usize>> = list_unreliable_words(&facts.relocations, facts.trailer_start);
    let forbidden: Vec<Range<usize>> = match normalize_ranges(words, old.len()) {
        Err(e) => {
            return Err(GenError::ForbiddenOutOfBounds(e));
        },
        Ok(v) => v,
    };
    proof {
        ranges::lemma_none_past(words@, old@.len());
        ranges::law_normal_form(words@, old@.len());
        lemma_separated_bytes(forbidden@, old@.len());
    }
    let patch: Vec<u8> = encode_faithful(old, new, &forbidden);
    let base_crc32: u32 = masked_crc32(old, &forbidden);
    let reconstructed_crc32: u32 = crc32b(new);
    let header = DeltaHeader {
        magic: DELTA_MAGIC,
        format_version: DELTA_FORMAT_V1,
        algorithm_id: ALGO_COPY_ADD_V1,
        base_component_id: facts.component_id,
        base_component_version: facts.component_version,
        reserved: 0,
        base_crc32,
        reconstructed_crc32,
        patch_payload_size: patch.len() as u32,
        target_size: new.len() as u32,
    };
    let (_, copy_ops, add_ops, forbidden_bytes) = match self_check(&patch, old, new, &forbidden) {
        Err(e) => {
            return Err(e);
        },
        Ok(t) => t,
    };
    let image: Vec<u8> = match assemble(new, fixed, &header, &patch) {
        Err(e) => {
            return Err(e);
        },
        Ok(v) => v,
    };
    Ok(DeltaBuild { image, header, patch, forbidden, copy_ops, add_ops, forbidden_bytes })
}

/// Separated ranges within an image hold no more bytes than the image.
proof fn lemma_separated_bytes(forbidden: Seq<Range<usize>>, len: nat)
    requires
        ranges::separated(forbidden),
        ranges::within(forbidden, len),
    ensures
        bytes_in(forbidden) <= len,
        forbidden.len() > 0 ==> bytes_in(forbidden) <= forbidden.last().end,
    decreases forbidden.len(),
{
    if forbidden.len() > 0 {
        let shorter = forbidden.drop_last();
        lemma_separated_bytes(shorter, len);
        let last = forbidden[forbidden.len() - 1];
        assert(last.start <= last.end <= len);
        if shorter.len() > 0 {
            assert(forbidden[shorter.len() - 1].end < last.start);
            assert(shorter.last() == forbidden[shorter.len() - 1]);
        }
    }
}

/// The patch for every pair of images whose unreliable words lie within the old one passes its
/// self-check, as long as all sizes fit their fields.
pub proof fn law_built_patch_passes(old: Seq<u8>, facts: BaseFacts, new: Seq<u8>)
    requires
        old.len() <= usize::MAX,
        old.len() <= u32::MAX,
        new.len() <= usize::MAX,
        new.len() <= u32::MAX,
        ranges::first_past(
            unreliable_words(facts.relocations@, facts.trailer_start),
            old.len(),
        ) is None,
        facts.trailer_start + 4 <= usize::MAX,
        encoder::patch_of(old, new, forbidden_ranges(facts)).len() <= u32::MAX,
    ensures
        objection(
            encoder::patch_of(old, new, forbidden_ranges(facts)),
            old,
            new,
            forbidden_ranges(facts),
        ) is None,
{
    lemma_forbidden_sorted(facts, old.len());
    law_self_check_accepts(old, new, forbidden_ranges(facts));
}

/// The forbidden ranges of an old image come in order, and lie within it.
pub proof fn lemma_forbidden_sorted(facts: BaseFacts, len: nat)
    requires
        facts.trailer_start + 4 <= usize::MAX,
        ranges::first_past(
            unreliable_words(facts.relocations@, facts.trailer_start),
            len,
        ) is None,
    ensures
        encoder::sorted_by_start(forbidden_ranges(facts)),
        ranges::within(forbidden_ranges(facts), len),
{
    let words = unreliable_words(facts.relocations@, facts.trailer_start);
    assert forall|k: int| 0 <= k < words.len() implies (#[trigger] words[k]).start
        <= words[k].end by {
        if k < facts.relocations@.len() {
            let entry = facts.relocations@[k];
            assert(entry & SITE_MASK <= SITE_MASK) by (bit_vector);
        }
    }
    ranges::lemma_none_past(words, len);
    ranges::law_normal_form(words, len);
}

/// The bytes that no COPY of a build may read are those of the words at the sites of the
/// relocation entries, and those of the trailer: all of these, and no others.
pub proof fn law_forbidden_bytes(facts: BaseFacts, len: nat, i: int)
    requires
        facts.trailer_start + 4 <= usize::MAX,
        ranges::first_past(
            unreliable_words(facts.relocations@, facts.trailer_start),
            len,
        ) is None,
    ensures
        encoder::covered(forbidden_ranges(facts), i) <==> in_relocated_word(facts.relocations@, i)
            || facts.trailer_start <= i < facts.trailer_start + 4,
{
    let relocations = facts.relocations@;
    let words = unreliable_words(relocations, facts.trailer_start);
    let n = relocations.len() as int;
    assert forall|k: int| 0 <= k < n implies (#[trigger] words[k]).start == relocations[k]
        % 0x100_0000 && words[k].end == words[k].start + 4 by {
        law_site_is_low_24_bits(relocations[k]);
    }
    assert(words[n].start == facts.trailer_start && words[n].end == facts.trailer_start + 4);
    assert forall|k: int| 0 <= k < words.len() implies (#[trigger] words[k]).start
        <= words[k].end by {
        assert(k < n || k == n);
    }
    ranges::lemma_none_past(words, len);
    ranges::law_normal_form(words, len);
    assert(encoder::covered(forbidden_ranges(facts), i) <==> encoder::covered(words, i));
    if encoder::covered(words, i) {
        let k = choose|k: int| 0 <= k < words.len() && (#[trigger] words[k]).start <= i < words[k].end;
        if k < n {
            assert(relocations[k] % 0x100_0000 <= i);
        }
    }
    if in_relocated_word(relocations, i) {
        let k = choose|k: int|
            0 <= k < n && (#[trigger] relocations[k]) % 0x100_0000 <= i < relocations[k]
                % 0x100_0000 + 4;
        assert(words[k].start <= i < words[k].end);
    }
}

// ---------------------------------------------------------------------------
//  What the parts of a build are
// ---------------------------------------------------------------------------

/// A masked image is as long as the image; a byte that some range holds is zero in it, and a byte
/// that every range ends before or starts behind is as it was.
pub proof fn law_masked_bytes(data: Seq<u8>, forbidden: Seq<Range<usize>>, i: int)
    requires
        0 <= i < data.len(),
    ensures
        masked(data, forbidden).len() == data.len(),
        forall|k: int|
            0 <= k < forbidden.len() && (#[trigger] forbidden[k]).start <= i < forbidden[k].end
                ==> masked(data, forbidden)[i] == 0,
        (forall|k: int|
            0 <= k < forbidden.len() ==> (#[trigger] forbidden[k]).end <= i || i
                < forbidden[k].start) ==> masked(data, forbidden)[i] == data[i],
{
}

/// A poisoned image is as long as the image.  Where the ranges are disjoint, a byte that one of
/// them holds is the complement of what it was, and every other byte is as it was.
pub proof fn law_poisoned_bytes(old: Seq<u8>, forbidden: Seq<Range<usize>>, i: int)
    requires
        0 <= i < old.len(),
        forall|j: int, k: int|
            0 <= j < k < forbidden.len() ==> (#[trigger] forbidden[j]).end <= (
            #[trigger] forbidden[k]).start || forbidden[k].end <= forbidden[j].start,
    ensures
        poisoned(old, forbidden).len() == old.len(),
        forall|k: int|
            0 <= k < forbidden.len() && (#[trigger] forbidden[k]).start <= i < forbidden[k].end
                ==> poisoned(old, forbidden)[i] + old[i] == 0xFF,
        (forall|k: int|
            0 <= k < forbidden.len() ==> (#[trigger] forbidden[k]).end <= i || i
                < forbidden[k].start) ==> poisoned(old, forbidden)[i] == old[i],
    decreases forbidden.len(),
{
    if forbidden.len() > 0 {
        let rest = forbidden.drop_last();
        let last = forbidden[forbidden.len() - 1];
        assert(forall|k: int| 0 <= k < rest.len() ==> #[trigger] rest[k] == forbidden[k]);
        law_poisoned_bytes(old, rest, i);
        let b = old[i];
        assert((b ^ 0xFF) + b == 0xFF) by (bit_vector);
        assert forall|k: int|
            0 <= k < forbidden.len() && (#[trigger] forbidden[k]).start <= i
                < forbidden[k].end implies poisoned(old, forbidden)[i] + old[i] == 0xFF by {
            if k < rest.len() {
                assert(rest[k].start <= i < rest[k].end);
                assert(forbidden[k].end <= last.start || last.end <= forbidden[k].start);
            } else {
                assert forall|j: int| 0 <= j < rest.len() implies (#[trigger] rest[j]).end <= i || i
                    < rest[j].start by {
                    assert(forbidden[j].end <= last.start || last.end <= forbidden[j].start);
                }
            }
        }
    }
}

/// The self-check objects to nothing if the patch makes the new image both of the pristine base
/// and of the poisoned one, and only then.  Otherwise the first that goes wrong is what it objects
/// to: a decode that fails is named with its error, the other outcomes with the base they are for.
pub proof fn law_objections(
    patch: Seq<u8>,
    old: Seq<u8>,
    new: Seq<u8>,
    forbidden: Seq<Range<usize>>,
)
    ensures
        ({
            let first = patch::apply(patch, old, new.len() as u32);
            let second = patch::apply(patch, poisoned(old, forbidden), new.len() as u32);
            let right = Ok::<Seq<u8>, DecodeError>(new);
            let found = objection(patch, old, new, forbidden);
            &&& found is None <==> first == right && second == right
            &&& found == Some(GenError::PristineMismatch) <==> first is Ok && first != right
            &&& found == Some(GenError::ForbiddenCopied) <==> first == right && second is Ok
                && second != right
            &&& first matches Err(e) ==> found == Some(GenError::Decode(e))
            &&& first == right ==> (second matches Err(e) ==> found == Some(GenError::Decode(e)))
        }),
{
}

/// What is put together holds the COPYs and ADDs that its parts hold; a single opcode is one of
/// its own kind and none of the other.
pub proof fn law_counts_add_up(a: Seq<DecodedOp>, b: Seq<DecodedOp>, op: DecodedOp)
    ensures
        copies_in(a + b) == copies_in(a) + copies_in(b),
        adds_in(a + b) == adds_in(a) + adds_in(b),
        copies_in(seq![op]) == (if op is Copy {
            1nat
        } else {
            0nat
        }),
        adds_in(seq![op]) == (if op is Add {
            1nat
        } else {
            0nat
        }),
    decreases b.len(),
{
    assert(seq![op].drop_last() =~= Seq::<DecodedOp>::empty());
    reveal_with_fuel(copies_in, 2);
    reveal_with_fuel(adds_in, 2);
    if b.len() > 0 {
        law_counts_add_up(a, b.drop_last(), op);
        assert((a + b).drop_last() =~= a + b.drop_last());
    } else {
        assert(a + b =~= a);
    }
}

/// Ranges put together hold the bytes that they hold one by one.
pub proof fn law_bytes_of_ranges_add_up(
    a: Seq<Range<usize>>,
    b: Seq<Range<usize>>,
    one: Range<usize>,
)
    requires
        one.start <= one.end,
    ensures
        bytes_in(a + b) == bytes_in(a) + bytes_in(b),
        bytes_in(seq![one]) == one.end - one.start,
    decreases b.len(),
{
    assert(seq![one].drop_last() =~= Seq::<Range<usize>>::empty());
    reveal_with_fuel(bytes_in, 2);
    if b.len() > 0 {
        law_bytes_of_ranges_add_up(a, b.drop_last(), one);
        assert((a + b).drop_last() =~= a + b.drop_last());
    } else {
        assert(a + b =~= a);
    }
}

/// What the patch does not yield of the buffer is zero, and what it yields stands at the front.
pub proof fn law_zero_filled(image: Seq<u8>, len: nat)
    requires
        image.len() <= len,
    ensures
        zero_filled(image, len).len() == len,
        zero_filled(image, len).take(image.len() as int) == image,
        forall|i: int| image.len() <= i < len ==> #[trigger] zero_filled(image, len)[i] == 0,
{
    assert(zero_filled(image, len).take(image.len() as int) =~= image);
}

/// Of the fixed header of the new image, only bit 1 of the flags can change: it is set, and every
/// other bit of every byte is taken over.
pub proof fn law_only_the_delta_flag_is_set(new: Seq<u8>, fixed: FixedHeader, i: int)
    requires
        fixed.wf(),
        header_objection(new, fixed) is None,
        0 <= i < fixed.len,
    ensures
        flagged_header(new, fixed).len() == fixed.len,
        i != fixed.flags_offset ==> flagged_header(new, fixed)[i] == new[i],
        i == fixed.flags_offset ==> flagged_header(new, fixed)[i] == (if new[i] / 2 % 2 == 1 {
            new[i] as int
        } else {
            new[i] + 2
        }),
{
    let at = fixed.flags_offset as int;
    let (low, high) = (new[at], new[at + 1]);
    let flags = fixed.flags;
    assert(flags == low + 0x100 * high);
    assert(flags % 0x100 == low && flags / 0x100 == high);
    assert((flags | 2) / 0x100 == flags / 0x100) by (bit_vector);
    assert(flags % 0x100 / 2 % 2 == 1 ==> (flags | 2) % 0x100 == flags % 0x100) by (bit_vector);
    assert(flags % 0x100 / 2 % 2 != 1 ==> (flags | 2) % 0x100 == flags % 0x100 + 2) by (bit_vector);
}

/// The fixed header cannot be taken over if the new image is too short to hold it, or does not
/// hold the flags where they should be, lowest byte first; and only then.
pub proof fn law_header_objections(new: Seq<u8>, fixed: FixedHeader)
    requires
        fixed.wf(),
    ensures
        ({
            let found = header_objection(new, fixed);
            let at = fixed.flags_offset as int;
            &&& found == Some(GenError::ShorterThanFixedHeader) <==> new.len() < fixed.len
            &&& found == Some(GenError::FlagsNotFound) <==> new.len() >= fixed.len && new[at] + 256
                * new[at + 1] != fixed.flags
            &&& found is None <==> new.len() >= fixed.len && new[at] + 256 * new[at + 1]
                == fixed.flags
        }),
{
}

/// The delta header of a build says what the patch is for: it is valid, names the base by its id
/// and version, and gives the CRC of the masked base, the CRC of the new image, the size of the
/// patch and the size of the new image, as far as they fit their fields.
pub proof fn law_header_describes_the_build(
    h: DeltaHeader,
    old: Seq<u8>,
    new: Seq<u8>,
    facts: BaseFacts,
    patch: Seq<u8>,
)
    requires
        is_header_for(h, old, new, facts, forbidden_ranges(facts), patch),
        patch.len() <= 0xFFFF_FFFF,
        new.len() <= 0xFFFF_FFFF,
    ensures
        h.magic@ == seq![0x44u8, 0x45u8, 0x4Cu8, 0x54u8],
        h.format_version == 1,
        h.algorithm_id == 1,
        h.reserved == 0,
        h.base_component_id == facts.component_id,
        h.base_component_version == facts.component_version,
        h.base_crc32 == crc::crc32_of(masked(old, forbidden_ranges(facts))),
        h.reconstructed_crc32 == crc::crc32_of(new),
        h.patch_payload_size == patch.len(),
        h.target_size == new.len(),
{
    assert(DELTA_MAGIC@ =~= seq![0x44u8, 0x45u8, 0x4Cu8, 0x54u8]);
}

} // verus!
