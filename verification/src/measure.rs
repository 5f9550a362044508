//! How well a patch does: where the bytes of the image come from.

use vstd::prelude::*;

use crate::decoder::{DecoderAction, DecoderState};
use crate::delta_gen;
use crate::patch;
use crate::patch::DecodedOp;

verus! {

/// The number of bytes that a run of opcodes copies from the base.
pub open spec fn bytes_copied(ops: Seq<DecodedOp>) -> nat
    decreases ops.len(),
{
    if ops.len() == 0 {
        0
    } else {
        bytes_copied(ops.drop_last()) + match ops.last() {
            DecodedOp::Copy { len, .. } => len as nat,
            _ => 0,
        }
    }
}

/// The number of bytes that a run of opcodes carries as literals.
pub open spec fn bytes_added(ops: Seq<DecodedOp>) -> nat
    decreases ops.len(),
{
    if ops.len() == 0 {
        0
    } else {
        bytes_added(ops.drop_last()) + match ops.last() {
            DecodedOp::Add { len, .. } => len as nat,
            _ => 0,
        }
    }
}

/// Opcodes and bytes by their kind.
#[derive(Debug, Clone, Copy, PartialEq, Eq, Structural)]
pub struct PatchStats {
    pub copy_ops: usize,
    pub copy_bytes: u64,
    pub add_ops: usize,
    pub add_bytes: u64,
}

/// A part of a run copies and adds no more than the whole.
proof fn lemma_prefix_bytes(ops: Seq<DecodedOp>, k: int)
    requires
        0 <= k <= ops.len(),
    ensures
        bytes_copied(ops.take(k)) <= bytes_copied(ops),
        bytes_added(ops.take(k)) <= bytes_added(ops),
    decreases ops.len(),
{
    if k < ops.len() {
        lemma_prefix_bytes(ops.drop_last(), k);
        assert(ops.drop_last().take(k) =~= ops.take(k));
    } else {
        assert(ops.take(k) =~= ops);
    }
}

/// Counts the opcodes of a decoded patch, and the bytes that they stand for.
pub fn patch_stats(ops: &[DecodedOp]) -> (s: PatchStats)
    requires
        bytes_copied(ops@) <= u64::MAX,
        bytes_added(ops@) <= u64::MAX,
    ensures
        s.copy_ops == delta_gen::copies_in(ops@),
        s.copy_bytes == bytes_copied(ops@),
        s.add_ops == delta_gen::adds_in(ops@),
        s.add_bytes == bytes_added(ops@),
{
    let mut s = PatchStats { copy_ops: 0, copy_bytes: 0, add_ops: 0, add_bytes: 0 };
    let mut i: usize = 0;
    while i < ops.len()
        invariant
            i <= ops@.len(),
            bytes_copied(ops@) <= u64::MAX,
            bytes_added(ops@) <= u64::MAX,
            s.copy_ops == delta_gen::copies_in(ops@.take(i as int)),
            s.copy_bytes == bytes_copied(ops@.take(i as int)),
            s.add_ops == delta_gen::adds_in(ops@.take(i as int)),
            s.add_bytes == bytes_added(ops@.take(i as int)),
            s.copy_ops <= i,
            s.add_ops <= i,
        decreases ops@.len() - i,
    {
        proof {
            assert(ops@.take(i + 1).drop_last() =~= ops@.take(i as int));
            lemma_prefix_bytes(ops@, i + 1);
        }
        match ops[i] {
            DecodedOp::Copy { len, .. } => {
                s.copy_ops = s.copy_ops + 1;
                s.copy_bytes = s.copy_bytes + len as u64;
            },
            DecodedOp::Add { len, .. } => {
                s.add_ops = s.add_ops + 1;
                s.add_bytes = s.add_bytes + len as u64;
            },
            DecodedOp::End => {},
        }
        i = i + 1;
    }
    assert(ops@.take(i as int) =~= ops@);
    s
}

/// What the first of a run of opcodes contributes.
proof fn lemma_first_bytes(first: DecodedOp, rest: Seq<DecodedOp>)
    ensures
        bytes_copied(seq![first] + rest) == bytes_copied(rest) + bytes_copied(seq![first]),
        bytes_added(seq![first] + rest) == bytes_added(rest) + bytes_added(seq![first]),
    decreases rest.len(),
{
    let all = seq![first] + rest;
    if rest.len() == 0 {
        assert(all =~= seq![first]);
    } else {
        lemma_first_bytes(first, rest.drop_last());
        assert(all.drop_last() =~= seq![first] + rest.drop_last());
    }
}

proof fn lemma_decoded_bytes(d: DecoderState, stream: Seq<u8>, base: Seq<u8>, pos: nat)
    requires
        d.wf(),
        d.base_size <= base.len(),
    ensures
        patch::decode(d, stream, base) matches Ok(image) ==> image.len() == bytes_copied(
            patch::trace(d, stream, pos),
        ) + bytes_added(patch::trace(d, stream, pos)),
    decreases stream.len(),
{
    patch::lemma_step(d, stream, base, pos);
    reveal_with_fuel(bytes_copied, 2);
    reveal_with_fuel(bytes_added, 2);
    match d.next(stream).1 {
        Ok((DecoderAction::Copy { src_offset, len }, _)) => {
            lemma_decoded_bytes(d.next(stream).0, stream.skip(9), base, pos + 9);
            let first = DecodedOp::Copy { src_offset, len, write_pos: d.write_pos as u32 };
            lemma_first_bytes(first, patch::trace(d.next(stream).0, stream.skip(9), pos + 9));
            assert(seq![first].drop_last() =~= Seq::<DecodedOp>::empty());
        },
        Ok((DecoderAction::Add { len }, _)) => {
            if stream.len() >= 5 + len {
                let after = d.next(stream).0.advance(len).0;
                lemma_decoded_bytes(after, stream.skip(5 + len), base, pos + 5 + len as nat);
                let first = DecodedOp::Add {
                    data_start: (pos + 5) as usize,
                    len,
                    write_pos: d.write_pos as u32,
                };
                lemma_first_bytes(
                    first,
                    patch::trace(after, stream.skip(5 + len), pos + 5 + len as nat),
                );
                assert(seq![first].drop_last() =~= Seq::<DecodedOp>::empty());
            }
        },
        Ok((DecoderAction::Done, _)) => {
            assert(seq![DecodedOp::End].drop_last() =~= Seq::<DecodedOp>::empty());
        },
        Err(_) => {},
    }
}

/// Every byte of a reconstructed image is either copied or added.
pub proof fn law_every_byte_is_copied_or_added(
    patch: Seq<u8>,
    base: Seq<u8>,
    target_size: u32,
    image: Seq<u8>,
)
    requires
        base.len() <= usize::MAX,
        patch::apply(patch, base, target_size) == Ok::<Seq<u8>, crate::error::DecodeError>(image),
    ensures
        ({
            let ops = patch::trace(
                DecoderState::fresh(patch.len() as u32, base.len() as u32, target_size),
                patch,
                0,
            );
            image.len() == bytes_copied(ops) + bytes_added(ops)
        }),
{
    patch::lemma_low_word(base.len());
    lemma_decoded_bytes(
        DecoderState::fresh(patch.len() as u32, base.len() as u32, target_size),
        patch,
        base,
        0,
    );
}

/// What is put together copies and adds what its parts copy and add; one COPY copies as many bytes
/// as it says, one ADD adds as many, and END neither.
pub proof fn law_bytes_add_up(a: Seq<DecodedOp>, b: Seq<DecodedOp>, op: DecodedOp)
    ensures
        bytes_copied(a + b) == bytes_copied(a) + bytes_copied(b),
        bytes_added(a + b) == bytes_added(a) + bytes_added(b),
        bytes_copied(seq![op]) == (match op {
            DecodedOp::Copy { len, .. } => len as nat,
            _ => 0,
        }),
        bytes_added(seq![op]) == (match op {
            DecodedOp::Add { len, .. } => len as nat,
            _ => 0,
        }),
    decreases b.len(),
{
    assert(seq![op].drop_last() =~= Seq::<DecodedOp>::empty());
    reveal_with_fuel(bytes_copied, 2);
    reveal_with_fuel(bytes_added, 2);
    if b.len() > 0 {
        law_bytes_add_up(a, b.drop_last(), op);
        assert((a + b).drop_last() =~= a + b.drop_last());
    } else {
        assert(a + b =~= a);
    }
}

} // verus!
