//! What decoding gives back of what the encoder wrote.

use std::ops::Range;

use vstd::prelude::*;

use crate::decoder::DecoderState;
use crate::encoder;
use crate::encoder::{EncodedOp, MIN_MATCH_LEN};
use crate::error::DecodeError;
use crate::format::{OP_ADD, OP_COPY, OP_END};
use crate::le;
use crate::patch;
use crate::patch::DecodedOp;

verus! {

// ---------------------------------------------------------------------------
//  Runs of opcodes
// ---------------------------------------------------------------------------

/// Whether `ops` reproduces `new[from..]` out of `base`, piece by piece.
pub open spec fn reproduces(
    ops: Seq<EncodedOp>,
    base: Seq<u8>,
    new: Seq<u8>,
    from: nat,
) -> bool
    decreases ops.len(),
{
    if ops.len() == 0 {
        from == new.len()
    } else {
        match ops[0] {
            EncodedOp::Copy { src_offset, len, new_pos } => {
                &&& new_pos == from
                &&& src_offset + len <= base.len()
                &&& from + len <= new.len()
                &&& base.subrange(src_offset as int, src_offset + len) == new.subrange(
                    from as int,
                    from + len,
                )
                &&& reproduces(ops.drop_first(), base, new, from + len as nat)
            },
            EncodedOp::Add { start, len } => {
                &&& start == from
                &&& from + len <= new.len()
                &&& reproduces(ops.drop_first(), base, new, from + len as nat)
            },
        }
    }
}

/// The wire bytes of a run of opcodes, read from the front.
pub proof fn lemma_wire_front(ops: Seq<EncodedOp>, new: Seq<u8>)
    requires
        ops.len() > 0,
    ensures
        encoder::ops_wire(ops, new) == encoder::op_wire(ops[0], new) + encoder::ops_wire(
            ops.drop_first(),
            new,
        ),
    decreases ops.len(),
{
    if ops.len() == 1 {
        assert(ops.drop_last() =~= Seq::<EncodedOp>::empty());
        assert(ops.drop_first() =~= Seq::<EncodedOp>::empty());
        assert(encoder::ops_wire(ops, new) =~= encoder::op_wire(ops[0], new)
            + encoder::ops_wire(ops.drop_first(), new));
    } else {
        lemma_wire_front(ops.drop_last(), new);
        assert(ops.drop_last().drop_first() =~= ops.drop_first().drop_last());
        assert(encoder::ops_wire(ops, new) =~= encoder::op_wire(ops[0], new)
            + encoder::ops_wire(ops.drop_first(), new));
    }
}

/// The state after a whole opcode of `wire_len` bytes that stands for `len` bytes of output.
spec fn past(d: DecoderState, wire_len: nat, len: nat) -> DecoderState {
    DecoderState { consumed: d.consumed + wire_len, write_pos: d.write_pos + len, ..d }
}

/// Whether `d` can decode the next opcode of a stream for a base of `base_len` bytes.
spec fn ready(d: DecoderState, base_len: nat) -> bool {
    d.wf() && !d.done && d.pending_add is None && d.base_size == base_len
}

/// Decoding a stream that starts with a COPY within bounds.
proof fn lemma_decode_copy(
    d: DecoderState,
    src_offset: usize,
    len: usize,
    tail: Seq<u8>,
    base: Seq<u8>,
    pos: nat,
)
    requires
        ready(d, base.len()),
        d.consumed + 9 <= d.total_size,
        src_offset + len <= base.len(),
        d.write_pos + len <= d.target_size,
    ensures
        ready(past(d, 9, len as nat), base.len()),
        ({
            let s = seq![OP_COPY] + le::u32_bytes(src_offset as u32) + le::u32_bytes(len as u32)
                + tail;
            &&& patch::decode(d, s, base) == patch::prepend(
                base.subrange(src_offset as int, src_offset + len),
                patch::decode(past(d, 9, len as nat), tail, base),
            )
            &&& patch::trace(d, s, pos) == seq![
                DecodedOp::Copy {
                    src_offset: src_offset as u32,
                    len: len as u32,
                    write_pos: d.write_pos as u32,
                },
            ] + patch::trace(past(d, 9, len as nat), tail, pos + 9)
        }),
{
    let s = seq![OP_COPY] + le::u32_bytes(src_offset as u32) + le::u32_bytes(len as u32) + tail;
    assert(s.subrange(1, 5) =~= le::u32_bytes(src_offset as u32));
    assert(s.subrange(5, 9) =~= le::u32_bytes(len as u32));
    le::lemma_u32_write_read(s, 1, src_offset as u32);
    le::lemma_u32_write_read(s, 5, len as u32);
    assert(s.skip(9) =~= tail);
    patch::lemma_step(d, s, base, pos);
}

/// Decoding a stream that starts with an ADD within bounds.
proof fn lemma_decode_add(
    d: DecoderState,
    data: Seq<u8>,
    tail: Seq<u8>,
    base: Seq<u8>,
    pos: nat,
)
    requires
        ready(d, base.len()),
        d.consumed + 5 + data.len() <= d.total_size,
        d.write_pos + data.len() <= d.target_size,
    ensures
        ready(past(d, 5 + data.len(), data.len()), base.len()),
        ({
            let s = seq![OP_ADD] + le::u32_bytes(data.len() as u32) + data + tail;
            &&& patch::decode(d, s, base) == patch::prepend(
                data,
                patch::decode(past(d, 5 + data.len(), data.len()), tail, base),
            )
            &&& patch::trace(d, s, pos) == seq![
                DecodedOp::Add {
                    data_start: (pos + 5) as usize,
                    len: data.len() as u32,
                    write_pos: d.write_pos as u32,
                },
            ] + patch::trace(past(d, 5 + data.len(), data.len()), tail, pos + 5 + data.len())
        }),
{
    let len = data.len() as u32;
    let s = seq![OP_ADD] + le::u32_bytes(len) + data + tail;
    assert(s.subrange(1, 5) =~= le::u32_bytes(len));
    le::lemma_u32_write_read(s, 1, len);
    assert(s.skip(5 + len) =~= tail);
    assert(s.subrange(5, 5 + len) =~= data);
    patch::lemma_step(d, s, base, pos);
}

/// Decoding the END of a stream.
proof fn lemma_decode_end(d: DecoderState, base: Seq<u8>, pos: nat)
    requires
        ready(d, base.len()),
        d.consumed + 1 == d.total_size,
    ensures
        patch::decode(d, seq![OP_END], base) == Ok::<Seq<u8>, DecodeError>(Seq::empty()),
        patch::trace(d, seq![OP_END], pos) == seq![DecodedOp::End],
{
    patch::lemma_step(d, seq![OP_END], base, pos);
}

/// The opcodes of a run as the decoder reports them, when the run starts at offset `pos` of
/// the patch.
pub open spec fn decoded(ops: Seq<EncodedOp>, write_pos: nat, pos: nat) -> Seq<DecodedOp>
    decreases ops.len(),
{
    if ops.len() == 0 {
        seq![DecodedOp::End]
    } else {
        match ops[0] {
            EncodedOp::Copy { src_offset, len, .. } => seq![
                DecodedOp::Copy {
                    src_offset: src_offset as u32,
                    len: len as u32,
                    write_pos: write_pos as u32,
                },
            ] + decoded(ops.drop_first(), write_pos + len as nat, pos + 9),
            EncodedOp::Add { len, .. } => seq![
                DecodedOp::Add {
                    data_start: (pos + 5) as usize,
                    len: len as u32,
                    write_pos: write_pos as u32,
                },
            ] + decoded(ops.drop_first(), write_pos + len as nat, pos + 5 + len as nat),
        }
    }
}

/// The part of `new` behind `from` is what stands up to `from + len`, then the part behind
/// that.
proof fn lemma_skip_split(new: Seq<u8>, from: nat, len: nat)
    requires
        from + len <= new.len(),
    ensures
        new.subrange(from as int, (from + len) as int) + new.skip((from + len) as int) == new.skip(
            from as int,
        ),
{
    assert(new.subrange(from as int, (from + len) as int) + new.skip((from + len) as int)
        =~= new.skip(from as int));
}

/// A non-empty run of opcodes on the wire: its first opcode, then the others.
proof fn lemma_stream_front(ops: Seq<EncodedOp>, new: Seq<u8>)
    requires
        ops.len() > 0,
    ensures
        encoder::ops_wire(ops, new).push(OP_END) == encoder::op_wire(ops[0], new)
            + encoder::ops_wire(ops.drop_first(), new).push(OP_END),
        encoder::ops_wire(ops, new).len() == encoder::op_wire(ops[0], new).len()
            + encoder::ops_wire(ops.drop_first(), new).len(),
{
    lemma_wire_front(ops, new);
    assert(encoder::ops_wire(ops, new).push(OP_END) =~= encoder::op_wire(ops[0], new)
        + encoder::ops_wire(ops.drop_first(), new).push(OP_END));
}

/// Decoding a run of opcodes that reproduces `new` gives `new`, and reports those opcodes.
proof fn lemma_decode_run(
    d: DecoderState,
    ops: Seq<EncodedOp>,
    base: Seq<u8>,
    new: Seq<u8>,
    pos: nat,
)
    requires
        ready(d, base.len()),
        d.target_size >= new.len(),
        d.consumed + encoder::ops_wire(ops, new).len() + 1 == d.total_size,
        reproduces(ops, base, new, d.write_pos),
        d.write_pos <= new.len(),
    ensures
        patch::decode(d, encoder::ops_wire(ops, new).push(OP_END), base) == Ok::<
            Seq<u8>,
            DecodeError,
        >(new.skip(d.write_pos as int)),
        patch::trace(d, encoder::ops_wire(ops, new).push(OP_END), pos) == decoded(
            ops,
            d.write_pos,
            pos,
        ),
    decreases ops.len(),
{
    if ops.len() == 0 {
        assert(encoder::ops_wire(ops, new).push(OP_END) =~= seq![OP_END]);
        assert(new.skip(d.write_pos as int) =~= Seq::<u8>::empty());
        lemma_decode_end(d, base, pos);
    } else {
        let rest = ops.drop_first();
        let tail = encoder::ops_wire(rest, new).push(OP_END);
        lemma_stream_front(ops, new);
        match ops[0] {
            EncodedOp::Copy { src_offset, len, .. } => {
                lemma_decode_copy(d, src_offset, len, tail, base, pos);
                lemma_decode_run(past(d, 9, len as nat), rest, base, new, pos + 9);
                lemma_skip_split(new, d.write_pos, len as nat);
            },
            EncodedOp::Add { start, len } => {
                let data = new.subrange(start as int, start + len);
                lemma_decode_add(d, data, tail, base, pos);
                lemma_decode_run(
                    past(d, 5 + len as nat, len as nat),
                    rest,
                    base,
                    new,
                    pos + 5 + len as nat,
                );
                lemma_skip_split(new, d.write_pos, len as nat);
            },
        }
    }
}

// ---------------------------------------------------------------------------
//  The encoder's plan
// ---------------------------------------------------------------------------

/// Whether `base` has the bytes of `old` wherever no range of `forbidden` lies.
pub open spec fn agrees_outside(
    base: Seq<u8>,
    old: Seq<u8>,
    forbidden: Seq<Range<usize>>,
) -> bool {
    &&& base.len() == old.len()
    &&& forall|i: int|
        0 <= i < old.len() && !encoder::covered(forbidden, i) ==> #[trigger] base[i] == old[i]
}

/// Whether `op` is no COPY, or one of at least the minimum length whose source lies in an
/// image of `old_len` bytes and holds no forbidden byte.
pub open spec fn copy_is_clean(
    op: EncodedOp,
    old_len: nat,
    forbidden: Seq<Range<usize>>,
) -> bool {
    op matches EncodedOp::Copy { src_offset, len, .. } ==> {
        &&& MIN_MATCH_LEN <= len
        &&& src_offset + len <= old_len
        &&& forall|i: int|
            src_offset <= i < src_offset + len ==> !(#[trigger] encoder::covered(forbidden, i))
    }
}

/// A match lies within both images, and its bytes agree.
proof fn lemma_match(old: Seq<u8>, p: int, new: Seq<u8>, q: int)
    requires
        0 <= p <= old.len(),
        0 <= q <= new.len(),
    ensures
        p + encoder::match_len(old, p, new, q) <= old.len(),
        q + encoder::match_len(old, p, new, q) <= new.len(),
        forall|i: int|
            0 <= i < encoder::match_len(old, p, new, q) ==> #[trigger] old[p + i] == new[q + i],
    decreases new.len() - q,
{
    if p < old.len() && q < new.len() && old[p] == new[q] {
        lemma_match(old, p + 1, new, q + 1);
        assert forall|i: int| 0 <= i < encoder::match_len(old, p, new, q) implies #[trigger] old[p
            + i] == new[q + i] by {
            if i > 0 {
                assert(old[p + 1 + (i - 1)] == new[q + 1 + (i - 1)]);
            }
        }
    }
}

/// The best match, if it has a byte, is the usable match at one of the candidates.
pub proof fn lemma_best_is_candidate(
    old: Seq<u8>,
    new: Seq<u8>,
    forbidden: Seq<Range<usize>>,
    pos: nat,
    among: Seq<usize>,
)
    ensures
        encoder::best_match(old, new, forbidden, pos, among).1 > 0 ==> {
            let best = encoder::best_match(old, new, forbidden, pos, among);
            &&& among.contains(best.0)
            &&& best.1 == encoder::usable_len(old, new, forbidden, pos, best.0)
        },
    decreases among.len(),
{
    if among.len() > 0 {
        lemma_best_is_candidate(old, new, forbidden, pos, among.drop_last());
        let before = encoder::best_match(old, new, forbidden, pos, among.drop_last());
        if among.drop_last().contains(before.0) {
            let k = among.drop_last().index_of(before.0);
            assert(among[k] == before.0);
        }
        assert(among[among.len() - 1] == among.last());
    }
}

/// What holds of a chosen COPY: it is clean, and its source agrees with `new`.
pub proof fn lemma_chosen_copy(
    old: Seq<u8>,
    new: Seq<u8>,
    forbidden: Seq<Range<usize>>,
    pos: nat,
)
    requires
        old.len() <= usize::MAX,
        pos <= new.len(),
        encoder::sorted_by_start(forbidden),
    ensures
        encoder::chosen_copy(old, new, forbidden, pos) matches Some((src_offset, len)) ==> {
            &&& MIN_MATCH_LEN <= len
            &&& src_offset + len <= old.len()
            &&& pos + len <= new.len()
            &&& forall|i: int| 0 <= i < len ==> #[trigger] old[src_offset + i] == new[pos + i]
            &&& forall|i: int|
                src_offset <= i < src_offset + len ==> !(#[trigger] encoder::covered(
                    forbidden,
                    i,
                ))
        },
{
    if let Some((src_offset, len)) = encoder::chosen_copy(old, new, forbidden, pos) {
        let h = encoder::hash_at(new, pos as int);
        let among = encoder::candidates(old, h);
        let all = encoder::positions(old, h, encoder::window_count(old.len()));
        lemma_best_is_candidate(old, new, forbidden, pos, among);
        let k = among.index_of(src_offset);
        assert(all[k] == src_offset);
        encoder::lemma_positions_below(old, h, encoder::window_count(old.len()));
        lemma_match(old, src_offset as int, new, pos as int);
        encoder::lemma_clipped_avoids(
            src_offset as nat,
            encoder::match_len(old, src_offset as int, new, pos as int),
            forbidden,
        );
    }
}

/// The encoder's plan reproduces `new` out of every base that agrees with `old` outside the
/// forbidden ranges, and each of its COPYs is clean.
proof fn lemma_plan(
    old: Seq<u8>,
    new: Seq<u8>,
    forbidden: Seq<Range<usize>>,
    base: Seq<u8>,
    pos: nat,
    lit: nat,
)
    requires
        old.len() <= usize::MAX,
        new.len() <= usize::MAX,
        lit <= pos <= new.len(),
        encoder::sorted_by_start(forbidden),
        agrees_outside(base, old, forbidden),
    ensures
        reproduces(encoder::plan(old, new, forbidden, pos, lit), base, new, lit),
        forall|k: int|
            0 <= k < encoder::plan(old, new, forbidden, pos, lit).len() ==> copy_is_clean(
                #[trigger] encoder::plan(old, new, forbidden, pos, lit)[k],
                old.len(),
                forbidden,
            ),
    decreases new.len() - pos,
{
    let ops = encoder::plan(old, new, forbidden, pos, lit);
    let lead = encoder::literal(lit, pos);
    if pos >= new.len() {
        assert(ops == lead);
        if lit < pos {
            assert(ops.drop_first() =~= Seq::<EncodedOp>::empty());
            assert(reproduces(ops.drop_first(), base, new, pos));
        }
    } else {
        lemma_chosen_copy(old, new, forbidden, pos);
        match encoder::chosen_copy(old, new, forbidden, pos) {
            None => {
                lemma_plan(old, new, forbidden, base, pos + 1, lit);
            },
            Some((src_offset, len)) => {
                let tail = encoder::plan(old, new, forbidden, pos + len, pos + len);
                let copy = EncodedOp::Copy {
                    src_offset,
                    len: len as usize,
                    new_pos: pos as usize,
                };
                lemma_plan(old, new, forbidden, base, pos + len, pos + len);
                let source = base.subrange(src_offset as int, src_offset + len);
                let wanted = new.subrange(pos as int, (pos + len) as int);
                assert forall|i: int| 0 <= i < len implies source[i] == wanted[i] by {
                    assert(!encoder::covered(forbidden, src_offset + i));
                    assert(old[src_offset + i] == new[pos + i]);
                }
                assert(source =~= wanted);
                let with_copy = seq![copy] + tail;
                assert(with_copy.drop_first() =~= tail);
                assert(reproduces(with_copy, base, new, pos));
                if lit < pos {
                    assert(ops.drop_first() =~= with_copy);
                    assert(ops[0] == lead[0]);
                } else {
                    assert(ops =~= with_copy);
                }
                assert forall|k: int| 0 <= k < ops.len() implies copy_is_clean(
                    #[trigger] ops[k],
                    old.len(),
                    forbidden,
                ) by {
                    if k > lead.len() {
                        assert(ops[k] == tail[k - lead.len() - 1]);
                    } else if k == lead.len() {
                        assert(ops[k] == copy);
                    } else {
                        assert(ops[k] == lead[k]);
                    }
                }
            },
        }
    }
}

// ---------------------------------------------------------------------------
//  Laws
// ---------------------------------------------------------------------------

/// A patch made with forbidden ranges reconstructs `new` exactly from every base that agrees
/// with `old` outside those ranges, whatever bytes the base holds inside them.
pub proof fn law_faithful(
    old: Seq<u8>,
    new: Seq<u8>,
    forbidden: Seq<Range<usize>>,
    base: Seq<u8>,
    target_size: u32,
)
    requires
        encoder::sorted_by_start(forbidden),
        agrees_outside(base, old, forbidden),
        old.len() <= usize::MAX,
        old.len() <= u32::MAX,
        new.len() <= usize::MAX,
        new.len() <= target_size,
        encoder::patch_of(old, new, forbidden).len() <= u32::MAX,
    ensures
        patch::apply(encoder::patch_of(old, new, forbidden), base, target_size) == Ok::<
            Seq<u8>,
            DecodeError,
        >(new),
{
    let ops = encoder::plan(old, new, forbidden, 0, 0);
    let p = encoder::patch_of(old, new, forbidden);
    let d = DecoderState::fresh(p.len() as u32, base.len() as u32, target_size);
    lemma_plan(old, new, forbidden, base, 0, 0);
    lemma_decode_run(d, ops, base, new, 0);
    assert(new.skip(0) =~= new);
}

/// Whether a decoded opcode is the COPY or the ADD of the plan: of the same source and length,
/// and for the same place in the new image.
pub open spec fn is_decoded_from(decoded: DecodedOp, op: EncodedOp) -> bool {
    match (decoded, op) {
        (
            DecodedOp::Copy { src_offset: s, len: n, write_pos },
            EncodedOp::Copy { src_offset, len, new_pos },
        ) => s == src_offset && n == len && write_pos == new_pos,
        (DecodedOp::Add { len: n, write_pos, .. }, EncodedOp::Add { start, len }) => n == len
            && write_pos == start,
        _ => false,
    }
}

/// The opcodes of a run are decoded one for one, with END behind them.
proof fn lemma_decoded_from(
    ops: Seq<EncodedOp>,
    base: Seq<u8>,
    new: Seq<u8>,
    write_pos: nat,
    pos: nat,
)
    requires
        reproduces(ops, base, new, write_pos),
        base.len() <= u32::MAX,
        new.len() <= u32::MAX,
    ensures
        ({
            let list = decoded(ops, write_pos, pos);
            &&& list.len() == ops.len() + 1
            &&& list[ops.len() as int] is End
            &&& forall|k: int| 0 <= k < ops.len() ==> is_decoded_from(#[trigger] list[k], ops[k])
        }),
    decreases ops.len(),
{
    if ops.len() > 0 {
        let rest = ops.drop_first();
        let (w, p) = match ops[0] {
            EncodedOp::Copy { len, .. } => (write_pos + len as nat, pos + 9),
            EncodedOp::Add { len, .. } => (write_pos + len as nat, pos + 5 + len as nat),
        };
        lemma_decoded_from(rest, base, new, w, p);
        let list = decoded(ops, write_pos, pos);
        assert forall|k: int| 0 <= k < ops.len() implies is_decoded_from(
            #[trigger] list[k],
            ops[k],
        ) by {
            if k > 0 {
                assert(list[k] == decoded(rest, w, p)[k - 1]);
                assert(ops[k] == rest[k - 1]);
            }
        }
        assert(list[ops.len() as int] == decoded(rest, w, p)[rest.len() as int]);
    }
}

/// A patch holds the opcodes of its plan, one for one and in order, with END behind them.
pub proof fn law_patch_holds_its_plan(
    old: Seq<u8>,
    new: Seq<u8>,
    forbidden: Seq<Range<usize>>,
    target_size: u32,
)
    requires
        encoder::sorted_by_start(forbidden),
        old.len() <= usize::MAX,
        old.len() <= u32::MAX,
        new.len() <= usize::MAX,
        new.len() <= target_size,
        encoder::patch_of(old, new, forbidden).len() <= u32::MAX,
    ensures
        ({
            let p = encoder::patch_of(old, new, forbidden);
            let plan = encoder::plan(old, new, forbidden, 0, 0);
            let ops = patch::trace(
                DecoderState::fresh(p.len() as u32, old.len() as u32, target_size),
                p,
                0,
            );
            &&& ops.len() == plan.len() + 1
            &&& ops[plan.len() as int] is End
            &&& forall|k: int| 0 <= k < plan.len() ==> is_decoded_from(#[trigger] ops[k], plan[k])
        }),
{
    let plan = encoder::plan(old, new, forbidden, 0, 0);
    let p = encoder::patch_of(old, new, forbidden);
    let d = DecoderState::fresh(p.len() as u32, old.len() as u32, target_size);
    lemma_plan(old, new, forbidden, old, 0, 0);
    lemma_decode_run(d, plan, old, new, 0);
    lemma_decoded_from(plan, old, new, 0, 0);
}

/// Decoding what was encoded gives back the new image.
pub proof fn law_roundtrip(old: Seq<u8>, new: Seq<u8>, target_size: u32)
    requires
        old.len() <= usize::MAX,
        old.len() <= u32::MAX,
        new.len() <= usize::MAX,
        new.len() <= target_size,
        encoder::patch_of(old, new, Seq::empty()).len() <= u32::MAX,
    ensures
        patch::apply(encoder::patch_of(old, new, Seq::empty()), old, target_size) == Ok::<
            Seq<u8>,
            DecodeError,
        >(new),
{
    law_faithful(old, new, Seq::empty(), old, target_size);
}

/// No COPY in an encoded patch reads a forbidden byte, or a byte outside of `old`, or fewer
/// bytes than the minimum match length.
pub proof fn law_copies_avoid_forbidden(
    old: Seq<u8>,
    new: Seq<u8>,
    forbidden: Seq<Range<usize>>,
    target_size: u32,
)
    requires
        encoder::sorted_by_start(forbidden),
        old.len() <= usize::MAX,
        old.len() <= u32::MAX,
        new.len() <= usize::MAX,
        new.len() <= target_size,
        encoder::patch_of(old, new, forbidden).len() <= u32::MAX,
    ensures
        ({
            let p = encoder::patch_of(old, new, forbidden);
            let ops = patch::trace(
                DecoderState::fresh(p.len() as u32, old.len() as u32, target_size),
                p,
                0,
            );
            forall|k: int|
                0 <= k < ops.len() ==> decoded_copy_is_clean(#[trigger] ops[k], old.len(), forbidden)
        }),
{
    let ops = encoder::plan(old, new, forbidden, 0, 0);
    let p = encoder::patch_of(old, new, forbidden);
    let d = DecoderState::fresh(p.len() as u32, old.len() as u32, target_size);
    lemma_plan(old, new, forbidden, old, 0, 0);
    lemma_decode_run(d, ops, old, new, 0);
    lemma_decoded_clean(ops, 0, 0, old.len(), forbidden);
}

/// Whether a decoded opcode is no COPY, or a clean one (see [`copy_is_clean`]).
pub open spec fn decoded_copy_is_clean(
    op: DecodedOp,
    old_len: nat,
    forbidden: Seq<Range<usize>>,
) -> bool {
    op matches DecodedOp::Copy { src_offset, len, .. } ==> {
        &&& MIN_MATCH_LEN <= len
        &&& src_offset + len <= old_len
        &&& forall|i: int|
            src_offset <= i < src_offset + len ==> !(#[trigger] encoder::covered(forbidden, i))
    }
}

/// Clean COPYs are decoded as clean COPYs.
proof fn lemma_decoded_clean(
    ops: Seq<EncodedOp>,
    write_pos: nat,
    pos: nat,
    old_len: nat,
    forbidden: Seq<Range<usize>>,
)
    requires
        old_len <= u32::MAX,
        forall|k: int|
            0 <= k < ops.len() ==> copy_is_clean(#[trigger] ops[k], old_len, forbidden),
    ensures
        forall|k: int|
            0 <= k < decoded(ops, write_pos, pos).len() ==> decoded_copy_is_clean(
                #[trigger] decoded(ops, write_pos, pos)[k],
                old_len,
                forbidden,
            ),
    decreases ops.len(),
{
    if ops.len() > 0 {
        let rest = ops.drop_first();
        assert forall|k: int| 0 <= k < rest.len() implies copy_is_clean(
            #[trigger] rest[k],
            old_len,
            forbidden,
        ) by {
            assert(rest[k] == ops[k + 1]);
        }
        assert(copy_is_clean(ops[0], old_len, forbidden));
        let (w, p) = match ops[0] {
            EncodedOp::Copy { len, .. } => (write_pos + len as nat, pos + 9),
            EncodedOp::Add { len, .. } => (write_pos + len as nat, pos + 5 + len as nat),
        };
        lemma_decoded_clean(rest, w, p, old_len, forbidden);
        let all = decoded(ops, write_pos, pos);
        assert forall|k: int| 0 <= k < all.len() implies decoded_copy_is_clean(
            #[trigger] all[k],
            old_len,
            forbidden,
        ) by {
            if k > 0 {
                assert(all[k] == decoded(rest, w, p)[k - 1]);
            }
        }
    }
}

/// The wire length of the rest of a plan, when `new[lit..pos]` is still to be added.
pub proof fn lemma_plan_size(
    old: Seq<u8>,
    new: Seq<u8>,
    forbidden: Seq<Range<usize>>,
    pos: nat,
    lit: nat,
)
    requires
        old.len() <= usize::MAX,
        new.len() <= usize::MAX,
        lit <= pos <= new.len(),
        encoder::sorted_by_start(forbidden),
    ensures
        11 * encoder::ops_wire(encoder::plan(old, new, forbidden, pos, lit), new).len() <= 15 * (
        new.len() - lit) + 55,
    decreases new.len() - pos,
{
    let ops = encoder::plan(old, new, forbidden, pos, lit);
    let lead = encoder::literal(lit, pos);
    if pos >= new.len() {
        if lit < pos {
            lemma_wire_front(ops, new);
            assert(ops.drop_first() =~= Seq::<EncodedOp>::empty());
        }
    } else {
        lemma_chosen_copy(old, new, forbidden, pos);
        match encoder::chosen_copy(old, new, forbidden, pos) {
            None => {
                lemma_plan_size(old, new, forbidden, pos + 1, lit);
            },
            Some((src_offset, len)) => {
                let tail = encoder::plan(old, new, forbidden, pos + len, pos + len);
                let copy = EncodedOp::Copy {
                    src_offset,
                    len: len as usize,
                    new_pos: pos as usize,
                };
                lemma_plan_size(old, new, forbidden, pos + len, pos + len);
                let with_copy = seq![copy] + tail;
                assert(with_copy.drop_first() =~= tail);
                lemma_wire_front(with_copy, new);
                if lit < pos {
                    assert(ops.drop_first() =~= with_copy);
                    assert(ops[0] == lead[0]);
                    lemma_wire_front(ops, new);
                } else {
                    assert(ops =~= with_copy);
                }
            },
        }
    }
}

/// A patch is at most four elevenths longer than the image it stands for, plus six bytes.
pub proof fn law_patch_size(old: Seq<u8>, new: Seq<u8>, forbidden: Seq<Range<usize>>)
    requires
        old.len() <= usize::MAX,
        new.len() <= usize::MAX,
        encoder::sorted_by_start(forbidden),
    ensures
        11 * encoder::patch_of(old, new, forbidden).len() <= 15 * new.len() + 66,
{
    lemma_plan_size(old, new, forbidden, 0, 0);
}

} // verus!
