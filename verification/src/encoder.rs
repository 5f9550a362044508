//! Delta opcode encoder.
//!
//! Takes two byte slices (`old` and `new` images) and produces a COPY/ADD opcode stream that,
//! when applied to `old`, reconstructs `new`.

use std::collections::HashMap;
use std::ops::Range;

use vstd::prelude::*;

use crate::format::{OP_ADD, OP_COPY, OP_END};
use crate::le;
use crate::report;

verus! {

/// Minimum match length (bytes).  Matches shorter than this are emitted as ADD because the
/// COPY overhead (9 bytes) would exceed the saving.
pub const MIN_MATCH_LEN: usize = 10;

/// Maximum number of hash-table candidates to evaluate per position.  Caps worst-case search
/// time on highly repetitive data.
pub const MAX_CANDIDATES: usize = 64;

/// Rolling hash window size.
pub const WINDOW_SIZE: usize = 16;

// ---------------------------------------------------------------------------
//  Forbidden ranges
// ---------------------------------------------------------------------------

/// Whether byte `i` lies in one of the ranges.
pub open spec fn covered(ranges: Seq<Range<usize>>, i: int) -> bool {
    exists|k: int| 0 <= k < ranges.len() && (#[trigger] ranges[k]).start <= i < ranges[k].end
}

/// Whether the ranges come in the order of their starts.
pub open spec fn sorted_by_start(ranges: Seq<Range<usize>>) -> bool {
    forall|i: int, j: int| 0 <= i <= j < ranges.len() ==> ranges[i].start <= ranges[j].start
}

/// How much of a match of `len` bytes at `offset` is left when it must stay out of
/// `forbidden`, ranges in the order of their starts: nothing if a range holds `offset`, else
/// what comes before the first range that starts behind `offset`.
pub open spec fn clipped(offset: nat, len: nat, forbidden: Seq<Range<usize>>) -> nat
    decreases forbidden.len(),
{
    if forbidden.len() == 0 {
        len
    } else if forbidden[0].start <= offset < forbidden[0].end {
        0
    } else if forbidden[0].start > offset {
        if forbidden[0].start - offset < len {
            (forbidden[0].start - offset) as nat
        } else {
            len
        }
    } else {
        clipped(offset, len, forbidden.drop_first())
    }
}

/// Largest match length starting at `old` offset `offset` that does not enter any
/// `forbidden` range.  Returns 0 if `offset` itself is forbidden.
fn clip_to_forbidden(offset: usize, len: usize, forbidden: &[Range<usize>]) -> (n: usize)
    ensures
        n == clipped(offset as nat, len as nat, forbidden@),
        n <= len,
{
    let mut i: usize = 0;
    assert(forbidden@.skip(0) =~= forbidden@);
    while i < forbidden.len()
        invariant
            i <= forbidden@.len(),
            clipped(offset as nat, len as nat, forbidden@) == clipped(
                offset as nat,
                len as nat,
                forbidden@.skip(i as int),
            ),
        decreases forbidden@.len() - i,
    {
        let ghost rest = forbidden@.skip(i as int);
        assert(rest[0] == forbidden@[i as int]);
        assert(rest.drop_first() =~= forbidden@.skip(i + 1));
        let start: usize = forbidden[i].start;
        let end: usize = forbidden[i].end;
        if start <= offset && offset < end {
            return 0;
        }
        if start > offset {
            // The first range ahead of `offset` is the binding one: stop before it.
            if start - offset < len {
                return start - offset;
            }
            return len;
        }
        i = i + 1;
    }
    assert(forbidden@.skip(i as int).len() == 0);
    len
}

/// A clipped match is the longest one that stays out of the forbidden ranges, when these come
/// in order and none is empty.
pub proof fn law_clipped_is_longest(offset: nat, len: nat, forbidden: Seq<Range<usize>>)
    requires
        sorted_by_start(forbidden),
        forall|k: int| 0 <= k < forbidden.len() ==> (#[trigger] forbidden[k]).start
            < forbidden[k].end,
    ensures
        clipped(offset, len, forbidden) <= len,
        forall|i: int|
            offset <= i < offset + clipped(offset, len, forbidden) ==> !covered(forbidden, i),
        clipped(offset, len, forbidden) < len ==> covered(
            forbidden,
            (offset + clipped(offset, len, forbidden)) as int,
        ),
    decreases forbidden.len(),
{
    lemma_clipped_avoids(offset, len, forbidden);
    if forbidden.len() > 0 {
        let rest = forbidden.drop_first();
        let first = forbidden[0];
        if !(first.start <= offset < first.end) && !(first.start > offset) {
            assert(forall|k: int| 0 <= k < rest.len() ==> rest[k] == forbidden[k + 1]);
            law_clipped_is_longest(offset, len, rest);
            let at = offset + clipped(offset, len, rest);
            if clipped(offset, len, rest) < len {
                let k = choose|k: int|
                    0 <= k < rest.len() && (#[trigger] rest[k]).start <= at < rest[k].end;
                assert(forbidden[k + 1].start <= at < forbidden[k + 1].end);
            }
        }
    }
}

/// A clipped match stays out of forbidden ranges that come in the order of their starts.
pub proof fn lemma_clipped_avoids(offset: nat, len: nat, forbidden: Seq<Range<usize>>)
    requires
        sorted_by_start(forbidden),
    ensures
        clipped(offset, len, forbidden) <= len,
        forall|i: int|
            offset <= i < offset + clipped(offset, len, forbidden) ==> !covered(forbidden, i),
    decreases forbidden.len(),
{
    if forbidden.len() > 0 {
        let rest = forbidden.drop_first();
        let first = forbidden[0];
        assert(forall|k: int| 0 <= k < rest.len() ==> rest[k] == forbidden[k + 1]);
        lemma_clipped_avoids(offset, len, rest);
        assert forall|i: int|
            offset <= i < offset + clipped(offset, len, forbidden) implies !covered(
            forbidden,
            i,
        ) by {
            if covered(forbidden, i) {
                let k = choose|k: int|
                    0 <= k < forbidden.len() && (#[trigger] forbidden[k]).start <= i
                        < forbidden[k].end;
                assert(first.start <= forbidden[k].start);
                if k > 0 {
                    assert(rest[k - 1] == forbidden[k]);
                    assert(covered(rest, i));
                }
            }
        }
    }
}

// ---------------------------------------------------------------------------
//  Candidate matches
// ---------------------------------------------------------------------------

/// The hash of a window: its bytes as the digits of a number in base 31, modulo 2^32.
pub open spec fn hash_of(window: Seq<u8>) -> u32
    decreases window.len(),
{
    if window.len() == 0 {
        0
    } else {
        ((31 * hash_of(window.drop_last()) + window.last()) % 0x1_0000_0000) as u32
    }
}

/// The hash of the window of `s` that starts at `i`.
pub open spec fn hash_at(s: Seq<u8>, i: int) -> u32 {
    hash_of(s.subrange(i, i + WINDOW_SIZE))
}

/// How many windows there are in an image of `len` bytes.
pub open spec fn window_count(len: nat) -> nat {
    if len < WINDOW_SIZE {
        0
    } else {
        (len - WINDOW_SIZE + 1) as nat
    }
}

/// The positions below `n`, in increasing order, at which a window of `old` has hash `h`.
pub open spec fn positions(old: Seq<u8>, h: u32, n: nat) -> Seq<usize>
    decreases n,
{
    if n == 0 {
        Seq::empty()
    } else if hash_at(old, n - 1) == h {
        positions(old, h, (n - 1) as nat).push((n - 1) as usize)
    } else {
        positions(old, h, (n - 1) as nat)
    }
}

/// The positions at which a match is looked for: the first [`MAX_CANDIDATES`] windows of `old`
/// with hash `h`.
pub open spec fn candidates(old: Seq<u8>, h: u32) -> Seq<usize> {
    let all = positions(old, h, window_count(old.len()));
    if all.len() <= MAX_CANDIDATES {
        all
    } else {
        all.take(MAX_CANDIDATES as int)
    }
}

/// How many bytes of `old[p..]` and `new[q..]` agree before the first difference or the end of
/// either.
pub open spec fn match_len(old: Seq<u8>, p: int, new: Seq<u8>, q: int) -> nat
    decreases new.len() - q,
{
    if p < old.len() && q < new.len() && old[p] == new[q] {
        1 + match_len(old, p + 1, new, q + 1)
    } else {
        0
    }
}

/// The length of the match at `old[p..]` for `new[pos..]` that stays out of `forbidden`.
pub open spec fn usable_len(
    old: Seq<u8>,
    new: Seq<u8>,
    forbidden: Seq<Range<usize>>,
    pos: nat,
    p: usize,
) -> nat {
    clipped(p as nat, match_len(old, p as int, new, pos as int), forbidden)
}

/// The first of the longest usable matches among `among`, as offset and length; `(0, 0)` if
/// none has a byte.
pub open spec fn best_match(
    old: Seq<u8>,
    new: Seq<u8>,
    forbidden: Seq<Range<usize>>,
    pos: nat,
    among: Seq<usize>,
) -> (usize, nat)
    decreases among.len(),
{
    if among.len() == 0 {
        (0, 0)
    } else {
        let best = best_match(old, new, forbidden, pos, among.drop_last());
        let len = usable_len(old, new, forbidden, pos, among.last());
        if len > best.1 {
            (among.last(), len)
        } else {
            best
        }
    }
}

/// Simple hash of a window.
fn window_hash(window: &[u8]) -> (h: u32)
    ensures
        h == hash_of(window@),
{
    let mut h: u32 = 0;
    let mut i: usize = 0;
    while i < window.len()
        invariant
            i <= window@.len(),
            h == hash_of(window@.take(i as int)),
        decreases window@.len() - i,
    {
        proof {
            let next = window@.take(i + 1);
            assert(next.drop_last() =~= window@.take(i as int));
            assert(next.last() == window@[i as int]);
        }
        h = h.wrapping_mul(31).wrapping_add(window[i] as u32);
        i = i + 1;
    }
    assert(window@.take(i as int) =~= window@);
    h
}

/// Count how many bytes match starting at `old[old_pos..]` and `new[new_pos..]`.
fn count_match(old: &[u8], old_pos: usize, new: &[u8], new_pos: usize) -> (len: usize)
    requires
        old_pos <= old@.len(),
        new_pos <= new@.len(),
    ensures
        len == match_len(old@, old_pos as int, new@, new_pos as int),
        old_pos + len <= old@.len(),
        new_pos + len <= new@.len(),
{
    let old_left: usize = old.len() - old_pos;
    let new_left: usize = new.len() - new_pos;
    let max: usize = if old_left < new_left {
        old_left
    } else {
        new_left
    };
    let mut len: usize = 0;
    while len < max && old[old_pos + len] == new[new_pos + len]
        invariant
            len <= max,
            old_pos + max <= old@.len(),
            new_pos + max <= new@.len(),
            old_pos + max == old@.len() || new_pos + max == new@.len(),
            old@.len() <= usize::MAX,
            new@.len() <= usize::MAX,
            match_len(old@, old_pos as int, new@, new_pos as int) == len + match_len(
                old@,
                old_pos + len,
                new@,
                new_pos + len,
            ),
        decreases max - len,
    {
        len = len + 1;
    }
    len
}

/// Build a hash table mapping `window_hash` to the list of positions in `old`.
fn build_hash_table(old: &[u8]) -> (table: HashMap<u32, Vec<usize>>)
    ensures
        table_of(table@, old@, window_count(old@.len())),
{
    let mut table: HashMap<u32, Vec<usize>> = HashMap::new();
    if old.len() < WINDOW_SIZE {
        return table;
    }
    let count: usize = old.len() - WINDOW_SIZE + 1;
    let mut i: usize = 0;
    while i < count
        invariant
            i <= count,
            count == window_count(old@.len()),
            WINDOW_SIZE <= old@.len() <= usize::MAX,
            table_of(table@, old@, i as nat),
        decreases count - i,
    {
        let window: &[u8] = vstd::slice::slice_subrange(old, i, i + WINDOW_SIZE);
        let hash: u32 = window_hash(window);
        let ghost before = table@;
        let entry = table.entry(hash).or_insert(Vec::new());
        entry.push(i);
        proof {
            assert(hash == hash_at(old@, i as int));
            assert forall|h: u32|
                #![trigger positions(old@, h, (i + 1) as nat)]
                (table@.contains_key(h) <==> positions(old@, h, (i + 1) as nat).len() > 0) && (
                table@.contains_key(h) ==> table@[h]@ == positions(old@, h, (i + 1) as nat)) by {
                assert(before.contains_key(h) <==> positions(old@, h, i as nat).len() > 0);
            }
        }
        i = i + 1;
    }
    table
}

/// Whether `table` maps every hash to the positions below `n` of the windows of `old` that
/// have it.
pub open spec fn table_of(table: Map<u32, Vec<usize>>, old: Seq<u8>, n: nat) -> bool {
    forall|h: u32|
        #![trigger positions(old, h, n)]
        (table.contains_key(h) <==> positions(old, h, n).len() > 0) && (table.contains_key(h)
            ==> table[h]@ == positions(old, h, n))
}

// ---------------------------------------------------------------------------
//  The plan of a patch
// ---------------------------------------------------------------------------

/// One opcode of an encoded patch, with the place in `new` that it stands for.
#[derive(Debug, Clone, Copy, PartialEq, Eq, Structural)]
pub enum EncodedOp {
    /// `old[src_offset..src_offset + len]` stands for `new[new_pos..new_pos + len]`.
    Copy { src_offset: usize, len: usize, new_pos: usize },
    /// `new[start..start + len]` is carried in the patch.
    Add { start: usize, len: usize },
}

/// The COPY chosen for `new[pos..]`, as offset and length: the first of the longest usable
/// matches among the candidates for the window at `pos`, provided that it has at least
/// [`MIN_MATCH_LEN`] bytes.
pub open spec fn chosen_copy(
    old: Seq<u8>,
    new: Seq<u8>,
    forbidden: Seq<Range<usize>>,
    pos: nat,
) -> Option<(usize, nat)> {
    if new.len() - pos < WINDOW_SIZE {
        None
    } else {
        let best = best_match(
            old,
            new,
            forbidden,
            pos,
            candidates(old, hash_at(new, pos as int)),
        );
        if best.1 >= MIN_MATCH_LEN {
            Some(best)
        } else {
            None
        }
    }
}

/// The ADD for `new[from..to]`, if there is anything to add.
pub open spec fn literal(from: nat, to: nat) -> Seq<EncodedOp> {
    if from < to {
        seq![EncodedOp::Add { start: from as usize, len: (to - from) as usize }]
    } else {
        Seq::empty()
    }
}

/// The opcodes that the encoder emits for `new[pos..]` when the bytes `new[lit..pos]` are
/// still to be added: a COPY wherever one is chosen, and the bytes between as ADDs.
pub open spec fn plan(
    old: Seq<u8>,
    new: Seq<u8>,
    forbidden: Seq<Range<usize>>,
    pos: nat,
    lit: nat,
) -> Seq<EncodedOp>
    decreases
            (if pos < new.len() {
                new.len() - pos
            } else {
                0
            }),
{
    if pos >= new.len() {
        literal(lit, pos)
    } else {
        match chosen_copy(old, new, forbidden, pos) {
            Some((src_offset, len)) => literal(lit, pos).push(
                EncodedOp::Copy { src_offset, len: len as usize, new_pos: pos as usize },
            ) + plan(old, new, forbidden, pos + len, pos + len),
            None => plan(old, new, forbidden, pos + 1, lit),
        }
    }
}

/// The wire bytes of one opcode.
pub open spec fn op_wire(op: EncodedOp, new: Seq<u8>) -> Seq<u8> {
    match op {
        EncodedOp::Copy { src_offset, len, .. } => seq![OP_COPY] + le::u32_bytes(
            src_offset as u32,
        ) + le::u32_bytes(len as u32),
        EncodedOp::Add { start, len } => seq![OP_ADD] + le::u32_bytes(len as u32)
            + new.subrange(start as int, start + len),
    }
}

/// The wire bytes of a run of opcodes.
pub open spec fn ops_wire(ops: Seq<EncodedOp>, new: Seq<u8>) -> Seq<u8>
    decreases ops.len(),
{
    if ops.len() == 0 {
        Seq::empty()
    } else {
        ops_wire(ops.drop_last(), new) + op_wire(ops.last(), new)
    }
}

/// The patch from `old` to `new` whose COPYs stay out of `forbidden`.
pub open spec fn patch_of(old: Seq<u8>, new: Seq<u8>, forbidden: Seq<Range<usize>>) -> Seq<u8> {
    ops_wire(plan(old, new, forbidden, 0, 0), new).push(OP_END)
}

// ---------------------------------------------------------------------------
//  The encoder
// ---------------------------------------------------------------------------

/// COPY : tag(1) + src_offset(4) + length(4) = 9 bytes.
fn emit_copy(output: &mut Vec<u8>, src_offset: u32, length: u32)
    ensures
        final(output)@ == old(output)@ + (seq![OP_COPY] + le::u32_bytes(src_offset)
            + le::u32_bytes(length)),
{
    output.push(OP_COPY);
    le::push_u32(output, src_offset);
    le::push_u32(output, length);
    assert(output@ =~= old(output)@ + (seq![OP_COPY] + le::u32_bytes(src_offset) + le::u32_bytes(
        length,
    )));
}

/// ADD : tag(1) + length(4) + data(N) = 5+N bytes.
fn emit_add(output: &mut Vec<u8>, data: &[u8])
    ensures
        final(output)@ == old(output)@ + (seq![OP_ADD] + le::u32_bytes(data@.len() as u32)
            + data@),
{
    output.push(OP_ADD);
    le::push_u32(output, data.len() as u32);
    output.extend_from_slice(data);
    assert(output@ =~= old(output)@ + (seq![OP_ADD] + le::u32_bytes(data@.len() as u32) + data@));
}

/// Flush the accumulated ADD bytes `new[lit..pos]` into the output stream.
fn flush_add(
    output: &mut Vec<u8>,
    ops: &mut Vec<EncodedOp>,
    new: &[u8],
    lit: usize,
    pos: usize,
)
    requires
        lit <= pos <= new@.len(),
        old(output)@ == ops_wire(old(ops)@, new@),
    ensures
        final(output)@ == ops_wire(final(ops)@, new@),
        final(ops)@ == old(ops)@ + literal(lit as nat, pos as nat),
{
    if lit == pos {
        assert(ops@ =~= old(ops)@ + literal(lit as nat, pos as nat));
        return ;
    }
    let data: &[u8] = vstd::slice::slice_subrange(new, lit, pos);
    emit_add(output, data);
    ops.push(EncodedOp::Add { start: lit, len: pos - lit });
    assert(ops@.drop_last() =~= old(ops)@);
    assert(ops@ =~= old(ops)@ + literal(lit as nat, pos as nat));
}

/// The COPY to emit for `new[pos..]`, found through the hash table of `old`.
fn find_copy(
    table: &HashMap<u32, Vec<usize>>,
    old: &[u8],
    new: &[u8],
    forbidden: &[Range<usize>],
    pos: usize,
) -> (found: Option<(usize, usize)>)
    requires
        table_of(table@, old@, window_count(old@.len())),
        pos < new@.len(),
    ensures
        match (found, chosen_copy(old@, new@, forbidden@, pos as nat)) {
            (Some((o, n)), Some((p, m))) => o == p && n == m && pos + n <= new@.len(),
            (None, None) => true,
            _ => false,
        },
{
    if new.len() - pos < WINDOW_SIZE {
        return None;
    }
    assert(old.len() == old@.len());
    let window: &[u8] = vstd::slice::slice_subrange(new, pos, pos + WINDOW_SIZE);
    let hash: u32 = window_hash(window);
    let ghost all = positions(old@, hash, window_count(old@.len()));
    let ghost among = candidates(old@, hash);
    match table.get(&hash) {
        None => {
            assert(among =~= Seq::<usize>::empty());
            None
        },
        Some(list) => {
            let count: usize = if list.len() <= MAX_CANDIDATES {
                list.len()
            } else {
                MAX_CANDIDATES
            };
            let mut best_offset: usize = 0;
            let mut best_len: usize = 0;
            let mut i: usize = 0;
            assert(among =~= list@.take(count as int));
            while i < count
                invariant
                    i <= count,
                    pos <= new@.len(),
                    count <= list@.len(),
                    old@.len() <= usize::MAX,
                    list@ == positions(old@, hash, window_count(old@.len())),
                    pos + best_len <= new@.len(),
                    (best_offset, best_len as nat) == best_match(
                        old@,
                        new@,
                        forbidden@,
                        pos as nat,
                        list@.take(i as int),
                    ),
                decreases count - i,
            {
                proof {
                    lemma_positions_below(old@, hash, window_count(old@.len()));
                    assert(list@.take(i + 1).drop_last() =~= list@.take(i as int));
                }
                let old_pos: usize = list[i];
                let raw_len: usize = count_match(old, old_pos, new, pos);
                // Never let a COPY source enter a forbidden range.
                let match_len: usize = clip_to_forbidden(old_pos, raw_len, forbidden);
                if match_len > best_len {
                    best_len = match_len;
                    best_offset = old_pos;
                }
                i = i + 1;
            }
            if best_len >= MIN_MATCH_LEN {
                Some((best_offset, best_len))
            } else {
                None
            }
        },
    }
}

/// Every listed position is below the bound, and its window has the hash.
pub proof fn lemma_positions_below(old: Seq<u8>, h: u32, n: nat)
    requires
        n <= usize::MAX,
    ensures
        forall|k: int|
            0 <= k < positions(old, h, n).len() ==> #[trigger] positions(old, h, n)[k] < n
                && hash_at(old, positions(old, h, n)[k] as int) == h,
    decreases n,
{
    if n > 0 {
        lemma_positions_below(old, h, (n - 1) as nat);
        let before = positions(old, h, (n - 1) as nat);
        assert forall|k: int| 0 <= k < positions(old, h, n).len() implies #[trigger] positions(
            old,
            h,
            n,
        )[k] < n && hash_at(old, positions(old, h, n)[k] as int) == h by {
            if k < before.len() {
                assert(positions(old, h, n)[k] == before[k]);
            }
        }
    }
}

/// Core encoder: the opcodes, and the patch that holds them.  `forbidden` clips COPY sources
/// (see [`encode_faithful`]); pass an empty slice for the unconstrained encoder.
fn encode_core(
    old: &[u8],
    new: &[u8],
    forbidden: &[Range<usize>],
    table: &HashMap<u32, Vec<usize>>,
) -> (r: (Vec<EncodedOp>, Vec<u8>))
    requires
        table_of(table@, old@, window_count(old@.len())),
    ensures
        r.0@ == plan(old@, new@, forbidden@, 0, 0),
        r.1@ == patch_of(old@, new@, forbidden@),
{
    let mut output: Vec<u8> = Vec::new();
    let mut ops: Vec<EncodedOp> = Vec::new();
    let mut pos: usize = 0;
    // `new[lit..pos]` is still to be added.
    let mut lit: usize = 0;
    assert(ops@ + plan(old@, new@, forbidden@, 0, 0) =~= plan(old@, new@, forbidden@, 0, 0));
    while pos < new.len()
        invariant
            lit <= pos <= new@.len(),
            table_of(table@, old@, window_count(old@.len())),
            output@ == ops_wire(ops@, new@),
            plan(old@, new@, forbidden@, 0, 0) == ops@ + plan(
                old@,
                new@,
                forbidden@,
                pos as nat,
                lit as nat,
            ),
        decreases new@.len() - pos,
    {
        match find_copy(table, old, new, forbidden, pos) {
            Some((offset, len)) => {
                let ghost before = ops@;
                flush_add(&mut output, &mut ops, new, lit, pos);
                emit_copy(&mut output, offset as u32, len as u32);
                ops.push(EncodedOp::Copy { src_offset: offset, len, new_pos: pos });
                proof {
                    let copy = EncodedOp::Copy { src_offset: offset, len, new_pos: pos };
                    let flushed = before + literal(lit as nat, pos as nat);
                    let tail = plan(
                        old@,
                        new@,
                        forbidden@,
                        (pos + len) as nat,
                        (pos + len) as nat,
                    );
                    assert(ops@.drop_last() =~= flushed);
                    assert(before + (literal(lit as nat, pos as nat).push(copy) + tail) =~= ops@
                        + tail);
                }
                pos = pos + len;
                lit = pos;
            },
            None => {
                pos = pos + 1;
            },
        }
    }
    flush_add(&mut output, &mut ops, new, lit, pos);
    output.push(OP_END);
    (ops, output)
}

/// Encode a delta opcode stream from `old` to `new`.
///
/// Returns the raw opcode bytes (COPY/ADD/END).  This is the patch payload that stands in a
/// delta image between the delta header and the trailer.
pub fn encode(old: &[u8], new: &[u8]) -> (patch: Vec<u8>)
    ensures
        patch@ == patch_of(old@, new@, Seq::empty()),
{
    let nothing: [Range<usize>; 0] = [];
    assert(nothing@ =~= Seq::<Range<usize>>::empty());
    encode_faithful(old, new, &nothing)
}

/// Relocation-aware encode: like [`encode`], but no emitted COPY source range ever overlaps a
/// byte in `forbidden`.
///
/// `forbidden` is a sorted, non-overlapping set of `old`-offset byte ranges that COPY must
/// never cover: on the device these are the relocation-site words (whose flash bytes are
/// post-relocation and differ from pristine `old`) and the 4-byte trailer.  Any `new` byte
/// that would otherwise have been reconstructed by copying a forbidden `old` byte is instead
/// emitted as an ADD literal carrying the pristine `new` byte, so reconstruction yields the
/// pristine pre-relocation `new` image.
pub fn encode_faithful(old: &[u8], new: &[u8], forbidden: &[Range<usize>]) -> (patch: Vec<u8>)
    ensures
        patch@ == patch_of(old@, new@, forbidden@),
{
    let table = build_hash_table(old);
    encode_core(old, new, forbidden, &table).1
}

// ---------------------------------------------------------------------------
//  Encoding with a record of what was done
// ---------------------------------------------------------------------------

/// One line of the hash table: a hash, and the positions of the windows that have it.
pub struct HashEntry {
    pub hash: u32,
    pub positions: Vec<usize>,
}

/// A patch with the record of how it came about.
pub struct EncodeReport {
    /// The hash table, in the order in which the hashes first occur in the old image; empty
    /// for an empty target, which needs no table.
    pub table: Vec<HashEntry>,
    /// The opcodes before END, in order.
    pub ops: Vec<EncodedOp>,
    /// The patch.
    pub patch: Vec<u8>,
    /// The report on all of it.
    pub text: String,
}

/// The positions below `n`, in increasing order, whose windows are the first with their hash.
pub open spec fn first_positions(old: Seq<u8>, n: nat) -> Seq<usize>
    decreases n,
{
    if n == 0 {
        Seq::empty()
    } else if positions(old, hash_at(old, n - 1), (n - 1) as nat).len() == 0 {
        first_positions(old, (n - 1) as nat).push((n - 1) as usize)
    } else {
        first_positions(old, (n - 1) as nat)
    }
}

/// Whether `e` is the line of the hash table of `old` for the window at `at`.
pub open spec fn is_entry(e: HashEntry, old: Seq<u8>, at: usize) -> bool {
    &&& e.hash == hash_at(old, at as int)
    &&& e.positions@ == positions(old, e.hash, window_count(old.len()))
}

/// Whether `entries` is the hash table of `old`, in the order in which the hashes first occur.
pub open spec fn lists_table(entries: Seq<HashEntry>, old: Seq<u8>) -> bool {
    let firsts = first_positions(old, window_count(old.len()));
    &&& entries.len() == firsts.len()
    &&& forall|k: int|
        0 <= k < firsts.len() ==> is_entry(#[trigger] entries[k], old, firsts[k])
}

/// Positions below a smaller bound come first among those below a larger one.
proof fn lemma_positions_prefix(old: Seq<u8>, h: u32, m: nat, n: nat)
    requires
        m <= n <= usize::MAX,
    ensures
        positions(old, h, m).len() <= positions(old, h, n).len(),
        positions(old, h, n).take(positions(old, h, m).len() as int) == positions(old, h, m),
        forall|k: int|
            positions(old, h, m).len() <= k < positions(old, h, n).len() ==> m <= #[trigger] positions(
                old,
                h,
                n,
            )[k],
    decreases n,
{
    let first = positions(old, h, m);
    let all = positions(old, h, n);
    if m < n {
        let before = positions(old, h, (n - 1) as nat);
        lemma_positions_prefix(old, h, m, (n - 1) as nat);
        assert(all.take(first.len() as int) =~= before.take(first.len() as int));
        assert forall|k: int| first.len() <= k < all.len() implies m <= #[trigger] all[k] by {
            if k < before.len() {
                assert(all[k] == before[k]);
            }
        }
    } else {
        assert(all.take(first.len() as int) =~= first);
    }
}

/// The lines of the hash table of `old`, ordered by first position.
fn table_entries(old: &[u8], table: &HashMap<u32, Vec<usize>>) -> (entries: Vec<HashEntry>)
    requires
        table_of(table@, old@, window_count(old@.len())),
    ensures
        lists_table(entries@, old@),
{
    let mut entries: Vec<HashEntry> = Vec::new();
    if old.len() < WINDOW_SIZE {
        return entries;
    }
    let count: usize = old.len() - WINDOW_SIZE + 1;
    let mut i: usize = 0;
    while i < count
        invariant
            i <= count,
            count == window_count(old@.len()),
            WINDOW_SIZE <= old@.len() <= usize::MAX,
            table_of(table@, old@, window_count(old@.len())),
            entries@.len() == first_positions(old@, i as nat).len(),
            forall|k: int|
                0 <= k < entries@.len() ==> is_entry(
                    #[trigger] entries@[k],
                    old@,
                    first_positions(old@, i as nat)[k],
                ),
        decreases count - i,
    {
        let window: &[u8] = vstd::slice::slice_subrange(old, i, i + WINDOW_SIZE);
        let hash: u32 = window_hash(window);
        let ghost earlier = positions(old@, hash, i as nat);
        let ghost all = positions(old@, hash, count as nat);
        let ghost firsts = first_positions(old@, i as nat);
        proof {
            assert(hash == hash_at(old@, i as int));
            lemma_positions_prefix(old@, hash, i as nat, count as nat);
            lemma_positions_prefix(old@, hash, (i + 1) as nat, count as nat);
            lemma_positions_below(old@, hash, i as nat);
            assert(positions(old@, hash, (i + 1) as nat) == earlier.push(i));
            assert(all.take((earlier.len() + 1) as int)[earlier.len() as int] == i);
            if earlier.len() > 0 {
                assert(all.take(earlier.len() as int)[0] == earlier[0]);
            }
        }
        match table.get(&hash) {
            Some(list) => {
                if list[0] == i {
                    let mut copy: Vec<usize> = Vec::new();
                    copy.extend_from_slice(list.as_slice());
                    assert(copy@ =~= list@);
                    let ghost before = entries@;
                    entries.push(HashEntry { hash, positions: copy });
                    proof {
                        let now = first_positions(old@, (i + 1) as nat);
                        assert(now == firsts.push(i));
                        assert forall|k: int| 0 <= k < entries@.len() implies is_entry(
                            #[trigger] entries@[k],
                            old@,
                            now[k],
                        ) by {
                            if k < before.len() {
                                assert(is_entry(before[k], old@, firsts[k]));
                            }
                        }
                    }
                }
            },
            None => {
                assert(false);
            },
        }
        i = i + 1;
    }
    entries
}

/// Same as [`encode`], but also gives the hash table and each emitted opcode, and a report of
/// them as text.
pub fn encode_to_report(old: &[u8], new: &[u8]) -> (report: EncodeReport)
    ensures
        report.patch@ == patch_of(old@, new@, Seq::empty()),
        report.ops@ == plan(old@, new@, Seq::empty(), 0, 0),
        new@.len() == 0 ==> report.table@.len() == 0,
        new@.len() > 0 ==> lists_table(report.table@, old@),
        report.text@ == report::encoder_text(old@, new@),
{
    let nothing: [Range<usize>; 0] = [];
    assert(nothing@ =~= Seq::<Range<usize>>::empty());
    let table = build_hash_table(old);
    let (ops, patch) = encode_core(old, new, &nothing, &table);
    let entries: Vec<HashEntry> = if new.len() == 0 {
        Vec::new()
    } else {
        table_entries(old, &table)
    };
    let text: String = report::encoder_text_of(old, new, &entries, &ops, patch.len());
    EncodeReport { table: entries, ops, patch, text }
}

// ---------------------------------------------------------------------------
//  Laws of the plan
// ---------------------------------------------------------------------------

/// No candidate has a longer usable match than the one chosen from among them, and none that
/// comes earlier has one as long.
pub proof fn law_best_match_is_first_longest(
    old: Seq<u8>,
    new: Seq<u8>,
    forbidden: Seq<Range<usize>>,
    pos: nat,
    among: Seq<usize>,
    k: int,
)
    requires
        0 <= k < among.len(),
    ensures
        ({
            let best = best_match(old, new, forbidden, pos, among);
            &&& usable_len(old, new, forbidden, pos, among[k]) <= best.1
            &&& best.1 > 0 ==> exists|j: int|
                0 <= j < among.len() && #[trigger] among[j] == best.0 && usable_len(
                    old,
                    new,
                    forbidden,
                    pos,
                    among[j],
                ) == best.1 && (k < j ==> usable_len(old, new, forbidden, pos, among[k])
                    < best.1)
        }),
    decreases among.len(),
{
    let last = among.len() - 1;
    let before = among.drop_last();
    let prev = best_match(old, new, forbidden, pos, before);
    let best = best_match(old, new, forbidden, pos, among);
    if before.len() > 0 {
        let at: int = if k < last {
            k
        } else {
            0
        };
        law_best_match_is_first_longest(old, new, forbidden, pos, before, at);
        assert(before[at] == among[at]);
        if prev.1 > 0 && best == prev {
            let j = choose|j: int|
                0 <= j < before.len() && #[trigger] before[j] == prev.0 && usable_len(
                    old,
                    new,
                    forbidden,
                    pos,
                    before[j],
                ) == prev.1 && (at < j ==> usable_len(old, new, forbidden, pos, before[at])
                    < prev.1);
            assert(among[j] == before[j]);
        }
    }
    if best != prev {
        assert(among[last] == best.0);
    }
}

/// A patch for an empty image is the END opcode alone.
pub proof fn law_empty_target(old: Seq<u8>, forbidden: Seq<Range<usize>>)
    ensures
        patch_of(old, Seq::empty(), forbidden) == seq![OP_END],
{
    assert(patch_of(old, Seq::empty(), forbidden) =~= seq![OP_END]);
}

} // verus!
