//! What the encoder makes of the matches it finds: nothing that could be copied is sent.
//!
//! A window of an image is a run of 16 bytes.  A place in the new image is looked up by the hash
//! of its window; of the places in the old image whose windows have that hash, the first 64 are
//! tried.

use std::ops::Range;

use vstd::arithmetic::power::{lemma_pow0, lemma_pow1, lemma_pow_adds, pow};
use vstd::prelude::*;

use crate::encoder;
use crate::encoder::EncodedOp;
use crate::le;
use crate::roundtrip;

verus! {

// ---------------------------------------------------------------------------
//  Windows
// ---------------------------------------------------------------------------

/// The number whose digits in base 31, highest first, are the bytes of a window.
pub open spec fn number_of(window: Seq<u8>) -> int
    decreases window.len(),
{
    if window.len() == 0 {
        0
    } else {
        window[0] * pow(31, (window.len() - 1) as nat) + number_of(window.drop_first())
    }
}

/// One more digit behind the others.
proof fn lemma_number_push(window: Seq<u8>, b: u8)
    ensures
        number_of(window.push(b)) == 31 * number_of(window) + b,
    decreases window.len(),
{
    let more = window.push(b);
    if window.len() == 0 {
        lemma_pow0(31);
        assert(more.drop_first() =~= window);
        assert(b * pow(31, 0) == b) by (nonlinear_arith)
            requires
                pow(31, 0) == 1,
        ;
    } else {
        let n = (window.len() - 1) as nat;
        lemma_number_push(window.drop_first(), b);
        assert(more.drop_first() =~= window.drop_first().push(b));
        lemma_pow1(31);
        lemma_pow_adds(31, n, 1);
        let first = window[0] as int;
        let low = pow(31, n);
        assert(first * (low * 31) == 31 * (first * low)) by (nonlinear_arith);
    }
}

/// The hash of a window is its number modulo 2^32.
pub proof fn law_hash_is_number(window: Seq<u8>)
    ensures
        encoder::hash_of(window) == number_of(window) % 0x1_0000_0000,
    decreases window.len(),
{
    if window.len() > 0 {
        let shorter = window.drop_last();
        law_hash_is_number(shorter);
        lemma_number_push(shorter, window.last());
        assert(shorter.push(window.last()) =~= window);
        let x = number_of(shorter);
        let b = window.last() as int;
        let m = 0x1_0000_0000int;
        let q = x / m;
        assert(x == m * q + x % m);
        assert(31 * x + b == m * (31 * q) + (31 * (x % m) + b));
        assert((31 * x + b) % m == (31 * (x % m) + b) % m) by {
            vstd::arithmetic::div_mod::lemma_mod_multiples_vanish(31 * q, 31 * (x % m) + b, m);
        }
    }
}

/// Whether the window of `old` at `q` has the hash of the window of `new` at `p`.
pub open spec fn same_hash(old: Seq<u8>, q: int, new: Seq<u8>, p: int) -> bool {
    &&& 0 <= q && q + 16 <= old.len()
    &&& 0 <= p && p + 16 <= new.len()
    &&& encoder::hash_of(old.subrange(q, q + 16)) == encoder::hash_of(new.subrange(p, p + 16))
}

/// How many windows of `old` before `q` have the hash of the window of `new` at `p`.
pub open spec fn tried_before(old: Seq<u8>, q: int, new: Seq<u8>, p: int) -> nat
    decreases q,
{
    if q <= 0 {
        0
    } else {
        tried_before(old, q - 1, new, p) + (if same_hash(old, q - 1, new, p) {
            1nat
        } else {
            0nat
        })
    }
}

/// Whether the encoder tries the match of `new[p..]` at `old[q..]`.
pub open spec fn is_tried(old: Seq<u8>, q: int, new: Seq<u8>, p: int) -> bool {
    same_hash(old, q, new, p) && tried_before(old, q, new, p) < 64
}

/// Whether `old[q..q + n]` may stand for `new[p..p + n]`: the bytes agree, and every forbidden
/// range ends before them or starts behind them.
pub open spec fn may_stand_for(
    old: Seq<u8>,
    q: int,
    new: Seq<u8>,
    p: int,
    n: int,
    forbidden: Seq<Range<usize>>,
) -> bool {
    &&& q + n <= old.len()
    &&& p + n <= new.len()
    &&& forall|i: int| 0 <= i < n ==> #[trigger] old[q + i] == new[p + i]
    &&& forall|k: int|
        n > 0 && 0 <= k < forbidden.len() ==> (#[trigger] forbidden[k]).end <= q || q + n
            <= forbidden[k].start
}

/// Whether forbidden ranges come in the order of their starts, and none ends before it starts.
pub open spec fn proper(forbidden: Seq<Range<usize>>) -> bool {
    &&& forall|j: int, k: int|
        0 <= j < k < forbidden.len() ==> forbidden[j].start <= forbidden[k].start
    &&& forall|k: int| 0 <= k < forbidden.len() ==> (#[trigger] forbidden[k]).start
        <= forbidden[k].end
}

/// The place of a window among those with its hash.
proof fn lemma_position(old: Seq<u8>, q: int, new: Seq<u8>, p: int, n: nat)
    requires
        same_hash(old, q, new, p),
        q < n <= encoder::window_count(old.len()),
        old.len() <= usize::MAX,
    ensures
        ({
            let all = encoder::positions(old, encoder::hash_at(new, p), n);
            let k = tried_before(old, q, new, p) as int;
            k < all.len() && all[k] == q
        }),
    decreases n,
{
    lemma_positions_len(old, new, p, (n - 1) as nat);
    if q < n - 1 {
        lemma_position(old, q, new, p, (n - 1) as nat);
    }
}

/// How many of the windows with a hash there are.
proof fn lemma_positions_len(old: Seq<u8>, new: Seq<u8>, p: int, n: nat)
    requires
        0 <= p,
        p + 16 <= new.len(),
        n <= encoder::window_count(old.len()),
    ensures
        encoder::positions(old, encoder::hash_at(new, p), n).len() == tried_before(
            old,
            n as int,
            new,
            p,
        ),
    decreases n,
{
    if n > 0 {
        lemma_positions_len(old, new, p, (n - 1) as nat);
    }
}

/// Every window listed has the hash, and as many before it as it has before it in the list.
proof fn lemma_listed(old: Seq<u8>, new: Seq<u8>, p: int, n: nat, k: int)
    requires
        0 <= p,
        p + 16 <= new.len(),
        n <= encoder::window_count(old.len()),
        old.len() <= usize::MAX,
        0 <= k < encoder::positions(old, encoder::hash_at(new, p), n).len(),
    ensures
        ({
            let q = encoder::positions(old, encoder::hash_at(new, p), n)[k] as int;
            same_hash(old, q, new, p) && tried_before(old, q, new, p) == k
        }),
    decreases n,
{
    let h = encoder::hash_at(new, p);
    let all = encoder::positions(old, h, n);
    if n > 0 {
        let before = encoder::positions(old, h, (n - 1) as nat);
        lemma_positions_len(old, new, p, (n - 1) as nat);
        if k < before.len() {
            lemma_listed(old, new, p, (n - 1) as nat, k);
            assert(all[k] == before[k]);
        }
    }
}

/// The windows that have a hash are listed, all of them and in order.
pub proof fn law_windows_are_listed(old: Seq<u8>, h: u32, n: nat, i: int)
    requires
        n <= usize::MAX,
    ensures
        ({
            let all = encoder::positions(old, h, n);
            &&& 0 <= i < n && encoder::hash_of(old.subrange(i, i + 16)) == h <==> exists|k: int|
                0 <= k < all.len() && #[trigger] all[k] == i
            &&& forall|j: int, k: int| 0 <= j < k < all.len() ==> all[j] < all[k]
        }),
    decreases n,
{
    let all = encoder::positions(old, h, n);
    encoder::lemma_positions_below(old, h, n);
    if n > 0 {
        let before = encoder::positions(old, h, (n - 1) as nat);
        encoder::lemma_positions_below(old, h, (n - 1) as nat);
        law_windows_are_listed(old, h, (n - 1) as nat, i);
        if 0 <= i < n && encoder::hash_of(old.subrange(i, i + 16)) == h {
            if i == n - 1 {
                assert(all[before.len() as int] == i);
            } else {
                let k = choose|k: int| 0 <= k < before.len() && #[trigger] before[k] == i;
                assert(all[k] == i);
            }
        }
        assert forall|j: int, k: int| 0 <= j < k < all.len() implies all[j] < all[k] by {
            if k < before.len() {
                assert(before[j] < before[k]);
            } else {
                assert(all[j] == before[j]);
            }
        }
    }
}

/// A match is as long as the bytes agree: it ends where they differ, or where an image ends.
pub proof fn law_match_is_maximal(old: Seq<u8>, q: int, new: Seq<u8>, p: int)
    requires
        0 <= q <= old.len(),
        0 <= p <= new.len(),
    ensures
        ({
            let n = encoder::match_len(old, q, new, p);
            &&& may_stand_for(old, q, new, p, n as int, Seq::empty())
            &&& q + n == old.len() || p + n == new.len() || old[q + n] != new[p + n]
        }),
    decreases new.len() - p,
{
    let n = encoder::match_len(old, q, new, p);
    if q < old.len() && p < new.len() && old[q] == new[p] {
        law_match_is_maximal(old, q + 1, new, p + 1);
        assert forall|i: int| 0 <= i < n implies #[trigger] old[q + i] == new[p + i] by {
            if i > 0 {
                assert(old[(q + 1) + (i - 1)] == new[(p + 1) + (i - 1)]);
            }
        }
    }
}

/// A part of a match stays clear of the forbidden ranges exactly if it is not longer than the
/// clipped match.
proof fn lemma_clear(q: nat, len: nat, n: int, forbidden: Seq<Range<usize>>)
    requires
        proper(forbidden),
        0 < n <= len,
    ensures
        n <= encoder::clipped(q, len, forbidden) <==> forall|k: int|
            0 <= k < forbidden.len() ==> (#[trigger] forbidden[k]).end <= q || q + n
                <= forbidden[k].start,
    decreases forbidden.len(),
{
    if forbidden.len() > 0 {
        let rest = forbidden.drop_first();
        let first = forbidden[0];
        assert(first.start <= first.end);
        if first.start > q {
            assert(forall|k: int|
                0 <= k < forbidden.len() ==> first.start <= (#[trigger] forbidden[k]).start);
        } else if first.end <= q {
            assert(forall|k: int| 0 <= k < rest.len() ==> #[trigger] rest[k] == forbidden[k + 1]);
            assert(forall|k: int| 0 < k < forbidden.len() ==> #[trigger] forbidden[k] == rest[k
                - 1]);
            lemma_clear(q, len, n, rest);
        }
    }
}

/// The usable part of a match is the longest part that may stand for the new bytes.
proof fn lemma_usable(
    old: Seq<u8>,
    q: usize,
    new: Seq<u8>,
    p: nat,
    n: int,
    forbidden: Seq<Range<usize>>,
)
    requires
        proper(forbidden),
        q <= old.len(),
        p <= new.len(),
        n >= 0,
    ensures
        may_stand_for(old, q as int, new, p as int, n, forbidden) <==> n <= encoder::usable_len(
            old,
            new,
            forbidden,
            p,
            q,
        ),
{
    let len = encoder::match_len(old, q as int, new, p as int);
    let usable = encoder::usable_len(old, new, forbidden, p, q);
    law_match_is_maximal(old, q as int, new, p as int);
    encoder::lemma_clipped_avoids(q as nat, len, forbidden);
    if 0 < n <= len {
        lemma_clear(q as nat, len, n, forbidden);
        assert(forall|i: int| 0 <= i < n ==> #[trigger] old[q + i] == new[p + i]);
    }
    if may_stand_for(old, q as int, new, p as int, n, forbidden) && n > len {
        assert(old[q + len as int] == new[p + len as int]);
    }
}

// ---------------------------------------------------------------------------
//  The plan
// ---------------------------------------------------------------------------

/// Whether an opcode of a plan for `new[lit..]` is where a COPY is chosen, or stands for bytes
/// for none of which one is.
spec fn is_planned(
    op: EncodedOp,
    old: Seq<u8>,
    new: Seq<u8>,
    forbidden: Seq<Range<usize>>,
    lit: nat,
) -> bool {
    match op {
        EncodedOp::Copy { src_offset, len, new_pos } => encoder::chosen_copy(
            old,
            new,
            forbidden,
            new_pos as nat,
        ) == Some((src_offset, len as nat)) && lit <= new_pos && new_pos + len <= new.len(),
        EncodedOp::Add { start, len } => {
            &&& lit <= start
            &&& 0 < len
            &&& start + len <= new.len()
            &&& forall|p: nat|
                start <= p < start + len ==> #[trigger] encoder::chosen_copy(
                    old,
                    new,
                    forbidden,
                    p,
                ) is None
        },
    }
}

proof fn lemma_planned(
    old: Seq<u8>,
    new: Seq<u8>,
    forbidden: Seq<Range<usize>>,
    pos: nat,
    lit: nat,
)
    requires
        old.len() <= usize::MAX,
        new.len() <= usize::MAX,
        lit <= pos <= new.len(),
        encoder::sorted_by_start(forbidden),
        forall|p: nat|
            lit <= p < pos ==> #[trigger] encoder::chosen_copy(old, new, forbidden, p) is None,
    ensures
        forall|k: int|
            0 <= k < encoder::plan(old, new, forbidden, pos, lit).len() ==> is_planned(
                #[trigger] encoder::plan(old, new, forbidden, pos, lit)[k],
                old,
                new,
                forbidden,
                lit,
            ),
    decreases new.len() - pos,
{
    let ops = encoder::plan(old, new, forbidden, pos, lit);
    let lead = encoder::literal(lit, pos);
    if pos >= new.len() {
        assert(ops == lead);
    } else {
        match encoder::chosen_copy(old, new, forbidden, pos) {
            None => {
                lemma_planned(old, new, forbidden, pos + 1, lit);
                assert(ops == encoder::plan(old, new, forbidden, pos + 1, lit));
            },
            Some((src_offset, len)) => {
                roundtrip::lemma_chosen_copy(old, new, forbidden, pos);
                let next = pos + len;
                let tail = encoder::plan(old, new, forbidden, next, next);
                lemma_planned(old, new, forbidden, next, next);
                assert forall|k: int| 0 <= k < ops.len() implies is_planned(
                    #[trigger] ops[k],
                    old,
                    new,
                    forbidden,
                    lit,
                ) by {
                    if k > lead.len() {
                        assert(ops[k] == tail[k - lead.len() - 1]);
                        assert(is_planned(
                            tail[k - lead.len() - 1],
                            old,
                            new,
                            forbidden,
                            next,
                        ));
                    } else if k < lead.len() {
                        assert(ops[k] == lead[k]);
                    }
                }
            },
        }
    }
}

/// Matches are used: where the plan sends a byte although a whole window of the new image is
/// left, none of the places that are tried holds ten bytes that may stand for those from there
/// on.
pub proof fn law_matches_are_used(
    old: Seq<u8>,
    new: Seq<u8>,
    forbidden: Seq<Range<usize>>,
    k: int,
    p: int,
    q: int,
)
    requires
        old.len() <= usize::MAX,
        new.len() <= usize::MAX,
        proper(forbidden),
        0 <= k < encoder::plan(old, new, forbidden, 0, 0).len(),
        encoder::plan(old, new, forbidden, 0, 0)[k] matches EncodedOp::Add { start, len } && start
            <= p < start + len,
        is_tried(old, q, new, p),
    ensures
        !may_stand_for(old, q, new, p, 10, forbidden),
{
    lemma_planned(old, new, forbidden, 0, 0);
    let op = encoder::plan(old, new, forbidden, 0, 0)[k];
    assert(is_planned(op, old, new, forbidden, 0));
    assert(encoder::chosen_copy(old, new, forbidden, p as nat) is None);
    lemma_tried(old, new, p, q);
    let among = encoder::candidates(old, encoder::hash_at(new, p));
    let j = tried_before(old, q, new, p) as int;
    encoder::law_best_match_is_first_longest(old, new, forbidden, p as nat, among, j);
    lemma_usable(old, q as usize, new, p as nat, 10, forbidden);
}

/// What is tried is among the candidates.
proof fn lemma_tried(old: Seq<u8>, new: Seq<u8>, p: int, q: int)
    requires
        old.len() <= usize::MAX,
        new.len() <= usize::MAX,
        is_tried(old, q, new, p),
    ensures
        ({
            let among = encoder::candidates(old, encoder::hash_at(new, p));
            let j = tried_before(old, q, new, p) as int;
            j < among.len() && among[j] == q
        }),
{
    lemma_position(old, q, new, p, encoder::window_count(old.len()));
}

/// COPYs are the best: each stands for at least ten bytes, which agree with the old image and are
/// not forbidden; it comes from a place that is tried; no place that is tried holds one byte more,
/// and none before it holds as many.
pub proof fn law_copies_are_best(
    old: Seq<u8>,
    new: Seq<u8>,
    forbidden: Seq<Range<usize>>,
    k: int,
    q: int,
)
    requires
        old.len() <= usize::MAX,
        new.len() <= usize::MAX,
        proper(forbidden),
        0 <= k < encoder::plan(old, new, forbidden, 0, 0).len(),
    ensures
        encoder::plan(old, new, forbidden, 0, 0)[k] matches EncodedOp::Copy {
            src_offset,
            len,
            new_pos,
        } ==> {
            &&& len >= 10
            &&& is_tried(old, src_offset as int, new, new_pos as int)
            &&& may_stand_for(
                old,
                src_offset as int,
                new,
                new_pos as int,
                len as int,
                forbidden,
            )
            &&& is_tried(old, q, new, new_pos as int) ==> {
                &&& !may_stand_for(old, q, new, new_pos as int, len + 1, forbidden)
                &&& q < src_offset ==> !may_stand_for(
                    old,
                    q,
                    new,
                    new_pos as int,
                    len as int,
                    forbidden,
                )
            }
        },
{
    lemma_planned(old, new, forbidden, 0, 0);
    let op = encoder::plan(old, new, forbidden, 0, 0)[k];
    assert(is_planned(op, old, new, forbidden, 0));
    if let EncodedOp::Copy { src_offset, len, new_pos } = op {
        let p = new_pos as int;
        let count = encoder::window_count(old.len());
        let h = encoder::hash_at(new, p);
        let among = encoder::candidates(old, h);
        let all = encoder::positions(old, h, count);
        roundtrip::lemma_best_is_candidate(old, new, forbidden, new_pos as nat, among);
        let at = among.index_of(src_offset);
        assert(all[at] == src_offset);
        lemma_listed(old, new, p, count, at);
        lemma_usable(old, src_offset, new, new_pos as nat, len as int, forbidden);
        if is_tried(old, q, new, p) {
            lemma_tried(old, new, p, q);
            let j = tried_before(old, q, new, p) as int;
            encoder::law_best_match_is_first_longest(
                old,
                new,
                forbidden,
                new_pos as nat,
                among,
                j,
            );
            lemma_usable(old, q as usize, new, new_pos as nat, len + 1, forbidden);
            lemma_usable(old, q as usize, new, new_pos as nat, len as int, forbidden);
            if q < src_offset {
                let i = choose|i: int|
                    0 <= i < among.len() && #[trigger] among[i] == src_offset
                        && encoder::usable_len(
                        old,
                        new,
                        forbidden,
                        new_pos as nat,
                        among[i],
                    ) == len && (j < i ==> encoder::usable_len(
                        old,
                        new,
                        forbidden,
                        new_pos as nat,
                        among[j],
                    ) < len);
                assert(all[i] == src_offset && all[j] == q);
                law_windows_are_listed(old, h, count, q);
                if i <= j {
                    assert(all[i] <= all[j]);
                }
            }
        }
    }
}

/// The opcodes of a plan stand for the new image from its first byte to its last: each takes up
/// where the one before it ends, none stands for nothing, and no two ADDs follow each other.
pub proof fn law_plan_tiles_the_image(
    old: Seq<u8>,
    new: Seq<u8>,
    forbidden: Seq<Range<usize>>,
    k: int,
)
    requires
        old.len() <= usize::MAX,
        new.len() <= usize::MAX,
        encoder::sorted_by_start(forbidden),
    ensures
        ({
            let ops = encoder::plan(old, new, forbidden, 0, 0);
            &&& ops.len() == 0 <==> new.len() == 0
            &&& ops.len() > 0 ==> place_of(ops[0]) == 0 && end_of(ops.last()) == new.len()
            &&& 0 <= k < ops.len() ==> place_of(ops[k]) < end_of(ops[k])
            &&& 0 < k < ops.len() ==> place_of(ops[k]) == end_of(ops[k - 1]) && !(ops[k] is Add
                && ops[k - 1] is Add)
        }),
{
    lemma_tiles(old, new, forbidden, 0, 0);
}

/// Where in the new image the bytes stand that an opcode stands for.
pub open spec fn place_of(op: EncodedOp) -> int {
    match op {
        EncodedOp::Copy { new_pos, .. } => new_pos as int,
        EncodedOp::Add { start, .. } => start as int,
    }
}

/// Where in the new image the bytes end that an opcode stands for.
pub open spec fn end_of(op: EncodedOp) -> int {
    match op {
        EncodedOp::Copy { new_pos, len, .. } => new_pos + len,
        EncodedOp::Add { start, len } => start + len,
    }
}

proof fn lemma_tiles(
    old: Seq<u8>,
    new: Seq<u8>,
    forbidden: Seq<Range<usize>>,
    pos: nat,
    lit: nat,
)
    requires
        old.len() <= usize::MAX,
        new.len() <= usize::MAX,
        lit <= pos <= new.len(),
        encoder::sorted_by_start(forbidden),
    ensures
        ({
            let ops = encoder::plan(old, new, forbidden, pos, lit);
            &&& ops.len() == 0 <==> lit == new.len()
            &&& ops.len() > 0 ==> place_of(ops[0]) == lit && end_of(ops.last()) == new.len()
            &&& ops.len() > 0 && lit < pos ==> ops[0] is Add
            &&& forall|k: int| 0 <= k < ops.len() ==> place_of(#[trigger] ops[k]) < end_of(ops[k])
            &&& forall|k: int|
                0 < k < ops.len() ==> place_of(#[trigger] ops[k]) == end_of(ops[k - 1]) && !(ops[k]
                    is Add && ops[k - 1] is Add)
        }),
    decreases new.len() - pos,
{
    let ops = encoder::plan(old, new, forbidden, pos, lit);
    let lead = encoder::literal(lit, pos);
    if pos < new.len() {
        match encoder::chosen_copy(old, new, forbidden, pos) {
            None => {
                lemma_tiles(old, new, forbidden, pos + 1, lit);
            },
            Some((src_offset, len)) => {
                roundtrip::lemma_chosen_copy(old, new, forbidden, pos);
                let next = pos + len;
                let tail = encoder::plan(old, new, forbidden, next, next);
                lemma_tiles(old, new, forbidden, next, next);
                let n = lead.len() as int;
                assert(ops[n] == (EncodedOp::Copy {
                    src_offset,
                    len: len as usize,
                    new_pos: pos as usize,
                }));
                assert(forall|k: int| n < k < ops.len() ==> #[trigger] ops[k] == tail[k - n - 1]);
                assert(forall|k: int| 0 <= k < n ==> #[trigger] ops[k] == lead[k]);
                assert forall|k: int| 0 < k < ops.len() implies place_of(#[trigger] ops[k])
                    == end_of(ops[k - 1]) && !(ops[k] is Add && ops[k - 1] is Add) by {
                    if k > n + 1 {
                        assert(ops[k - 1] == tail[k - n - 2]);
                        assert(tail[k - n - 1] == ops[k]);
                    }
                }
            },
        }
    }
}

/// An image that has not changed is one COPY of the whole and END, however large it is.
pub proof fn law_unchanged_image_is_one_copy(old: Seq<u8>)
    requires
        16 <= old.len() <= usize::MAX,
    ensures
        encoder::patch_of(old, old, Seq::empty()) == seq![1u8] + le::u32_bytes(0) + le::u32_bytes(
            old.len() as u32,
        ) + seq![3u8],
{
    let nothing = Seq::<Range<usize>>::empty();
    lemma_common_start(old, Seq::empty());
    assert(old + Seq::<u8>::empty() =~= old);
    let n = old.len();
    let copy = EncodedOp::Copy { src_offset: 0, len: n as usize, new_pos: 0 };
    assert(encoder::plan(old, old, nothing, n, n) =~= Seq::<EncodedOp>::empty());
    let ops = encoder::plan(old, old, nothing, 0, 0);
    assert(ops =~= seq![copy]);
    assert(ops.drop_last() =~= Seq::<EncodedOp>::empty());
    assert(encoder::ops_wire(ops.drop_last(), old) =~= Seq::<u8>::empty());
    assert(encoder::ops_wire(ops, old) =~= encoder::op_wire(copy, old));
    assert(encoder::patch_of(old, old, nothing) =~= seq![1u8] + le::u32_bytes(0) + le::u32_bytes(
        old.len() as u32,
    ) + seq![3u8]);
}

/// Where the new image starts with the old one, all of it is copied at once.
proof fn lemma_common_start(old: Seq<u8>, more: Seq<u8>)
    requires
        16 <= old.len() <= usize::MAX,
        (old + more).len() <= usize::MAX,
    ensures
        encoder::chosen_copy(old, old + more, Seq::empty(), 0) == Some((0usize, old.len())),
{
    let new = old + more;
    let nothing = Seq::<Range<usize>>::empty();
    assert(old.subrange(0, 16) =~= new.subrange(0, 16));
    let among = encoder::candidates(old, encoder::hash_at(new, 0));
    lemma_tried(old, new, 0, 0);
    assert(tried_before(old, 0, new, 0) == 0);
    law_match_is_maximal(old, 0, new, 0);
    let len = encoder::match_len(old, 0, new, 0);
    assert(len == old.len()) by {
        if len < old.len() {
            assert(old[0 + len as int] == new[0 + len as int]);
        }
    }
    encoder::law_best_match_is_first_longest(old, new, nothing, 0, among, 0);
    roundtrip::lemma_best_is_candidate(old, new, nothing, 0, among);
    let best = encoder::best_match(old, new, nothing, 0, among);
    let all = encoder::positions(
        old,
        encoder::hash_at(new, 0),
        encoder::window_count(old.len()),
    );
    encoder::lemma_positions_below(
        old,
        encoder::hash_at(new, 0),
        encoder::window_count(old.len()),
    );
    let j = among.index_of(best.0);
    assert(all[j] == best.0);
    law_match_is_maximal(old, best.0 as int, new, 0);
    assert(best.0 == 0);
}

/// Only what is new is sent: the patch to an image with something put behind the old one grows
/// with what is put there, and not with the old image.
pub proof fn law_only_what_is_new_is_sent(old: Seq<u8>, more: Seq<u8>)
    requires
        16 <= old.len() <= usize::MAX,
        (old + more).len() <= usize::MAX,
    ensures
        11 * encoder::patch_of(old, old + more, Seq::empty()).len() <= 15 * more.len() + 165,
{
    let nothing = Seq::<Range<usize>>::empty();
    let new = old + more;
    let n = old.len();
    lemma_common_start(old, more);
    let copy = EncodedOp::Copy { src_offset: 0, len: n as usize, new_pos: 0 };
    let tail = encoder::plan(old, new, nothing, n, n);
    let ops = encoder::plan(old, new, nothing, 0, 0);
    assert(ops =~= seq![copy] + tail);
    assert(ops.drop_first() =~= tail);
    roundtrip::lemma_wire_front(ops, new);
    roundtrip::lemma_plan_size(old, new, nothing, n, n);
}

} // verus!
