//! Sets of byte offsets as lists of ranges.

use std::ops::Range;

use vstd::prelude::*;

use crate::encoder;

verus! {

// ---------------------------------------------------------------------------
//  The normal form of a list of ranges
// ---------------------------------------------------------------------------

/// `sorted` with `r` put behind every range that does not start after it.
pub open spec fn insert_by_start(sorted: Seq<Range<usize>>, r: Range<usize>) -> Seq<Range<usize>>
    decreases sorted.len(),
{
    if sorted.len() == 0 || sorted.last().start <= r.start {
        sorted.push(r)
    } else {
        insert_by_start(sorted.drop_last(), r).push(sorted.last())
    }
}

/// The ranges in the order of their starts; ranges with one start keep their order.
pub open spec fn sort_by_start(ranges: Seq<Range<usize>>) -> Seq<Range<usize>>
    decreases ranges.len(),
{
    if ranges.len() == 0 {
        ranges
    } else {
        insert_by_start(sort_by_start(ranges.drop_last()), ranges.last())
    }
}

/// The larger of two offsets.
pub open spec fn larger(a: usize, b: usize) -> usize {
    if a < b {
        b
    } else {
        a
    }
}

/// The ranges with each one that starts within or right behind its predecessor merged into it.
pub open spec fn merge_touching(sorted: Seq<Range<usize>>) -> Seq<Range<usize>>
    decreases sorted.len(),
{
    if sorted.len() == 0 {
        sorted
    } else {
        let merged = merge_touching(sorted.drop_last());
        let r = sorted.last();
        if merged.len() > 0 && r.start <= merged.last().end {
            merged.drop_last().push(
                Range { start: merged.last().start, end: larger(merged.last().end, r.end) },
            )
        } else {
            merged.push(r)
        }
    }
}

/// The normal form of a list of ranges: sorted, and merged where ranges touch.
pub open spec fn normal_form(ranges: Seq<Range<usize>>) -> Seq<Range<usize>> {
    merge_touching(sort_by_start(ranges))
}

/// Whether every range is well-formed and ends within `len` bytes.
pub open spec fn within(ranges: Seq<Range<usize>>, len: nat) -> bool {
    forall|k: int|
        0 <= k < ranges.len() ==> (#[trigger] ranges[k]).start <= ranges[k].end <= len
}

/// Whether there is a gap between each range and the next.
pub open spec fn separated(ranges: Seq<Range<usize>>) -> bool {
    forall|i: int, j: int|
        0 <= i < j < ranges.len() ==> (#[trigger] ranges[i]).end < (#[trigger] ranges[j]).start
}

/// The first range that reaches past `len` bytes.
pub open spec fn first_past(ranges: Seq<Range<usize>>, len: nat) -> Option<Range<usize>>
    decreases ranges.len(),
{
    if ranges.len() == 0 {
        None
    } else if ranges[0].end > len {
        Some(ranges[0])
    } else {
        first_past(ranges.drop_first(), len)
    }
}

/// Where no range reaches past the end, every well-formed range lies within.
pub proof fn lemma_none_past(ranges: Seq<Range<usize>>, len: nat)
    requires
        first_past(ranges, len) is None,
        forall|k: int| 0 <= k < ranges.len() ==> (#[trigger] ranges[k]).start <= ranges[k].end,
    ensures
        within(ranges, len),
    decreases ranges.len(),
{
    if ranges.len() > 0 {
        let rest = ranges.drop_first();
        assert(forall|k: int| 0 <= k < rest.len() ==> #[trigger] rest[k] == ranges[k + 1]);
        lemma_none_past(rest, len);
        assert forall|k: int| 0 <= k < ranges.len() implies (#[trigger] ranges[k]).start
            <= ranges[k].end <= len by {
            if k > 0 {
                assert(rest[k - 1] == ranges[k]);
            }
        }
    }
}

/// A range that reaches past the end of the image it is meant for.
#[derive(Debug, Clone, Copy, PartialEq, Eq, Structural)]
pub struct OutOfBounds {
    pub start: usize,
    pub end: usize,
    pub len: usize,
}

fn copy_of(r: &Range<usize>) -> (c: Range<usize>)
    ensures
        c == *r,
{
    Range { start: r.start, end: r.end }
}

/// Sort, validate, and merge any touching or overlapping ranges so the encoder receives a
/// clean sorted non-overlapping set.
pub fn normalize_ranges(ranges: Vec<Range<usize>>, len: usize) -> (r: Result<
    Vec<Range<usize>>,
    OutOfBounds,
>)
    ensures
        match first_past(ranges@, len as nat) {
            Some(past) => r == Err::<Vec<Range<usize>>, OutOfBounds>(
                OutOfBounds { start: past.start, end: past.end, len },
            ),
            None => r matches Ok(v) && v@ == normal_form(ranges@),
        },
{
    let mut i: usize = 0;
    assert(ranges@.skip(0) =~= ranges@);
    while i < ranges.len()
        invariant
            i <= ranges@.len(),
            first_past(ranges@, len as nat) == first_past(ranges@.skip(i as int), len as nat),
        decreases ranges@.len() - i,
    {
        assert(ranges@.skip(i as int).drop_first() =~= ranges@.skip(i + 1));
        if ranges[i].end > len {
            return Err(OutOfBounds { start: ranges[i].start, end: ranges[i].end, len });
        }
        i = i + 1;
    }
    assert(ranges@.skip(i as int).len() == 0);
    let mut sorted: Vec<Range<usize>> = Vec::new();
    let mut i: usize = 0;
    while i < ranges.len()
        invariant
            i <= ranges@.len(),
            sorted@ == sort_by_start(ranges@.take(i as int)),
            sorted@.len() == i,
        decreases ranges@.len() - i,
    {
        let mut at: usize = sorted.len();
        let r: Range<usize> = copy_of(&ranges[i]);
        assert(sorted@.take(at as int) =~= sorted@);
        assert(insert_by_start(sorted@, r) + sorted@.skip(at as int) =~= insert_by_start(
            sorted@,
            r,
        ));
        while at > 0 && sorted[at - 1].start > r.start
            invariant
                at <= sorted@.len(),
                insert_by_start(sorted@, r) == insert_by_start(sorted@.take(at as int), r)
                    + sorted@.skip(at as int),
            decreases at,
        {
            proof {
                let head = sorted@.take(at as int);
                assert(head.drop_last() =~= sorted@.take(at - 1));
                assert(insert_by_start(head, r) + sorted@.skip(at as int) =~= insert_by_start(
                    head.drop_last(),
                    r,
                ) + sorted@.skip(at - 1));
            }
            at = at - 1;
        }
        proof {
            let head = sorted@.take(at as int);
            assert(insert_by_start(head, r) == head.push(r));
            assert(head.push(r) + sorted@.skip(at as int) =~= sorted@.insert(at as int, r));
            assert(ranges@.take(i + 1).drop_last() =~= ranges@.take(i as int));
        }
        sorted.insert(at, r);
        i = i + 1;
    }
    assert(ranges@.take(i as int) =~= ranges@);
    let mut merged: Vec<Range<usize>> = Vec::new();
    let mut i: usize = 0;
    while i < sorted.len()
        invariant
            i <= sorted@.len(),
            merged@ == merge_touching(sorted@.take(i as int)),
        decreases sorted@.len() - i,
    {
        assert(sorted@.take(i + 1).drop_last() =~= sorted@.take(i as int));
        let r: Range<usize> = copy_of(&sorted[i]);
        let count: usize = merged.len();
        if count > 0 && r.start <= merged[count - 1].end {
            let last: Range<usize> = copy_of(&merged[count - 1]);
            let end: usize = if last.end < r.end {
                r.end
            } else {
                last.end
            };
            let ghost before = merged@;
            merged.set(count - 1, Range { start: last.start, end });
            assert(merged@ =~= before.drop_last().push(Range { start: last.start, end }));
        } else {
            merged.push(r);
        }
        i = i + 1;
    }
    assert(sorted@.take(i as int) =~= sorted@);
    Ok(merged)
}

// ---------------------------------------------------------------------------
//  Laws
// ---------------------------------------------------------------------------

/// Whether `r` holds offset `i`.
pub open spec fn holds(r: Range<usize>, i: int) -> bool {
    r.start <= i < r.end
}

/// One more range covers what it holds, and nothing else is gained or lost.
pub proof fn lemma_covered_push(ranges: Seq<Range<usize>>, r: Range<usize>, i: int)
    ensures
        encoder::covered(ranges.push(r), i) <==> encoder::covered(ranges, i) || holds(r, i),
{
    let more = ranges.push(r);
    if encoder::covered(ranges, i) {
        let k = choose|k: int|
            0 <= k < ranges.len() && (#[trigger] ranges[k]).start <= i < ranges[k].end;
        assert(more[k] == ranges[k]);
    }
    if holds(r, i) {
        assert(more[ranges.len() as int] == r);
    }
    if encoder::covered(more, i) {
        let k = choose|k: int| 0 <= k < more.len() && (#[trigger] more[k]).start <= i < more[k].end;
        if k < ranges.len() {
            assert(ranges[k] == more[k]);
        }
    }
}

/// A non-empty list covers what its last range holds and what the others cover.
proof fn lemma_covered_last(ranges: Seq<Range<usize>>, i: int)
    requires
        ranges.len() > 0,
    ensures
        encoder::covered(ranges, i) <==> encoder::covered(ranges.drop_last(), i) || holds(
            ranges.last(),
            i,
        ),
{
    lemma_covered_push(ranges.drop_last(), ranges.last(), i);
    assert(ranges.drop_last().push(ranges.last()) =~= ranges);
}

proof fn lemma_insert(sorted: Seq<Range<usize>>, r: Range<usize>, len: nat)
    requires
        encoder::sorted_by_start(sorted),
        within(sorted, len),
        r.start <= r.end <= len,
    ensures
        encoder::sorted_by_start(insert_by_start(sorted, r)),
        within(insert_by_start(sorted, r), len),
        insert_by_start(sorted, r).len() == sorted.len() + 1,
        insert_by_start(sorted, r).last().start == larger(
            if sorted.len() == 0 {
                0
            } else {
                sorted.last().start
            },
            r.start,
        ),
        forall|i: int| #[trigger]
            encoder::covered(insert_by_start(sorted, r), i) <==> encoder::covered(sorted, i)
                || holds(r, i),
    decreases sorted.len(),
{
    let out = insert_by_start(sorted, r);
    if sorted.len() == 0 || sorted.last().start <= r.start {
        assert forall|i: int| #[trigger]
            encoder::covered(out, i) <==> encoder::covered(sorted, i) || holds(r, i) by {
            lemma_covered_push(sorted, r, i);
        }
    } else {
        let shorter = sorted.drop_last();
        lemma_insert(shorter, r, len);
        let head = insert_by_start(shorter, r);
        assert(head.last().start <= sorted.last().start);
        assert forall|i: int| #[trigger]
            encoder::covered(out, i) <==> encoder::covered(sorted, i) || holds(r, i) by {
            lemma_covered_push(head, sorted.last(), i);
            lemma_covered_last(sorted, i);
            assert(encoder::covered(head, i) <==> encoder::covered(shorter, i) || holds(r, i));
        }
        assert forall|i: int, j: int| 0 <= i <= j < out.len() implies out[i].start
            <= out[j].start by {
            if i < head.len() {
                assert(head[i].start <= head[head.len() - 1].start);
            }
        }
    }
}

proof fn lemma_sort(ranges: Seq<Range<usize>>, len: nat)
    requires
        within(ranges, len),
    ensures
        encoder::sorted_by_start(sort_by_start(ranges)),
        within(sort_by_start(ranges), len),
        forall|i: int| #[trigger]
            encoder::covered(sort_by_start(ranges), i) <==> encoder::covered(ranges, i),
    decreases ranges.len(),
{
    if ranges.len() > 0 {
        let shorter = ranges.drop_last();
        lemma_sort(shorter, len);
        lemma_insert(sort_by_start(shorter), ranges.last(), len);
        assert forall|i: int| #[trigger]
            encoder::covered(sort_by_start(ranges), i) <==> encoder::covered(ranges, i) by {
            lemma_covered_last(ranges, i);
            assert(encoder::covered(sort_by_start(shorter), i) <==> encoder::covered(shorter, i));
        }
    }
}

proof fn lemma_merge(sorted: Seq<Range<usize>>, len: nat)
    requires
        encoder::sorted_by_start(sorted),
        within(sorted, len),
    ensures
        separated(merge_touching(sorted)),
        within(merge_touching(sorted), len),
        sorted.len() > 0 ==> merge_touching(sorted).len() > 0 && merge_touching(
            sorted,
        ).last().start <= sorted.last().start,
        forall|i: int| #[trigger]
            encoder::covered(merge_touching(sorted), i) <==> encoder::covered(sorted, i),
    decreases sorted.len(),
{
    if sorted.len() > 0 {
        let shorter = sorted.drop_last();
        let merged = merge_touching(shorter);
        let out = merge_touching(sorted);
        let r = sorted.last();
        lemma_merge(shorter, len);
        if merged.len() > 0 && r.start <= merged.last().end {
            let last = merged.last();
            let grown = Range { start: last.start, end: larger(last.end, r.end) };
            if shorter.len() > 0 {
                assert(shorter.last().start <= r.start);
            }
            assert forall|i: int| #[trigger]
                encoder::covered(out, i) <==> encoder::covered(sorted, i) by {
                lemma_covered_push(merged.drop_last(), grown, i);
                lemma_covered_last(merged, i);
                lemma_covered_last(sorted, i);
                assert(encoder::covered(merged, i) <==> encoder::covered(shorter, i));
            }
            assert forall|i: int, j: int| 0 <= i < j < out.len() implies (#[trigger] out[i]).end < (
            #[trigger] out[j]).start by {
                assert(merged[i].end < merged[j].start);
            }
        } else {
            assert forall|i: int| #[trigger]
                encoder::covered(out, i) <==> encoder::covered(sorted, i) by {
                lemma_covered_push(merged, r, i);
                lemma_covered_last(sorted, i);
                assert(encoder::covered(merged, i) <==> encoder::covered(shorter, i));
            }
            assert forall|i: int, j: int| 0 <= i < j < out.len() implies (#[trigger] out[i]).end < (
            #[trigger] out[j]).start by {
                if j == merged.len() && i < merged.len() - 1 {
                    assert(merged[i].end < merged[merged.len() - 1].start);
                }
            }
        }
    }
}

/// The normal form of a list of ranges covers exactly the same bytes, in ranges that come in
/// order with a gap between each and the next, and stay within the image.
pub proof fn law_normal_form(ranges: Seq<Range<usize>>, len: nat)
    requires
        within(ranges, len),
    ensures
        encoder::sorted_by_start(normal_form(ranges)),
        separated(normal_form(ranges)),
        within(normal_form(ranges), len),
        forall|i: int| #[trigger]
            encoder::covered(normal_form(ranges), i) <==> encoder::covered(ranges, i),
{
    lemma_sort(ranges, len);
    lemma_merge(sort_by_start(ranges), len);
    let out = normal_form(ranges);
    assert forall|i: int, j: int| 0 <= i <= j < out.len() implies out[i].start
        <= out[j].start by {
        if i < j {
            assert(out[i].end < out[j].start);
        }
    }
    assert forall|i: int| #[trigger]
        encoder::covered(out, i) <==> encoder::covered(ranges, i) by {
        assert(encoder::covered(sort_by_start(ranges), i) <==> encoder::covered(ranges, i));
    }
}

/// The range that is complained of reaches past the end, and none before it does; where nothing is
/// complained of, none does.
pub proof fn law_first_past(ranges: Seq<Range<usize>>, len: nat)
    ensures
        match first_past(ranges, len) {
            Some(r) => exists|k: int|
                0 <= k < ranges.len() && #[trigger] ranges[k] == r && r.end > len && forall|j: int|
                    0 <= j < k ==> (#[trigger] ranges[j]).end <= len,
            None => forall|j: int| 0 <= j < ranges.len() ==> (#[trigger] ranges[j]).end <= len,
        },
    decreases ranges.len(),
{
    if ranges.len() > 0 && ranges[0].end <= len {
        let rest = ranges.drop_first();
        law_first_past(rest, len);
        assert(forall|j: int| 0 < j < ranges.len() ==> #[trigger] ranges[j] == rest[j - 1]);
        if let Some(r) = first_past(rest, len) {
            let k = choose|k: int|
                0 <= k < rest.len() && #[trigger] rest[k] == r && r.end > len && forall|j: int|
                    0 <= j < k ==> (#[trigger] rest[j]).end <= len;
            assert(ranges[k + 1] == r);
        }
    }
}

/// Ranges that are in order already, with gaps between them, are left as they are.
pub proof fn law_normal_ranges_stay(ranges: Seq<Range<usize>>)
    requires
        forall|k: int| 0 <= k < ranges.len() ==> (#[trigger] ranges[k]).start <= ranges[k].end,
        forall|j: int, k: int|
            0 <= j < k < ranges.len() ==> (#[trigger] ranges[j]).end < (#[trigger] ranges[k]).start,
    ensures
        sort_by_start(ranges) == ranges,
        normal_form(ranges) == ranges,
    decreases ranges.len(),
{
    if ranges.len() > 0 {
        let shorter = ranges.drop_last();
        assert(forall|k: int| 0 <= k < shorter.len() ==> #[trigger] shorter[k] == ranges[k]);
        law_normal_ranges_stay(shorter);
        let last = ranges[ranges.len() - 1];
        if shorter.len() > 0 {
            let before = ranges[shorter.len() - 1];
            assert(before.start <= before.end && before.end < last.start);
        }
        assert(shorter.push(last) =~= ranges);
        assert(ranges.drop_last() =~= shorter);
    } else {
        assert(merge_touching(ranges) =~= ranges);
    }
}

} // verus!
