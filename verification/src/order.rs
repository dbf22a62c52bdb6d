//! Visual order of a line: rule L2.

use vstd::prelude::*;
use crate::runs::higher;
use crate::Level;

verus! {

/// The highest of the levels, 0 where there are none.
pub open spec fn highest_level(levels: Seq<Level>) -> Level
    decreases levels.len(),
{
    if levels.len() == 0 {
        0
    } else {
        higher(highest_level(levels.drop_last()), levels.last())
    }
}

/// The lowest odd level, 255 where no level is odd.
pub open spec fn lowest_odd_level(levels: Seq<Level>) -> Level
    decreases levels.len(),
{
    if levels.len() == 0 {
        255
    } else {
        let before = lowest_odd_level(levels.drop_last());
        if levels.last() % 2 == 1 && levels.last() < before {
            levels.last()
        } else {
            before
        }
    }
}

/// The first position of the stretch of levels at or above `level` that
/// reaches position `at`.
pub open spec fn stretch_start(levels: Seq<Level>, at: int, level: Level) -> int
    decreases at,
{
    if 0 < at <= levels.len() && levels[at - 1] >= level {
        stretch_start(levels, at - 1, level)
    } else {
        at
    }
}

/// The position behind the stretch of levels at or above `level` that
/// begins at position `at`.
pub open spec fn stretch_end(levels: Seq<Level>, at: int, level: Level) -> int
    decreases levels.len() - at,
{
    if 0 <= at < levels.len() && levels[at] >= level {
        stretch_end(levels, at + 1, level)
    } else {
        at
    }
}

/// The order with every maximal stretch of levels at or above `level`
/// turned round.
pub open spec fn reversed(order: Seq<usize>, levels: Seq<Level>, level: Level) -> Seq<usize> {
    Seq::new(
        order.len(),
        |i: int|
            if levels[i] >= level {
                order[stretch_start(levels, i, level) + stretch_end(levels, i, level) - 1 - i]
            } else {
                order[i]
            },
    )
}

/// The positions of a line in their own order.
pub open spec fn logical_order(len: nat) -> Seq<usize> {
    Seq::new(len, |i: int| i as usize)
}

/// The order of a line once the stretches have been turned round at
/// every level from the highest down to `level`.
pub open spec fn reordered(levels: Seq<Level>, level: int) -> Seq<usize>
    decreases highest_level(levels) + 1 - level,
{
    if level > highest_level(levels) {
        logical_order(levels.len())
    } else {
        reversed(reordered(levels, level + 1), levels, level as Level)
    }
}

/// The visual order of a line with the given levels: at each place the
/// position of the character that is shown there. The stretches are
/// turned round at every level from the highest down to the lowest odd
/// one.
pub open spec fn visual_order(levels: Seq<Level>) -> Seq<usize> {
    reordered(levels, lowest_odd_level(levels) as int)
}

/// The levels are what the function gives for each position.
pub open spec fn read_from<F: Fn(usize) -> Level>(f: F, levels: Seq<Level>) -> bool {
    forall|i: usize| i < levels.len() ==> call_ensures(f, (i,), #[trigger] levels[i as int])
}

/// Every position of a maximal stretch of levels at or above `level` has
/// the stretch's bounds.
pub proof fn lemma_stretch(levels: Seq<Level>, start: int, end: int, at: int, level: Level)
    requires
        0 <= start <= at <= end <= levels.len(),
        forall|j: int| start <= j < end ==> levels[j] >= level,
        start == 0 || levels[start - 1] < level,
        end == levels.len() || levels[end] < level,
    ensures
        stretch_start(levels, at, level) == start,
        stretch_end(levels, at, level) == end,
    decreases at - start,
{
    if start < at {
        lemma_stretch(levels, start, end, at - 1, level);
        assert(stretch_start(levels, at, level) == stretch_start(levels, at - 1, level));
    }
    lemma_stretch_end(levels, at, end, level);
}

proof fn lemma_stretch_end(levels: Seq<Level>, at: int, end: int, level: Level)
    requires
        0 <= at <= end <= levels.len(),
        forall|j: int| at <= j < end ==> levels[j] >= level,
        end == levels.len() || levels[end] < level,
    ensures
        stretch_end(levels, at, level) == end,
    decreases end - at,
{
    if at < end {
        lemma_stretch_end(levels, at + 1, end, level);
    }
}

/// The position stands at some place of the order.
pub open spec fn stands_in(order: Seq<usize>, position: int) -> bool {
    exists|i: int| 0 <= i < order.len() && order[i] == position
}

/// The order holds every position of a line once: each entry is a
/// position of the line, no position stands at two places, and every
/// position stands at some place.
pub open spec fn is_permutation(order: Seq<usize>) -> bool {
    &&& forall|i: int| 0 <= i < order.len() ==> (#[trigger] order[i]) < order.len()
    &&& forall|i: int, j: int|
        0 <= i < order.len() && 0 <= j < order.len() && order[i] == order[j] ==> i == j
    &&& forall|p: int| 0 <= p < order.len() ==> #[trigger] stands_in(order, p)
}

/// The stretch of levels at or above `level` around a position with such
/// a level: it holds the position, lies inside the line, has such levels
/// throughout and none beside it.
pub proof fn lemma_stretch_around(levels: Seq<Level>, at: int, level: Level)
    requires
        0 <= at < levels.len(),
        levels[at] >= level,
    ensures
        0 <= stretch_start(levels, at, level) <= at < stretch_end(levels, at, level)
            <= levels.len(),
        forall|j: int|
            stretch_start(levels, at, level) <= j < stretch_end(levels, at, level) ==> levels[j]
                >= level,
        stretch_start(levels, at, level) == 0 || levels[stretch_start(levels, at, level) - 1]
            < level,
        stretch_end(levels, at, level) == levels.len() || levels[stretch_end(levels, at, level)]
            < level,
{
    lemma_stretch_before(levels, at, level);
    lemma_stretch_behind(levels, at, level);
}

proof fn lemma_stretch_before(levels: Seq<Level>, at: int, level: Level)
    requires
        0 <= at <= levels.len(),
    ensures
        0 <= stretch_start(levels, at, level) <= at,
        forall|j: int| stretch_start(levels, at, level) <= j < at ==> levels[j] >= level,
        stretch_start(levels, at, level) == 0 || levels[stretch_start(levels, at, level) - 1]
            < level,
    decreases at,
{
    if 0 < at && levels[at - 1] >= level {
        lemma_stretch_before(levels, at - 1, level);
    }
}

proof fn lemma_stretch_behind(levels: Seq<Level>, at: int, level: Level)
    requires
        0 <= at <= levels.len(),
    ensures
        at <= stretch_end(levels, at, level) <= levels.len(),
        forall|j: int| at <= j < stretch_end(levels, at, level) ==> levels[j] >= level,
        stretch_end(levels, at, level) == levels.len() || levels[stretch_end(levels, at, level)]
            < level,
    decreases levels.len() - at,
{
    if at < levels.len() && levels[at] >= level {
        lemma_stretch_behind(levels, at + 1, level);
    }
}

/// The place from which a position takes its entry when the stretches at
/// or above `level` are turned round: the place that mirrors it in its
/// stretch.
pub open spec fn mirrored(levels: Seq<Level>, at: int, level: Level) -> int {
    if levels[at] >= level {
        stretch_start(levels, at, level) + stretch_end(levels, at, level) - 1 - at
    } else {
        at
    }
}

/// Mirroring is its own inverse.
pub proof fn lemma_mirrored(levels: Seq<Level>, at: int, level: Level)
    requires
        0 <= at < levels.len(),
    ensures
        0 <= mirrored(levels, at, level) < levels.len(),
        mirrored(levels, mirrored(levels, at, level), level) == at,
{
    if levels[at] >= level {
        lemma_stretch_around(levels, at, level);
        let start = stretch_start(levels, at, level);
        let end = stretch_end(levels, at, level);
        lemma_stretch(levels, start, end, mirrored(levels, at, level), level);
    }
}

/// Turning stretches round keeps a permutation a permutation.
pub proof fn lemma_reversed_permutation(order: Seq<usize>, levels: Seq<Level>, level: Level)
    requires
        order.len() == levels.len(),
        is_permutation(order),
    ensures
        is_permutation(reversed(order, levels, level)),
{
    let turned = reversed(order, levels, level);
    assert forall|i: int| 0 <= i < turned.len() implies (#[trigger] turned[i]) < turned.len() by {
        lemma_mirrored(levels, i, level);
        assert(turned[i] == order[mirrored(levels, i, level)]);
    }
    assert forall|i: int, j: int|
        0 <= i < turned.len() && 0 <= j < turned.len() && turned[i] == turned[j] implies i
        == j by {
        lemma_mirrored(levels, i, level);
        lemma_mirrored(levels, j, level);
        assert(turned[i] == order[mirrored(levels, i, level)]);
        assert(turned[j] == order[mirrored(levels, j, level)]);
    }
    assert forall|p: int| 0 <= p < turned.len() implies #[trigger] stands_in(turned, p) by {
        assert(stands_in(order, p));
        let source = choose|i: int| 0 <= i < order.len() && order[i] == p;
        let place = mirrored(levels, source, level);
        lemma_mirrored(levels, source, level);
        assert(turned[place] == order[mirrored(levels, place, level)]);
    }
}

/// Permutation: the visual order of a line holds every position of the
/// line once.
pub proof fn lemma_visual_order_permutation(levels: Seq<Level>)
    requires
        levels.len() <= usize::MAX,
    ensures
        visual_order(levels).len() == levels.len(),
        is_permutation(visual_order(levels)),
{
    lemma_reordered_permutation(levels, lowest_odd_level(levels) as int);
}

proof fn lemma_reordered_permutation(levels: Seq<Level>, level: int)
    requires
        levels.len() <= usize::MAX,
        0 <= level,
    ensures
        reordered(levels, level).len() == levels.len(),
        is_permutation(reordered(levels, level)),
    decreases highest_level(levels) + 1 - level,
{
    if level > highest_level(levels) {
        let order = logical_order(levels.len());
        assert forall|p: int| 0 <= p < order.len() implies #[trigger] stands_in(order, p) by {
            assert(order[p] == p);
        }
    } else {
        lemma_reordered_permutation(levels, level + 1);
        lemma_reversed_permutation(reordered(levels, level + 1), levels, level as Level);
    }
}

/// Turns round every maximal stretch of levels at or above `level`.
pub fn reverse_stretches(order: &mut [usize], levels: &Vec<Level>, level: Level)
    requires
        old(order)@.len() == levels.len(),
    ensures
        final(order)@ == reversed(old(order)@, levels@, level),
{
    let len = order.len();
    let ghost orig = order@;
    let mut i: usize = 0;
    while i < len
        invariant
            len == order@.len(),
            len == levels.len(),
            len == orig.len(),
            i <= len,
            forall|p: int| 0 <= p < i ==> order@[p] == reversed(orig, levels@, level)[p],
            forall|p: int| i <= p < len ==> order@[p] == orig[p],
            i < len && levels@[i as int] >= level ==> i == 0 || levels@[i - 1] < level,
        decreases len - i,
    {
        if levels[i] >= level {
            let mut end: usize = i + 1;
            while end < len && levels[end] >= level
                invariant
                    i < end <= len,
                    len == levels.len(),
                    forall|p: int| i <= p < end ==> levels@[p] >= level,
                decreases len - end,
            {
                end += 1;
            }
            proof {
                assert forall|p: int| i <= p < end implies stretch_start(levels@, p, level) == i
                    && stretch_end(levels@, p, level) == end by {
                    lemma_stretch(levels@, i as int, end as int, p, level);
                }
            }
            let mut j: usize = i;
            let mut k: usize = end - 1;
            while j < k
                invariant
                    len == order@.len(),
                    len == orig.len(),
                    i <= j,
                    k < end <= len,
                    j + k == i + end - 1,
                    forall|p: int| 0 <= p < i ==> order@[p] == reversed(orig, levels@, level)[p],
                    forall|p: int| i <= p < j ==> order@[p] == orig[i + end - 1 - p],
                    forall|p: int| k < p < end ==> order@[p] == orig[i + end - 1 - p],
                    forall|p: int| j <= p <= k ==> order@[p] == orig[p],
                    forall|p: int| end <= p < len ==> order@[p] == orig[p],
                decreases k + 1 - j,
            {
                let first = order[j];
                let last = order[k];
                order[j] = last;
                order[k] = first;
                j += 1;
                k -= 1;
            }
            i = end;
        } else {
            i += 1;
        }
    }
    assert(order@ =~= reversed(orig, levels@, level));
}

/// Computes an ordering for a sequence of bidirectional levels.
///
/// The function is asked once for the level of each position of `order`.
pub fn reorder<F: Fn(usize) -> Level>(order: &mut [usize], levels: F)
    requires
        forall|i: usize| i < old(order)@.len() ==> call_requires(levels, (i,)),
    ensures
        exists|read: Seq<Level>|
            {
                &&& read.len() == old(order)@.len()
                &&& #[trigger] read_from(levels, read)
                &&& final(order)@ == visual_order(read)
            },
        final(order)@.len() == old(order)@.len(),
        is_permutation(final(order)@),
{
    let len = order.len();
    let mut read: Vec<Level> = Vec::with_capacity(len);
    let mut max_level: Level = 0;
    let mut lowest_odd: Level = 255;
    let mut i: usize = 0;
    assert(read@.take(0) =~= read@);
    while i < len
        invariant
            len == order@.len(),
            i <= len,
            read@.len() == i,
            forall|k: usize| k < len ==> call_requires(levels, (k,)),
            read_from(levels, read@),
            max_level == highest_level(read@),
            lowest_odd == lowest_odd_level(read@),
            forall|p: int| 0 <= p < i ==> order@[p] == p,
        decreases len - i,
    {
        let level = levels(i);
        let ghost before = read@;
        read.push(level);
        assert(read@.drop_last() =~= before);
        if level > max_level {
            max_level = level;
        }
        assert(level & 1 == level % 2) by (bit_vector);
        if level & 1 != 0 && level < lowest_odd {
            lowest_odd = level;
        }
        order[i] = i;
        i += 1;
    }
    assert(order@ =~= logical_order(read@.len()));
    let mut level = max_level;
    let mut done = lowest_odd > max_level;
    while !done
        invariant
            len == order@.len(),
            len == read@.len(),
            max_level == highest_level(read@),
            lowest_odd == lowest_odd_level(read@),
            !done ==> lowest_odd <= level <= max_level,
            !done ==> order@ == reordered(read@, level + 1),
            done ==> order@ == reordered(read@, lowest_odd as int),
        decreases level - lowest_odd + (if done { 0int } else { 1int }),
    {
        reverse_stretches(order, &read, level);
        if level == lowest_odd {
            done = true;
        } else {
            level -= 1;
        }
    }
    proof {
        lemma_visual_order_permutation(read@);
    }
    assert(read_from(levels, read@));
}

/// Reorder at level 0: a line whose levels are all 0 is shown in its own
/// order.
pub proof fn lemma_order_at_level_zero(levels: Seq<Level>)
    requires
        forall|i: int| 0 <= i < levels.len() ==> levels[i] == 0,
    ensures
        visual_order(levels) == logical_order(levels.len()),
{
    lemma_uniform_levels(levels, 0);
}

/// Reorder at level 1: a line whose levels are all 1 is shown turned
/// round as a whole.
pub proof fn lemma_order_at_level_one(levels: Seq<Level>)
    requires
        forall|i: int| 0 <= i < levels.len() ==> levels[i] == 1,
        levels.len() <= usize::MAX,
    ensures
        visual_order(levels) == Seq::new(levels.len(), |i: int| (levels.len() - 1 - i) as usize),
{
    lemma_uniform_levels(levels, 1);
    if levels.len() > 0 {
        assert(reordered(levels, 2) == logical_order(levels.len()));
        assert forall|i: int| 0 <= i < levels.len() implies stretch_start(levels, i, 1) == 0
            && stretch_end(levels, i, 1) == levels.len() by {
            lemma_stretch(levels, 0, levels.len() as int, i, 1);
        }
        assert(visual_order(levels) =~= Seq::new(
            levels.len(),
            |i: int| (levels.len() - 1 - i) as usize,
        ));
    } else {
        assert(visual_order(levels) =~= Seq::new(
            levels.len(),
            |i: int| (levels.len() - 1 - i) as usize,
        ));
    }
}

/// The highest and the lowest odd level of a line with one level
/// throughout.
proof fn lemma_uniform_levels(levels: Seq<Level>, level: Level)
    requires
        forall|i: int| 0 <= i < levels.len() ==> levels[i] == level,
    ensures
        highest_level(levels) == (if levels.len() == 0 {
            0
        } else {
            level
        }),
        lowest_odd_level(levels) == (if levels.len() == 0 || level % 2 == 0 {
            255
        } else {
            level
        }),
    decreases levels.len(),
{
    if levels.len() > 0 {
        lemma_uniform_levels(levels.drop_last(), level);
    }
}

} // verus!
