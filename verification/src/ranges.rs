//! Levels as ranges: each stretch of equal levels as the level and the
//! range of positions that have it.

use vstd::prelude::*;
use core::ops::Range;

verus! {

/// The first position at or after `from` whose level is not `level`; the
/// number of levels where there is none.
pub open spec fn level_limit(levels: Seq<u8>, from: int, level: u8) -> int
    decreases levels.len() - from,
{
    if from < 0 || from >= levels.len() {
        levels.len() as int
    } else if levels[from] != level {
        from
    } else {
        level_limit(levels, from + 1, level)
    }
}

/// The ranges of equal levels from `start` on.
pub open spec fn ranges_from(levels: Seq<u8>, start: int) -> Seq<(u8, Range<usize>)>
    decreases levels.len() - start,
{
    if start < 0 || start >= levels.len() {
        Seq::empty()
    } else {
        let end = level_limit(levels, start + 1, levels[start]);
        let range = (levels[start], Range { start: start as usize, end: end as usize });
        if start < end < levels.len() {
            seq![range] + ranges_from(levels, end)
        } else {
            seq![range]
        }
    }
}

/// The levels as ranges: an entry for every maximal stretch of equal
/// levels, in order, with the level and the positions of the stretch.
pub open spec fn ranges_of(levels: Seq<u8>) -> Seq<(u8, Range<usize>)> {
    ranges_from(levels, 0)
}

/// A stretch of equal levels ends behind its start and inside the levels.
pub proof fn lemma_level_limit(levels: Seq<u8>, from: int, level: u8)
    requires
        0 <= from <= levels.len(),
    ensures
        from <= level_limit(levels, from, level) <= levels.len(),
    decreases levels.len() - from,
{
    if from < levels.len() && levels[from] == level {
        lemma_level_limit(levels, from + 1, level);
    }
}

/// Collapses consecutive equal levels into ranges.
pub fn compress_levels(levels: &Vec<u8>, ranges: &mut Vec<(u8, Range<usize>)>)
    ensures
        final(ranges)@ == ranges_of(levels@),
{
    ranges.clear();
    let len = levels.len();
    if len == 0 {
        return ;
    }
    let mut start: usize = 0;
    let mut end: usize = 0;
    let mut last_level = levels[0];
    assert(ranges@ + ranges_from(levels@, 0) =~= ranges_of(levels@));
    while end < len
        invariant
            len == levels.len(),
            start <= end <= len,
            start < len,
            last_level == levels@[start as int],
            end == start ==> level_limit(levels@, start + 1, last_level) == level_limit(
                levels@,
                end + 1,
                last_level,
            ),
            end > start ==> level_limit(levels@, start + 1, last_level) == level_limit(
                levels@,
                end as int,
                last_level,
            ),
            ranges@ + ranges_from(levels@, start as int) == ranges_of(levels@),
        decreases len - end,
    {
        let level = levels[end];
        if level != last_level {
            proof {
                let rest = ranges_from(levels@, end as int);
                let range = (last_level, Range { start: start, end: end });
                assert(ranges_from(levels@, start as int) == seq![range] + rest);
                assert(ranges@.push(range) + rest =~= ranges@ + (seq![range] + rest));
            }
            ranges.push((last_level, Range { start: start, end: end }));
            start = end;
            last_level = level;
        }
        end += 1;
    }
    proof {
        let range = (last_level, Range { start: start, end: end });
        assert(ranges_from(levels@, start as int) == seq![range]);
        assert(ranges@.push(range) =~= ranges@ + seq![range]);
    }
    ranges.push((last_level, Range { start: start, end: end }));
}

} // verus!
