//! The levels of separators and of the whitespace before them: rule L1,
//! with the levels that the characters removed by rule X9 take.

use vstd::prelude::*;
use crate::bidi_classes::{B, S};
use crate::data::Type;

verus! {

/// A segment separator or a paragraph separator.
pub open spec fn is_line_separator(t: Type) -> bool {
    t.0 == S || t.0 == B
}

/// Everything from `from` up to the next separator is removed or
/// resettable. Where no separator stands before `limit`, the answer is
/// `at_end`: whether the stretch up to `limit` counts as one that ends a
/// line.
pub open spec fn reset_ahead(classes: Seq<Type>, from: int, limit: int, at_end: bool) -> bool
    decreases limit - from,
{
    if from >= limit {
        at_end
    } else if is_line_separator(classes[from]) {
        true
    } else if classes[from].spec_is_ignored() || classes[from].spec_is_resettable() {
        reset_ahead(classes, from + 1, limit, at_end)
    } else {
        false
    }
}

/// The level that a removed character at `at` takes: that of the
/// character before it, or the paragraph level at the start of the
/// paragraph. A separator before it hands on the paragraph level, a
/// removed character the level that it took itself.
pub open spec fn inherited_level(levels: Seq<u8>, classes: Seq<Type>, base: u8, at: int) -> u8
    decreases at,
{
    if at <= 0 {
        base
    } else if is_line_separator(classes[at - 1]) {
        base
    } else if classes[at - 1].spec_is_ignored() {
        inherited_level(levels, classes, base, at - 1)
    } else {
        levels[at - 1]
    }
}

/// The level of the character at `at` where the paragraph is laid out up
/// to `limit`.
///
/// A separator has the paragraph level. So has a resettable character
/// with nothing but removed and resettable characters between it and the
/// next separator, or between it and `limit` where `at_end` is set. A
/// removed character has the level that it inherits. Any other character
/// keeps its level.
pub open spec fn line_level_within(
    levels: Seq<u8>,
    classes: Seq<Type>,
    base: u8,
    at: int,
    limit: int,
    at_end: bool,
) -> u8 {
    if is_line_separator(classes[at]) {
        base
    } else if classes[at].spec_is_ignored() {
        inherited_level(levels, classes, base, at)
    } else if classes[at].spec_is_resettable() && reset_ahead(classes, at + 1, limit, at_end) {
        base
    } else {
        levels[at]
    }
}

/// The level of the character at `at` of a paragraph that is laid out as
/// one line.
pub open spec fn line_level(levels: Seq<u8>, classes: Seq<Type>, base: u8, at: int) -> u8 {
    line_level_within(levels, classes, base, at, classes.len() as int, true)
}

/// The levels of a paragraph that is laid out as one line.
pub open spec fn line_reset(levels: Seq<u8>, classes: Seq<Type>, base: u8) -> Seq<u8> {
    Seq::new(levels.len(), |i: int| line_level(levels, classes, base, i))
}

/// A character that is neither removed nor resettable decides what lies
/// ahead of every character before it.
pub proof fn lemma_reset_ahead_blocked(
    classes: Seq<Type>,
    from: int,
    block: int,
    limit: int,
    at_end: bool,
    other_limit: int,
    other_end: bool,
)
    requires
        0 <= from <= block,
        block < limit,
        block < other_limit,
        !classes[block].spec_is_ignored(),
        !classes[block].spec_is_resettable(),
    ensures
        reset_ahead(classes, from, limit, at_end) == reset_ahead(
            classes,
            from,
            other_limit,
            other_end,
        ),
    decreases block - from,
{
    if from < block {
        lemma_reset_ahead_blocked(classes, from + 1, block, limit, at_end, other_limit, other_end);
    }
}

/// A stretch of removed and resettable characters that reaches a
/// separator, or the limit, is reset.
pub proof fn lemma_reset_ahead_clear(
    classes: Seq<Type>,
    from: int,
    to: int,
    limit: int,
    at_end: bool,
)
    requires
        0 <= from <= to <= limit,
        forall|j: int|
            from <= j < to ==> classes[j].spec_is_ignored() || classes[j].spec_is_resettable(),
        to == limit || is_line_separator(classes[to]),
    ensures
        reset_ahead(classes, from, limit, at_end) == (to < limit || at_end),
    decreases to - from,
{
    if from < to {
        lemma_reset_ahead_clear(classes, from + 1, to, limit, at_end);
    }
}

/// A character that is no separator adds nothing to what is reset before
/// it, as long as the line has not ended.
pub proof fn lemma_reset_ahead_extend(classes: Seq<Type>, from: int, limit: int)
    requires
        0 <= from <= limit,
        !is_line_separator(classes[limit]),
    ensures
        reset_ahead(classes, from, limit + 1, false) == reset_ahead(classes, from, limit, false),
    decreases limit - from,
{
    if from < limit {
        lemma_reset_ahead_extend(classes, from + 1, limit);
    } else {
        assert(!reset_ahead(classes, limit + 1, limit + 1, false));
    }
}

/// Resets the whitespace that stands before position `end`, from the
/// back up to the first character that is neither removed nor
/// resettable. Returns the number of characters before that stretch.
fn reset_before(classes: &Vec<Type>, base: u8, levels: &mut Vec<u8>, end: usize) -> (kept: usize)
    requires
        end <= classes.len(),
        classes.len() == old(levels).len(),
    ensures
        final(levels).len() == old(levels).len(),
        kept <= end,
        forall|k: int|
            kept <= k < end ==> classes@[k].spec_is_ignored() || classes@[k].spec_is_resettable(),
        kept > 0 ==> !classes@[kept - 1].spec_is_ignored() && !classes@[kept
            - 1].spec_is_resettable(),
        forall|k: int|
            0 <= k < final(levels).len() ==> final(levels)@[k] == (if kept <= k < end
                && classes@[k].spec_is_resettable() {
                base
            } else {
                old(levels)@[k]
            }),
{
    let mut j: usize = end;
    let mut blocked = false;
    while j > 0 && !blocked
        invariant
            j <= end <= classes.len(),
            classes.len() == levels.len(),
            levels.len() == old(levels).len(),
            forall|k: int|
                j <= k < end ==> classes@[k].spec_is_ignored() || classes@[k].spec_is_resettable(),
            blocked ==> j > 0 && !classes@[j - 1].spec_is_ignored() && !classes@[j
                - 1].spec_is_resettable(),
            forall|k: int|
                0 <= k < levels.len() ==> levels@[k] == (if j <= k < end
                    && classes@[k].spec_is_resettable() {
                    base
                } else {
                    old(levels)@[k]
                }),
        decreases j - (if blocked { 1int } else { 0int }),
    {
        let t = classes[j - 1];
        if t.is_ignored() {
            j -= 1;
        } else if t.is_resettable() {
            levels[j - 1] = base;
            j -= 1;
        } else {
            blocked = true;
        }
    }
    j
}

/// Applies rule L1 to a paragraph that is laid out as one line, and gives
/// every character that rule X9 removed the level of the character
/// before it.
pub fn reset_levels(classes: &Vec<Type>, base: u8, levels: &mut Vec<u8>)
    requires
        classes.len() == old(levels).len(),
    ensures
        final(levels)@ == line_reset(old(levels)@, classes@, base),
{
    let len = classes.len();
    let ghost before = levels@;
    let mut i: usize = 0;
    while i < len
        invariant
            len == classes.len(),
            len == levels.len(),
            len == before.len(),
            i <= len,
            forall|k: int|
                0 <= k < i ==> levels@[k] == line_level_within(
                    before,
                    classes@,
                    base,
                    k,
                    i as int,
                    false,
                ),
            forall|k: int| i <= k < len ==> levels@[k] == before[k],
        decreases len - i,
    {
        let t = classes[i];
        let ghost entry = levels@;
        if t.0 == S || t.0 == B {
            levels[i] = base;
            let kept = reset_before(classes, base, levels, i);
            proof {
                assert forall|k: int| 0 <= k < i + 1 implies levels@[k] == line_level_within(
                    before,
                    classes@,
                    base,
                    k,
                    i + 1,
                    false,
                ) by {
                    if k == i {
                    } else if k >= kept {
                        lemma_reset_ahead_clear(classes@, k + 1, i as int, i + 1, false);
                    } else if k < kept - 1 {
                        lemma_reset_ahead_blocked(
                            classes@,
                            k + 1,
                            kept - 1,
                            i as int,
                            false,
                            i + 1,
                            false,
                        );
                    }
                }
            }
        } else {
            if t.is_ignored() {
                if i == 0 {
                    levels[i] = base;
                } else {
                    levels[i] = levels[i - 1];
                }
            }
            proof {
                assert forall|k: int| 0 <= k < i + 1 implies levels@[k] == line_level_within(
                    before,
                    classes@,
                    base,
                    k,
                    i + 1,
                    false,
                ) by {
                    if k < i {
                        lemma_reset_ahead_extend(classes@, k + 1, i as int);
                    }
                }
            }
        }
        i += 1;
    }
    let ghost entry = levels@;
    let kept = reset_before(classes, base, levels, len);
    proof {
        assert forall|k: int| 0 <= k < len implies levels@[k] == line_level(
            before,
            classes@,
            base,
            k,
        ) by {
            if k >= kept {
                lemma_reset_ahead_clear(classes@, k + 1, len as int, len as int, true);
            } else if k < kept - 1 {
                lemma_reset_ahead_blocked(
                    classes@,
                    k + 1,
                    kept - 1,
                    len as int,
                    false,
                    len as int,
                    true,
                );
            }
        }
        assert(levels@ =~= line_reset(before, classes@, base));
    }
}

} // verus!
