//! The level of the first strong character of a paragraph without
//! explicit initiators.

use vstd::prelude::*;
use crate::bidi_classes::{L, NEUTRAL_MASK, NSM, ON, R};
use crate::bracket_data::BracketType;
use crate::brackets::{
    brackets_resolved, inserted, lemma_matching_opener_bound, lemma_pairs_in_order_within,
    marks_end, marks_of, matching_opener, originals_of, pairing, pairs_in_order, pairs_resolved,
    pairs_within,
};
use crate::data::{lemma_class_sets, level_class, Type};
use crate::flat::{lemma_flat_paragraph, no_initiators};
use crate::implicit::{implicit_level, lemma_levels_written_len, levels_written};
use crate::laws::lemma_levels_len;
use crate::line::line_reset;
use crate::paragraph::first_strong_level;
use crate::sequence::{kept_indices, lemma_kept_indices, sequence_classes, sequence_resolved};
use crate::state::{
    base_level_of, bracket_entries, classes_of, needs_resolving, resolved_levels,
};
use crate::weak::{numbers_resolved, terminators_resolved, weak_resolved};

verus! {

/// The direction of a strong class: `L` for `L`, `R` for `R` and `AL`.
pub open spec fn strong_class(t: Type) -> Type {
    if t.0 == L {
        Type(L)
    } else {
        Type(R)
    }
}

/// The first strong class outside isolates gives the paragraph its level.
pub proof fn lemma_level_of_first_strong(classes: Seq<Type>, from: int, at: int)
    requires
        0 <= from <= at < classes.len(),
        classes[at].is_strong(),
        forall|j: int|
            from <= j < at ==> !classes[j].is_strong() && !classes[j].is_isolate_initiator(),
    ensures
        first_strong_level(classes, from, 0, false) == (if classes[at].0 == L {
            0u8
        } else {
            1u8
        }),
    decreases at - from,
{
    if from < at {
        lemma_level_of_first_strong(classes, from + 1, at);
    }
}

/// The kept positions before a kept position are the first of the kept
/// positions of every stretch that reaches beyond it.
pub proof fn lemma_kept_prefix(types: Seq<Type>, from: int, at: int, to: int)
    requires
        0 <= from <= at <= to,
    ensures
        kept_indices(types, from, at).len() <= kept_indices(types, from, to).len(),
        kept_indices(types, from, to).take(kept_indices(types, from, at).len() as int)
            == kept_indices(types, from, at),
    decreases to - at,
{
    if at < to {
        lemma_kept_prefix(types, from, at, to - 1);
        let short = kept_indices(types, from, at);
        let before = kept_indices(types, from, to - 1);
        let all = kept_indices(types, from, to);
        assert(all.take(short.len() as int) =~= before.take(short.len() as int));
    } else {
        let all = kept_indices(types, from, to);
        assert(all.take(all.len() as int) =~= all);
    }
}

/// The place of a kept position among the kept positions of a stretch.
pub open spec fn kept_place(types: Seq<Type>, from: int, at: int) -> int {
    kept_indices(types, from, at).len() as int
}

/// A kept position of a stretch stands among its kept positions, behind
/// those before it.
pub proof fn lemma_kept_place(types: Seq<Type>, from: int, at: int, to: int)
    requires
        0 <= from <= at < to <= usize::MAX,
        !types[at].spec_is_ignored(),
    ensures
        0 <= kept_place(types, from, at) < kept_indices(types, from, to).len(),
        kept_indices(types, from, to)[kept_place(types, from, at)] == at,
{
    lemma_kept_prefix(types, from, at + 1, to);
    let upto = kept_indices(types, from, at + 1);
    let all = kept_indices(types, from, to);
    assert(upto == kept_indices(types, from, at).push(at as usize));
    assert(all.take(upto.len() as int)[kept_place(types, from, at)] == upto[kept_place(
        types,
        from,
        at,
    )]);
}

/// The kept positions of a stretch stand in ascending order.
pub proof fn lemma_kept_ascending(types: Seq<Type>, from: int, to: int)
    requires
        0 <= from <= to <= usize::MAX,
    ensures
        forall|a: int, b: int|
            0 <= a < b < kept_indices(types, from, to).len() ==> kept_indices(types, from, to)[a]
                < kept_indices(types, from, to)[b],
    decreases to - from,
{
    if from < to {
        lemma_kept_ascending(types, from, to - 1);
        lemma_kept_indices(types, from, to - 1);
        let before = kept_indices(types, from, to - 1);
        let all = kept_indices(types, from, to);
        assert forall|a: int, b: int| 0 <= a < b < all.len() implies all[a] < all[b] by {
            assert(all[a] == before[a]);
            if b < before.len() {
                assert(all[b] == before[b]);
            }
        }
    }
}

/// A position of a sequence keeps the level that was written for it,
/// where the positions stand in ascending order.
pub proof fn lemma_levels_written_at(
    levels: Seq<u8>,
    indices: Seq<usize>,
    types: Seq<Type>,
    level: u8,
    count: int,
    place: int,
)
    requires
        0 <= place < count <= indices.len(),
        forall|a: int, b: int| 0 <= a < b < indices.len() ==> indices[a] < indices[b],
        forall|k: int| 0 <= k < indices.len() ==> indices[k] < levels.len(),
    ensures
        levels_written(levels, indices, types, level, count)[indices[place] as int]
            == implicit_level(level, types[place]) as u8,
    decreases count,
{
    lemma_levels_written_len(levels, indices, types, level, count - 1);
    if place < count - 1 {
        lemma_levels_written_at(levels, indices, types, level, count - 1, place);
    }
}

/// Every bracket of a pair, and every opener that waits, is a neutral
/// before the position that the search has reached.
pub open spec fn pairing_neutral(
    types: Seq<Type>,
    marks: Seq<Option<(char, BracketType)>>,
    count: int,
) -> bool {
    let found = pairing(types, marks, count);
    &&& forall|k: int|
        0 <= k < found.openers.len() ==> (#[trigger] found.openers[k]).0 < count
            && types[found.openers[k].0 as int].0 == ON
    &&& forall|k: int|
        0 <= k < found.pairs.len() ==> (#[trigger] found.pairs[k]).0 < found.pairs[k].1 < count
            && types[found.pairs[k].0 as int].0 == ON && types[found.pairs[k].1 as int].0 == ON
}

/// The search for bracket pairs pairs neutrals only.
pub proof fn lemma_pairing_neutral(
    types: Seq<Type>,
    marks: Seq<Option<(char, BracketType)>>,
    count: int,
)
    requires
        count <= types.len() <= usize::MAX,
    ensures
        pairing_neutral(types, marks, count),
    decreases count,
{
    if count > 0 {
        lemma_pairing_neutral(types, marks, count - 1);
        let before = pairing(types, marks, count - 1);
        let found = pairing(types, marks, count);
        let at = count - 1;
        if !before.stopped && types[at].0 == ON {
            match marks[at] {
                Some((ch, BracketType::Open(closer))) => {
                    if before.openers.len() != 63 {
                        assert forall|k: int| 0 <= k < found.openers.len() implies (
                        #[trigger] found.openers[k]).0 < count && types[found.openers[k].0 as int].0
                            == ON by {
                            if k < before.openers.len() {
                                assert(found.openers[k] == before.openers[k]);
                            }
                        }
                    }
                },
                Some((ch, BracketType::Close(_))) => {
                    let place = matching_opener(before.openers, ch);
                    lemma_matching_opener_bound(before.openers, ch);
                    if place >= 0 {
                        assert forall|k: int| 0 <= k < found.openers.len() implies (
                        #[trigger] found.openers[k]).0 < count && types[found.openers[k].0 as int].0
                            == ON by {
                            assert(found.openers[k] == before.openers[k]);
                        }
                        assert forall|k: int| 0 <= k < found.pairs.len() implies (
                        #[trigger] found.pairs[k]).0 < found.pairs[k].1 < count
                            && types[found.pairs[k].0 as int].0 == ON
                            && types[found.pairs[k].1 as int].0 == ON by {
                            if k < before.pairs.len() {
                                assert(found.pairs[k] == before.pairs[k]);
                            } else {
                                assert(before.openers[place].0 < at);
                            }
                        }
                    }
                },
                _ => {},
            }
        }
    }
}

/// Both brackets of every pair are neutrals.
pub open spec fn pairs_neutral(pairs: Seq<(usize, usize)>, types: Seq<Type>) -> bool {
    forall|k: int|
        0 <= k < pairs.len() ==> types[(#[trigger] pairs[k]).0 as int].0 == ON
            && types[pairs[k].1 as int].0 == ON
}

proof fn lemma_inserted_neutral(sorted: Seq<(usize, usize)>, pair: (usize, usize), types: Seq<Type>)
    requires
        pairs_neutral(sorted, types),
        types[pair.0 as int].0 == ON,
        types[pair.1 as int].0 == ON,
    ensures
        pairs_neutral(inserted(sorted, pair), types),
    decreases sorted.len(),
{
    if sorted.len() > 0 && sorted.last().0 > pair.0 {
        lemma_inserted_neutral(sorted.drop_last(), pair, types);
        let rest = inserted(sorted.drop_last(), pair);
        let all = inserted(sorted, pair);
        assert forall|k: int| 0 <= k < all.len() implies types[(#[trigger] all[k]).0 as int].0
            == ON && types[all[k].1 as int].0 == ON by {
            if k < rest.len() {
                assert(all[k] == rest[k]);
            } else {
                assert(all[k] == sorted.last());
            }
        }
    } else {
        let all = sorted.push(pair);
        assert forall|k: int| 0 <= k < all.len() implies types[(#[trigger] all[k]).0 as int].0
            == ON && types[all[k].1 as int].0 == ON by {
            if k < sorted.len() {
                assert(all[k] == sorted[k]);
            }
        }
    }
}

/// Putting pairs in order keeps them pairs of neutrals.
pub proof fn lemma_pairs_in_order_neutral(pairs: Seq<(usize, usize)>, types: Seq<Type>)
    requires
        pairs_neutral(pairs, types),
    ensures
        pairs_neutral(pairs_in_order(pairs), types),
    decreases pairs.len(),
{
    if pairs.len() > 0 {
        assert forall|k: int| 0 <= k < pairs.drop_last().len() implies types[(
        #[trigger] pairs.drop_last()[k]).0 as int].0 == ON && types[pairs.drop_last()[k].1 as int].0
            == ON by {
            assert(pairs.drop_last()[k] == pairs[k]);
        }
        lemma_pairs_in_order_neutral(pairs.drop_last(), types);
        lemma_inserted_neutral(pairs_in_order(pairs.drop_last()), pairs.last(), types);
    }
}

/// Every position before the end of the marks behind a bracket was a
/// nonspacing mark.
pub proof fn lemma_marks_end(originals: Seq<Type>, from: int, limit: int)
    ensures
        forall|j: int| from <= j < marks_end(originals, from, limit) ==> originals[j].0 == NSM,
    decreases limit - from,
{
    if from < limit && originals[from].0 == NSM {
        lemma_marks_end(originals, from + 1, limit);
    }
}

/// Rule N0 changes brackets and the marks behind them, and nothing else.
pub proof fn lemma_pairs_resolved_keeps(
    types: Seq<Type>,
    originals: Seq<Type>,
    pairs: Seq<(usize, usize)>,
    level: u8,
    sos: Type,
    count: int,
    at: int,
)
    requires
        0 <= at < types.len(),
        types[at].0 != ON,
        originals[at].0 != NSM,
        pairs_neutral(pairs, types),
        pairs_within(pairs, types.len() as int),
        count <= pairs.len(),
    ensures
        pairs_resolved(types, originals, pairs, level, sos, count)[at] == types[at],
        pairs_resolved(types, originals, pairs, level, sos, count).len() == types.len(),
    decreases count,
{
    if count > 0 {
        lemma_pairs_resolved_keeps(types, originals, pairs, level, sos, count - 1, at);
        let before = pairs_resolved(types, originals, pairs, level, sos, count - 1);
        let pair = pairs[count - 1];
        lemma_marks_end(originals, pair.0 + 1, pair.1 as int);
        lemma_marks_end(originals, pair.1 + 1, before.len() as int);
        assert(pair.0 != at && pair.1 != at);
    }
}

/// Rules W1 to W7, N0, N1 and N2 leave a strong class strong, with its
/// direction.
pub proof fn lemma_strong_stays(
    types: Seq<Type>,
    originals: Seq<Type>,
    marks: Seq<Option<(char, BracketType)>>,
    level: u8,
    sos: Type,
    eos: Type,
    at: int,
)
    requires
        0 <= at < types.len() <= usize::MAX,
        types[at].is_strong(),
        originals[at].0 != NSM,
    ensures
        sequence_classes(types, originals, marks, level, sos, eos)[at] == strong_class(types[at]),
{
    let numbers = numbers_resolved(types, sos);
    let terminators = terminators_resolved(numbers, sos, eos);
    let weak = weak_resolved(types, sos, eos);
    assert(numbers[at] == strong_class(types[at]));
    assert(terminators[at] == strong_class(types[at]));
    assert(weak[at] == strong_class(types[at]));
    let found = pairing(weak, marks, weak.len() as int).pairs;
    let pairs = pairs_in_order(found);
    lemma_pairing_neutral(weak, marks, weak.len() as int);
    assert(pairs_neutral(found, weak));
    assert(pairs_within(found, weak.len() as int));
    lemma_pairs_in_order_neutral(found, weak);
    lemma_pairs_in_order_within(found, weak.len() as int);
    lemma_pairs_resolved_keeps(weak, originals, pairs, level, sos, pairs.len() as int, at);
    let brackets = brackets_resolved(weak, originals, marks, level, sos);
    assert(brackets[at] == strong_class(types[at]));
    lemma_class_sets(L);
    lemma_class_sets(R);
    assert(!brackets[at].within(NEUTRAL_MASK));
}

/// Parity of base: in a paragraph without embedding, override or isolate
/// initiators whose level is left open, the first strong character has
/// the base level.
pub proof fn lemma_first_strong_has_base_level(chars: Seq<(char, Type)>, at: int)
    requires
        chars.len() <= usize::MAX,
        0 <= at < chars.len(),
        chars[at].1.is_strong(),
        forall|j: int| 0 <= j < at ==> !chars[j].1.is_strong(),
        no_initiators(classes_of(chars)),
    ensures
        resolved_levels(chars, None)[at] == base_level_of(classes_of(chars), None),
        resolved_levels(chars, None)[at] % 2 == base_level_of(classes_of(chars), None) % 2,
{
    let classes = classes_of(chars);
    let entries = bracket_entries(chars);
    let base = base_level_of(classes, None);
    let len = classes.len() as int;
    assert forall|j: int| 0 <= j < at implies !classes[j].is_strong()
        && !classes[j].is_isolate_initiator() by {
        assert(!classes[j].is_explicit());
    }
    lemma_level_of_first_strong(classes, 0, at);
    lemma_levels_len(classes, entries, None);
    if !(!needs_resolving(classes) && base == 0) {
        lemma_flat_paragraph(classes, entries, base);
        let uniform = Seq::new(classes.len(), |i: int| base);
        let dir = level_class(base);
        let indices = kept_indices(classes, 0, len);
        let place = kept_place(classes, 0, at);
        lemma_kept_place(classes, 0, at, len);
        lemma_kept_ascending(classes, 0, len);
        lemma_kept_indices(classes, 0, len);
        let resolved = sequence_classes(
            originals_of(classes, indices),
            originals_of(classes, indices),
            marks_of(entries, indices),
            base,
            dir,
            dir,
        );
        lemma_strong_stays(
            originals_of(classes, indices),
            originals_of(classes, indices),
            marks_of(entries, indices),
            base,
            dir,
            dir,
            place,
        );
        lemma_levels_written_at(uniform, indices, resolved, base, indices.len() as int, place);
        let implicit = sequence_resolved(uniform, classes, classes, entries, indices, base, dir, dir);
        assert(implicit[at] == base);
        lemma_levels_written_len(uniform, indices, resolved, base, indices.len() as int);
        assert(line_reset(implicit, classes, base)[at] == base);
    }
}

} // verus!
