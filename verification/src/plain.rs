//! Paragraphs that need no resolving: the rules give a left-to-right
//! paragraph without right-to-left classes the level 0 throughout.

use vstd::prelude::*;
use crate::bidi_classes::{B, CLASS_COUNT, L, NEUTRAL_MASK, NSM, ON, PDI, S, WS};
use crate::bracket_data::BracketType;
use crate::brackets::{
    brackets_resolved, enclosed_direction, marks_of, originals_of, pair_resolved, pairing,
    pairs_in_order, pairs_resolved,
};
use crate::data::{lemma_class_named, lemma_class_sets, Type};
use crate::explicit::explicit_levels;
use crate::flat::lemma_flat_paragraph;
use crate::implicit::levels_written;
use crate::laws::lemma_inherited_level_bound;
use crate::line::line_reset;
use crate::neutral::neutrals_resolved;
use crate::sequence::{kept_indices, lemma_kept_indices, sequence_classes};
use crate::spans::{lemma_limit_within, lemma_start_within, limit_within, start_within};
use crate::state::{
    base_level_of, bracket_entries, classes_of, classified, levels_by_rules, levels_of,
    needs_resolving, resolved_levels, text_base_level,
};
use crate::weak::{
    class_before, direction_before, number_class, numbers_resolved, numbers_settled,
    strong_before, terminators_resolved, weak_resolved,
};
use crate::Level;

verus! {

/// A class that leaves a paragraph left-to-right: the code of a class
/// that is no explicit initiator, `R`, `AL` or `AN`.
pub open spec fn is_plain(t: Type) -> bool {
    t.0 < CLASS_COUNT && !t.needs_bidi()
}

/// Every class of the sequence is plain, and kept by rule X9.
pub open spec fn all_plain(types: Seq<Type>) -> bool {
    forall|i: int|
        0 <= i < types.len() ==> is_plain(#[trigger] types[i]) && !types[i].spec_is_ignored()
}

/// Every class of the sequence is plain and kept, and none is `NSM`.
pub open spec fn all_marked(types: Seq<Type>) -> bool {
    forall|i: int|
        0 <= i < types.len() ==> is_plain(#[trigger] types[i]) && !types[i].spec_is_ignored()
            && types[i].0 != NSM
}

/// `L` or a neutral: `B`, `S`, `WS`, `ON` or `PDI`.
pub open spec fn is_left_or_neutral(t: Type) -> bool {
    t.0 == L || t.0 == B || t.0 == S || t.0 == WS || t.0 == ON || t.0 == PDI
}

/// Every class of the sequence is `L` or a neutral.
pub open spec fn all_left_or_neutral(types: Seq<Type>) -> bool {
    forall|i: int| 0 <= i < types.len() ==> is_left_or_neutral(#[trigger] types[i])
}

/// Every class of the sequence is `L`.
pub open spec fn all_left(types: Seq<Type>) -> bool {
    forall|i: int| 0 <= i < types.len() ==> (#[trigger] types[i]).0 == L
}

proof fn lemma_strong_before_plain(types: Seq<Type>, at: int)
    requires
        all_plain(types),
        at <= types.len(),
    ensures
        strong_before(types, Type(L), at) == Type(L),
    decreases at,
{
    if at > 0 {
        lemma_strong_before_plain(types, at - 1);
        assert(is_plain(types[at - 1]));
    }
}

proof fn lemma_number_class_plain(types: Seq<Type>, at: int)
    requires
        all_plain(types),
        0 <= at <= types.len(),
    ensures
        is_plain(class_before(types, Type(L), at)),
        class_before(types, Type(L), at).0 != NSM,
        !class_before(types, Type(L), at).spec_is_ignored(),
        at < types.len() ==> is_plain(number_class(types, Type(L), at)) && number_class(
            types,
            Type(L),
            at,
        ).0 != NSM && !number_class(types, Type(L), at).spec_is_ignored(),
    decreases at,
{
    if at > 0 {
        lemma_number_class_plain(types, at - 1);
        assert(is_plain(types[at - 1]));
    }
    if at < types.len() {
        lemma_strong_before_plain(types, at);
        assert(is_plain(types[at]));
        if at + 1 < types.len() {
            assert(is_plain(types[at + 1]));
        }
    }
}

proof fn lemma_direction_before_plain(types: Seq<Type>, at: int)
    requires
        all_marked(types),
        at <= types.len(),
    ensures
        direction_before(types, Type(L), at) == Type(L),
    decreases at,
{
    if at > 0 {
        lemma_direction_before_plain(types, at - 1);
        assert(is_plain(types[at - 1]));
    }
}

/// Rules W1 to W7 leave a plain sequence between left-to-right ends with
/// nothing but `L` and neutrals.
pub proof fn lemma_weak_plain(types: Seq<Type>)
    requires
        all_plain(types),
    ensures
        weak_resolved(types, Type(L), Type(L)).len() == types.len(),
        all_left_or_neutral(weak_resolved(types, Type(L), Type(L))),
{
    let numbers = numbers_resolved(types, Type(L));
    assert forall|i: int| 0 <= i < numbers.len() implies is_plain(#[trigger] numbers[i])
        && !numbers[i].spec_is_ignored() && numbers[i].0 != NSM by {
        lemma_number_class_plain(types, i);
    }
    let terminators = terminators_resolved(numbers, Type(L), Type(L));
    assert forall|i: int| 0 <= i < terminators.len() implies is_plain(#[trigger] terminators[i])
        && !terminators[i].spec_is_ignored() && terminators[i].0 != NSM by {
        assert(is_plain(numbers[i]));
    }
    let settled = numbers_settled(terminators, Type(L));
    assert forall|i: int| 0 <= i < settled.len() implies is_left_or_neutral(
        #[trigger] settled[i],
    ) by {
        assert(is_plain(terminators[i]));
        lemma_direction_before_plain(terminators, i);
    }
}

proof fn lemma_enclosed_plain(types: Seq<Type>, from: int, to: int)
    requires
        all_left_or_neutral(types),
        0 <= from,
        to <= types.len(),
    ensures
        enclosed_direction(types, from, to, Type(L)).0 == L || enclosed_direction(
            types,
            from,
            to,
            Type(L),
        ).0 == ON,
    decreases to - from,
{
    if from < to {
        lemma_enclosed_plain(types, from + 1, to);
        assert(is_left_or_neutral(types[from]));
    }
}

proof fn lemma_pairs_plain(
    types: Seq<Type>,
    originals: Seq<Type>,
    pairs: Seq<(usize, usize)>,
    count: int,
)
    requires
        all_left_or_neutral(types),
        forall|k: int| 0 <= k < pairs.len() ==> (#[trigger] pairs[k]).1 <= types.len(),
        count <= pairs.len(),
    ensures
        pairs_resolved(types, originals, pairs, 0, Type(L), count).len() == types.len(),
        all_left_or_neutral(pairs_resolved(types, originals, pairs, 0, Type(L), count)),
    decreases count,
{
    if count > 0 {
        lemma_pairs_plain(types, originals, pairs, count - 1);
        let before = pairs_resolved(types, originals, pairs, 0, Type(L), count - 1);
        let pair = pairs[count - 1];
        lemma_enclosed_plain(before, pair.0 + 1, pair.1 as int);
        let after = pair_resolved(before, originals, pair, 0, Type(L));
        assert forall|i: int| 0 <= i < after.len() implies is_left_or_neutral(
            #[trigger] after[i],
        ) by {
            assert(is_left_or_neutral(before[i]));
        }
    }
}

proof fn lemma_neutrals_plain(types: Seq<Type>)
    requires
        all_left_or_neutral(types),
    ensures
        all_left(neutrals_resolved(types, 0, Type(L), Type(L))),
        neutrals_resolved(types, 0, Type(L), Type(L)).len() == types.len(),
{
    let resolved = neutrals_resolved(types, 0, Type(L), Type(L));
    assert forall|i: int| 0 <= i < resolved.len() implies (#[trigger] resolved[i]).0 == L by {
        assert(is_left_or_neutral(types[i]));
        lemma_class_sets(types[i].0);
        if types[i].within(NEUTRAL_MASK) {
            let start = start_within(types, i, NEUTRAL_MASK);
            let end = limit_within(types, i, NEUTRAL_MASK);
            lemma_start_within(types, i, NEUTRAL_MASK);
            lemma_limit_within(types, i, NEUTRAL_MASK);
            if start > 0 {
                assert(is_left_or_neutral(types[start - 1]));
                lemma_class_sets(types[start - 1].0);
            }
            if end < types.len() {
                assert(is_left_or_neutral(types[end]));
                lemma_class_sets(types[end].0);
            }
        }
    }
}

/// Rules W1 to N2 leave a plain sequence at level 0 between left-to-right
/// ends with nothing but `L`.
pub proof fn lemma_sequence_plain(
    types: Seq<Type>,
    originals: Seq<Type>,
    marks: Seq<Option<(char, BracketType)>>,
)
    requires
        all_plain(types),
        types.len() <= usize::MAX,
    ensures
        sequence_classes(types, originals, marks, 0, Type(L), Type(L)).len() == types.len(),
        all_left(sequence_classes(types, originals, marks, 0, Type(L), Type(L))),
{
    lemma_weak_plain(types);
    let weak = weak_resolved(types, Type(L), Type(L));
    let found = pairing(weak, marks, weak.len() as int).pairs;
    let pairs = pairs_in_order(found);
    crate::parity::lemma_pairing_neutral(weak, marks, weak.len() as int);
    crate::brackets::lemma_pairs_in_order_within(found, weak.len() as int);
    assert forall|k: int| 0 <= k < pairs.len() implies (#[trigger] pairs[k]).1 <= weak.len() by {
    }
    lemma_pairs_plain(weak, originals, pairs, pairs.len() as int);
    lemma_neutrals_plain(brackets_resolved(weak, originals, marks, 0, Type(L)));
}

proof fn lemma_levels_written_plain(
    levels: Seq<u8>,
    indices: Seq<usize>,
    types: Seq<Type>,
    count: int,
)
    requires
        count <= indices.len(),
        count <= types.len(),
        forall|k: int| 0 <= k < count ==> indices[k] < levels.len(),
        forall|k: int| 0 <= k < count ==> types[k].0 == L,
        forall|i: int| 0 <= i < levels.len() ==> levels[i] == 0,
    ensures
        levels_written(levels, indices, types, 0, count) == levels,
    decreases count,
{
    if count > 0 {
        lemma_levels_written_plain(levels, indices, types, count - 1);
        assert(levels.update(indices[count - 1] as int, 0u8) =~= levels);
    }
}

/// The rules give a left-to-right paragraph the level 0 throughout, where
/// every class of the paragraph is the code of a class and none is an
/// explicit initiator, `R`, `AL` or `AN`.
pub proof fn lemma_plain_paragraph(classes: Seq<Type>, entries: Seq<(usize, char, BracketType)>)
    requires
        classes.len() <= usize::MAX,
        forall|i: int| 0 <= i < classes.len() ==> is_plain(#[trigger] classes[i]),
    ensures
        levels_by_rules(classes, entries, 0) == Seq::new(classes.len(), |i: int| 0u8),
{
    let len = classes.len() as int;
    lemma_flat_paragraph(classes, entries, 0);
    let explicit = explicit_levels(classes, 0);
    let indices = kept_indices(classes, 0, len);
    lemma_kept_indices(classes, 0, len);
    let types = originals_of(classes, indices);
    let marks = marks_of(entries, indices);
    assert forall|i: int| 0 <= i < types.len() implies is_plain(#[trigger] types[i])
        && !types[i].spec_is_ignored() by {
        assert(is_plain(classes[indices[i] as int]));
    }
    lemma_sequence_plain(types, types, marks);
    let resolved = sequence_classes(types, types, marks, 0, Type(L), Type(L));
    lemma_levels_written_plain(explicit, indices, resolved, indices.len() as int);
    assert forall|i: int| 0 <= i < len implies line_reset(explicit, classes, 0)[i] == 0 by {
        lemma_inherited_level_bound(explicit, classes, 0, i, 0);
    }
    assert(line_reset(explicit, classes, 0) =~= Seq::new(classes.len(), |i: int| 0u8));
}

/// A paragraph of classes has the levels that the rules give it: for a
/// paragraph that needs no resolving these are the levels 0.
pub proof fn lemma_levels_by_rules(
    classes: Seq<Type>,
    entries: Seq<(usize, char, BracketType)>,
    base_level: Option<Level>,
)
    requires
        classes.len() <= usize::MAX,
        forall|i: int| 0 <= i < classes.len() ==> (#[trigger] classes[i]).0 < CLASS_COUNT,
    ensures
        levels_of(classes, entries, base_level) == levels_by_rules(
            classes,
            entries,
            base_level_of(classes, base_level),
        ),
{
    if !needs_resolving(classes) {
        assert forall|i: int| 0 <= i < classes.len() implies is_plain(#[trigger] classes[i]) by {
            crate::laws::lemma_needs_resolving(classes, i);
        }
        lemma_plain_paragraph(classes, entries);
    }
}

/// A text has the levels that the rules give it.
pub proof fn lemma_text_levels_by_rules(text: Seq<char>, base_level: Option<Level>)
    requires
        text.len() <= usize::MAX,
    ensures
        resolved_levels(classified(text), base_level) == levels_by_rules(
            classes_of(classified(text)),
            bracket_entries(classified(text)),
            text_base_level(text, base_level),
        ),
{
    let chars = classified(text);
    assert forall|i: int| 0 <= i < chars.len() implies (#[trigger] classes_of(chars)[i]).0
        < CLASS_COUNT by {
        lemma_class_named(text[i] as u32);
    }
    lemma_levels_by_rules(classes_of(chars), bracket_entries(chars), base_level);
}

} // verus!
