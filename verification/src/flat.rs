//! Paragraphs without explicit initiators: one level, one isolating run
//! sequence.

use vstd::prelude::*;
use crate::bracket_data::BracketType;
use crate::data::{level_class, Type};
use crate::explicit::{
    embedding_before, explicit_class, explicit_classes, explicit_level, explicit_levels,
    initial_embedding,
};
use crate::runs::{
    bounded_run, bounded_runs, continuation, continues, fresh_run, isolating_runs, last_kept,
    lemma_last_kept, lemma_next_kept, level_after, level_before, level_runs, next_kept, run_limit,
};
use crate::sequence::{
    chain_eos, chain_indices, kept_indices, sequence_resolved, sequences_resolved,
};

verus! {

/// No class of the paragraph is an embedding, override or isolate
/// initiator.
pub open spec fn no_initiators(classes: Seq<Type>) -> bool {
    forall|i: int| 0 <= i < classes.len() ==> !(#[trigger] classes[i]).is_explicit()
}

/// Without initiators the explicit resolver stays in its first state.
pub proof fn lemma_no_embedding(classes: Seq<Type>, base: u8, at: int)
    requires
        no_initiators(classes),
        at <= classes.len(),
    ensures
        embedding_before(classes, base, at) == initial_embedding(base),
    decreases at,
{
    if at > 0 {
        lemma_no_embedding(classes, base, at - 1);
        let e = initial_embedding(base);
        assert(!classes[at - 1].is_explicit());
        assert(e.stack.take(1) =~= e.stack);
    }
}

/// Without initiators every character has the paragraph level behind the
/// explicit rules, and keeps its class.
pub proof fn lemma_no_explicit_change(classes: Seq<Type>, base: u8)
    requires
        no_initiators(classes),
    ensures
        explicit_levels(classes, base) == Seq::new(classes.len(), |i: int| base),
        explicit_classes(classes, base) == classes,
{
    assert forall|i: int| 0 <= i < classes.len() implies explicit_level(classes, base, i) == base
        && explicit_class(classes, base, i) == classes[i] by {
        lemma_no_embedding(classes, base, i);
        lemma_no_embedding(classes, base, i + 1);
        assert(!classes[i].is_explicit());
    }
    assert(explicit_levels(classes, base) =~= Seq::new(classes.len(), |i: int| base));
    assert(explicit_classes(classes, base) =~= classes);
}

/// A paragraph at one level is one run.
pub proof fn lemma_run_limit_level(types: Seq<Type>, levels: Seq<u8>, from: int, level: u8)
    requires
        0 <= from <= types.len(),
        forall|i: int| 0 <= i < types.len() ==> levels[i] == level,
    ensures
        run_limit(types, levels, from, level) == types.len(),
    decreases types.len() - from,
{
    if from < types.len() {
        lemma_run_limit_level(types, levels, from + 1, level);
    }
}

/// In a paragraph at one level the level before and behind every position
/// is that level.
pub proof fn lemma_level_around(types: Seq<Type>, levels: Seq<u8>, base: u8, at: int)
    requires
        0 <= at <= types.len(),
        forall|i: int| 0 <= i < types.len() ==> levels[i] == base,
    ensures
        level_before(types, levels, base, at) == base,
        level_after(types, levels, base, at) == base,
{
    lemma_level_before(types, levels, base, at);
    lemma_level_after(types, levels, base, at);
}

proof fn lemma_level_before(types: Seq<Type>, levels: Seq<u8>, base: u8, at: int)
    requires
        0 <= at <= types.len(),
        forall|i: int| 0 <= i < types.len() ==> levels[i] == base,
    ensures
        level_before(types, levels, base, at) == base,
    decreases at,
{
    if at > 0 {
        lemma_level_before(types, levels, base, at - 1);
    }
}

proof fn lemma_level_after(types: Seq<Type>, levels: Seq<u8>, base: u8, at: int)
    requires
        0 <= at <= types.len(),
        forall|i: int| 0 <= i < types.len() ==> levels[i] == base,
    ensures
        level_after(types, levels, base, at) == base,
    decreases types.len() - at,
{
    if at < types.len() {
        lemma_level_after(types, levels, base, at + 1);
    }
}

/// The kept positions of a stretch are those of the stretch without the
/// removed characters at its ends.
pub proof fn lemma_kept_trim(types: Seq<Type>, from: int, start: int, end: int, to: int)
    requires
        0 <= from <= start <= end <= to,
        forall|j: int| from <= j < start ==> types[j].spec_is_ignored(),
        forall|j: int| end <= j < to ==> types[j].spec_is_ignored(),
    ensures
        kept_indices(types, from, to) == kept_indices(types, start, end),
    decreases to - end, start - from,
{
    if end < to {
        lemma_kept_trim(types, from, start, end, to - 1);
    } else if from < start {
        lemma_kept_trim(types, from + 1, start, end, to);
        lemma_kept_skip(types, from, to);
    }
}

proof fn lemma_kept_skip(types: Seq<Type>, from: int, to: int)
    requires
        0 <= from < to,
        types[from].spec_is_ignored(),
    ensures
        kept_indices(types, from, to) == kept_indices(types, from + 1, to),
    decreases to - from,
{
    if from + 1 < to {
        lemma_kept_skip(types, from, to - 1);
    } else {
        assert(kept_indices(types, from, from) =~= kept_indices(types, from + 1, from + 1));
    }
}

/// A paragraph without initiators is resolved as one sequence: every
/// kept character of the paragraph, at the paragraph level, between the
/// direction of the paragraph at both ends.
pub proof fn lemma_flat_paragraph(
    classes: Seq<Type>,
    entries: Seq<(usize, char, BracketType)>,
    base: u8,
)
    requires
        classes.len() <= usize::MAX,
        no_initiators(classes),
    ensures
        explicit_classes(classes, base) == classes,
        explicit_levels(classes, base) == Seq::new(classes.len(), |i: int| base),
        ({
            let explicit = explicit_levels(classes, base);
            let runs = isolating_runs(classes, classes, explicit, base);
            sequences_resolved(explicit, classes, classes, entries, runs, runs.len() as int)
                == sequence_resolved(
                explicit,
                classes,
                classes,
                entries,
                kept_indices(classes, 0, classes.len() as int),
                base,
                level_class(base),
                level_class(base),
            )
        }),
{
    let len = classes.len() as int;
    lemma_no_explicit_change(classes, base);
    let explicit = explicit_levels(classes, base);
    let raw = level_runs(classes, explicit);
    let start = next_kept(classes, 0, len);
    lemma_next_kept(classes, 0, len);
    let runs = isolating_runs(classes, classes, explicit, base);
    if start >= len {
        assert(runs =~= Seq::empty());
        lemma_kept_trim(classes, 0, len, len, len);
        assert(kept_indices(classes, len, len) =~= Seq::empty());
    } else {
        lemma_run_limit_level(classes, explicit, 1, base);
        assert(raw =~= seq![fresh_run(base, 0, len as usize)]);
        let bounded = bounded_runs(classes, classes, explicit, base);
        let end = last_kept(classes, start, len);
        lemma_last_kept(classes, start, len);
        lemma_level_around(classes, explicit, base, start);
        lemma_level_around(classes, explicit, base, end);
        assert(!classes[end - 1].is_explicit());
        let run = bounded_run(classes, classes, explicit, base, raw[0]);
        assert(bounded =~= seq![run]);
        assert(continuation(bounded, 0) is None);
        assert(!continues(bounded, 0, 1)) by {
            assert(!continues(bounded, 0, 0));
        }
        assert(runs =~= seq![run]);
        assert(chain_indices(classes, runs, 0) == kept_indices(classes, start, end));
        assert(chain_eos(runs, 0) == run.eos);
        lemma_kept_trim(classes, 0, start, end, len);
        assert(sequences_resolved(explicit, classes, classes, entries, runs, 0) == explicit);
    }
}

} // verus!
