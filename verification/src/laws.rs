//! What holds of the resolved levels of every paragraph.

use vstd::prelude::*;
use crate::bracket_data::{bracket, BracketType};
use crate::data::Type;
use crate::bidi_classes::PDI;
use crate::explicit::{
    embedding_before, embedding_step, explicit_classes, explicit_level, explicit_levels,
    lemma_closed_isolate, lemma_embedding_before, lemma_explicit_level, Embedding,
};
use crate::granularity::{expanded, lemma_expanded_bound, lemma_expanded_len};
use crate::implicit::{implicit_level, levels_written};
use crate::line::{inherited_level, is_line_separator, lemma_reset_ahead_clear};
use crate::paragraph::lemma_first_strong_level;
use crate::runs::{
    isolating_runs, lemma_isolating_runs, lemma_level_runs, level_runs, run_levelled, runs_wf, Run,
};
use crate::sequence::{
    chain_eos, chain_indices, lemma_chain_indices, lemma_sequences_resolved_len,
    sequence_classes, sequences_resolved,
};
use crate::brackets::{entries_ascending, entry_of, lemma_entry_missing, marks_of, originals_of};
use crate::state::{
    base_level_of, bracket_entries, classes_of, classified, levels_of, resolved_as,
    level_count, resolved_levels, text_levels,
};
use crate::{Granularity, Level, Resolved};

verus! {

/// The base level of a paragraph is 0 or 1, where the caller sets it so
/// or leaves it open.
pub proof fn lemma_base_level(classes: Seq<Type>, base_level: Option<Level>)
    requires
        base_level matches Some(level) ==> level <= 1,
    ensures
        base_level_of(classes, base_level) <= 1,
{
    lemma_first_strong_level(classes, 0, 0, false);
}

/// Length: a paragraph has one level for each of its characters.
pub proof fn lemma_levels_len(
    classes: Seq<Type>,
    entries: Seq<(usize, char, BracketType)>,
    base_level: Option<Level>,
)
    requires
        base_level matches Some(level) ==> level <= 1,
        classes.len() <= usize::MAX,
    ensures
        levels_of(classes, entries, base_level).len() == classes.len(),
{
    let base = base_level_of(classes, base_level);
    lemma_base_level(classes, base_level);
    let types = explicit_classes(classes, base);
    let explicit = explicit_levels(classes, base);
    let runs = isolating_runs(types, classes, explicit, base);
    assert forall|i: int| 0 <= i < explicit.len() implies explicit[i] <= 125 by {
        lemma_explicit_level(classes, base, i);
    }
    lemma_isolating_runs(types, classes, explicit, base);
    lemma_sequences_resolved_len(explicit, types, classes, entries, runs, runs.len() as int);
}

/// Length: at the granularity of characters a text has one level for each
/// character, at the granularity of bytes one for each byte of its UTF-8
/// encoding.
pub proof fn lemma_text_levels_len(
    text: Seq<char>,
    granularity: Granularity,
    base_level: Option<Level>,
)
    requires
        base_level matches Some(level) ==> level <= 1,
        text.len() <= usize::MAX,
    ensures
        text_levels(text, granularity, base_level).len() == level_count(text, granularity),
{
    let chars = classified(text);
    lemma_levels_len(classes_of(chars), bracket_entries(chars), base_level);
    lemma_expanded_len(resolved_levels(chars, base_level), text);
}

/// The levels of every run stay at or under `run_bound`, and a class at
/// such a level takes a level at or under `limit`.
pub open spec fn levels_limited(runs: Seq<Run>, run_bound: u8, limit: u8) -> bool {
    &&& forall|k: int| 0 <= k < runs.len() ==> (#[trigger] runs[k]).level <= run_bound
    &&& forall|level: u8, t: Type|
        level <= run_bound ==> #[trigger] implicit_level(level, t) <= limit
}

/// Writing the implicit levels of a sequence keeps every level at or
/// under the limit of the sequence's level.
pub proof fn lemma_levels_written_bound(
    levels: Seq<u8>,
    indices: Seq<usize>,
    types: Seq<Type>,
    level: u8,
    count: int,
    limit: u8,
)
    requires
        forall|t: Type| #[trigger] implicit_level(level, t) <= limit,
        count <= indices.len(),
        forall|k: int| 0 <= k < count ==> indices[k] < levels.len(),
        forall|i: int| 0 <= i < levels.len() ==> levels[i] <= limit,
    ensures
        levels_written(levels, indices, types, level, count).len() == levels.len(),
        forall|i: int|
            0 <= i < levels.len() ==> #[trigger] levels_written(
                levels,
                indices,
                types,
                level,
                count,
            )[i] <= limit,
    decreases count,
{
    if count > 0 {
        lemma_levels_written_bound(levels, indices, types, level, count - 1, limit);
        assert(implicit_level(level, types[count - 1]) <= limit);
    }
}

/// Resolving sequences keeps every level at or under the limit of the
/// levels of the runs.
pub proof fn lemma_sequences_resolved_bound(
    levels: Seq<u8>,
    types: Seq<Type>,
    classes: Seq<Type>,
    entries: Seq<(usize, char, BracketType)>,
    runs: Seq<Run>,
    count: int,
    run_bound: u8,
    limit: u8,
)
    requires
        types.len() == levels.len(),
        types.len() <= usize::MAX,
        runs_wf(runs, types.len() as int),
        levels_limited(runs, run_bound, limit),
        count <= runs.len(),
        forall|i: int| 0 <= i < levels.len() ==> levels[i] <= limit,
    ensures
        sequences_resolved(levels, types, classes, entries, runs, count).len() == levels.len(),
        forall|i: int|
            0 <= i < levels.len() ==> #[trigger] sequences_resolved(
                levels,
                types,
                classes,
                entries,
                runs,
                count,
            )[i] <= limit,
    decreases count,
{
    if count > 0 {
        lemma_sequences_resolved_bound(
            levels,
            types,
            classes,
            entries,
            runs,
            count - 1,
            run_bound,
            limit,
        );
        let before = sequences_resolved(levels, types, classes, entries, runs, count - 1);
        let run = runs[count - 1];
        if !run.in_sequence {
            let indices = chain_indices(types, runs, count - 1);
            lemma_chain_indices(types, runs, count - 1);
            let resolved = sequence_classes(
                originals_of(types, indices),
                originals_of(classes, indices),
                marks_of(entries, indices),
                run.level,
                run.sos,
                chain_eos(runs, count - 1),
            );
            assert forall|t: Type| #[trigger] implicit_level(run.level, t) <= limit by {
            }
            lemma_levels_written_bound(
                before,
                indices,
                resolved,
                run.level,
                indices.len() as int,
                limit,
            );
        }
    }
}

/// The level that a removed character inherits is the paragraph level or
/// a level of the paragraph.
pub proof fn lemma_inherited_level_bound(
    levels: Seq<u8>,
    classes: Seq<Type>,
    base: u8,
    at: int,
    bound: u8,
)
    requires
        at <= levels.len(),
        base <= bound,
        forall|i: int| 0 <= i < levels.len() ==> levels[i] <= bound,
    ensures
        inherited_level(levels, classes, base, at) <= bound,
    decreases at,
{
    if at > 0 {
        lemma_inherited_level_bound(levels, classes, base, at - 1, bound);
    }
}

/// No level of a paragraph is above `limit`, where no explicit level is
/// above `run_bound` and no class takes a level above `limit` at such a
/// level.
pub proof fn lemma_levels_limited(
    classes: Seq<Type>,
    entries: Seq<(usize, char, BracketType)>,
    base_level: Option<Level>,
    run_bound: u8,
    limit: u8,
)
    requires
        base_level matches Some(level) ==> level <= 1,
        classes.len() <= usize::MAX,
        1 <= run_bound <= 125,
        run_bound <= limit,
        forall|i: int|
            0 <= i < classes.len() ==> explicit_level(
                classes,
                base_level_of(classes, base_level),
                i,
            ) <= run_bound,
        forall|level: u8, t: Type|
            level <= run_bound ==> #[trigger] implicit_level(level, t) <= limit,
    ensures
        forall|i: int|
            0 <= i < classes.len() ==> #[trigger] levels_of(classes, entries, base_level)[i]
                <= limit,
{
    let base = base_level_of(classes, base_level);
    lemma_base_level(classes, base_level);
    lemma_levels_len(classes, entries, base_level);
    let types = explicit_classes(classes, base);
    let explicit = explicit_levels(classes, base);
    let runs = isolating_runs(types, classes, explicit, base);
    assert forall|i: int| 0 <= i < explicit.len() implies explicit[i] <= 125 by {
        lemma_explicit_level(classes, base, i);
    }
    lemma_isolating_runs(types, classes, explicit, base);
    lemma_level_runs(types, explicit, run_bound);
    assert forall|k: int| 0 <= k < runs.len() implies (#[trigger] runs[k]).level <= run_bound by {
        let raw = level_runs(types, explicit);
        assert(run_levelled(raw[k], 0, types.len() as int, run_bound));
    }
    lemma_sequences_resolved_bound(
        explicit,
        types,
        classes,
        entries,
        runs,
        runs.len() as int,
        run_bound,
        limit,
    );
    let implicit = sequences_resolved(explicit, types, classes, entries, runs, runs.len() as int);
    assert forall|i: int| 0 <= i < classes.len() implies #[trigger] levels_of(
        classes,
        entries,
        base_level,
    )[i] <= limit by {
        lemma_inherited_level_bound(implicit, classes, base, i, limit);
    }
}

/// Range: no level of a paragraph is above 126, the highest embedding
/// level with the level that a character can take above it.
pub proof fn lemma_levels_bound(
    classes: Seq<Type>,
    entries: Seq<(usize, char, BracketType)>,
    base_level: Option<Level>,
)
    requires
        base_level matches Some(level) ==> level <= 1,
        classes.len() <= usize::MAX,
    ensures
        forall|i: int|
            0 <= i < classes.len() ==> #[trigger] levels_of(classes, entries, base_level)[i]
                <= 126,
{
    let base = base_level_of(classes, base_level);
    lemma_base_level(classes, base_level);
    assert forall|i: int| 0 <= i < classes.len() implies explicit_level(classes, base, i)
        <= 125 by {
        lemma_explicit_level(classes, base, i);
    }
    lemma_levels_limited(classes, entries, base_level, 125, 126);
}

/// The number of explicit initiators before position `at`: embedding,
/// override and isolate initiators.
pub open spec fn initiator_count(classes: Seq<Type>, at: int) -> nat
    decreases at,
{
    if at <= 0 {
        0
    } else {
        initiator_count(classes, at - 1) + if classes[at - 1].is_explicit() {
            1nat
        } else {
            0nat
        }
    }
}

/// No entry of a stack has a level above the bound.
pub open spec fn stack_within(e: Embedding, bound: int) -> bool {
    forall|k: int| 0 <= k < e.stack.len() ==> (#[trigger] e.stack[k]).level <= bound
}

/// Every initiator raises the level by two at most.
pub proof fn lemma_embedding_depth(classes: Seq<Type>, base: u8, at: int)
    requires
        base <= 1,
        at <= classes.len(),
    ensures
        stack_within(
            embedding_before(classes, base, at),
            base + 2 * initiator_count(classes, at),
        ),
    decreases at,
{
    if at > 0 {
        lemma_embedding_depth(classes, base, at - 1);
        lemma_embedding_before(classes, base, at - 1);
        let e = embedding_before(classes, base, at - 1);
        let next = embedding_step(e, classes, at - 1);
        let bound = base + 2 * initiator_count(classes, at);
        let t = classes[at - 1];
        if t.0 == PDI && e.overflow_isolates == 0 && e.valid_isolates > 0 {
            lemma_closed_isolate(e.stack);
        }
        assert forall|k: int| 0 <= k < next.stack.len() implies (#[trigger] next.stack[k]).level
            <= bound by {
            if k < e.stack.len() {
                assert(next.stack[k] == e.stack[k]);
            }
        }
    }
}

/// The number of initiators grows with the position.
pub proof fn lemma_initiator_count(classes: Seq<Type>, at: int, to: int)
    requires
        at <= to,
    ensures
        initiator_count(classes, at) <= initiator_count(classes, to),
    decreases to - at,
{
    if at < to {
        lemma_initiator_count(classes, at, to - 1);
    }
}

/// Range: no level of a paragraph with at most 61 explicit initiators is
/// above 125. From 62 initiators on a level can be 126.
pub proof fn lemma_levels_within_depth(
    classes: Seq<Type>,
    entries: Seq<(usize, char, BracketType)>,
    base_level: Option<Level>,
)
    requires
        base_level matches Some(level) ==> level <= 1,
        classes.len() <= usize::MAX,
        initiator_count(classes, classes.len() as int) <= 61,
    ensures
        forall|i: int|
            0 <= i < classes.len() ==> #[trigger] levels_of(classes, entries, base_level)[i]
                <= 125,
{
    let base = base_level_of(classes, base_level);
    lemma_base_level(classes, base_level);
    assert forall|i: int| 0 <= i < classes.len() implies explicit_level(classes, base, i)
        <= 123 by {
        lemma_embedding_depth(classes, base, i);
        lemma_embedding_depth(classes, base, i + 1);
        lemma_embedding_before(classes, base, i);
        lemma_embedding_before(classes, base, i + 1);
        lemma_initiator_count(classes, i, classes.len() as int);
        lemma_initiator_count(classes, i + 1, classes.len() as int);
    }
    lemma_levels_limited(classes, entries, base_level, 123, 125);
}

/// Range: no level of a text is above 126, at either granularity.
pub proof fn lemma_text_levels_bound(
    text: Seq<char>,
    granularity: Granularity,
    base_level: Option<Level>,
)
    requires
        base_level matches Some(level) ==> level <= 1,
        text.len() <= usize::MAX,
    ensures
        forall|i: int|
            0 <= i < text_levels(text, granularity, base_level).len() ==> #[trigger] text_levels(
                text,
                granularity,
                base_level,
            )[i] <= 126,
{
    let chars = classified(text);
    lemma_levels_len(classes_of(chars), bracket_entries(chars), base_level);
    lemma_levels_bound(classes_of(chars), bracket_entries(chars), base_level);
    lemma_expanded_bound(resolved_levels(chars, base_level), text, 126);
}

/// L1: a segment separator and a paragraph separator have the base level
/// of their paragraph.
pub proof fn lemma_separator_level(
    chars: Seq<(char, Type)>,
    base_level: Option<Level>,
    at: int,
)
    requires
        base_level matches Some(level) ==> level <= 1,
        chars.len() <= usize::MAX,
        0 <= at < chars.len(),
        is_line_separator(chars[at].1),
    ensures
        resolved_levels(chars, base_level)[at] == base_level_of(classes_of(chars), base_level),
{
    lemma_levels_len(classes_of(chars), bracket_entries(chars), base_level);
    lemma_needs_resolving(classes_of(chars), at);
}

/// L1: whitespace and isolate controls at the end of a paragraph have the
/// base level of the paragraph. The end of the paragraph is what follows
/// the last character that is neither resettable nor removed by rule X9.
pub proof fn lemma_trailing_level(chars: Seq<(char, Type)>, base_level: Option<Level>, at: int)
    requires
        base_level matches Some(level) ==> level <= 1,
        chars.len() <= usize::MAX,
        0 <= at < chars.len(),
        chars[at].1.spec_is_resettable(),
        forall|j: int|
            at < j < chars.len() ==> chars[j].1.spec_is_resettable() || chars[j].1.spec_is_ignored(),
    ensures
        resolved_levels(chars, base_level)[at] == base_level_of(classes_of(chars), base_level),
{
    let classes = classes_of(chars);
    lemma_levels_len(classes, bracket_entries(chars), base_level);
    lemma_reset_ahead_clear(classes, at + 1, classes.len() as int, classes.len() as int, true);
}

/// The brackets recorded for a paragraph stand in the order of the
/// paragraph, and what is recorded for a character is its bracket
/// property: nothing for a character that is no bracket.
pub proof fn lemma_bracket_entries(chars: Seq<(char, Type)>)
    requires
        chars.len() <= usize::MAX,
    ensures
        entries_ascending(bracket_entries(chars)),
        forall|k: int|
            0 <= k < bracket_entries(chars).len() ==> (#[trigger] bracket_entries(chars)[k]).0
                < chars.len(),
        forall|i: int|
            0 <= i < chars.len() ==> #[trigger] entry_of(bracket_entries(chars), i as usize) == (
            if bracket(chars[i].0) == BracketType::Neither {
                None
            } else {
                Some((chars[i].0, bracket(chars[i].0)))
            }),
    decreases chars.len(),
{
    if chars.len() > 0 {
        let rest = chars.drop_last();
        lemma_bracket_entries(rest);
        let before = bracket_entries(rest);
        let entries = bracket_entries(chars);
        let last = chars.len() - 1;
        if bracket(chars.last().0) != BracketType::Neither {
            assert(entries.drop_last() =~= before);
            assert forall|a: int, b: int| 0 <= a < b < entries.len() implies entries[a].0
                < entries[b].0 by {
                assert(entries[a] == before[a]);
                if b < before.len() {
                    assert(entries[b] == before[b]);
                }
            }
            assert forall|k: int| 0 <= k < entries.len() implies (#[trigger] entries[k]).0
                < chars.len() by {
                if k < before.len() {
                    assert(entries[k] == before[k]);
                }
            }
        } else {
            lemma_entry_missing(before, last as usize);
        }
        assert forall|i: int| 0 <= i < chars.len() implies #[trigger] entry_of(
            entries,
            i as usize,
        ) == (if bracket(chars[i].0) == BracketType::Neither {
            None
        } else {
            Some((chars[i].0, bracket(chars[i].0)))
        }) by {
            if i < last {
                assert(rest[i] == chars[i]);
                assert(entry_of(before, i as usize) == (if bracket(rest[i].0)
                    == BracketType::Neither {
                    None
                } else {
                    Some((rest[i].0, bracket(rest[i].0)))
                }));
            }
        }
    }
}

/// A class that needs resolving makes its paragraph need resolving.
pub proof fn lemma_needs_resolving(classes: Seq<Type>, at: int)
    requires
        0 <= at < classes.len(),
    ensures
        classes[at].needs_bidi() ==> crate::state::needs_resolving(classes),
    decreases classes.len(),
{
    if at < classes.len() - 1 {
        lemma_needs_resolving(classes.drop_last(), at);
    }
}

/// Reuse of a state: two results for one paragraph are the same, whatever
/// the states held that resolved them.
pub proof fn lemma_state_reuse(
    chars: Seq<(char, Type)>,
    base_level: Option<Level>,
    first: Resolved<Level>,
    second: Resolved<Level>,
)
    requires
        resolved_as(chars, base_level, first),
        resolved_as(chars, base_level, second),
    ensures
        first.granularity == second.granularity,
        first.base_level == second.base_level,
        first.levels@ == second.levels@,
{
}

/// Granularity: the levels of a text per byte are its levels per
/// character, each repeated for every byte of its character.
pub proof fn lemma_granularity(text: Seq<char>, base_level: Option<Level>)
    ensures
        text_levels(text, Granularity::Byte, base_level) == expanded(
            text_levels(text, Granularity::Char, base_level),
            text,
        ),
{
}

} // verus!
