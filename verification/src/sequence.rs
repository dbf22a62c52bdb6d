//! Isolating run sequences: their characters, and the rules W1 to I2 on
//! one sequence.

use vstd::prelude::*;
use crate::bidi_classes::ON;
use crate::bracket_data::BracketType;
use crate::brackets::{
    brackets_resolved, entries_ascending, marks_of, originals_of, resolve_brackets,
};
use crate::data::{is_removed_by_x9, Type};
use crate::implicit::{assign_levels, levels_written};
use crate::neutral::{neutrals_resolved, resolve_neutrals};
use crate::runs::{runs_wf, Run};
use crate::weak::{resolve_weak, weak_resolved};

verus! {

/// The kept positions of `[from, to)`, in order.
pub open spec fn kept_indices(types: Seq<Type>, from: int, to: int) -> Seq<usize>
    decreases to - from,
{
    if from >= to {
        Seq::empty()
    } else if types[to - 1].spec_is_ignored() {
        kept_indices(types, from, to - 1)
    } else {
        kept_indices(types, from, to - 1).push((to - 1) as usize)
    }
}

/// The positions of the sequence that the run at `cur` begins or
/// continues: the kept positions of the run, then those of the runs that
/// continue it.
pub open spec fn chain_indices(types: Seq<Type>, runs: Seq<Run>, cur: int) -> Seq<usize>
    decreases runs.len() - cur,
{
    if cur < 0 || cur >= runs.len() {
        Seq::empty()
    } else {
        let here = kept_indices(types, runs[cur].start as int, runs[cur].end as int);
        let next = runs[cur].next;
        if next is Some && cur < next->0 < runs.len() {
            here + chain_indices(types, runs, next->0 as int)
        } else {
            here
        }
    }
}

/// The direction at the end of the sequence that the run at `cur` begins
/// or continues: that of its last run.
pub open spec fn chain_eos(runs: Seq<Run>, cur: int) -> Type
    decreases runs.len() - cur,
{
    if cur < 0 || cur >= runs.len() {
        Type(ON)
    } else {
        let next = runs[cur].next;
        if next is Some && cur < next->0 < runs.len() {
            chain_eos(runs, next->0 as int)
        } else {
            runs[cur].eos
        }
    }
}

/// The classes of a sequence behind the rules W1 to W7, N0, N1 and N2.
pub open spec fn sequence_classes(
    types: Seq<Type>,
    originals: Seq<Type>,
    marks: Seq<Option<(char, BracketType)>>,
    level: u8,
    sos: Type,
    eos: Type,
) -> Seq<Type> {
    neutrals_resolved(
        brackets_resolved(weak_resolved(types, sos, eos), originals, marks, level, sos),
        level,
        sos,
        eos,
    )
}

/// The levels of a paragraph once the sequence at the given positions has
/// been resolved: each position of the sequence has the implicit level of
/// its resolved class.
pub open spec fn sequence_resolved(
    levels: Seq<u8>,
    types: Seq<Type>,
    classes: Seq<Type>,
    entries: Seq<(usize, char, BracketType)>,
    indices: Seq<usize>,
    level: u8,
    sos: Type,
    eos: Type,
) -> Seq<u8> {
    let resolved = sequence_classes(
        originals_of(types, indices),
        originals_of(classes, indices),
        marks_of(entries, indices),
        level,
        sos,
        eos,
    );
    levels_written(levels, indices, resolved, level, indices.len() as int)
}

/// The levels of a paragraph once the sequences that begin with one of
/// the first `count` runs have been resolved, in the order of the runs.
pub open spec fn sequences_resolved(
    levels: Seq<u8>,
    types: Seq<Type>,
    classes: Seq<Type>,
    entries: Seq<(usize, char, BracketType)>,
    runs: Seq<Run>,
    count: int,
) -> Seq<u8>
    decreases count,
{
    if count <= 0 {
        levels
    } else {
        let before = sequences_resolved(levels, types, classes, entries, runs, count - 1);
        let run = runs[count - 1];
        if run.in_sequence {
            before
        } else {
            sequence_resolved(
                before,
                types,
                classes,
                entries,
                chain_indices(types, runs, count - 1),
                run.level,
                run.sos,
                chain_eos(runs, count - 1),
            )
        }
    }
}

/// The kept positions of a stretch lie inside it, and rule X9 keeps the
/// character at each of them.
pub proof fn lemma_kept_indices(types: Seq<Type>, from: int, to: int)
    requires
        0 <= from <= to <= usize::MAX,
    ensures
        kept_indices(types, from, to).len() <= to - from,
        forall|k: int|
            0 <= k < kept_indices(types, from, to).len() ==> from <= #[trigger] kept_indices(
                types,
                from,
                to,
            )[k] < to && !types[kept_indices(types, from, to)[k] as int].spec_is_ignored(),
    decreases to - from,
{
    if from < to {
        lemma_kept_indices(types, from, to - 1);
        let before = kept_indices(types, from, to - 1);
        let all = kept_indices(types, from, to);
        assert forall|k: int| 0 <= k < all.len() implies from <= #[trigger] all[k] < to
            && !types[all[k] as int].spec_is_ignored() by {
            if k < before.len() {
                assert(all[k] == before[k]);
            }
        }
    }
}

/// Resolving sequences keeps the number of levels.
pub proof fn lemma_sequences_resolved_len(
    levels: Seq<u8>,
    types: Seq<Type>,
    classes: Seq<Type>,
    entries: Seq<(usize, char, BracketType)>,
    runs: Seq<Run>,
    count: int,
)
    requires
        types.len() == levels.len(),
        types.len() <= usize::MAX,
        runs_wf(runs, types.len() as int),
        count <= runs.len(),
    ensures
        sequences_resolved(levels, types, classes, entries, runs, count).len() == levels.len(),
    decreases count,
{
    if count > 0 {
        lemma_sequences_resolved_len(levels, types, classes, entries, runs, count - 1);
        let before = sequences_resolved(levels, types, classes, entries, runs, count - 1);
        let run = runs[count - 1];
        if !run.in_sequence {
            let indices = chain_indices(types, runs, count - 1);
            lemma_chain_indices(types, runs, count - 1);
            let resolved = sequence_classes(
                originals_of(types, indices),
                originals_of(classes, indices),
                marks_of(entries, indices),
                run.level,
                run.sos,
                chain_eos(runs, count - 1),
            );
            crate::implicit::lemma_levels_written_len(
                before,
                indices,
                resolved,
                run.level,
                indices.len() as int,
            );
        }
    }
}

/// The positions of a sequence are positions of the paragraph.
pub proof fn lemma_chain_indices(types: Seq<Type>, runs: Seq<Run>, cur: int)
    requires
        types.len() <= usize::MAX,
        runs_wf(runs, types.len() as int),
    ensures
        forall|k: int|
            0 <= k < chain_indices(types, runs, cur).len() ==> #[trigger] chain_indices(
                types,
                runs,
                cur,
            )[k] < types.len(),
    decreases runs.len() - cur,
{
    if 0 <= cur < runs.len() {
        let here = kept_indices(types, runs[cur].start as int, runs[cur].end as int);
        lemma_kept_indices(types, runs[cur].start as int, runs[cur].end as int);
        let next = runs[cur].next;
        let all = chain_indices(types, runs, cur);
        if next is Some && cur < next->0 < runs.len() {
            lemma_chain_indices(types, runs, next->0 as int);
            let rest = chain_indices(types, runs, next->0 as int);
            assert forall|k: int| 0 <= k < all.len() implies #[trigger] all[k] < types.len() by {
                if k < here.len() {
                    assert(all[k] == here[k]);
                } else {
                    assert(all[k] == rest[k - here.len()]);
                }
            }
        }
    }
}

/// Collects the positions and the classes of the sequence that begins
/// with the run at `first`, and returns the direction at its end.
pub fn collect_sequence(
    types: &Vec<Type>,
    runs: &Vec<Run>,
    first: usize,
    indices: &mut Vec<usize>,
    sequence_types: &mut Vec<Type>,
) -> (eos: Type)
    requires
        runs_wf(runs@, types.len() as int),
        first < runs.len(),
    ensures
        final(indices)@ == chain_indices(types@, runs@, first as int),
        final(sequence_types)@ == originals_of(types@, final(indices)@),
        eos == chain_eos(runs@, first as int),
        forall|k: int| 0 <= k < final(indices).len() ==> final(indices)@[k] < types.len(),
{
    indices.clear();
    sequence_types.clear();
    let mut cur = first;
    let mut eos = Type(ON);
    let mut done = false;
    assert(indices@ + chain_indices(types@, runs@, cur as int) =~= chain_indices(
        types@,
        runs@,
        first as int,
    ));
    while !done
        invariant
            runs_wf(runs@, types.len() as int),
            cur < runs.len(),
            indices.len() == sequence_types.len(),
            forall|k: int| 0 <= k < indices.len() ==> indices@[k] < types.len(),
            forall|k: int|
                0 <= k < indices.len() ==> sequence_types@[k] == types@[indices@[k] as int],
            !done ==> indices@ + chain_indices(types@, runs@, cur as int) == chain_indices(
                types@,
                runs@,
                first as int,
            ),
            !done ==> chain_eos(runs@, cur as int) == chain_eos(runs@, first as int),
            done ==> indices@ == chain_indices(types@, runs@, first as int),
            done ==> eos == chain_eos(runs@, first as int),
        decreases runs.len() - cur + (if done { 0int } else { 1int }),
    {
        let run = runs[cur];
        let ghost before = indices@;
        let mut p: usize = run.start;
        while p < run.end
            invariant
                run.start <= p <= run.end <= types.len(),
                indices.len() == sequence_types.len(),
                forall|k: int| 0 <= k < indices.len() ==> indices@[k] < types.len(),
                forall|k: int|
                    0 <= k < indices.len() ==> sequence_types@[k] == types@[indices@[k] as int],
                indices@ == before + kept_indices(types@, run.start as int, p as int),
            decreases run.end - p,
        {
            let ty = types[p];
            if !is_removed_by_x9(ty) {
                sequence_types.push(ty);
                indices.push(p);
                assert(indices@ =~= before + kept_indices(types@, run.start as int, p + 1));
            }
            p += 1;
        }
        eos = run.eos;
        let ghost here = kept_indices(types@, run.start as int, run.end as int);
        match run.next {
            Some(next) => {
                assert(cur < next < runs.len());
                assert((before + here) + chain_indices(types@, runs@, next as int) =~= before + (
                here + chain_indices(types@, runs@, next as int)));
                cur = next;
            },
            None => {
                done = true;
            },
        }
    }
    assert(sequence_types@ =~= originals_of(types@, indices@));
    eos
}

/// Resolves the levels of one sequence: rules W1 to W7, N0, N1, N2, I1
/// and I2.
pub fn resolve_sequence(
    sequence_types: &mut Vec<Type>,
    indices: &Vec<usize>,
    initial_classes: &Vec<Type>,
    brackets: &Vec<(usize, char, BracketType)>,
    bracket_pairs: &mut Vec<(usize, usize)>,
    level: u8,
    sos: Type,
    eos: Type,
    levels: &mut Vec<u8>,
)
    requires
        level <= 125,
        old(sequence_types).len() == indices.len(),
        old(levels).len() == initial_classes.len(),
        forall|i: int| 0 <= i < indices.len() ==> indices[i] < initial_classes.len(),
        entries_ascending(brackets@),
    ensures
        final(levels)@ == levels_written(
            old(levels)@,
            indices@,
            sequence_classes(
                old(sequence_types)@,
                originals_of(initial_classes@, indices@),
                marks_of(brackets@, indices@),
                level,
                sos,
                eos,
            ),
            level,
            indices.len() as int,
        ),
        final(levels).len() == old(levels).len(),
{
    if indices.len() == 0 {
        return ;
    }
    resolve_weak(sequence_types, sos, eos);
    resolve_brackets(sequence_types, indices, initial_classes, brackets, bracket_pairs, level, sos);
    resolve_neutrals(sequence_types, level, sos, eos);
    assign_levels(sequence_types, indices, level, levels);
}

} // verus!
