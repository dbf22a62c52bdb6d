//! Level runs and their linking into isolating run sequences: rules X9,
//! X10 and definition BD13.

use vstd::prelude::*;
use crate::bidi_classes::{ON, PDI};
use crate::data::{class_from_level, is_isolate_initiator, is_removed_by_x9, level_class, Type};

verus! {

/// A level run: a stretch `[start, end)` of a paragraph at one embedding
/// level, with what the rules need to know of its surroundings.
#[derive(Clone, Copy)]
pub struct Run {
    /// The embedding level of the run.
    pub level: u8,
    /// The last character of the run is an isolate initiator.
    pub ends_with_isolate: bool,
    /// The first character of the run is a `PDI`.
    pub starts_with_pdi: bool,
    /// The direction at the start of a sequence that begins with this run.
    pub sos: Type,
    /// The direction at the end of a sequence that ends with this run.
    pub eos: Type,
    /// The first position of the run.
    pub start: usize,
    /// The position behind the last one of the run.
    pub end: usize,
    /// The run continues a sequence that an earlier run began.
    pub in_sequence: bool,
    /// The run that continues the sequence behind this one.
    pub next: Option<usize>,
}

/// A run of which only the level and the bounds are known.
pub open spec fn fresh_run(level: u8, start: usize, end: usize) -> Run {
    Run {
        level,
        ends_with_isolate: false,
        starts_with_pdi: false,
        sos: Type(ON),
        eos: Type(ON),
        start,
        end,
        in_sequence: false,
        next: None,
    }
}

impl Run {
    /// Creates a run from its level and bounds.
    pub fn new(level: u8, start: usize, end: usize) -> (run: Run)
        ensures
            run == fresh_run(level, start, end),
    {
        Run {
            level,
            ends_with_isolate: false,
            starts_with_pdi: false,
            sos: Type(ON),
            eos: Type(ON),
            start,
            end,
            in_sequence: false,
            next: None,
        }
    }
}

/// The first position at or after `from` and before `limit` that rule X9
/// keeps; `limit` where it keeps none.
pub open spec fn next_kept(types: Seq<Type>, from: int, limit: int) -> int
    decreases limit - from,
{
    if from < limit && types[from].spec_is_ignored() {
        next_kept(types, from + 1, limit)
    } else {
        from
    }
}

/// The position behind the last position before `to` and at or after
/// `limit` that rule X9 keeps; `limit` where it keeps none.
pub open spec fn last_kept(types: Seq<Type>, limit: int, to: int) -> int
    decreases to - limit,
{
    if limit < to && types[to - 1].spec_is_ignored() {
        last_kept(types, limit, to - 1)
    } else {
        to
    }
}

/// The first kept position at or after `from` whose level is not `level`;
/// the length of the paragraph where there is none.
pub open spec fn run_limit(types: Seq<Type>, levels: Seq<u8>, from: int, level: u8) -> int
    decreases types.len() - from,
{
    if from < 0 || from >= types.len() {
        types.len() as int
    } else if !types[from].spec_is_ignored() && levels[from] != level {
        from
    } else {
        run_limit(types, levels, from + 1, level)
    }
}

/// The level runs from `offset` on, where the run at `offset` has the
/// level `level`. A run reaches up to the next kept character of another
/// level; removed characters in between belong to it.
pub open spec fn level_runs_from(types: Seq<Type>, levels: Seq<u8>, offset: int, level: u8) -> Seq<
    Run,
>
    decreases types.len() - offset,
{
    if offset < 0 || offset >= types.len() {
        Seq::empty()
    } else {
        let limit = run_limit(types, levels, offset + 1, level);
        let run = fresh_run(level, offset as usize, limit as usize);
        if offset < limit < types.len() {
            seq![run] + level_runs_from(types, levels, limit, levels[limit])
        } else {
            seq![run]
        }
    }
}

/// The level runs of a paragraph, in order. A paragraph of which rule X9
/// keeps nothing has none.
pub open spec fn level_runs(types: Seq<Type>, levels: Seq<u8>) -> Seq<Run> {
    let first = next_kept(types, 0, types.len() as int);
    if first >= types.len() {
        Seq::empty()
    } else {
        level_runs_from(types, levels, 0, levels[first])
    }
}

/// The level of the nearest kept position before `at`, or the paragraph
/// level where there is none.
pub open spec fn level_before(types: Seq<Type>, levels: Seq<u8>, base: u8, at: int) -> u8
    decreases at,
{
    if at <= 0 {
        base
    } else if !types[at - 1].spec_is_ignored() {
        levels[at - 1]
    } else {
        level_before(types, levels, base, at - 1)
    }
}

/// The level of the first kept position at or after `at`, or the
/// paragraph level where there is none.
pub open spec fn level_after(types: Seq<Type>, levels: Seq<u8>, base: u8, at: int) -> u8
    decreases types.len() - at,
{
    if at < 0 || at >= types.len() {
        base
    } else if !types[at].spec_is_ignored() {
        levels[at]
    } else {
        level_after(types, levels, base, at + 1)
    }
}

/// The higher of two levels.
pub open spec fn higher(a: u8, b: u8) -> u8 {
    if a >= b {
        a
    } else {
        b
    }
}

/// A level run with its bounds drawn in to the kept characters and its
/// surroundings filled in.
///
/// `sos` is the direction of the higher of the run's level and the level
/// before the run. `eos` is the direction of the higher of the run's
/// level and the level behind the run; behind an isolate initiator the
/// paragraph level stands for the level behind the run.
pub open spec fn bounded_run(
    types: Seq<Type>,
    classes: Seq<Type>,
    levels: Seq<u8>,
    base: u8,
    run: Run,
) -> Run {
    let start = next_kept(types, run.start as int, run.end as int);
    let end = last_kept(types, start, run.end as int);
    if start == end {
        fresh_run(run.level, start as usize, end as usize)
    } else {
        let isolate = classes[end - 1].is_isolate_initiator();
        Run {
            level: run.level,
            ends_with_isolate: isolate,
            starts_with_pdi: types[start].0 == PDI,
            sos: level_class(higher(level_before(types, levels, base, start), run.level)),
            eos: if isolate {
                level_class(higher(base, run.level))
            } else {
                level_class(higher(level_after(types, levels, base, end), run.level))
            },
            start: start as usize,
            end: end as usize,
            in_sequence: false,
            next: None,
        }
    }
}

/// The level runs of a paragraph, bounded.
pub open spec fn bounded_runs(types: Seq<Type>, classes: Seq<Type>, levels: Seq<u8>, base: u8) -> Seq<
    Run,
> {
    let runs = level_runs(types, levels);
    Seq::new(runs.len(), |k: int| bounded_run(types, classes, levels, base, runs[k]))
}

/// The first run at or after `from` that starts with a `PDI` at the given
/// level.
pub open spec fn next_run(runs: Seq<Run>, from: int, level: u8) -> Option<usize>
    decreases runs.len() - from,
{
    if from < 0 || from >= runs.len() {
        None
    } else if runs[from].starts_with_pdi && runs[from].level == level {
        Some(from as usize)
    } else {
        next_run(runs, from + 1, level)
    }
}

/// The run that continues the sequence behind the run at `at`: for a run
/// that ends with an isolate initiator, the first later run of its level
/// that starts with a `PDI`.
pub open spec fn continuation(runs: Seq<Run>, at: int) -> Option<usize> {
    if runs[at].ends_with_isolate {
        next_run(runs, at + 1, runs[at].level)
    } else {
        None
    }
}

/// One of the first `count` runs is continued by the run at `at`.
pub open spec fn continues(runs: Seq<Run>, at: int, count: int) -> bool
    decreases count,
{
    if count <= 0 {
        false
    } else {
        continues(runs, at, count - 1) || continuation(runs, count - 1) == Some(at as usize)
    }
}

/// The runs with their links: each run knows the run that continues it
/// and whether it continues another.
pub open spec fn linked_runs(runs: Seq<Run>) -> Seq<Run> {
    Seq::new(
        runs.len(),
        |k: int|
            Run {
                next: continuation(runs, k),
                in_sequence: continues(runs, k, runs.len() as int),
                ..runs[k]
            },
    )
}

/// The runs of a paragraph, bounded and linked into isolating run
/// sequences.
pub open spec fn isolating_runs(types: Seq<Type>, classes: Seq<Type>, levels: Seq<u8>, base: u8) -> Seq<
    Run,
> {
    linked_runs(bounded_runs(types, classes, levels, base))
}

/// Every run lies inside the paragraph, begins before it ends or is
/// empty, and is continued, if at all, by a later run.
pub open spec fn runs_wf(runs: Seq<Run>, len: int) -> bool {
    forall|k: int|
        0 <= k < runs.len() ==> {
            &&& (#[trigger] runs[k]).start <= runs[k].end <= len
            &&& runs[k].level <= 125
            &&& runs[k].next matches Some(j) ==> k < j < runs.len()
        }
}

pub proof fn lemma_next_kept(types: Seq<Type>, from: int, limit: int)
    requires
        from <= limit,
    ensures
        from <= next_kept(types, from, limit) <= limit,
        forall|j: int| from <= j < next_kept(types, from, limit) ==> types[j].spec_is_ignored(),
        next_kept(types, from, limit) < limit ==> !types[next_kept(
            types,
            from,
            limit,
        )].spec_is_ignored(),
    decreases limit - from,
{
    if from < limit && types[from].spec_is_ignored() {
        lemma_next_kept(types, from + 1, limit);
    }
}

pub proof fn lemma_last_kept(types: Seq<Type>, limit: int, to: int)
    requires
        limit <= to,
    ensures
        limit <= last_kept(types, limit, to) <= to,
        forall|j: int| last_kept(types, limit, to) <= j < to ==> types[j].spec_is_ignored(),
        limit < last_kept(types, limit, to) ==> !types[last_kept(types, limit, to)
            - 1].spec_is_ignored(),
    decreases to - limit,
{
    if limit < to && types[to - 1].spec_is_ignored() {
        lemma_last_kept(types, limit, to - 1);
    }
}

pub proof fn lemma_run_limit(types: Seq<Type>, levels: Seq<u8>, from: int, level: u8)
    requires
        0 <= from <= types.len(),
    ensures
        from <= run_limit(types, levels, from, level) <= types.len(),
        run_limit(types, levels, from, level) < types.len() ==> !types[run_limit(
            types,
            levels,
            from,
            level,
        )].spec_is_ignored(),
    decreases types.len() - from,
{
    if from < types.len() && !(!types[from].spec_is_ignored() && levels[from] != level) {
        lemma_run_limit(types, levels, from + 1, level);
    }
}

/// A run reaches across removed characters and characters of its level.
pub proof fn lemma_run_limit_skip(types: Seq<Type>, levels: Seq<u8>, from: int, to: int, level: u8)
    requires
        0 <= from <= to <= types.len(),
        forall|j: int| from <= j < to ==> types[j].spec_is_ignored() || levels[j] == level,
    ensures
        run_limit(types, levels, from, level) == run_limit(types, levels, to, level),
    decreases to - from,
{
    if from < to {
        lemma_run_limit_skip(types, levels, from + 1, to, level);
    }
}

/// A level run is not empty, lies inside the paragraph, has a level that
/// does not exceed the bound, and knows nothing yet of its surroundings.
pub open spec fn run_levelled(run: Run, from: int, len: int, bound: u8) -> bool {
    &&& from <= run.start < run.end <= len
    &&& run.level <= bound
    &&& run == fresh_run(run.level, run.start, run.end)
}

/// Every level run from `offset` on is not empty and lies inside the
/// paragraph, and its level is one of the paragraph's levels.
pub proof fn lemma_level_runs_from(
    types: Seq<Type>,
    levels: Seq<u8>,
    offset: int,
    level: u8,
    bound: u8,
)
    requires
        0 <= offset,
        types.len() <= usize::MAX,
        types.len() == levels.len(),
        level <= bound,
        forall|i: int| 0 <= i < levels.len() ==> levels[i] <= bound,
    ensures
        forall|k: int|
            0 <= k < level_runs_from(types, levels, offset, level).len() ==> run_levelled(
                #[trigger] level_runs_from(types, levels, offset, level)[k],
                offset,
                types.len() as int,
                bound,
            ),
    decreases types.len() - offset,
{
    if offset < types.len() {
        let limit = run_limit(types, levels, offset + 1, level);
        lemma_run_limit(types, levels, offset + 1, level);
        if limit < types.len() {
            lemma_level_runs_from(types, levels, limit, levels[limit], bound);
            let rest = level_runs_from(types, levels, limit, levels[limit]);
            let all = level_runs_from(types, levels, offset, level);
            assert forall|k: int| 0 <= k < all.len() implies run_levelled(
                #[trigger] all[k],
                offset,
                types.len() as int,
                bound,
            ) by {
                if k > 0 {
                    assert(all[k] == rest[k - 1]);
                    assert(run_levelled(rest[k - 1], limit, types.len() as int, bound));
                }
            }
        }
    }
}

/// The level runs of a paragraph lie inside it, and none is empty.
pub proof fn lemma_level_runs(types: Seq<Type>, levels: Seq<u8>, bound: u8)
    requires
        types.len() <= usize::MAX,
        types.len() == levels.len(),
        forall|i: int| 0 <= i < levels.len() ==> levels[i] <= bound,
    ensures
        forall|k: int|
            0 <= k < level_runs(types, levels).len() ==> run_levelled(
                #[trigger] level_runs(types, levels)[k],
                0,
                types.len() as int,
                bound,
            ),
{
    let first = next_kept(types, 0, types.len() as int);
    lemma_next_kept(types, 0, types.len() as int);
    if first < types.len() {
        lemma_level_runs_from(types, levels, 0, levels[first], bound);
    }
}

/// The first run at or after `from` that is found is a run at or after
/// `from`.
pub proof fn lemma_next_run(runs: Seq<Run>, from: int, level: u8)
    requires
        0 <= from,
        runs.len() <= usize::MAX,
    ensures
        next_run(runs, from, level) matches Some(j) ==> from <= j < runs.len()
            && runs[j as int].starts_with_pdi && runs[j as int].level == level,
    decreases runs.len() - from,
{
    if from < runs.len() && !(runs[from].starts_with_pdi && runs[from].level == level) {
        lemma_next_run(runs, from + 1, level);
    }
}

/// The isolating runs of a paragraph are well-formed, where its levels
/// are at most 125.
pub proof fn lemma_isolating_runs(types: Seq<Type>, classes: Seq<Type>, levels: Seq<u8>, base: u8)
    requires
        types.len() <= usize::MAX,
        types.len() == levels.len(),
        base <= 125,
        forall|i: int| 0 <= i < levels.len() ==> levels[i] <= 125,
    ensures
        runs_wf(isolating_runs(types, classes, levels, base), types.len() as int),
{
    let raw = level_runs(types, levels);
    let bounded = bounded_runs(types, classes, levels, base);
    let runs = isolating_runs(types, classes, levels, base);
    lemma_level_runs(types, levels, 125);
    lemma_level_runs_count(types, levels);
    assert forall|k: int| 0 <= k < runs.len() implies {
        &&& (#[trigger] runs[k]).start <= runs[k].end <= types.len()
        &&& runs[k].level <= 125
        &&& runs[k].next matches Some(j) ==> k < j < runs.len()
    } by {
        let run = raw[k];
        assert(run_levelled(run, 0, types.len() as int, 125));
        lemma_next_kept(types, run.start as int, run.end as int);
        lemma_last_kept(types, next_kept(types, run.start as int, run.end as int), run.end as int);
        assert(bounded[k] == bounded_run(types, classes, levels, base, run));
        lemma_next_run(bounded, k + 1, bounded[k].level);
    }
}

/// A paragraph has no more level runs than characters.
pub proof fn lemma_level_runs_count(types: Seq<Type>, levels: Seq<u8>)
    requires
        types.len() <= usize::MAX,
        types.len() == levels.len(),
    ensures
        level_runs(types, levels).len() <= types.len(),
{
    let first = next_kept(types, 0, types.len() as int);
    lemma_next_kept(types, 0, types.len() as int);
    if first < types.len() {
        lemma_level_runs_from_count(types, levels, 0, levels[first]);
    }
}

proof fn lemma_level_runs_from_count(types: Seq<Type>, levels: Seq<u8>, offset: int, level: u8)
    requires
        0 <= offset <= types.len(),
    ensures
        level_runs_from(types, levels, offset, level).len() <= types.len() - offset,
    decreases types.len() - offset,
{
    if offset < types.len() {
        let limit = run_limit(types, levels, offset + 1, level);
        lemma_run_limit(types, levels, offset + 1, level);
        if limit < types.len() {
            lemma_level_runs_from_count(types, levels, limit, levels[limit]);
        }
    }
}

/// Finds the first kept position in `[start, end)`.
fn skip_removed(types: &Vec<Type>, start: usize, end: usize) -> (at: usize)
    requires
        start <= end <= types.len(),
    ensures
        at == next_kept(types@, start as int, end as int),
        start <= at <= end,
{
    let mut at = start;
    while at < end && is_removed_by_x9(types[at])
        invariant
            start <= at <= end <= types.len(),
            next_kept(types@, start as int, end as int) == next_kept(
                types@,
                at as int,
                end as int,
            ),
        decreases end - at,
    {
        at += 1;
    }
    at
}

/// Finds the position behind the last kept position in `[start, end)`.
fn skip_removed_back(types: &Vec<Type>, start: usize, end: usize) -> (at: usize)
    requires
        start <= end <= types.len(),
    ensures
        at == last_kept(types@, start as int, end as int),
        start <= at <= end,
{
    let mut at = end;
    while at > start && is_removed_by_x9(types[at - 1])
        invariant
            start <= at <= end <= types.len(),
            last_kept(types@, start as int, end as int) == last_kept(
                types@,
                start as int,
                at as int,
            ),
        decreases at - start,
    {
        at -= 1;
    }
    at
}

/// Finds the level of the nearest kept position before `at`.
fn find_level_before(types: &Vec<Type>, levels: &Vec<u8>, base: u8, at: usize) -> (level: u8)
    requires
        at <= types.len(),
        types.len() == levels.len(),
    ensures
        level == level_before(types@, levels@, base, at as int),
{
    let mut i = at;
    while i > 0
        invariant
            i <= at <= types.len(),
            types.len() == levels.len(),
            level_before(types@, levels@, base, at as int) == level_before(
                types@,
                levels@,
                base,
                i as int,
            ),
        decreases i,
    {
        i -= 1;
        if !is_removed_by_x9(types[i]) {
            return levels[i];
        }
    }
    base
}

/// Finds the level of the first kept position at or after `at`.
fn find_level_after(types: &Vec<Type>, levels: &Vec<u8>, base: u8, at: usize) -> (level: u8)
    requires
        at <= types.len(),
        types.len() == levels.len(),
    ensures
        level == level_after(types@, levels@, base, at as int),
{
    let len = types.len();
    let mut i = at;
    while i < len
        invariant
            at <= i <= len,
            len == types.len(),
            types.len() == levels.len(),
            level_after(types@, levels@, base, at as int) == level_after(
                types@,
                levels@,
                base,
                i as int,
            ),
        decreases len - i,
    {
        if !is_removed_by_x9(types[i]) {
            return levels[i];
        }
        i += 1;
    }
    base
}

/// Returns the higher of two levels.
fn max_level(a: u8, b: u8) -> (m: u8)
    ensures
        m == higher(a, b),
{
    if a >= b {
        a
    } else {
        b
    }
}

/// Cuts a paragraph into its level runs.
pub fn find_level_runs(types: &Vec<Type>, levels: &Vec<u8>, runs: &mut Vec<Run>)
    requires
        types.len() == levels.len(),
    ensures
        final(runs)@ == level_runs(types@, levels@),
{
    let len = types.len();
    runs.clear();
    let start = skip_removed(types, 0, len);
    if start == len {
        return ;
    }
    let mut level = levels[start];
    let mut offset: usize = 0;
    proof {
        lemma_next_kept(types@, 0, len as int);
        lemma_run_limit_skip(types@, levels@, 1, start + 1, level);
        assert(runs@ + level_runs_from(types@, levels@, 0, level) =~= level_runs(
            types@,
            levels@,
        ));
    }
    let mut i: usize = start + 1;
    while i < len
        invariant
            len == types.len(),
            len == levels.len(),
            offset < i <= len,
            run_limit(types@, levels@, offset + 1, level) == run_limit(
                types@,
                levels@,
                i as int,
                level,
            ),
            runs@ + level_runs_from(types@, levels@, offset as int, level) == level_runs(
                types@,
                levels@,
            ),
        decreases len - i,
    {
        if !is_removed_by_x9(types[i]) && levels[i] != level {
            proof {
                let rest = level_runs_from(types@, levels@, i as int, levels@[i as int]);
                assert(level_runs_from(types@, levels@, offset as int, level) == seq![
                    fresh_run(level, offset, i),
                ] + rest);
                assert(runs@.push(fresh_run(level, offset, i)) + rest =~= runs@ + (seq![
                    fresh_run(level, offset, i),
                ] + rest));
            }
            runs.push(Run::new(level, offset, i));
            offset = i;
            level = levels[i];
        }
        i += 1;
    }
    proof {
        assert(level_runs_from(types@, levels@, offset as int, level) == seq![
            fresh_run(level, offset, len),
        ]);
        assert(runs@.push(fresh_run(level, offset, len)) =~= runs@ + seq![
            fresh_run(level, offset, len),
        ]);
    }
    runs.push(Run::new(level, offset, len));
}

/// Draws the bounds of every run in to its kept characters and fills in
/// its surroundings.
pub fn bound_runs(
    types: &Vec<Type>,
    classes: &Vec<Type>,
    levels: &Vec<u8>,
    base: u8,
    runs: &mut Vec<Run>,
)
    requires
        types.len() == levels.len(),
        types.len() == classes.len(),
        forall|k: int|
            0 <= k < old(runs).len() ==> run_levelled(
                #[trigger] old(runs)@[k],
                0,
                types.len() as int,
                255,
            ),
    ensures
        final(runs)@ == Seq::new(
            old(runs)@.len(),
            |k: int| bounded_run(types@, classes@, levels@, base, old(runs)@[k]),
        ),
        forall|k: int|
            0 <= k < final(runs).len() ==> (#[trigger] final(runs)@[k]).next is None
                && !final(runs)@[k].in_sequence,
{
    let count = runs.len();
    let ghost orig = runs@;
    let mut k: usize = 0;
    while k < count
        invariant
            count == runs.len(),
            count == orig.len(),
            k <= count,
            types.len() == levels.len(),
            types.len() == classes.len(),
            forall|j: int|
                0 <= j < orig.len() ==> run_levelled(#[trigger] orig[j], 0, types.len() as int, 255),
            forall|j: int|
                0 <= j < k ==> runs@[j] == bounded_run(types@, classes@, levels@, base, orig[j]),
            forall|j: int| k <= j < count ==> runs@[j] == orig[j],
        decreases count - k,
    {
        let mut run = runs[k];
        assert(run_levelled(orig[k as int], 0, types.len() as int, 255));
        run.start = skip_removed(types, run.start, run.end);
        run.end = skip_removed_back(types, run.start, run.end);
        if run.start != run.end {
            if types[run.start].0 == PDI {
                run.starts_with_pdi = true;
            }
            let prev_level = find_level_before(types, levels, base, run.start);
            run.sos = class_from_level(max_level(prev_level, run.level));
            if is_isolate_initiator(classes[run.end - 1]) {
                run.ends_with_isolate = true;
                run.eos = class_from_level(max_level(base, run.level));
            } else {
                let next_level = find_level_after(types, levels, base, run.end);
                run.eos = class_from_level(max_level(next_level, run.level));
            }
        }
        runs[k] = run;
        k += 1;
    }
    assert(runs@ =~= Seq::new(
        orig.len(),
        |k: int| bounded_run(types@, classes@, levels@, base, orig[k]),
    ));
}

/// Finds the first run at or after `from` that starts with a `PDI` at the
/// given level.
fn find_next_run(runs: &Vec<Run>, from: usize, level: u8) -> (found: Option<usize>)
    requires
        from <= runs.len(),
    ensures
        found == next_run(runs@, from as int, level),
{
    let count = runs.len();
    let mut j = from;
    while j < count
        invariant
            from <= j <= count,
            count == runs.len(),
            next_run(runs@, from as int, level) == next_run(runs@, j as int, level),
        decreases count - j,
    {
        if runs[j].starts_with_pdi && runs[j].level == level {
            return Some(j);
        }
        j += 1;
    }
    None
}

/// Links every run that ends with an isolate initiator to the run that
/// continues its sequence.
pub fn link_runs(runs: &mut Vec<Run>)
    requires
        forall|k: int|
            0 <= k < old(runs).len() ==> (#[trigger] old(runs)@[k]).next is None
                && !old(runs)@[k].in_sequence,
    ensures
        final(runs)@ == linked_runs(old(runs)@),
{
    let count = runs.len();
    let ghost orig = runs@;
    let mut i: usize = 0;
    while i < count
        invariant
            count == runs.len(),
            count == orig.len(),
            i <= count,
            forall|k: int|
                0 <= k < count ==> (#[trigger] runs@[k]) == (Run {
                    next: if k < i {
                        continuation(orig, k)
                    } else {
                        None
                    },
                    in_sequence: continues(orig, k, i as int),
                    ..orig[k]
                }),
        decreases count - i,
    {
        let ghost before = runs@;
        if runs[i].ends_with_isolate {
            let level = runs[i].level;
            proof {
                lemma_next_run_same(runs@, orig, i + 1, level);
                lemma_next_run(orig, i + 1, level);
            }
            if let Some(j) = find_next_run(runs, i + 1, level) {
                let mut run = runs[i];
                run.next = Some(j);
                runs[i] = run;
                let mut next = runs[j];
                next.in_sequence = true;
                runs[j] = next;
            }
        }
        i += 1;
    }
    assert(runs@ =~= linked_runs(orig));
}

/// The search for a continuation reads only the level of a run and
/// whether it starts with a `PDI`.
pub proof fn lemma_next_run_same(a: Seq<Run>, b: Seq<Run>, from: int, level: u8)
    requires
        a.len() == b.len(),
        forall|k: int|
            0 <= k < a.len() ==> (#[trigger] a[k]).level == b[k].level && a[k].starts_with_pdi
                == b[k].starts_with_pdi,
    ensures
        next_run(a, from, level) == next_run(b, from, level),
    decreases a.len() - from,
{
    if 0 <= from < a.len() {
        assert(a[from].level == b[from].level);
        lemma_next_run_same(a, b, from + 1, level);
    }
}

/// Cuts a paragraph into level runs, bounds them and links them into
/// isolating run sequences.
pub fn resolve_runs(
    types: &Vec<Type>,
    classes: &Vec<Type>,
    levels: &Vec<u8>,
    base: u8,
    runs: &mut Vec<Run>,
)
    requires
        types.len() == levels.len(),
        types.len() == classes.len(),
    ensures
        final(runs)@ == isolating_runs(types@, classes@, levels@, base),
{
    find_level_runs(types, levels, runs);
    proof {
        lemma_level_runs(types@, levels@, 255);
    }
    bound_runs(types, classes, levels, base, runs);
    link_runs(runs);
}

} // verus!
