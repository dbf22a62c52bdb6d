//! Maximal spans of one class, or of one class set, in a sequence of classes.

use vstd::prelude::*;
use crate::data::Type;

verus! {

/// The first position at or after `from` whose class is not `ty`; the
/// length of the sequence where every class from `from` on is `ty`.
pub open spec fn limit_of(types: Seq<Type>, from: int, ty: Type) -> int
    decreases types.len() - from,
{
    if 0 <= from < types.len() && types[from] == ty {
        limit_of(types, from + 1, ty)
    } else {
        from
    }
}

/// The first position of the span of `ty` that reaches position `at`.
pub open spec fn start_of(types: Seq<Type>, at: int, ty: Type) -> int
    decreases at,
{
    if 0 < at <= types.len() && types[at - 1] == ty {
        start_of(types, at - 1, ty)
    } else {
        at
    }
}

/// The first position at or after `from` whose class is outside the class
/// set; the length of the sequence where there is none.
pub open spec fn limit_within(types: Seq<Type>, from: int, set: u32) -> int
    decreases types.len() - from,
{
    if 0 <= from < types.len() && types[from].within(set) {
        limit_within(types, from + 1, set)
    } else {
        from
    }
}

/// The first position of the span of classes in the set that reaches
/// position `at`.
pub open spec fn start_within(types: Seq<Type>, at: int, set: u32) -> int
    decreases at,
{
    if 0 < at <= types.len() && types[at - 1].within(set) {
        start_within(types, at - 1, set)
    } else {
        at
    }
}

/// A span of `ty` ends at its limit: everything before the limit is `ty`,
/// and the limit is outside the span.
pub proof fn lemma_limit_of(types: Seq<Type>, from: int, ty: Type)
    requires
        0 <= from <= types.len(),
    ensures
        from <= limit_of(types, from, ty) <= types.len(),
        forall|j: int| from <= j < limit_of(types, from, ty) ==> types[j] == ty,
        limit_of(types, from, ty) < types.len() ==> types[limit_of(types, from, ty)] != ty,
    decreases types.len() - from,
{
    if from < types.len() && types[from] == ty {
        lemma_limit_of(types, from + 1, ty);
    }
}

/// Every position of a maximal span of `ty` has the span's bounds.
pub proof fn lemma_span_of(types: Seq<Type>, start: int, end: int, at: int, ty: Type)
    requires
        0 <= start <= at <= end <= types.len(),
        forall|j: int| start <= j < end ==> types[j] == ty,
        start == 0 || types[start - 1] != ty,
        end == types.len() || types[end] != ty,
    ensures
        start_of(types, at, ty) == start,
        limit_of(types, at, ty) == end,
    decreases at - start,
{
    if start < at {
        lemma_span_of(types, start, end, at - 1, ty);
        assert(start_of(types, at, ty) == start_of(types, at - 1, ty));
    }
    lemma_span_end_of(types, at, end, ty);
}

proof fn lemma_span_end_of(types: Seq<Type>, at: int, end: int, ty: Type)
    requires
        0 <= at <= end <= types.len(),
        forall|j: int| at <= j < end ==> types[j] == ty,
        end == types.len() || types[end] != ty,
    ensures
        limit_of(types, at, ty) == end,
    decreases end - at,
{
    if at < end {
        lemma_span_end_of(types, at + 1, end, ty);
    }
}

/// A span of classes in the set ends at its limit.
pub proof fn lemma_limit_within(types: Seq<Type>, from: int, set: u32)
    requires
        0 <= from <= types.len(),
    ensures
        from <= limit_within(types, from, set) <= types.len(),
        forall|j: int| from <= j < limit_within(types, from, set) ==> types[j].within(set),
        limit_within(types, from, set) < types.len() ==> !types[limit_within(
            types,
            from,
            set,
        )].within(set),
    decreases types.len() - from,
{
    if from < types.len() && types[from].within(set) {
        lemma_limit_within(types, from + 1, set);
    }
}

/// A span of classes in the set begins at its start: everything from the
/// start on is in the set, and the class before the start is outside it.
pub proof fn lemma_start_within(types: Seq<Type>, at: int, set: u32)
    requires
        0 <= at <= types.len(),
    ensures
        0 <= start_within(types, at, set) <= at,
        forall|j: int| start_within(types, at, set) <= j < at ==> types[j].within(set),
        start_within(types, at, set) > 0 ==> !types[start_within(types, at, set) - 1].within(set),
    decreases at,
{
    if 0 < at && types[at - 1].within(set) {
        lemma_start_within(types, at - 1, set);
    }
}

/// Every position of a maximal span of classes in the set has the span's
/// bounds.
pub proof fn lemma_span_within(types: Seq<Type>, start: int, end: int, at: int, set: u32)
    requires
        0 <= start <= at <= end <= types.len(),
        forall|j: int| start <= j < end ==> types[j].within(set),
        start == 0 || !types[start - 1].within(set),
        end == types.len() || !types[end].within(set),
    ensures
        start_within(types, at, set) == start,
        limit_within(types, at, set) == end,
    decreases at - start,
{
    if start < at {
        lemma_span_within(types, start, end, at - 1, set);
        assert(start_within(types, at, set) == start_within(types, at - 1, set));
    }
    lemma_span_end_within(types, at, end, set);
}

proof fn lemma_span_end_within(types: Seq<Type>, at: int, end: int, set: u32)
    requires
        0 <= at <= end <= types.len(),
        forall|j: int| at <= j < end ==> types[j].within(set),
        end == types.len() || !types[end].within(set),
    ensures
        limit_within(types, at, set) == end,
    decreases end - at,
{
    if at < end {
        lemma_span_end_within(types, at + 1, end, set);
    }
}

/// Finds the end of the span of `ty` that begins at `offset`.
pub fn find_limit(types: &Vec<Type>, offset: usize, ty: Type) -> (limit: usize)
    requires
        offset <= types.len(),
    ensures
        limit == limit_of(types@, offset as int, ty),
        offset <= limit <= types.len(),
{
    let n = types.len();
    let mut len = offset;
    while len < n && types[len] == ty
        invariant
            n == types.len(),
            offset <= len <= n,
            limit_of(types@, offset as int, ty) == limit_of(types@, len as int, ty),
        decreases n - len,
    {
        len += 1;
    }
    len
}

/// Finds the end of the span of classes in the set that begins at `offset`.
pub fn find_limit_by_mask(types: &Vec<Type>, offset: usize, mask: u32) -> (limit: usize)
    requires
        offset <= types.len(),
    ensures
        limit == limit_within(types@, offset as int, mask),
        offset <= limit <= types.len(),
{
    let n = types.len();
    let mut len = offset;
    while len < n && types[len].mask() & mask != 0
        invariant
            n == types.len(),
            offset <= len <= n,
            limit_within(types@, offset as int, mask) == limit_within(types@, len as int, mask),
        decreases n - len,
    {
        len += 1;
    }
    len
}

} // verus!
