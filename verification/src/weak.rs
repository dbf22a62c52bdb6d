//! Resolution of the weak classes of one isolating run sequence: rules W1
//! to W7.

use vstd::prelude::*;
use crate::bidi_classes::{
    AL, AN, CS, EN, ET, ISOLATE_OR_PDI_MASK, L, NSM, ON, R, SEPARATOR_MASK,
    SEPARATOR_OR_TERMINATOR_MASK, STRONG_MASK,
};
use crate::data::{is_within, lemma_class_sets, Type};
use crate::spans::{find_limit, lemma_limit_of, lemma_span_of, limit_of, start_of};

verus! {

/// The most recent strong class (`L`, `R`, `AL`) before position `at`, or
/// `sos` where there is none.
pub open spec fn strong_before(types: Seq<Type>, sos: Type, at: int) -> Type
    decreases at,
{
    if at <= 0 {
        sos
    } else if types[at - 1].is_strong() {
        types[at - 1]
    } else {
        strong_before(types, sos, at - 1)
    }
}

/// The class that position `at` sees before it once rules W1 to W4 have
/// been applied up to there: `sos` at the start, `ON` behind an isolate
/// initiator or a `PDI`, else the resolved class of the position before.
pub open spec fn class_before(types: Seq<Type>, sos: Type, at: int) -> Type
    decreases at, 0nat,
{
    if at <= 0 {
        sos
    } else if types[at - 1].is_isolate_or_pdi() {
        Type(ON)
    } else {
        number_class(types, sos, at - 1)
    }
}

/// The class that follows a separator at `at`, as rule W4 sees it: a
/// European number behind an Arabic letter already counts as an Arabic
/// number.
pub open spec fn class_after(types: Seq<Type>, sos: Type, at: int) -> Type {
    if types[at + 1].0 == EN && strong_before(types, sos, at).0 == AL {
        Type(AN)
    } else {
        types[at + 1]
    }
}

/// The class of position `at` after rules W1 to W4.
///
/// W1: a nonspacing mark takes the class before it. W2: a European number
/// behind an Arabic letter becomes an Arabic number. W3: an Arabic letter
/// becomes `R`. W4: a single separator between two numbers of one kind
/// takes their class.
pub open spec fn number_class(types: Seq<Type>, sos: Type, at: int) -> Type
    decreases at, 1nat,
{
    let t = types[at];
    if t.0 == NSM {
        class_before(types, sos, at)
    } else if t.is_isolate_or_pdi() {
        t
    } else if t.0 == EN {
        if strong_before(types, sos, at).0 == AL {
            Type(AN)
        } else {
            t
        }
    } else if t.is_strong() {
        if t.0 == AL {
            Type(R)
        } else {
            t
        }
    } else if t.is_separator() && at + 1 < types.len() {
        let before = class_before(types, sos, at);
        let after = class_after(types, sos, at);
        if before.0 == EN && after.0 == EN {
            Type(EN)
        } else if t.0 == CS && before.0 == AN && after.0 == AN {
            Type(AN)
        } else {
            t
        }
    } else {
        t
    }
}

/// The sequence after rules W1 to W4.
pub open spec fn numbers_resolved(types: Seq<Type>, sos: Type) -> Seq<Type> {
    Seq::new(types.len(), |i: int| number_class(types, sos, i))
}

/// The class of position `at` after rule W5: a span of European
/// terminators next to a European number becomes European numbers.
pub open spec fn terminator_class(types: Seq<Type>, sos: Type, eos: Type, at: int) -> Type {
    if types[at].0 != ET {
        types[at]
    } else {
        let start = start_of(types, at, Type(ET));
        let end = limit_of(types, at, Type(ET));
        let before = if start == 0 {
            sos
        } else {
            types[start - 1]
        };
        let after = if end == types.len() {
            eos
        } else {
            types[end]
        };
        if before.0 == EN || after.0 == EN {
            Type(EN)
        } else {
            types[at]
        }
    }
}

/// The sequence after rule W5.
pub open spec fn terminators_resolved(types: Seq<Type>, sos: Type, eos: Type) -> Seq<Type> {
    Seq::new(types.len(), |i: int| terminator_class(types, sos, eos, i))
}

/// The most recent `L` or `R` before position `at`, or `sos` where there is
/// none.
pub open spec fn direction_before(types: Seq<Type>, sos: Type, at: int) -> Type
    decreases at,
{
    if at <= 0 {
        sos
    } else if types[at - 1].0 == L || types[at - 1].0 == R {
        types[at - 1]
    } else {
        direction_before(types, sos, at - 1)
    }
}

/// The class of position `at` after rules W6 and W7: a separator or
/// terminator that is left becomes `ON`, and a European number behind an
/// `L` becomes `L`.
pub open spec fn settled_class(types: Seq<Type>, sos: Type, at: int) -> Type {
    let t = types[at];
    if t.is_separator_or_terminator() {
        Type(ON)
    } else if t.0 == EN && direction_before(types, sos, at).0 == L {
        Type(L)
    } else {
        t
    }
}

/// The sequence after rules W6 and W7.
pub open spec fn numbers_settled(types: Seq<Type>, sos: Type) -> Seq<Type> {
    Seq::new(types.len(), |i: int| settled_class(types, sos, i))
}

/// The sequence after rules W1 to W7.
pub open spec fn weak_resolved(types: Seq<Type>, sos: Type, eos: Type) -> Seq<Type> {
    numbers_settled(terminators_resolved(numbers_resolved(types, sos), sos, eos), sos)
}

/// Applies rules W1 to W4 in one pass.
pub fn resolve_numbers(types: &mut Vec<Type>, sos: Type)
    ensures
        final(types)@ == numbers_resolved(old(types)@, sos),
{
    let len = types.len();
    let ghost orig = types@;
    let mut prev = sos;
    let mut prev_strong = sos;
    let mut i: usize = 0;
    while i < len
        invariant
            len == types.len(),
            orig.len() == len,
            i <= len,
            forall|j: int| 0 <= j < i ==> types@[j] == number_class(orig, sos, j),
            forall|j: int| i <= j < len ==> types@[j] == orig[j],
            prev == class_before(orig, sos, i as int),
            prev_strong == strong_before(orig, sos, i as int),
        decreases len - i,
    {
        let t = types[i];
        proof {
            lemma_class_sets(t.0);
        }
        if t.0 == NSM {
            types[i] = prev;
        } else if is_within(t, ISOLATE_OR_PDI_MASK) {
            prev = Type(ON);
        } else {
            let mut resolved = t;
            if t.0 == EN {
                if prev_strong.0 == AL {
                    resolved = Type(AN);
                }
            } else if is_within(t, STRONG_MASK) {
                prev_strong = t;
                if t.0 == AL {
                    resolved = Type(R);
                }
            } else if is_within(t, SEPARATOR_MASK) && i < len - 1 {
                let mut next = types[i + 1];
                if next.0 == EN && prev_strong.0 == AL {
                    next = Type(AN);
                }
                if prev.0 == EN && next.0 == EN {
                    resolved = Type(EN);
                } else if t.0 == CS && prev.0 == AN && next.0 == AN {
                    resolved = Type(AN);
                }
            }
            types[i] = resolved;
            prev = resolved;
        }
        i += 1;
    }
    assert(types@ =~= numbers_resolved(orig, sos));
}

/// Applies rule W5.
pub fn resolve_terminators(types: &mut Vec<Type>, sos: Type, eos: Type)
    ensures
        final(types)@ == terminators_resolved(old(types)@, sos, eos),
{
    let len = types.len();
    let ghost orig = types@;
    let mut i: usize = 0;
    while i < len
        invariant
            len == types.len(),
            orig.len() == len,
            i <= len,
            forall|j: int| 0 <= j < i ==> types@[j] == terminator_class(orig, sos, eos, j),
            forall|j: int| i <= j < len ==> types@[j] == orig[j],
            i < len && orig[i as int].0 == ET ==> i == 0 || orig[i - 1].0 != ET,
        decreases len - i,
    {
        if types[i].0 == ET {
            let limit = find_limit(types, i, Type(ET));
            proof {
                lemma_limit_of(types@, i as int, Type(ET));
                assert forall|j: int| i <= j < limit implies orig[j] == Type(ET) by {
                    assert(types@[j] == Type(ET));
                }
                assert forall|j: int| i <= j < limit implies start_of(orig, j, Type(ET)) == i
                    && limit_of(orig, j, Type(ET)) == limit by {
                    lemma_span_of(orig, i as int, limit as int, j, Type(ET));
                }
            }
            let mut t = if i == 0 {
                sos
            } else {
                types[i - 1]
            };
            if t.0 != EN {
                t = if limit == len {
                    eos
                } else {
                    types[limit]
                };
            }
            if t.0 == EN {
                let mut k: usize = i;
                while k < limit
                    invariant
                        len == types.len(),
                        orig.len() == len,
                        i <= k <= limit <= len,
                        forall|j: int| 0 <= j < i ==> types@[j] == terminator_class(
                            orig,
                            sos,
                            eos,
                            j,
                        ),
                        forall|j: int| i <= j < k ==> types@[j] == Type(EN),
                        forall|j: int| k <= j < len ==> types@[j] == orig[j],
                    decreases limit - k,
                {
                    types[k] = Type(EN);
                    k += 1;
                }
            }
            i = limit;
        } else {
            i += 1;
        }
    }
    assert(types@ =~= terminators_resolved(orig, sos, eos));
}

/// Applies rules W6 and W7.
pub fn settle_numbers(types: &mut Vec<Type>, sos: Type)
    ensures
        final(types)@ == numbers_settled(old(types)@, sos),
{
    let len = types.len();
    let ghost orig = types@;
    let mut prev_strong = sos;
    let mut i: usize = 0;
    while i < len
        invariant
            len == types.len(),
            orig.len() == len,
            i <= len,
            forall|j: int| 0 <= j < i ==> types@[j] == settled_class(orig, sos, j),
            forall|j: int| i <= j < len ==> types@[j] == orig[j],
            prev_strong == direction_before(orig, sos, i as int),
        decreases len - i,
    {
        let t = types[i];
        proof {
            lemma_class_sets(t.0);
        }
        if is_within(t, SEPARATOR_OR_TERMINATOR_MASK) {
            types[i] = Type(ON);
        } else if t.0 == EN {
            if prev_strong.0 == L {
                types[i] = Type(L);
            }
        } else if t.0 == L || t.0 == R {
            prev_strong = t;
        }
        i += 1;
    }
    assert(types@ =~= numbers_settled(orig, sos));
}

/// Resolves the weak classes of a sequence: rules W1 to W7, in order.
pub fn resolve_weak(types: &mut Vec<Type>, sos: Type, eos: Type)
    ensures
        final(types)@ == weak_resolved(old(types)@, sos, eos),
{
    resolve_numbers(types, sos);
    resolve_terminators(types, sos, eos);
    settle_numbers(types, sos);
}

} // verus!
