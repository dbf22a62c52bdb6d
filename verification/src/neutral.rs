//! Resolution of the neutral classes of one isolating run sequence: rules
//! N1 and N2.

use vstd::prelude::*;
use crate::bidi_classes::{AN, EN, NEUTRAL_MASK, R};
use crate::data::{class_from_level, is_within, level_class, Type};
use crate::spans::{
    find_limit_by_mask, lemma_limit_within, lemma_span_within, limit_within, start_within,
};

verus! {

/// A class as it counts beside a span of neutrals: numbers count as `R`.
pub open spec fn flank_class(t: Type) -> Type {
    if t.0 == AN || t.0 == EN {
        Type(R)
    } else {
        t
    }
}

/// The class of position `at` after rules N1 and N2.
///
/// N1: a span of neutrals and isolate controls between two classes of one
/// direction takes that direction, with `sos` and `eos` standing at the
/// ends of the sequence. N2: any other such span takes the embedding
/// direction, `L` for an even level and `R` for an odd one.
pub open spec fn neutral_class(types: Seq<Type>, level: u8, sos: Type, eos: Type, at: int) -> Type {
    if !types[at].within(NEUTRAL_MASK) {
        types[at]
    } else {
        let start = start_within(types, at, NEUTRAL_MASK);
        let end = limit_within(types, at, NEUTRAL_MASK);
        let leading = if start == 0 {
            sos
        } else {
            flank_class(types[start - 1])
        };
        let trailing = if end == types.len() {
            eos
        } else {
            flank_class(types[end])
        };
        if leading == trailing {
            leading
        } else {
            level_class(level)
        }
    }
}

/// The sequence after rules N1 and N2.
pub open spec fn neutrals_resolved(types: Seq<Type>, level: u8, sos: Type, eos: Type) -> Seq<
    Type,
> {
    Seq::new(types.len(), |i: int| neutral_class(types, level, sos, eos, i))
}

/// Applies rules N1 and N2.
pub fn resolve_neutrals(types: &mut Vec<Type>, level: u8, sos: Type, eos: Type)
    ensures
        final(types)@ == neutrals_resolved(old(types)@, level, sos, eos),
{
    let len = types.len();
    let ghost orig = types@;
    let mut i: usize = 0;
    while i < len
        invariant
            len == types.len(),
            orig.len() == len,
            i <= len,
            forall|j: int| 0 <= j < i ==> types@[j] == neutral_class(orig, level, sos, eos, j),
            forall|j: int| i <= j < len ==> types@[j] == orig[j],
            i < len && orig[i as int].within(NEUTRAL_MASK) ==> i == 0 || !orig[i - 1].within(
                NEUTRAL_MASK,
            ),
        decreases len - i,
    {
        let t = types[i];
        if is_within(t, NEUTRAL_MASK) {
            let offset = i;
            let limit = find_limit_by_mask(types, offset, NEUTRAL_MASK);
            proof {
                lemma_limit_within(types@, offset as int, NEUTRAL_MASK);
                assert forall|j: int| offset <= j < limit implies orig[j].within(NEUTRAL_MASK) by {
                    assert(types@[j].within(NEUTRAL_MASK));
                }
                assert forall|j: int| offset <= j < limit implies start_within(
                    orig,
                    j,
                    NEUTRAL_MASK,
                ) == offset && limit_within(orig, j, NEUTRAL_MASK) == limit by {
                    lemma_span_within(orig, offset as int, limit as int, j, NEUTRAL_MASK);
                }
            }
            let mut leading;
            let mut trailing;
            if offset == 0 {
                leading = sos;
            } else {
                leading = types[offset - 1];
                if leading.0 == AN || leading.0 == EN {
                    leading = Type(R);
                }
            }
            if limit == len {
                trailing = eos;
            } else {
                trailing = types[limit];
                if trailing.0 == AN || trailing.0 == EN {
                    trailing = Type(R);
                }
            }
            let resolved = if leading == trailing {
                leading
            } else {
                class_from_level(level)
            };
            let mut k: usize = offset;
            while k < limit
                invariant
                    len == types.len(),
                    orig.len() == len,
                    offset <= k <= limit <= len,
                    forall|j: int|
                        0 <= j < offset ==> types@[j] == neutral_class(orig, level, sos, eos, j),
                    forall|j: int| offset <= j < k ==> types@[j] == resolved,
                    forall|j: int| k <= j < len ==> types@[j] == orig[j],
                decreases limit - k,
            {
                types[k] = resolved;
                k += 1;
            }
            i = limit;
        } else {
            i += 1;
        }
    }
    assert(types@ =~= neutrals_resolved(orig, level, sos, eos));
}

} // verus!
