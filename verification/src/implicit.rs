//! Implicit levels of one isolating run sequence: rules I1 and I2.

use vstd::prelude::*;
use crate::bidi_classes::{L, R};
use crate::data::Type;

verus! {

/// The level that a resolved class takes in a run of the given level.
///
/// I1, for an even level: `L` stays, `R` goes up by one, any other class
/// by two. I2, for an odd level: `R` stays, any other class goes up by one.
pub open spec fn implicit_level(level: u8, t: Type) -> int {
    if level % 2 == 0 {
        if t.0 == R {
            level + 1
        } else if t.0 != L {
            level + 2
        } else {
            level as int
        }
    } else {
        if t.0 != R {
            level + 1
        } else {
            level as int
        }
    }
}

/// The levels of a paragraph once the first `count` positions of a
/// sequence have had their implicit levels written, each at its own index
/// of the paragraph.
pub open spec fn levels_written(
    levels: Seq<u8>,
    indices: Seq<usize>,
    types: Seq<Type>,
    level: u8,
    count: int,
) -> Seq<u8>
    decreases count,
{
    if count <= 0 {
        levels
    } else {
        levels_written(levels, indices, types, level, count - 1).update(
            indices[count - 1] as int,
            implicit_level(level, types[count - 1]) as u8,
        )
    }
}

/// Writing levels keeps the number of levels.
pub proof fn lemma_levels_written_len(
    levels: Seq<u8>,
    indices: Seq<usize>,
    types: Seq<Type>,
    level: u8,
    count: int,
)
    requires
        count <= indices.len(),
        forall|k: int| 0 <= k < count ==> indices[k] < levels.len(),
    ensures
        levels_written(levels, indices, types, level, count).len() == levels.len(),
    decreases count,
{
    if count > 0 {
        lemma_levels_written_len(levels, indices, types, level, count - 1);
    }
}

/// Writes the implicit level of every position of a sequence to the
/// paragraph's levels.
pub fn assign_levels(types: &Vec<Type>, indices: &Vec<usize>, level: u8, levels: &mut Vec<u8>)
    requires
        level <= 125,
        types.len() == indices.len(),
        forall|i: int| 0 <= i < indices.len() ==> indices[i] < old(levels).len(),
    ensures
        final(levels)@ == levels_written(
            old(levels)@,
            indices@,
            types@,
            level,
            types.len() as int,
        ),
        final(levels).len() == old(levels).len(),
{
    let len = types.len();
    let even = level % 2 == 0;
    let mut i: usize = 0;
    while i < len
        invariant
            level <= 125,
            even == (level % 2 == 0),
            len == types.len(),
            len == indices.len(),
            i <= len,
            levels.len() == old(levels).len(),
            forall|k: int| 0 <= k < indices.len() ==> indices[k] < levels.len(),
            levels@ == levels_written(old(levels)@, indices@, types@, level, i as int),
        decreases len - i,
    {
        let t = types[i];
        let index = indices[i];
        let resolved = if even {
            if t.0 == R {
                level + 1
            } else if t.0 != L {
                level + 2
            } else {
                level
            }
        } else {
            if t.0 != R {
                level + 1
            } else {
                level
            }
        };
        levels[index] = resolved;
        i += 1;
    }
}

} // verus!
