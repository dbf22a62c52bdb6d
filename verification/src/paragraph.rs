//! Detection of the paragraph level: rules P2 and P3.

use vstd::prelude::*;
use crate::bidi_classes::{L, PDI};
use crate::data::{is_isolate_initiator, lemma_class_sets, Type};

verus! {

/// The level that the first strong class at or after `from` gives: 0 for
/// `L`, 1 for `R` and `AL`, and 0 where the scan finds none.
///
/// A strong class counts only outside isolates: `isolates` is the number
/// of isolate initiators that are still open. A `PDI` closes one. With
/// none open, a `PDI` ends the scan with level 0 where `until_pdi` is set,
/// and is passed over where it is not.
pub open spec fn first_strong_level(
    classes: Seq<Type>,
    from: int,
    isolates: nat,
    until_pdi: bool,
) -> u8
    decreases classes.len() - from,
{
    if from < 0 || from >= classes.len() {
        0
    } else {
        let t = classes[from];
        if t.is_isolate_initiator() {
            first_strong_level(classes, from + 1, isolates + 1, until_pdi)
        } else if t.0 == PDI {
            if isolates > 0 {
                first_strong_level(classes, from + 1, (isolates - 1) as nat, until_pdi)
            } else if until_pdi {
                0
            } else {
                first_strong_level(classes, from + 1, isolates, until_pdi)
            }
        } else if t.is_strong() && isolates == 0 {
            if t.0 == L {
                0
            } else {
                1
            }
        } else {
            first_strong_level(classes, from + 1, isolates, until_pdi)
        }
    }
}

/// The level of a paragraph whose level the caller has not set.
pub open spec fn paragraph_level(classes: Seq<Type>) -> u8 {
    first_strong_level(classes, 0, 0, false)
}

/// The level that a first strong isolate takes from the classes that
/// follow it, from `from` up to its matching `PDI`.
pub open spec fn isolate_level(classes: Seq<Type>, from: int) -> u8 {
    first_strong_level(classes, from, 0, true)
}

/// The level found by the scan is 0 or 1.
pub proof fn lemma_first_strong_level(
    classes: Seq<Type>,
    from: int,
    isolates: nat,
    until_pdi: bool,
)
    ensures
        first_strong_level(classes, from, isolates, until_pdi) <= 1,
    decreases classes.len() - from,
{
    if 0 <= from < classes.len() {
        lemma_first_strong_level(classes, from + 1, isolates + 1, until_pdi);
        lemma_first_strong_level(classes, from + 1, isolates, until_pdi);
        lemma_first_strong_level(classes, from + 1, (isolates - 1) as nat, until_pdi);
    }
}

/// Scans the classes from `from` on for the first strong class outside
/// any isolate.
fn scan_level(types: &Vec<Type>, from: usize, until_pdi: bool) -> (level: u8)
    requires
        from <= types.len(),
    ensures
        level == first_strong_level(types@, from as int, 0, until_pdi),
        level <= 1,
{
    let len = types.len();
    let mut isolates: usize = 0;
    let mut i: usize = from;
    proof {
        lemma_first_strong_level(types@, from as int, 0, until_pdi);
    }
    while i < len
        invariant
            len == types.len(),
            from <= i <= len,
            isolates <= i - from,
            first_strong_level(types@, from as int, 0, until_pdi) == first_strong_level(
                types@,
                i as int,
                isolates as nat,
                until_pdi,
            ),
            first_strong_level(types@, from as int, 0, until_pdi) <= 1,
        decreases len - i,
    {
        let ty = types[i];
        proof {
            lemma_class_sets(ty.0);
        }
        if is_isolate_initiator(ty) {
            isolates += 1;
        } else if ty.0 == PDI {
            if isolates > 0 {
                isolates -= 1;
            } else if until_pdi {
                return 0;
            }
        } else if ty.is_strong_class() {
            if isolates == 0 {
                return if ty.0 == L {
                    0
                } else {
                    1
                };
            }
        }
        i += 1;
    }
    0
}

/// Detects the level of a paragraph from its first strong class.
pub fn default_level(types: &Vec<Type>) -> (level: u8)
    ensures
        level == paragraph_level(types@),
        level <= 1,
{
    scan_level(types, 0, false)
}

/// Detects the level of a first strong isolate from the classes that
/// follow it, from `from` on.
pub fn default_level_until_pdi(types: &Vec<Type>, from: usize) -> (level: u8)
    requires
        from <= types.len(),
    ensures
        level == isolate_level(types@, from as int),
        level <= 1,
{
    scan_level(types, from, true)
}

} // verus!
