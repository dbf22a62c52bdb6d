//! Bidirectional classes of characters.

use vstd::prelude::*;
use crate::bidi_classes::{
    AL, AN, B, BIDI_MASK, BN, CLASS_COUNT, CS, ES, ET, EXPLICIT_MASK, FSI, ISOLATE_MASK,
    ISOLATE_OR_PDI_MASK, L, LRE, LRI, LRO, NEUTRAL_MASK, ON, PDF, PDI, R, REMOVED_BY_X9_MASK,
    RESETTABLE_MASK, RLE, RLI, RLO, RTL_MASK, S, SEPARATOR_MASK, SEPARATOR_OR_TERMINATOR_MASK,
    STRONG_MASK, WS,
};
use crate::tables::{BIDI_CLASS_RANGES, BIDI_CLASS_VALUES};

verus! {

/// Bidirectional type: the code of a bidirectional class.
///
/// The codes are the constants of [`crate::bidi_classes`]. A value whose
/// code names no class belongs to no class set: the rules take it for a
/// character without direction.
#[derive(Copy, Clone, PartialOrd, Ord, PartialEq, Eq, Structural, Hash, Debug)]
pub struct Type(pub u8);

impl Type {
    /// The set that holds this class alone; empty for a code that no
    /// 32-bit set can hold.
    pub open spec fn spec_mask(self) -> u32 {
        if self.0 < 32 {
            1u32 << self.0
        } else {
            0u32
        }
    }

    /// Membership of this class in a class set.
    pub open spec fn within(self, set: u32) -> bool {
        self.spec_mask() & set != 0
    }

    /// Removed by rule X9: `LRE`, `RLE`, `LRO`, `RLO`, `PDF`, `BN`.
    pub open spec fn spec_is_ignored(self) -> bool {
        self.0 == LRE || self.0 == RLE || self.0 == LRO || self.0 == RLO || self.0 == PDF
            || self.0 == BN
    }

    /// Reset by rule L1 at the end of a line: `LRI`, `RLI`, `FSI`, `PDI`, `WS`.
    pub open spec fn spec_is_resettable(self) -> bool {
        self.0 == LRI || self.0 == RLI || self.0 == FSI || self.0 == PDI || self.0 == WS
    }

    /// `LRI`, `RLI` or `FSI`.
    pub open spec fn is_isolate_initiator(self) -> bool {
        self.0 == LRI || self.0 == RLI || self.0 == FSI
    }

    /// An embedding, override or isolate initiator.
    pub open spec fn is_explicit(self) -> bool {
        self.0 == LRE || self.0 == RLE || self.0 == LRO || self.0 == RLO || self.0 == LRI
            || self.0 == RLI || self.0 == FSI
    }

    /// `RLE`, `RLO` or `RLI`.
    pub open spec fn is_rtl_initiator(self) -> bool {
        self.0 == RLE || self.0 == RLO || self.0 == RLI
    }

    /// A class that takes a paragraph out of the trivial case: an explicit
    /// initiator, `R`, `AL` or `AN`.
    pub open spec fn needs_bidi(self) -> bool {
        self.is_explicit() || self.0 == R || self.0 == AL || self.0 == AN
    }

    /// An isolate initiator or `PDI`.
    pub open spec fn is_isolate_or_pdi(self) -> bool {
        self.is_isolate_initiator() || self.0 == PDI
    }

    /// `L`, `R` or `AL`.
    pub open spec fn is_strong(self) -> bool {
        self.0 == L || self.0 == R || self.0 == AL
    }

    /// `ES` or `CS`.
    pub open spec fn is_separator(self) -> bool {
        self.0 == ES || self.0 == CS
    }

    /// `ES`, `ET` or `CS`.
    pub open spec fn is_separator_or_terminator(self) -> bool {
        self.0 == ES || self.0 == ET || self.0 == CS
    }

    /// A neutral or an isolate control: `B`, `S`, `WS`, `ON`, `LRI`, `RLI`,
    /// `FSI`, `PDI`.
    pub open spec fn is_neutral_or_isolate(self) -> bool {
        self.0 == B || self.0 == S || self.0 == WS || self.0 == ON || self.is_isolate_or_pdi()
    }

    /// Returns the bidirectional type of the specified character.
    pub fn from_char(ch: char) -> (t: Type)
        ensures
            t == bidi_class(ch),
            t.0 < CLASS_COUNT,
    {
        lookup_bidi_class(ch as u32)
    }

    /// Returns true if this type is ignored-- that is removed by rule X9.
    #[verifier::when_used_as_spec(spec_is_ignored)]
    pub fn is_ignored(self) -> (r: bool)
        ensures
            r == self.spec_is_ignored(),
    {
        is_removed_by_x9(self)
    }

    /// Returns true if this type should be reset to the base paragraph
    /// level when it occurs at the end of a line.
    #[verifier::when_used_as_spec(spec_is_resettable)]
    pub fn is_resettable(self) -> (r: bool)
        ensures
            r == self.spec_is_resettable(),
    {
        let m = self.mask();
        proof {
            lemma_class_sets(self.0);
        }
        m & RESETTABLE_MASK != 0
    }

    /// Returns true for the strong classes `L`, `R` and `AL`.
    pub fn is_strong_class(self) -> (r: bool)
        ensures
            r == self.is_strong(),
    {
        let m = self.mask();
        proof {
            lemma_class_sets(self.0);
        }
        m & STRONG_MASK != 0
    }

    /// The class set that holds this class alone.
    #[verifier::when_used_as_spec(spec_mask)]
    pub fn mask(self) -> (m: u32)
        ensures
            m == self.spec_mask(),
    {
        if self.0 < 32 {
            1u32 << self.0
        } else {
            0
        }
    }
}

/// Membership in each class set is membership in the classes that the set
/// was built from.
pub proof fn lemma_class_sets(c: u8)
    ensures
        Type(c).within(REMOVED_BY_X9_MASK) == Type(c).spec_is_ignored(),
        Type(c).within(RESETTABLE_MASK) == Type(c).spec_is_resettable(),
        Type(c).within(ISOLATE_MASK) == Type(c).is_isolate_initiator(),
        Type(c).within(EXPLICIT_MASK) == Type(c).is_explicit(),
        Type(c).within(RTL_MASK) == Type(c).is_rtl_initiator(),
        Type(c).within(BIDI_MASK) == Type(c).needs_bidi(),
        Type(c).within(ISOLATE_OR_PDI_MASK) == Type(c).is_isolate_or_pdi(),
        Type(c).within(STRONG_MASK) == Type(c).is_strong(),
        Type(c).within(SEPARATOR_MASK) == Type(c).is_separator(),
        Type(c).within(SEPARATOR_OR_TERMINATOR_MASK) == Type(c).is_separator_or_terminator(),
        Type(c).within(NEUTRAL_MASK) == Type(c).is_neutral_or_isolate(),
{
    if c < 32 {
        assert(((1u32 << c) & 0x0014_9408u32 != 0) == (c == 10 || c == 18 || c == 12 || c == 20
            || c == 15 || c == 3)) by (bit_vector)
            requires
                c < 32,
        ;
        assert(((1u32 << c) & 0x0049_0900u32 != 0) == (c == 11 || c == 19 || c == 8 || c == 16
            || c == 22)) by (bit_vector)
            requires
                c < 32,
        ;
        assert(((1u32 << c) & 0x0008_0900u32 != 0) == (c == 11 || c == 19 || c == 8))
            by (bit_vector)
            requires
                c < 32,
        ;
        assert(((1u32 << c) & 0x001c_1d00u32 != 0) == (c == 10 || c == 18 || c == 12 || c == 20
            || c == 11 || c == 19 || c == 8)) by (bit_vector)
            requires
                c < 32,
        ;
        assert(((1u32 << c) & 0x001c_0000u32 != 0) == (c == 18 || c == 20 || c == 19))
            by (bit_vector)
            requires
                c < 32,
        ;
        assert(((1u32 << c) & 0x001e_1d03u32 != 0) == (c == 10 || c == 18 || c == 12 || c == 20
            || c == 11 || c == 19 || c == 8 || c == 17 || c == 0 || c == 1)) by (bit_vector)
            requires
                c < 32,
        ;
        assert(((1u32 << c) & 0x0009_0900u32 != 0) == (c == 11 || c == 19 || c == 8 || c == 16))
            by (bit_vector)
            requires
                c < 32,
        ;
        assert(((1u32 << c) & 0x0002_0201u32 != 0) == (c == 9 || c == 17 || c == 0))
            by (bit_vector)
            requires
                c < 32,
        ;
        assert(((1u32 << c) & 0x0000_0050u32 != 0) == (c == 6 || c == 4)) by (bit_vector)
            requires
                c < 32,
        ;
        assert(((1u32 << c) & 0x0000_00d0u32 != 0) == (c == 6 || c == 7 || c == 4))
            by (bit_vector)
            requires
                c < 32,
        ;
        assert(((1u32 << c) & 0x0069_4904u32 != 0) == (c == 2 || c == 21 || c == 22 || c == 14
            || c == 11 || c == 19 || c == 8 || c == 16)) by (bit_vector)
            requires
                c < 32,
        ;
    } else {
        assert(forall|m: u32| 0u32 & m == 0) by (bit_vector);
    }
}

/// Returns true for `LRI`, `RLI` and `FSI`.
pub fn is_isolate_initiator(ty: Type) -> (r: bool)
    ensures
        r == ty.is_isolate_initiator(),
{
    let m = ty.mask();
    proof {
        lemma_class_sets(ty.0);
    }
    m & ISOLATE_MASK != 0
}

/// Returns true for the classes that rule X9 removes.
pub fn is_removed_by_x9(ty: Type) -> (r: bool)
    ensures
        r == ty.spec_is_ignored(),
{
    let m = ty.mask();
    proof {
        lemma_class_sets(ty.0);
    }
    m & REMOVED_BY_X9_MASK != 0
}

/// Returns true if the class belongs to the class set.
pub fn is_within(ty: Type, set: u32) -> (r: bool)
    ensures
        r == ty.within(set),
{
    ty.mask() & set != 0
}

/// The direction class of a level: `L` for an even level, `R` for an odd one.
pub open spec fn level_class(level: u8) -> Type {
    if level % 2 == 0 {
        Type(L)
    } else {
        Type(R)
    }
}

/// Returns a default bidi type for a level.
pub fn class_from_level(level: u8) -> (t: Type)
    ensures
        t == level_class(level),
{
    assert(level & 1 == level % 2) by (bit_vector);
    if level & 1 == 0 {
        Type(L)
    } else {
        Type(R)
    }
}

/// The range at `i` of the class table holds the code point.
pub open spec fn class_range_holds(i: int, cp: u32) -> bool {
    0 <= i < 747 && BIDI_CLASS_RANGES@[i].0 <= cp < BIDI_CLASS_RANGES@[i].1
}

/// The class of a code point: that of the table range that holds it, `L`
/// where none does.
pub closed spec fn class_of_code_point(cp: u32) -> Type {
    if exists|i: int| class_range_holds(i, cp) {
        Type(BIDI_CLASS_VALUES@[choose|i: int| class_range_holds(i, cp)])
    } else {
        Type(L)
    }
}

/// The bidirectional class of a character.
pub open spec fn bidi_class(ch: char) -> Type {
    class_of_code_point(ch as u32)
}

/// Each range of the class table is well-formed and ends where the next
/// begins or before it.
pub open spec fn class_ranges_chained(i: int) -> bool {
    &&& BIDI_CLASS_RANGES@[i].0 <= BIDI_CLASS_RANGES@[i].1
    &&& i + 1 < 747 ==> BIDI_CLASS_RANGES@[i].1 <= BIDI_CLASS_RANGES@[i + 1].0
}

proof fn lemma_class_ranges_chained()
    ensures
        forall|i: int| 0 <= i < 747 ==> class_ranges_chained(i),
{
}

/// The ranges of the class table are disjoint and ascending.
pub proof fn lemma_class_ranges_sorted(i: int, j: int)
    requires
        0 <= i < j < 747,
    ensures
        BIDI_CLASS_RANGES@[i].1 <= BIDI_CLASS_RANGES@[j].0,
    decreases j - i,
{
    lemma_class_ranges_chained();
    assert(class_ranges_chained(i));
    assert(class_ranges_chained(j - 1));
    if i + 1 < j {
        lemma_class_ranges_sorted(i, j - 1);
    }
}

/// A code point in a range of the class table has the class of the range.
pub proof fn lemma_class_in_range(cp: u32, i: int)
    requires
        class_range_holds(i, cp),
    ensures
        class_of_code_point(cp) == Type(BIDI_CLASS_VALUES@[i]),
{
    let k = choose|k: int| class_range_holds(k, cp);
    if k < i {
        lemma_class_ranges_sorted(k, i);
    }
    if i < k {
        lemma_class_ranges_sorted(i, k);
    }
}

/// A code point in no range of the class table has the class `L`.
pub proof fn lemma_class_outside_ranges(cp: u32)
    requires
        forall|i: int| !class_range_holds(i, cp),
    ensures
        class_of_code_point(cp) == Type(L),
{
}

/// The class of every code point is the code of a class.
pub proof fn lemma_class_named(cp: u32)
    ensures
        class_of_code_point(cp).0 < CLASS_COUNT,
{
    lemma_class_values_bounded();
}

/// Every class in the table is the code of a class.
proof fn lemma_class_values_bounded()
    ensures
        forall|i: int| 0 <= i < 747 ==> BIDI_CLASS_VALUES@[i] < 23,
{
}

/// Searches the class table for the range that holds the code point.
pub fn lookup_bidi_class(codepoint: u32) -> (t: Type)
    ensures
        t == class_of_code_point(codepoint),
        t.0 < CLASS_COUNT,
{
    let mut lo: usize = 0;
    let mut hi: usize = 747;
    while lo < hi
        invariant
            lo <= hi <= 747,
            forall|i: int| 0 <= i < lo ==> BIDI_CLASS_RANGES@[i].1 <= codepoint,
            forall|i: int| hi <= i < 747 ==> codepoint < BIDI_CLASS_RANGES@[i].0,
        decreases hi - lo,
    {
        let mid: usize = (lo + hi) / 2;
        let range = BIDI_CLASS_RANGES[mid];
        if codepoint < range.0 {
            proof {
                assert forall|i: int| mid <= i < 747 implies codepoint < BIDI_CLASS_RANGES@[i].0 by {
                    lemma_class_ranges_chained();
                    assert(class_ranges_chained(mid as int));
                    if mid < i {
                        lemma_class_ranges_sorted(mid as int, i);
                    }
                }
            }
            hi = mid;
        } else if codepoint >= range.1 {
            proof {
                assert forall|i: int| 0 <= i < mid + 1 implies BIDI_CLASS_RANGES@[i].1
                    <= codepoint by {
                    lemma_class_ranges_chained();
                    assert(class_ranges_chained(mid as int));
                    if i < mid {
                        lemma_class_ranges_sorted(i, mid as int);
                        assert(class_ranges_chained(i));
                    }
                }
            }
            lo = mid + 1;
        } else {
            proof {
                lemma_class_in_range(codepoint, mid as int);
                lemma_class_values_bounded();
            }
            return Type(BIDI_CLASS_VALUES[mid]);
        }
    }
    Type(L)
}

} // verus!
