//! Unicode bidirectional algorithm.
//!
//! Given a paragraph of text, the resolver assigns an embedding level to
//! every character: an even level for a character that runs left to
//! right, an odd one for a character that runs right to left. From the
//! levels of a line [`reorder`] derives the order in which its characters
//! are shown.
//!
//! The levels of a paragraph are those of [`state::resolved_levels`]: the
//! explicit rules X1 to X8 ([`explicit`]), the level runs and isolating run
//! sequences ([`runs`], [`sequence`]), the rules W1 to W7 ([`weak`]), N0
//! ([`brackets`]), N1 and N2 ([`neutral`]), I1 and I2 ([`implicit`]) on
//! each sequence, and rule L1 ([`line`]). What holds of the levels of
//! every paragraph is proved in [`laws`], [`parity`] and [`plain`].

use vstd::prelude::*;
use core::ops::Range;

pub mod bidi_classes;
pub mod bracket_data;
pub mod brackets;
pub mod data;
pub mod explicit;
pub mod flat;
pub mod granularity;
pub mod implicit;
pub mod laws;
pub mod line;
pub mod neutral;
pub mod order;
pub mod paragraph;
pub mod parity;
pub mod plain;
pub mod ranges;
pub mod runs;
pub mod sequence;
pub mod spans;
pub mod state;
pub mod tables;
pub mod weak;

pub use bracket_data::BracketType;
pub use data::Type;
pub use order::reorder;

use ranges::{compress_levels, ranges_of};
use state::{level_count, text_base_level, text_levels, State};

verus! {

/// Type alias for a bidirectional level.
pub type Level = u8;

/// Type alias for a bidirectional level and an associated range.
pub type LevelRange = (Level, Range<usize>);

/// Resolved bidirectional levels.
#[derive(Clone)]
pub struct Resolved<T> {
    /// Granularity at which the levels were resolved.
    pub granularity: Granularity,
    /// Base level of the text.
    pub base_level: Level,
    /// Resolved levels for the text.
    pub levels: Vec<T>,
}

/// Defines the granularity at which levels are resolved.
#[derive(Copy, Clone, PartialEq, Eq, Structural, Debug)]
pub enum Granularity {
    /// Levels are provided per codepoint.
    Char,
    /// Levels are provided per code unit.
    Byte,
}

impl<T> Default for Resolved<T> {
    fn default() -> (resolved: Self)
        ensures
            resolved.granularity == Granularity::Char,
            resolved.base_level == 0,
            resolved.levels@.len() == 0,
    {
        Resolved { granularity: Granularity::Char, base_level: 0, levels: Vec::new() }
    }
}

impl Resolved<Level> {
    /// Converts a sequence of bidirectional levels into a collection of ranges.
    pub fn to_ranges(&self) -> (ranges: Resolved<LevelRange>)
        ensures
            ranges.granularity == self.granularity,
            ranges.base_level == self.base_level,
            ranges.levels@ == ranges_of(self.levels@),
    {
        let mut levels = Vec::new();
        compress_levels(&self.levels, &mut levels);
        Resolved { granularity: self.granularity, base_level: self.base_level, levels }
    }
}

/// Resolves the bidirectional levels for the specified text and granularity.
/// Stores the result in preallocated storage.
///
/// Detects the base level if not provided.
pub fn resolve_levels_into(
    text: &str,
    granularity: Granularity,
    base_level: Option<Level>,
    resolved: &mut Resolved<Level>,
)
    requires
        base_level matches Some(level) ==> level <= 1,
    ensures
        final(resolved).granularity == granularity,
        final(resolved).base_level == text_base_level(text@, base_level),
        final(resolved).levels@ == text_levels(text@, granularity, base_level),
        final(resolved).levels@.len() == level_count(text@, granularity),
        forall|i: int|
            0 <= i < final(resolved).levels@.len() ==> final(resolved).levels@[i] <= 126,
{
    let mut state = State::new();
    state::resolve_levels_into(&mut state, text, granularity, base_level, resolved)
}

/// Resolves the bidirectional levels for the specified text and granularity.
///
/// Detects the base level if not provided.
pub fn resolve_levels(text: &str, granularity: Granularity, base_level: Option<Level>) -> (resolved:
    Resolved<Level>)
    requires
        base_level matches Some(level) ==> level <= 1,
    ensures
        resolved.granularity == granularity,
        resolved.base_level == text_base_level(text@, base_level),
        resolved.levels@ == text_levels(text@, granularity, base_level),
        resolved.levels@.len() == level_count(text@, granularity),
        forall|i: int| 0 <= i < resolved.levels@.len() ==> resolved.levels@[i] <= 126,
{
    let mut state = State::new();
    state::resolve_levels(&mut state, text, granularity, base_level)
}

/// Resolves the bidirectional level ranges for the specified text and granularity.
/// Stores the result in preallocated storage.
///
/// Detects the base level if not provided.
pub fn resolve_ranges_into(
    text: &str,
    granularity: Granularity,
    base_level: Option<Level>,
    resolved: &mut Resolved<LevelRange>,
)
    requires
        base_level matches Some(level) ==> level <= 1,
    ensures
        final(resolved).granularity == granularity,
        final(resolved).base_level == text_base_level(text@, base_level),
        final(resolved).levels@ == ranges_of(text_levels(text@, granularity, base_level)),
{
    let mut state = State::new();
    state::resolve_ranges_into(&mut state, text, granularity, base_level, resolved)
}

/// Resolves the bidirectional level ranges for the specified text and granularity.
///
/// Detects the base level if not provided.
pub fn resolve_ranges(text: &str, granularity: Granularity, base_level: Option<Level>) -> (resolved:
    Resolved<LevelRange>)
    requires
        base_level matches Some(level) ==> level <= 1,
    ensures
        resolved.granularity == granularity,
        resolved.base_level == text_base_level(text@, base_level),
        resolved.levels@ == ranges_of(text_levels(text@, granularity, base_level)),
{
    let mut state = State::new();
    state::resolve_ranges(&mut state, text, granularity, base_level)
}

} // verus!
