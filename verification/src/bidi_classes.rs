//! Bidirectional class codes and the class sets that the rules test.
//!
//! A class is a small integer, so that a set of classes is a `u32` with one
//! bit per member and a membership test is a shift and a mask.

use vstd::prelude::*;

verus! {

/// Right to left Arabic.
pub const AL: u8 = 0;

/// Arabic number.
pub const AN: u8 = 1;

/// Paragraph separator.
pub const B: u8 = 2;

/// Boundary neutral.
pub const BN: u8 = 3;

/// Common number separator.
pub const CS: u8 = 4;

/// European number.
pub const EN: u8 = 5;

/// European number separator.
pub const ES: u8 = 6;

/// European number terminator.
pub const ET: u8 = 7;

/// Control: first strong isolate.
pub const FSI: u8 = 8;

/// Left to right.
pub const L: u8 = 9;

/// Control: left to right embedding.
pub const LRE: u8 = 10;

/// Control: left to right isolate.
pub const LRI: u8 = 11;

/// Control: left to right override.
pub const LRO: u8 = 12;

/// Non-spacing mark.
pub const NSM: u8 = 13;

/// Other neutral.
pub const ON: u8 = 14;

/// Control: pop directional format.
pub const PDF: u8 = 15;

/// Control: pop directional isolate.
pub const PDI: u8 = 16;

/// Right to left.
pub const R: u8 = 17;

/// Control: right to left embedding.
pub const RLE: u8 = 18;

/// Control: right to left isolate.
pub const RLI: u8 = 19;

/// Control: right to left override.
pub const RLO: u8 = 20;

/// Segment separator.
pub const S: u8 = 21;

/// Whitespace.
pub const WS: u8 = 22;

/// Number of bidirectional classes; every code below it names a class.
pub const CLASS_COUNT: u8 = 23;

/// Embedding and override initiators: `LRE`, `RLE`, `LRO`, `RLO`.
pub const OVERRIDE_MASK: u32 = 0x0014_1400;

/// Isolate initiators: `LRI`, `RLI`, `FSI`.
pub const ISOLATE_MASK: u32 = 0x0008_0900;

/// Every explicit initiator: embeddings, overrides and isolates.
pub const EXPLICIT_MASK: u32 = 0x001c_1d00;

/// Initiators that open an odd level: `RLE`, `RLO`, `RLI`.
pub const RTL_MASK: u32 = 0x001c_0000;

/// Classes that rule X9 removes: `LRE`, `RLE`, `LRO`, `RLO`, `PDF`, `BN`.
pub const REMOVED_BY_X9_MASK: u32 = 0x0014_9408;

/// Classes whose presence makes a paragraph need the full algorithm:
/// the explicit initiators and `R`, `AL`, `AN`.
pub const BIDI_MASK: u32 = 0x001e_1d03;

/// Classes that rule L1 resets at the end of a line: the isolate
/// initiators, `PDI` and `WS`.
pub const RESETTABLE_MASK: u32 = 0x0049_0900;

/// Isolate initiators and `PDI`, which cut the scan of rule W1.
pub const ISOLATE_OR_PDI_MASK: u32 = 0x0009_0900;

/// Strong classes: `L`, `R`, `AL`.
pub const STRONG_MASK: u32 = 0x0002_0201;

/// Number separators of rule W4: `ES`, `CS`.
pub const SEPARATOR_MASK: u32 = 0x0000_0050;

/// Separators and terminators that rule W6 turns neutral: `ES`, `ET`, `CS`.
pub const SEPARATOR_OR_TERMINATOR_MASK: u32 = 0x0000_00d0;

/// Neutrals and isolate controls, which rules N1 and N2 resolve:
/// `B`, `S`, `WS`, `ON`, `LRI`, `RLI`, `FSI`, `PDI`.
pub const NEUTRAL_MASK: u32 = 0x0069_4904;

} // verus!
