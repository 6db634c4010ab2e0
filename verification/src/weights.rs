//! The scoring weights. They are fixed: every score this crate reports is
//! built from these five numbers.

use vstd::prelude::*;

verus! {

/// Reward for a pattern character that equals a text character.
pub const SCORE_MATCH: i32 = 16;

/// Charge for opening a gap: for the first pattern character set against no
/// text, and for a pattern character that the alignment steps over.
pub const SCORE_GAP_START: i32 = -3;

/// Charge for extending a gap: for each text character that the alignment
/// skips, and for each further pattern character set against no text.
pub const SCORE_GAP_EXTENSION: i32 = -1;

/// Base of the bonus for a character at a word boundary: half of
/// [`SCORE_MATCH`].
pub const BONUS_BOUNDARY: i32 = 8;

/// How many times the bonus counts when the first pattern character earns it.
pub const BONUS_FIRST_CHAR_MULTIPLIER: i32 = 2;

} // verus!
