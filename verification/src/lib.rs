//! Fuzzy substring matching.
//!
//! A pattern matches a text when some of its characters occur in the text in
//! order, gaps allowed. The match is scored by a local alignment that rewards
//! equal characters, charges for gaps and favours characters that start a
//! word; the best-scoring alignment is walked back to the text positions it
//! uses.
//!
//! The stages are, in the order in which data flows:
//! [`normalize`] (case folding and canonical decomposition),
//! [`classify`] (character classes and the boundary bonus),
//! [`score`] (the alignment matrix and its peak),
//! [`trace`] (the walk back from the peak) and
//! [`matcher`] (the entry points). [`weights`] holds the numbers that scores
//! are built from, and [`laws`] what is proved of every match.

pub mod classify;
pub mod laws;
pub mod matcher;
pub mod normalize;
pub mod score;
pub mod trace;
pub mod weights;

pub use crate::classify::{bonus_for, char_class, CharClass};
pub use crate::matcher::{
    align, can_match, fuzzy_match_score, fuzzy_match_v2, try_fuzzy_match_score,
    try_fuzzy_match_v2,
};
pub use crate::normalize::{normalize_rune, prepare};
