//! The entry points: matching one pattern against one text.

use crate::classify::{bonus_in_range, bonus_table, bonus_values, bonuses};
use crate::normalize::{prepare, prepared};
use crate::score::{
    cell, has_peak, lemma_peak_unique, lemma_weights, matrix, peak, score, score_ceiling,
};
use crate::trace::{ascending, backtrack, lemma_trace_nonempty, offsets, trace};
use vstd::prelude::*;

verus! {

/// What a match reports, as mathematics: where the match starts, where it
/// ends (exclusive), its score, and the text positions it uses.
pub struct Outcome {
    /// The first matched position, or -1 where the pattern does not match.
    pub start: int,
    /// One past the last matched position, or -1 where the pattern does not
    /// match.
    pub end: int,
    /// The score of the match, or 0 where there is none.
    pub score: int,
    /// The matched positions of the text, in ascending order.
    pub positions: Seq<int>,
}

/// What an empty pattern gives: a match of nothing at the very start.
pub open spec fn empty_outcome() -> Outcome {
    Outcome { start: 0, end: 0, score: 0, positions: Seq::empty() }
}

/// What a pattern gives that does not match.
pub open spec fn no_match() -> Outcome {
    Outcome { start: -1, end: -1, score: 0, positions: Seq::empty() }
}

/// Whether a pattern of these characters matches a text of these characters
/// whose positions earn the bonuses `bonus`: the pattern is not empty and not
/// longer than the text, and the alignment matrix has a peak.
pub open spec fn is_match(text: Seq<char>, pattern: Seq<char>, bonus: Seq<int>) -> bool {
    0 < pattern.len() <= text.len() && has_peak(text, pattern, bonus)
}

/// The outcome of matching `pattern` against `text`, character by character,
/// where the text positions earn the bonuses `bonus`. An empty pattern matches
/// nothing at the start. A pattern that matches reports the score at the peak
/// of the alignment matrix and the positions that the walk back from the peak
/// records.
pub open spec fn alignment(text: Seq<char>, pattern: Seq<char>, bonus: Seq<int>) -> Outcome {
    if pattern.len() == 0 {
        empty_outcome()
    } else if !is_match(text, pattern, bonus) {
        no_match()
    } else {
        let (i, j) = peak(text, pattern, bonus);
        let positions = trace(text, pattern, matrix(text, pattern, bonus), i, j);
        Outcome {
            start: positions.first(),
            end: positions.last() + 1,
            score: cell(text, pattern, bonus, i, j),
            positions,
        }
    }
}

/// The outcome of matching the string `pattern` against the string `text`:
/// both are prepared in the same way, the prepared text is given its bonus
/// table, and the two are aligned. An empty pattern is answered before any
/// preparation.
pub open spec fn fuzzy_match(
    text: Seq<char>,
    pattern: Seq<char>,
    case_sensitive: bool,
    normalize: bool,
) -> Outcome {
    if pattern.len() == 0 {
        empty_outcome()
    } else {
        let ready = prepared(text, case_sensitive, normalize);
        alignment(ready, prepared(pattern, case_sensitive, normalize), bonuses(ready))
    }
}

/// Whether the tuple `found` reports the outcome `outcome`.
pub open spec fn reports(found: (isize, isize, i32, Vec<usize>), outcome: Outcome) -> bool {
    &&& found.0 == outcome.start
    &&& found.1 == outcome.end
    &&& found.2 == outcome.score
    &&& offsets(found.3@) == outcome.positions
}

/// Whether the scores and offsets of matching `pattern` against `text` fit
/// the machine's integers. Only a pattern that is set against the text is
/// held to this: no score of it may pass `i32::MAX`, and no offset into the
/// text `isize::MAX`.
pub open spec fn sizes_fit(text: Seq<char>, pattern: Seq<char>) -> bool {
    0 < pattern.len() <= text.len() ==> score_ceiling(pattern.len() as int) <= i32::MAX
        && text.len() <= isize::MAX
}

/// The longest pattern whose scores are sure to fit an `i32`.
pub const MAX_PATTERN_CHARS: usize = 82_595_524;

/// Whether [`fuzzy_match_v2`] can be asked this question: once prepared, the
/// two strings fit the machine's integers.
pub open spec fn inputs_fit(
    text: Seq<char>,
    pattern: Seq<char>,
    case_sensitive: bool,
    normalize: bool,
) -> bool {
    pattern.len() > 0 ==> sizes_fit(
        prepared(text, case_sensitive, normalize),
        prepared(pattern, case_sensitive, normalize),
    )
}

/// Matches `pattern` against `text`, both taken as they are, one character
/// per element; `bonus` holds the bonus of each text position.
///
/// Returns the start of the match, its end (exclusive), its score and the
/// text positions it uses; `(0, 0, 0, [])` for an empty pattern and
/// `(-1, -1, 0, [])` where the pattern does not match.
pub fn align(text: &[char], pattern: &[char], bonus: &[i32]) -> (found: (
    isize,
    isize,
    i32,
    Vec<usize>,
))
    requires
        bonus.len() == text.len(),
        bonus_in_range(bonus_values(bonus@)),
        sizes_fit(text@, pattern@),
    ensures
        reports(found, alignment(text@, pattern@, bonus_values(bonus@))),
        found.2 > 0 <==> is_match(text@, pattern@, bonus_values(bonus@)),
        found.3.len() > 0 <==> found.2 > 0,
        found.3.len() > 0 ==> found.0 == found.3[0] && found.1 == found.3[found.3.len() - 1] + 1,
        ascending(offsets(found.3@)),
        found.3.len() <= pattern.len(),
        forall|k: int| 0 <= k < found.3.len() ==> #[trigger] found.3[k] < text.len(),
{
    if pattern.len() == 0 {
        let found = (0isize, 0isize, 0i32, Vec::new());
        assert(offsets(found.3@) =~= Seq::<int>::empty());
        return found;
    }
    if pattern.len() > text.len() {
        let found = (-1isize, -1isize, 0i32, Vec::new());
        assert(offsets(found.3@) =~= Seq::<int>::empty());
        return found;
    }
    let scores = score(text, pattern, bonus);
    if scores.peak_score == 0 {
        let found = (-1isize, -1isize, 0i32, Vec::new());
        assert(offsets(found.3@) =~= Seq::<int>::empty());
        return found;
    }
    let positions = backtrack(text, pattern, &scores);
    proof {
        let values = bonus_values(bonus@);
        let (i, j) = peak(text@, pattern@, values);
        lemma_peak_unique(
            text@,
            pattern@,
            values,
            i,
            j,
            scores.peak_row as int,
            scores.peak_col as int,
        );
        lemma_trace_nonempty(text@, pattern@, values, i, j);
        assert(offsets(positions@)[0] == positions[0] as int);
        assert(offsets(positions@)[positions.len() - 1] == positions[positions.len() - 1] as int);
    }
    let start: isize = positions[0] as isize;
    let end: isize = (positions[positions.len() - 1] + 1) as isize;
    (start, end, scores.peak_score, positions)
}

/// Performs a fuzzy match between `text` and `pattern`.
///
/// Both strings are lowercased first unless `case_sensitive` is set, and
/// then, if `normalize` is set, stripped of their diacritics. The result
/// holds the start of the match, its end (exclusive), its score and the
/// matched positions, all counted in characters of the prepared text. An
/// empty pattern gives `(0, 0, 0, [])`; a pattern that does not match gives
/// `(-1, -1, 0, [])`.
pub fn fuzzy_match_v2(text: &str, pattern: &str, case_sensitive: bool, normalize: bool) -> (found:
    (isize, isize, i32, Vec<usize>))
    requires
        inputs_fit(text@, pattern@, case_sensitive, normalize),
    ensures
        reports(found, fuzzy_match(text@, pattern@, case_sensitive, normalize)),
        pattern@.len() == 0 ==> found.0 == 0 && found.1 == 0 && found.2 == 0 && found.3.len() == 0,
        pattern@.len() > 0 && prepared(pattern@, case_sensitive, normalize).len() > prepared(
            text@,
            case_sensitive,
            normalize,
        ).len() ==> found.0 == -1 && found.1 == -1 && found.2 == 0 && found.3.len() == 0,
        found.3.len() > 0 <==> found.2 > 0,
        found.3.len() > 0 ==> found.0 == found.3[0] && found.1 == found.3[found.3.len() - 1] + 1,
        ascending(offsets(found.3@)),
        found.3.len() <= prepared(pattern@, case_sensitive, normalize).len(),
        forall|k: int|
            0 <= k < found.3.len() ==> #[trigger] found.3[k] < prepared(
                text@,
                case_sensitive,
                normalize,
            ).len(),
{
    if pattern.is_empty() {
        let found = (0isize, 0isize, 0i32, Vec::new());
        assert(offsets(found.3@) =~= Seq::<int>::empty());
        return found;
    }
    let text_chars = prepare(text, case_sensitive, normalize);
    let pattern_chars = prepare(pattern, case_sensitive, normalize);
    let bonus = bonus_table(text_chars.as_slice());
    align(text_chars.as_slice(), pattern_chars.as_slice(), bonus.as_slice())
}

/// Performs a fuzzy match between `text` and `pattern` and returns only the
/// score: that of [`fuzzy_match_v2`] on the same arguments, 0 where the
/// pattern is empty or does not match.
pub fn fuzzy_match_score(text: &str, pattern: &str, case_sensitive: bool, normalize: bool) -> (score:
    i32)
    requires
        inputs_fit(text@, pattern@, case_sensitive, normalize),
    ensures
        score == fuzzy_match(text@, pattern@, case_sensitive, normalize).score,
{
    let found = fuzzy_match_v2(text, pattern, case_sensitive, normalize);
    found.2
}

/// Tells whether [`fuzzy_match_v2`] and [`fuzzy_match_score`] can be asked
/// about these arguments, by preparing both strings and measuring them.
pub fn can_match(text: &str, pattern: &str, case_sensitive: bool, normalize: bool) -> (ok: bool)
    ensures
        ok == inputs_fit(text@, pattern@, case_sensitive, normalize),
{
    if pattern.is_empty() {
        return true;
    }
    let text_chars = prepare(text, case_sensitive, normalize);
    let pattern_chars = prepare(pattern, case_sensitive, normalize);
    let n: usize = text_chars.len();
    let m: usize = pattern_chars.len();
    proof {
        lemma_weights(m as int);
    }
    if 0 < m && m <= n {
        m <= MAX_PATTERN_CHARS && n <= isize::MAX as usize
    } else {
        true
    }
}

/// [`fuzzy_match_v2`] for any two strings: `None` where the prepared strings
/// are too long for the scores and offsets to fit the machine's integers,
/// and the match otherwise.
pub fn try_fuzzy_match_v2(
    text: &str,
    pattern: &str,
    case_sensitive: bool,
    normalize: bool,
) -> (found: Option<(isize, isize, i32, Vec<usize>)>)
    ensures
        found is Some <==> inputs_fit(text@, pattern@, case_sensitive, normalize),
        found matches Some(f) ==> reports(
            f,
            fuzzy_match(text@, pattern@, case_sensitive, normalize),
        ),
{
    if can_match(text, pattern, case_sensitive, normalize) {
        Some(fuzzy_match_v2(text, pattern, case_sensitive, normalize))
    } else {
        None
    }
}

/// [`fuzzy_match_score`] for any two strings: `None` where the prepared
/// strings are too long for the scores and offsets to fit the machine's
/// integers, and the score otherwise.
pub fn try_fuzzy_match_score(
    text: &str,
    pattern: &str,
    case_sensitive: bool,
    normalize: bool,
) -> (score: Option<i32>)
    ensures
        score is Some <==> inputs_fit(text@, pattern@, case_sensitive, normalize),
        score matches Some(s) ==> s == fuzzy_match(
            text@,
            pattern@,
            case_sensitive,
            normalize,
        ).score,
{
    if can_match(text, pattern, case_sensitive, normalize) {
        Some(fuzzy_match_score(text, pattern, case_sensitive, normalize))
    } else {
        None
    }
}

} // verus!
