//! What holds of every match, proved from the definitions.

use crate::classify::{bonus_in_range, bonuses};
use crate::matcher::{alignment, empty_outcome, fuzzy_match, is_match, no_match};
use crate::normalize::prepared;
use crate::score::{
    best_before, cell, comes_before, has_peak, in_grid, is_peak, lemma_cell_bounds,
    lemma_weights, matrix, peak,
};
use crate::trace::{
    ascending, lemma_trace_accounts, lemma_trace_ascending, lemma_trace_nonempty, unmatched,
};
use vstd::prelude::*;

verus! {

/// An empty pattern gives the empty outcome, whatever the text and the flags.
pub proof fn lemma_empty_pattern(text: Seq<char>, case_sensitive: bool, normalize: bool)
    ensures
        fuzzy_match(text, Seq::empty(), case_sensitive, normalize) == empty_outcome(),
{
}

/// A pattern that is not empty and, once prepared, has more characters than
/// the prepared text does not match.
pub proof fn lemma_pattern_longer_than_text(
    text: Seq<char>,
    pattern: Seq<char>,
    case_sensitive: bool,
    normalize: bool,
)
    requires
        pattern.len() > 0,
        prepared(pattern, case_sensitive, normalize).len() > prepared(
            text,
            case_sensitive,
            normalize,
        ).len(),
    ensures
        fuzzy_match(text, pattern, case_sensitive, normalize) == no_match(),
{
}

/// The score of an outcome is positive exactly when the pattern matches, and
/// it is then the score of the peak.
pub proof fn lemma_score_of_a_match(text: Seq<char>, pattern: Seq<char>, bonus: Seq<int>)
    ensures
        alignment(text, pattern, bonus).score > 0 <==> is_match(text, pattern, bonus),
        alignment(text, pattern, bonus).score >= 0,
        is_match(text, pattern, bonus) ==> is_peak(
            text,
            pattern,
            bonus,
            peak(text, pattern, bonus).0,
            peak(text, pattern, bonus).1,
        ),
{
}

/// The positions of a match are strictly increasing positions of the text, at
/// least one and at most one per pattern character; the match starts at the
/// first of them and ends behind the last. Their number is the row of the
/// peak less the pattern characters that the walk back leaves unmatched.
pub proof fn lemma_positions_of_a_match(text: Seq<char>, pattern: Seq<char>, bonus: Seq<int>)
    requires
        is_match(text, pattern, bonus),
    ensures
        ascending(alignment(text, pattern, bonus).positions),
        1 <= alignment(text, pattern, bonus).positions.len() <= pattern.len(),
        forall|k: int|
            0 <= k < alignment(text, pattern, bonus).positions.len() ==> 0
                <= #[trigger] alignment(text, pattern, bonus).positions[k] < text.len(),
        alignment(text, pattern, bonus).start == alignment(text, pattern, bonus).positions[0],
        alignment(text, pattern, bonus).end == alignment(text, pattern, bonus).positions.last()
            + 1,
        0 <= alignment(text, pattern, bonus).start < alignment(text, pattern, bonus).end
            <= text.len(),
        alignment(text, pattern, bonus).positions.len() == peak(text, pattern, bonus).0
            - unmatched(
            text,
            pattern,
            matrix(text, pattern, bonus),
            peak(text, pattern, bonus).0,
            peak(text, pattern, bonus).1,
        ),
{
    let (i, j) = peak(text, pattern, bonus);
    let h = matrix(text, pattern, bonus);
    lemma_trace_ascending(text, pattern, h, i, j);
    lemma_trace_nonempty(text, pattern, bonus, i, j);
    lemma_trace_accounts(text, pattern, h, i, j);
}

/// Whether the match of `pattern` in `text` is complete: its peak lies in the
/// last row of the matrix, and the walk back from it leaves no pattern
/// character unmatched.
pub open spec fn complete(text: Seq<char>, pattern: Seq<char>, bonus: Seq<int>) -> bool {
    &&& is_match(text, pattern, bonus)
    &&& peak(text, pattern, bonus).0 == pattern.len()
    &&& unmatched(
        text,
        pattern,
        matrix(text, pattern, bonus),
        peak(text, pattern, bonus).0,
        peak(text, pattern, bonus).1,
    ) == 0
}

/// A match has one position for each pattern character exactly when it is
/// complete.
pub proof fn lemma_complete_match(text: Seq<char>, pattern: Seq<char>, bonus: Seq<int>)
    requires
        is_match(text, pattern, bonus),
    ensures
        alignment(text, pattern, bonus).positions.len() == pattern.len() <==> complete(
            text,
            pattern,
            bonus,
        ),
{
    let (i, j) = peak(text, pattern, bonus);
    lemma_positions_of_a_match(text, pattern, bonus);
    lemma_trace_accounts(text, pattern, matrix(text, pattern, bonus), i, j);
}

/// Where no pattern character occurs anywhere in the text, no cell of the
/// matrix is positive.
pub proof fn lemma_grid_without_equal_characters(
    text: Seq<char>,
    pattern: Seq<char>,
    bonus: Seq<int>,
    i: int,
    j: int,
)
    requires
        forall|a: int, b: int|
            0 <= a < pattern.len() && 0 <= b < text.len() ==> pattern[a] != text[b],
        0 <= i <= pattern.len(),
        0 <= j <= text.len(),
    ensures
        cell(text, pattern, bonus, i, j) <= 0,
    decreases i + j,
{
    lemma_weights(i);
    if i >= 1 && j >= 1 {
        lemma_grid_without_equal_characters(text, pattern, bonus, i, j - 1);
        lemma_grid_without_equal_characters(text, pattern, bonus, i - 1, j);
    }
}

/// A pattern none of whose characters occurs in the text does not match.
pub proof fn lemma_no_shared_character(text: Seq<char>, pattern: Seq<char>, bonus: Seq<int>)
    requires
        pattern.len() > 0,
        forall|a: int, b: int|
            0 <= a < pattern.len() && 0 <= b < text.len() ==> pattern[a] != text[b],
    ensures
        !is_match(text, pattern, bonus),
        alignment(text, pattern, bonus) == no_match(),
{
    if has_peak(text, pattern, bonus) {
        let (i, j) = peak(text, pattern, bonus);
        lemma_grid_without_equal_characters(text, pattern, bonus, i, j);
    }
}

/// Reads the grid row by row up to, and without, cell `(i, j)` and returns
/// the best cell so far, its score first.
pub proof fn lemma_read_grid(
    text: Seq<char>,
    pattern: Seq<char>,
    bonus: Seq<int>,
    i: int,
    j: int,
) -> (best: (int, int, int))
    requires
        1 <= i <= pattern.len() + 1,
        1 <= j <= text.len() + 1,
    ensures
        best_before(text, pattern, bonus, i, j, best.0, best.1, best.2),
    decreases i, j,
{
    if j > 1 {
        let before = lemma_read_grid(text, pattern, bonus, i, j - 1);
        let here = cell(text, pattern, bonus, i, j - 1);
        if i <= pattern.len() && here > before.0 {
            (here, i, j - 1)
        } else {
            before
        }
    } else if i > 1 {
        lemma_read_grid(text, pattern, bonus, i - 1, text.len() as int + 1)
    } else {
        (0, 0, 0)
    }
}

/// The matrix has a peak exactly when some cell of its grid is positive.
pub proof fn lemma_peak_exists(text: Seq<char>, pattern: Seq<char>, bonus: Seq<int>)
    ensures
        has_peak(text, pattern, bonus) <==> exists|i: int, j: int|
            in_grid(text, pattern, i, j) && cell(text, pattern, bonus, i, j) > 0,
{
    if exists|i: int, j: int|
        in_grid(text, pattern, i, j) && cell(text, pattern, bonus, i, j) > 0 {
        let (a, b) = choose|i: int, j: int|
            in_grid(text, pattern, i, j) && cell(text, pattern, bonus, i, j) > 0;
        let last = pattern.len() as int + 1;
        let best = lemma_read_grid(text, pattern, bonus, last, 1);
        assert(comes_before(a, b, last, 1));
        assert(is_peak(text, pattern, bonus, best.1, best.2));
    }
    if has_peak(text, pattern, bonus) {
        let (i, j) = peak(text, pattern, bonus);
        assert(in_grid(text, pattern, i, j) && cell(text, pattern, bonus, i, j) > 0);
    }
}

/// The edges of the matrix: row 0 is zero, column 0 falls by one from row to
/// row below it, and no cell off column 0 is negative.
pub proof fn lemma_matrix_edges(
    text: Seq<char>,
    pattern: Seq<char>,
    bonus: Seq<int>,
    i: int,
    j: int,
)
    requires
        bonus_in_range(bonus),
        0 <= i,
        0 <= j <= bonus.len(),
    ensures
        cell(text, pattern, bonus, 0, j) == 0,
        i >= 1 ==> cell(text, pattern, bonus, i, 0) == -2 - i,
        i >= 1 ==> cell(text, pattern, bonus, i + 1, 0) < cell(text, pattern, bonus, i, 0),
        j >= 1 ==> cell(text, pattern, bonus, i, j) >= 0,
{
    lemma_weights(i);
    lemma_weights(i + 1);
    lemma_cell_bounds(text, pattern, bonus, i, j);
}

/// No outcome has a negative score, and the score is positive exactly when
/// the outcome has positions: 0 is the score of the empty pattern and of a
/// pattern that does not match, and of nothing else.
pub proof fn lemma_score_tells_a_match(
    text: Seq<char>,
    pattern: Seq<char>,
    case_sensitive: bool,
    normalize: bool,
)
    ensures
        fuzzy_match(text, pattern, case_sensitive, normalize).score >= 0,
        fuzzy_match(text, pattern, case_sensitive, normalize).score > 0 <==> fuzzy_match(
            text,
            pattern,
            case_sensitive,
            normalize,
        ).positions.len() > 0,
{
    if pattern.len() > 0 {
        let ready = prepared(text, case_sensitive, normalize);
        let sought = prepared(pattern, case_sensitive, normalize);
        lemma_score_of_a_match(ready, sought, bonuses(ready));
        if is_match(ready, sought, bonuses(ready)) {
            lemma_positions_of_a_match(ready, sought, bonuses(ready));
        }
    }
}

} // verus!
