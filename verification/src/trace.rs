//! The walk back through an alignment matrix to the text positions that the
//! alignment uses.

use crate::score::{cell, lemma_weights, matrix, ScoreMatrix};
use crate::weights::SCORE_GAP_EXTENSION;
use vstd::prelude::*;

verus! {

/// The text positions, in ascending order, that the walk back through the
/// matrix `h` from cell `(i, j)` records.
///
/// At a cell whose two characters are equal the walk records the text
/// position and steps diagonally. At any other cell it steps left where the
/// score came from skipping the text character, and up where it did not. It
/// ends at row 0 or column 0.
pub open spec fn trace(
    text: Seq<char>,
    pattern: Seq<char>,
    h: Seq<Seq<int>>,
    i: int,
    j: int,
) -> Seq<int>
    decreases i + j,
{
    if i <= 0 || j <= 0 {
        Seq::empty()
    } else if pattern[i - 1] == text[j - 1] {
        trace(text, pattern, h, i - 1, j - 1).push(j - 1)
    } else if h[i][j - 1] + SCORE_GAP_EXTENSION == h[i][j] {
        trace(text, pattern, h, i, j - 1)
    } else {
        trace(text, pattern, h, i - 1, j)
    }
}

/// How many of the first `i` pattern characters the walk back from cell
/// `(i, j)` leaves without a text position: those it steps over upwards, and
/// those still ahead of it when it reaches column 0.
pub open spec fn unmatched(
    text: Seq<char>,
    pattern: Seq<char>,
    h: Seq<Seq<int>>,
    i: int,
    j: int,
) -> int
    decreases i + j,
{
    if i <= 0 {
        0
    } else if j <= 0 {
        i
    } else if pattern[i - 1] == text[j - 1] {
        unmatched(text, pattern, h, i - 1, j - 1)
    } else if h[i][j - 1] + SCORE_GAP_EXTENSION == h[i][j] {
        unmatched(text, pattern, h, i, j - 1)
    } else {
        1 + unmatched(text, pattern, h, i - 1, j)
    }
}

/// Whether `s` is strictly increasing.
pub open spec fn ascending(s: Seq<int>) -> bool {
    forall|k: int, l: int| 0 <= k < l < s.len() ==> s[k] < s[l]
}

/// The positions of a vector, as integers.
pub open spec fn offsets(positions: Seq<usize>) -> Seq<int> {
    positions.map_values(|p: usize| p as int)
}

/// The walk back from `(i, j)` records positions of the text before column
/// `j`, in strictly increasing order, and no more of them than it has rows
/// or columns to cross. This holds of any matrix.
pub proof fn lemma_trace_ascending(
    text: Seq<char>,
    pattern: Seq<char>,
    h: Seq<Seq<int>>,
    i: int,
    j: int,
)
    ensures
        ascending(trace(text, pattern, h, i, j)),
        forall|k: int|
            0 <= k < trace(text, pattern, h, i, j).len() ==> 0 <= #[trigger] trace(
                text,
                pattern,
                h,
                i,
                j,
            )[k] < j,
        i >= 0 ==> trace(text, pattern, h, i, j).len() <= i,
        j >= 0 ==> trace(text, pattern, h, i, j).len() <= j,
    decreases i + j,
{
    if i <= 0 || j <= 0 {
    } else if pattern[i - 1] == text[j - 1] {
        lemma_trace_ascending(text, pattern, h, i - 1, j - 1);
    } else if h[i][j - 1] + SCORE_GAP_EXTENSION == h[i][j] {
        lemma_trace_ascending(text, pattern, h, i, j - 1);
    } else {
        lemma_trace_ascending(text, pattern, h, i - 1, j);
    }
}

/// Every one of the first `i` pattern characters either gets a text position
/// on the walk back from `(i, j)` or is left unmatched. This holds of any
/// matrix.
pub proof fn lemma_trace_accounts(
    text: Seq<char>,
    pattern: Seq<char>,
    h: Seq<Seq<int>>,
    i: int,
    j: int,
)
    requires
        0 <= i,
    ensures
        trace(text, pattern, h, i, j).len() + unmatched(text, pattern, h, i, j) == i,
        unmatched(text, pattern, h, i, j) >= 0,
    decreases i + j,
{
    if i <= 0 || j <= 0 {
    } else if pattern[i - 1] == text[j - 1] {
        lemma_trace_accounts(text, pattern, h, i - 1, j - 1);
    } else if h[i][j - 1] + SCORE_GAP_EXTENSION == h[i][j] {
        lemma_trace_accounts(text, pattern, h, i, j - 1);
    } else {
        lemma_trace_accounts(text, pattern, h, i - 1, j);
    }
}

/// In the alignment matrix, the walk back from a positive cell records at
/// least one position: a positive score comes from a match.
pub proof fn lemma_trace_nonempty(
    text: Seq<char>,
    pattern: Seq<char>,
    bonus: Seq<int>,
    i: int,
    j: int,
)
    requires
        0 <= i <= pattern.len(),
        0 <= j <= text.len(),
        cell(text, pattern, bonus, i, j) > 0,
    ensures
        trace(text, pattern, matrix(text, pattern, bonus), i, j).len() >= 1,
    decreases i + j,
{
    let h = matrix(text, pattern, bonus);
    lemma_weights(i);
    if i <= 0 || j <= 0 {
    } else if pattern[i - 1] == text[j - 1] {
    } else {
        assert(h[i][j - 1] == cell(text, pattern, bonus, i, j - 1));
        assert(h[i][j] == cell(text, pattern, bonus, i, j));
        if h[i][j - 1] + SCORE_GAP_EXTENSION == h[i][j] {
            lemma_trace_nonempty(text, pattern, bonus, i, j - 1);
        } else {
            lemma_trace_nonempty(text, pattern, bonus, i - 1, j);
        }
    }
}

/// Walks back through `scores` from its peak and returns the text positions
/// on the way, in ascending order.
pub fn backtrack(text: &[char], pattern: &[char], scores: &ScoreMatrix) -> (positions: Vec<usize>)
    requires
        scores.shaped(text@.len(), pattern@.len()),
    ensures
        offsets(positions@) == trace(
            text@,
            pattern@,
            scores.values(),
            scores.peak_row as int,
            scores.peak_col as int,
        ),
        positions.len() <= scores.peak_row,
        ascending(offsets(positions@)),
        forall|k: int| 0 <= k < positions.len() ==> #[trigger] positions[k] < scores.peak_col,
{
    let ghost h = scores.values();
    let ghost whole = trace(text@, pattern@, h, scores.peak_row as int, scores.peak_col as int);
    let mut found: Vec<usize> = Vec::new();
    let mut i: usize = scores.peak_row;
    let mut j: usize = scores.peak_col;
    while i > 0 && j > 0
        invariant
            scores.shaped(text@.len(), pattern@.len()),
            h == scores.values(),
            i <= pattern.len(),
            j <= text.len(),
            whole == trace(text@, pattern@, h, i as int, j as int) + offsets(found@).reverse(),
        decreases i + j,
    {
        let ghost before = offsets(found@);
        if pattern[i - 1] == text[j - 1] {
            found.push(j - 1);
            i -= 1;
            j -= 1;
            assert(offsets(found@) =~= before.push(j as int));
            assert(offsets(found@).reverse() =~= seq![j as int] + before.reverse());
            assert(whole =~= trace(text@, pattern@, h, i as int, j as int) + offsets(
                found@,
            ).reverse());
        } else {
            let left: i64 = scores.rows[i][j - 1] as i64;
            let here: i64 = scores.rows[i][j] as i64;
            assert(h[i as int][j - 1] == left && h[i as int][j as int] == here);
            if left + SCORE_GAP_EXTENSION as i64 == here {
                j -= 1;
            } else {
                i -= 1;
            }
        }
    }
    let mut positions: Vec<usize> = Vec::new();
    let mut k: usize = found.len();
    while k > 0
        invariant
            k <= found.len(),
            positions.len() == found.len() - k,
            forall|l: int|
                0 <= l < positions.len() ==> #[trigger] positions[l] == found[found.len() - 1 - l],
        decreases k,
    {
        k -= 1;
        positions.push(found[k]);
    }
    proof {
        assert(offsets(positions@) =~= offsets(found@).reverse());
        assert(whole =~= offsets(positions@));
        lemma_trace_ascending(
            text@,
            pattern@,
            h,
            scores.peak_row as int,
            scores.peak_col as int,
        );
        assert forall|k: int| 0 <= k < positions.len() implies #[trigger] positions[k]
            < scores.peak_col by {
            assert(offsets(positions@)[k] == positions[k] as int);
        }
    }
    positions
}

} // verus!
