//! The alignment matrix: the best local score of every pattern prefix against
//! every text prefix, and the cell where the score peaks.

use crate::classify::{bonus_in_range, bonus_values};
use crate::weights::{
    BONUS_BOUNDARY, BONUS_FIRST_CHAR_MULTIPLIER, SCORE_GAP_EXTENSION, SCORE_GAP_START,
    SCORE_MATCH,
};
use vstd::prelude::*;

verus! {

/// The score in column 0 of row `i >= 1`: `i` pattern characters set against
/// no text at all, charged as one gap of length `i`.
pub open spec fn gap_column(i: int) -> int {
    SCORE_GAP_START + (i - 1) * SCORE_GAP_EXTENSION
}

/// What a match of pattern character `i` on text character `j` (both counted
/// from 1) adds to the score: the reward, and the bonus of the text position,
/// which counts double for the first pattern character.
pub open spec fn match_gain(bonus: Seq<int>, i: int, j: int) -> int {
    if i == 1 {
        SCORE_MATCH + bonus[j - 1] * BONUS_FIRST_CHAR_MULTIPLIER
    } else {
        SCORE_MATCH + bonus[j - 1]
    }
}

/// The larger of two integers.
pub open spec fn larger(a: int, b: int) -> int {
    if a >= b {
        a
    } else {
        b
    }
}

/// Cell `(i, j)` of the alignment matrix of `pattern` against `text`, whose
/// positions earn the bonuses `bonus`: the best local score of the first `i`
/// pattern characters against the text up to its `j`-th character.
///
/// Row 0 is zero. Column 0 below it holds the gap charge. Elsewhere a cell
/// whose two characters are equal extends the diagonal by the match gain; one
/// whose characters differ takes the better of skipping the text character
/// and skipping the pattern character; and no cell drops below zero.
pub open spec fn cell(text: Seq<char>, pattern: Seq<char>, bonus: Seq<int>, i: int, j: int) -> int
    decreases i + j,
{
    if i <= 0 {
        0
    } else if j <= 0 {
        gap_column(i)
    } else if pattern[i - 1] == text[j - 1] {
        larger(0, cell(text, pattern, bonus, i - 1, j - 1) + match_gain(bonus, i, j))
    } else {
        larger(
            0,
            larger(
                cell(text, pattern, bonus, i, j - 1) + SCORE_GAP_EXTENSION,
                cell(text, pattern, bonus, i - 1, j) + SCORE_GAP_START,
            ),
        )
    }
}

/// The alignment matrix of `pattern` against `text` as a whole: one row more
/// than the pattern has characters, one column more than the text has.
pub open spec fn matrix(text: Seq<char>, pattern: Seq<char>, bonus: Seq<int>) -> Seq<Seq<int>> {
    Seq::new(
        pattern.len() + 1,
        |i: int| Seq::new(text.len() + 1, |j: int| cell(text, pattern, bonus, i, j)),
    )
}

/// No cell of row `i` can score more than this.
pub open spec fn score_ceiling(i: int) -> int {
    (SCORE_MATCH + BONUS_BOUNDARY + 2) * i + (BONUS_BOUNDARY + 2)
}

/// Whether `(i, j)` is a cell that sets a pattern character against a text
/// character: row 0 and column 0 are not.
pub open spec fn in_grid(text: Seq<char>, pattern: Seq<char>, i: int, j: int) -> bool {
    1 <= i <= pattern.len() && 1 <= j <= text.len()
}

/// Whether cell `(a, b)` comes before cell `(i, j)` when the matrix is read
/// row by row.
pub open spec fn comes_before(a: int, b: int, i: int, j: int) -> bool {
    a < i || (a == i && b < j)
}

/// Whether `(i, j)` is the peak of the matrix: a cell of the grid with a
/// positive score that no cell exceeds and that no earlier cell reaches.
pub open spec fn is_peak(text: Seq<char>, pattern: Seq<char>, bonus: Seq<int>, i: int, j: int) -> bool {
    let top = cell(text, pattern, bonus, i, j);
    &&& in_grid(text, pattern, i, j)
    &&& top > 0
    &&& forall|a: int, b: int|
        in_grid(text, pattern, a, b) ==> #[trigger] cell(text, pattern, bonus, a, b) <= top
    &&& forall|a: int, b: int|
        in_grid(text, pattern, a, b) && comes_before(a, b, i, j) ==> #[trigger] cell(
            text,
            pattern,
            bonus,
            a,
            b,
        ) < top
}

/// Whether the matrix has a peak.
pub open spec fn has_peak(text: Seq<char>, pattern: Seq<char>, bonus: Seq<int>) -> bool {
    exists|i: int, j: int| is_peak(text, pattern, bonus, i, j)
}

/// The peak of the matrix, where it has one.
pub open spec fn peak(text: Seq<char>, pattern: Seq<char>, bonus: Seq<int>) -> (int, int) {
    choose|i: int, j: int| is_peak(text, pattern, bonus, i, j)
}

/// Whether `(score, row, col)` is the outcome of reading the grid row by row
/// up to, and without, cell `(i, j)`: the first cell among those read that
/// holds their largest score, if that score is positive, and zeros if not.
pub open spec fn best_before(
    text: Seq<char>,
    pattern: Seq<char>,
    bonus: Seq<int>,
    i: int,
    j: int,
    score: int,
    row: int,
    col: int,
) -> bool {
    &&& forall|a: int, b: int|
        in_grid(text, pattern, a, b) && comes_before(a, b, i, j) ==> #[trigger] cell(
            text,
            pattern,
            bonus,
            a,
            b,
        ) <= score
    &&& if score > 0 {
        &&& in_grid(text, pattern, row, col)
        &&& comes_before(row, col, i, j)
        &&& cell(text, pattern, bonus, row, col) == score
        &&& forall|a: int, b: int|
            in_grid(text, pattern, a, b) && comes_before(a, b, row, col) ==> #[trigger] cell(
                text,
                pattern,
                bonus,
                a,
                b,
            ) < score
    } else {
        score == 0 && row == 0 && col == 0
    }
}

/// The gap charge and the ceiling of row `i`, with the weights filled in.
pub proof fn lemma_weights(i: int)
    ensures
        gap_column(i) == -2 - i,
        score_ceiling(i) == 26 * i + 10,
{
}

/// A match gains at least the bare reward and at most the reward with the
/// largest bonus, doubled for the first pattern character only.
pub proof fn lemma_match_gain(bonus: Seq<int>, i: int, j: int)
    requires
        bonus_in_range(bonus),
        1 <= j <= bonus.len(),
    ensures
        SCORE_MATCH <= match_gain(bonus, i, j) <= SCORE_MATCH + 2 * (BONUS_BOUNDARY + 2),
        i != 1 ==> match_gain(bonus, i, j) <= SCORE_MATCH + BONUS_BOUNDARY + 2,
{
}

/// Every cell lies between the gap charge of its row and the ceiling of its
/// row; row 0 is zero, and off column 0 no cell is negative.
pub proof fn lemma_cell_bounds(
    text: Seq<char>,
    pattern: Seq<char>,
    bonus: Seq<int>,
    i: int,
    j: int,
)
    requires
        bonus_in_range(bonus),
        0 <= i,
        0 <= j <= bonus.len(),
    ensures
        gap_column(i) - 1 <= cell(text, pattern, bonus, i, j) <= score_ceiling(i),
        i == 0 ==> cell(text, pattern, bonus, i, j) == 0,
        j >= 1 ==> cell(text, pattern, bonus, i, j) >= 0,
    decreases i + j,
{
    lemma_weights(i);
    if i >= 1 && j >= 1 {
        lemma_cell_bounds(text, pattern, bonus, i - 1, j - 1);
        lemma_cell_bounds(text, pattern, bonus, i, j - 1);
        lemma_cell_bounds(text, pattern, bonus, i - 1, j);
        lemma_match_gain(bonus, i, j);
        lemma_weights(i - 1);
    }
}

/// A matrix has at most one peak.
pub proof fn lemma_peak_unique(
    text: Seq<char>,
    pattern: Seq<char>,
    bonus: Seq<int>,
    i: int,
    j: int,
    a: int,
    b: int,
)
    requires
        is_peak(text, pattern, bonus, i, j),
        is_peak(text, pattern, bonus, a, b),
    ensures
        i == a,
        j == b,
{
}

/// The alignment matrix of one pattern against one text, with its peak.
pub struct ScoreMatrix {
    /// The cells, one row per pattern prefix and one column per text prefix.
    pub rows: Vec<Vec<i32>>,
    /// The score at the peak, or 0 where no cell is positive.
    pub peak_score: i32,
    /// The row of the peak, or 0 where there is none.
    pub peak_row: usize,
    /// The column of the peak, or 0 where there is none.
    pub peak_col: usize,
}

impl ScoreMatrix {
    /// The cells, as integers.
    pub open spec fn values(&self) -> Seq<Seq<int>> {
        Seq::new(self.rows.len() as nat, |i: int| self.rows[i]@.map_values(|v: i32| v as int))
    }

    /// Whether the matrix has the shape for a text of `n` characters and a
    /// pattern of `m`: `m + 1` rows of `n + 1` cells, and peak fields that
    /// name a cell of it.
    pub open spec fn shaped(&self, n: nat, m: nat) -> bool {
        &&& self.rows.len() == m + 1
        &&& forall|i: int| 0 <= i <= m ==> (#[trigger] self.rows[i]).len() == n + 1
        &&& self.peak_row <= m
        &&& self.peak_col <= n
    }

    /// Whether this is the matrix of `pattern` against `text` under the
    /// bonuses `bonus`: every cell holds its score, and the peak fields name
    /// the peak, or are zero where no cell is positive.
    pub open spec fn describes(&self, text: Seq<char>, pattern: Seq<char>, bonus: Seq<int>) -> bool {
        &&& self.shaped(text.len(), pattern.len())
        &&& self.values() == matrix(text, pattern, bonus)
        &&& if self.peak_score > 0 {
            &&& is_peak(text, pattern, bonus, self.peak_row as int, self.peak_col as int)
            &&& self.peak_score == cell(
                text,
                pattern,
                bonus,
                self.peak_row as int,
                self.peak_col as int,
            )
        } else {
            &&& self.peak_score == 0
            &&& self.peak_row == 0
            &&& self.peak_col == 0
            &&& !has_peak(text, pattern, bonus)
        }
    }
}

/// Builds the alignment matrix of `pattern` against `text`, row by row, and
/// finds its peak on the way. `bonus` holds the bonus of each text position.
pub fn score(text: &[char], pattern: &[char], bonus: &[i32]) -> (scores: ScoreMatrix)
    requires
        text.len() < usize::MAX,
        score_ceiling(pattern.len() as int) <= i32::MAX,
        bonus.len() == text.len(),
        bonus_in_range(bonus_values(bonus@)),
    ensures
        scores.describes(text@, pattern@, bonus_values(bonus@)),
{
    let n: usize = text.len();
    let m: usize = pattern.len();
    let ghost earned = bonus_values(bonus@);
    let mut rows: Vec<Vec<i32>> = Vec::new();
    let mut top: Vec<i32> = Vec::new();
    let mut j: usize = 0;
    while j <= n
        invariant
            n < usize::MAX,
            j <= n + 1,
            top.len() == j,
            forall|b: int| 0 <= b < j ==> #[trigger] top[b] == 0,
        decreases n + 1 - j,
    {
        top.push(0);
        j += 1;
    }
    rows.push(top);
    let mut peak_score: i32 = 0;
    let mut peak_row: usize = 0;
    let mut peak_col: usize = 0;
    let mut i: usize = 1;
    while i <= m
        invariant
            n == text.len(),
            m == pattern.len(),
            n < usize::MAX,
            score_ceiling(m as int) <= i32::MAX,
            bonus.len() == n,
            earned == bonus_values(bonus@),
            bonus_in_range(earned),
            1 <= i <= m + 1,
            rows.len() == i,
            forall|a: int| 0 <= a < i ==> (#[trigger] rows[a]).len() == n + 1,
            forall|a: int, b: int|
                0 <= a < i && 0 <= b <= n ==> #[trigger] rows[a][b] == cell(
                    text@,
                    pattern@,
                    earned,
                    a,
                    b,
                ),
            peak_row <= m,
            peak_col <= n,
            best_before(
                text@,
                pattern@,
                earned,
                i as int,
                1,
                peak_score as int,
                peak_row as int,
                peak_col as int,
            ),
        decreases m + 1 - i,
    {
        let mut row: Vec<i32> = Vec::new();
        proof {
            lemma_weights(i as int);
            lemma_weights(m as int);
        }
        row.push(SCORE_GAP_START + (i as i32 - 1) * SCORE_GAP_EXTENSION);
        let mut j: usize = 1;
        while j <= n
            invariant
                n == text.len(),
                m == pattern.len(),
                n < usize::MAX,
                score_ceiling(m as int) <= i32::MAX,
                bonus.len() == n,
                earned == bonus_values(bonus@),
                bonus_in_range(earned),
                1 <= i <= m,
                rows.len() == i,
                forall|a: int| 0 <= a < i ==> (#[trigger] rows[a]).len() == n + 1,
                forall|a: int, b: int|
                    0 <= a < i && 0 <= b <= n ==> #[trigger] rows[a][b] == cell(
                        text@,
                        pattern@,
                        earned,
                        a,
                        b,
                    ),
                1 <= j <= n + 1,
                row.len() == j,
                forall|b: int|
                    0 <= b < j ==> #[trigger] row[b] == cell(text@, pattern@, earned, i as int, b),
                peak_row <= m,
                peak_col <= n,
                best_before(
                    text@,
                    pattern@,
                    earned,
                    i as int,
                    j as int,
                    peak_score as int,
                    peak_row as int,
                    peak_col as int,
                ),
            decreases n + 1 - j,
        {
            proof {
                lemma_weights(i as int);
                lemma_weights(m as int);
                lemma_cell_bounds(text@, pattern@, earned, i - 1, j - 1);
                lemma_cell_bounds(text@, pattern@, earned, i as int, j - 1);
                lemma_cell_bounds(text@, pattern@, earned, i - 1, j as int);
                lemma_cell_bounds(text@, pattern@, earned, i as int, j as int);
            }
            let candidate: i32 = if pattern[i - 1] == text[j - 1] {
                let diagonal: i32 = rows[i - 1][j - 1] + SCORE_MATCH;
                if i == 1 {
                    diagonal + bonus[j - 1] * BONUS_FIRST_CHAR_MULTIPLIER
                } else {
                    diagonal + bonus[j - 1]
                }
            } else {
                let skip_text: i32 = row[j - 1] + SCORE_GAP_EXTENSION;
                let skip_pattern: i32 = rows[i - 1][j] + SCORE_GAP_START;
                if skip_text >= skip_pattern {
                    skip_text
                } else {
                    skip_pattern
                }
            };
            let value: i32 = if candidate > 0 {
                candidate
            } else {
                0
            };
            assert(value == cell(text@, pattern@, earned, i as int, j as int));
            row.push(value);
            if value > peak_score {
                peak_score = value;
                peak_row = i;
                peak_col = j;
            }
            j += 1;
        }
        rows.push(row);
        i += 1;
    }
    let scores = ScoreMatrix { rows, peak_score, peak_row, peak_col };
    proof {
        assert(scores.values() =~~= matrix(text@, pattern@, earned));
        if peak_score > 0 {
            assert(is_peak(text@, pattern@, earned, peak_row as int, peak_col as int));
        } else {
            assert(!has_peak(text@, pattern@, earned));
        }
    }
    scores
}

} // verus!
