use fuzzy_match::classify::bonus_table;
use fuzzy_match::score::{score, ScoreMatrix};
use fuzzy_match::trace::backtrack;
use fuzzy_match::weights::{
    BONUS_BOUNDARY, BONUS_FIRST_CHAR_MULTIPLIER, SCORE_GAP_EXTENSION, SCORE_GAP_START,
    SCORE_MATCH,
};
use fuzzy_match::{bonus_for, char_class, normalize_rune, prepare, CharClass};

fn chars(s: &str) -> Vec<char> {
    s.chars().collect()
}

fn matrix(text: &str, pattern: &str) -> ScoreMatrix {
    let text = chars(text);
    let pattern = chars(pattern);
    let bonus = bonus_table(&text);
    score(&text, &pattern, &bonus)
}

#[test]
fn weights_have_their_values() {
    assert_eq!(SCORE_MATCH, 16);
    assert_eq!(SCORE_GAP_START, -3);
    assert_eq!(SCORE_GAP_EXTENSION, -1);
    assert_eq!(BONUS_BOUNDARY, SCORE_MATCH / 2);
    assert_eq!(BONUS_FIRST_CHAR_MULTIPLIER, 2);
}

#[test]
fn classes_are_tried_in_order() {
    assert_eq!(char_class(' '), CharClass::White);
    assert_eq!(char_class('\t'), CharClass::White);
    assert_eq!(char_class('\n'), CharClass::White);
    assert_eq!(char_class('\u{3000}'), CharClass::White);
    assert_eq!(char_class('a'), CharClass::Alnum);
    assert_eq!(char_class('Z'), CharClass::Alnum);
    assert_eq!(char_class('7'), CharClass::Alnum);
    assert_eq!(char_class('é'), CharClass::Alnum);
    assert_eq!(char_class('\u{4e2d}'), CharClass::Alnum);
    assert_eq!(char_class('_'), CharClass::Punct);
    assert_eq!(char_class('-'), CharClass::Punct);
    assert_eq!(char_class('/'), CharClass::Punct);
    assert_eq!(char_class('$'), CharClass::Punct);
    assert_eq!(char_class('\u{0}'), CharClass::Punct);
    assert_eq!(char_class('\u{301}'), CharClass::Punct);
}

#[test]
fn bonus_table_of_classes() {
    let all = [CharClass::White, CharClass::Alnum, CharClass::Punct];
    for prev in all {
        for curr in all {
            let expected = match (prev, curr) {
                (CharClass::White, CharClass::Alnum) => 10,
                (CharClass::Punct, CharClass::Alnum) => 9,
                _ => 0,
            };
            assert_eq!(bonus_for(&prev, &curr), expected);
        }
    }
}

#[test]
fn bonus_table_of_a_text() {
    assert_eq!(bonus_table(&chars("foo_bar baz")), vec![10, 0, 0, 0, 9, 0, 0, 0, 10, 0, 0]);
    assert_eq!(bonus_table(&chars(" a")), vec![0, 10]);
    assert_eq!(bonus_table(&chars("__")), vec![0, 0]);
    assert_eq!(bonus_table(&chars("")), Vec::<i32>::new());
}

#[test]
fn rune_keeps_the_head_of_its_decomposition() {
    assert_eq!(normalize_rune('é'), 'e');
    assert_eq!(normalize_rune('É'), 'E');
    assert_eq!(normalize_rune('ñ'), 'n');
    assert_eq!(normalize_rune('a'), 'a');
    assert_eq!(normalize_rune('A'), 'A');
    assert_eq!(normalize_rune('_'), '_');
    assert_eq!(normalize_rune('\u{ac00}'), '\u{1100}');
    assert_eq!(normalize_rune('\u{1e69}'), 's');
    assert_eq!(normalize_rune('\u{212b}'), 'A');
    assert_eq!(normalize_rune('\u{4e2d}'), '\u{4e2d}');
}

#[test]
fn prepare_folds_first_and_decomposes_second() {
    assert_eq!(prepare("ÉcoLe", true, false), chars("ÉcoLe"));
    assert_eq!(prepare("ÉcoLe", false, false), chars("école"));
    assert_eq!(prepare("ÉcoLe", true, true), chars("EcoLe"));
    assert_eq!(prepare("ÉcoLe", false, true), chars("ecole"));
    assert_eq!(prepare("", false, true), Vec::<char>::new());
    assert_eq!(prepare("\u{130}", false, false), vec!['i', '\u{307}']);
    assert_eq!(prepare("\u{130}", false, true), vec!['i', '\u{307}']);
    assert_eq!(prepare("\u{130}", true, true), vec!['I']);
    // A capital sigma at the end of a word lowercases to the final form.
    assert_eq!(prepare("ΟΣ", false, false), vec!['ο', 'ς']);
}

#[test]
fn matrix_of_a_small_pair() {
    let scores = matrix("a b", "ab");
    assert_eq!(
        scores.rows,
        vec![vec![0, 0, 0, 0], vec![-3, 36, 35, 34], vec![-4, 33, 32, 61]]
    );
    assert_eq!((scores.peak_score, scores.peak_row, scores.peak_col), (61, 2, 3));
}

#[test]
fn matrix_edges() {
    let scores = matrix("xy", "abc");
    assert_eq!(scores.rows[0], vec![0, 0, 0]);
    assert_eq!(scores.rows[1][0], -3);
    assert_eq!(scores.rows[2][0], -4);
    assert_eq!(scores.rows[3][0], -5);
    for row in &scores.rows {
        for value in &row[1..] {
            assert_eq!(*value, 0);
        }
    }
    assert_eq!((scores.peak_score, scores.peak_row, scores.peak_col), (0, 0, 0));
    let bare = matrix("", "");
    assert_eq!(bare.rows, vec![vec![0]]);
    assert_eq!((bare.peak_score, bare.peak_row, bare.peak_col), (0, 0, 0));
}

#[test]
fn matrix_keeps_the_first_of_equal_peaks() {
    let scores = matrix("a a", "a");
    assert_eq!(scores.rows[1], vec![-3, 36, 35, 36]);
    assert_eq!((scores.peak_score, scores.peak_row, scores.peak_col), (36, 1, 1));
}

#[test]
fn matrix_never_drops_below_zero_off_the_first_column() {
    let scores = matrix("axxxxxxxxxxxxxxxxxxxxxxxxxxxxxxxxxxxxxxxxb", "ab");
    for row in &scores.rows {
        for value in &row[1..] {
            assert!(*value >= 0);
        }
    }
    assert_eq!(scores.rows[1][37], 0);
    assert_eq!(scores.rows[1][36], 1);
}

#[test]
fn backtrack_follows_the_matrix() {
    let text = chars("foo_bar_baz");
    let pattern = chars("bb");
    let bonus = bonus_table(&text);
    let scores = score(&text, &pattern, &bonus);
    assert_eq!((scores.peak_score, scores.peak_row, scores.peak_col), (56, 2, 9));
    assert_eq!(backtrack(&text, &pattern, &scores), vec![4, 8]);
}

#[test]
fn backtrack_steps_over_an_unmatched_pattern_character() {
    // The peak lies in the last row, and the walk from it steps up over 'q',
    // which the text does not hold.
    let text = chars("abc");
    let pattern = chars("aqb");
    let bonus = bonus_table(&text);
    let scores = score(&text, &pattern, &bonus);
    assert_eq!(
        scores.rows,
        vec![
            vec![0, 0, 0, 0],
            vec![-3, 36, 35, 34],
            vec![-4, 33, 32, 31],
            vec![-5, 30, 49, 48]
        ]
    );
    assert_eq!((scores.peak_score, scores.peak_row, scores.peak_col), (49, 3, 2));
    assert_eq!(backtrack(&text, &pattern, &scores), vec![0, 1]);
}
