use fuzzy_match::classify::bonus_table;
use fuzzy_match::{
    align, can_match, fuzzy_match_score, fuzzy_match_v2, try_fuzzy_match_score,
    try_fuzzy_match_v2,
};

#[test]
fn test_fuzzy_match_v2() {
    let text = "abcdefghijklmnopqrstuvwxyz";
    let pattern = "ace";
    let (start, end, score, positions) = fuzzy_match_v2(text, pattern, false, true);
    assert_eq!(start, 0);
    assert_eq!(end, 5);
    assert!(score > 0);
    assert_eq!(positions, vec![0, 2, 4]);
}

#[test]
fn test_fuzzy_match_score() {
    let text = "algorithm";
    let pattern = "alm";
    let score = fuzzy_match_score(text, pattern, false, true);
    assert!(score > 0);
}

#[test]
fn alphabet_scenario_has_exact_score() {
    // 36 for 'a' at the start, then twice: one character skipped (-1) and a
    // match (16).
    assert_eq!(
        fuzzy_match_v2("abcdefghijklmnopqrstuvwxyz", "ace", false, true),
        (0, 5, 66, vec![0, 2, 4])
    );
}

#[test]
fn algorithm_scenario_has_exact_result() {
    assert_eq!(fuzzy_match_v2("algorithm", "alm", false, true), (0, 9, 62, vec![0, 1, 8]));
    assert_eq!(fuzzy_match_score("algorithm", "alm", false, true), 62);
}

#[test]
fn empty_pattern_matches_nothing_at_the_start() {
    assert_eq!(fuzzy_match_v2("abc", "", true, true), (0, 0, 0, vec![]));
    assert_eq!(fuzzy_match_v2("abc", "", false, false), (0, 0, 0, vec![]));
    assert_eq!(fuzzy_match_v2("", "", false, true), (0, 0, 0, vec![]));
    assert_eq!(fuzzy_match_v2("", "", true, false), (0, 0, 0, vec![]));
    assert_eq!(fuzzy_match_score("abc", "", false, true), 0);
}

#[test]
fn pattern_longer_than_text_does_not_match() {
    assert_eq!(fuzzy_match_v2("ab", "abc", false, false), (-1, -1, 0, vec![]));
    assert_eq!(fuzzy_match_v2("", "a", false, false), (-1, -1, 0, vec![]));
    assert_eq!(fuzzy_match_v2("ab", "abc", true, true), (-1, -1, 0, vec![]));
    assert_eq!(fuzzy_match_score("ab", "abc", false, false), 0);
}

#[test]
fn lengths_are_counted_in_characters() {
    // Two characters of two bytes each against a pattern of three characters.
    assert_eq!(fuzzy_match_v2("éé", "abc", true, false), (-1, -1, 0, vec![]));
    // Four characters, five bytes: the last position is 3.
    assert_eq!(fuzzy_match_v2("café", "é", true, false), (3, 4, 16, vec![3]));
}

#[test]
fn no_common_character_does_not_match() {
    assert_eq!(fuzzy_match_v2("xyz", "abc", false, true), (-1, -1, 0, vec![]));
}

#[test]
fn case_is_folded_unless_sensitive() {
    let upper = fuzzy_match_v2("ABCDEF", "abc", false, false);
    let lower = fuzzy_match_v2("abcdef", "abc", false, false);
    assert!(upper.2 > 0);
    assert_eq!(upper.2, lower.2);
    assert_eq!(upper, (0, 3, 68, vec![0, 1, 2]));
    assert_eq!(fuzzy_match_v2("ABCDEF", "abc", true, false), (-1, -1, 0, vec![]));
    assert_eq!(fuzzy_match_v2("Hello World", "HW", true, false), (0, 7, 57, vec![0, 6]));
    assert_eq!(fuzzy_match_v2("Hello World", "hw", true, false), (-1, -1, 0, vec![]));
    assert_eq!(fuzzy_match_v2("Hello World", "hw", false, false), (0, 7, 57, vec![0, 6]));
}

#[test]
fn diacritics_are_stripped_when_normalizing() {
    assert_eq!(fuzzy_match_v2("café", "cafe", false, true), (0, 4, 84, vec![0, 1, 2, 3]));
    // Without normalizing the accented letter is no 'e': the match stops
    // before it.
    assert_eq!(fuzzy_match_v2("café", "cafe", false, false), (0, 3, 68, vec![0, 1, 2]));
}

#[test]
fn folding_and_normalizing_are_independent() {
    assert_eq!(fuzzy_match_v2("École", "ecole", false, true), (0, 5, 100, vec![0, 1, 2, 3, 4]));
    assert_eq!(fuzzy_match_v2("École", "Ecole", true, true), (0, 5, 100, vec![0, 1, 2, 3, 4]));
    assert_eq!(fuzzy_match_v2("École", "ecole", true, true), (1, 5, 64, vec![1, 2, 3, 4]));
    assert_eq!(fuzzy_match_v2("École", "ecole", false, false), (1, 5, 64, vec![1, 2, 3, 4]));
}

#[test]
fn lowercasing_may_lengthen_the_text() {
    // U+0130 lowercases to 'i' and a combining dot: two characters.
    assert_eq!(fuzzy_match_v2("\u{130}", "i\u{307}", false, false), (0, 2, 52, vec![0, 1]));
    assert_eq!(fuzzy_match_v2("\u{130}", "i\u{307}", true, false), (-1, -1, 0, vec![]));
}

#[test]
fn hangul_syllable_decomposes_to_its_leading_consonant() {
    assert_eq!(fuzzy_match_v2("\u{ac00}", "\u{1100}", false, true), (0, 1, 36, vec![0]));
    assert_eq!(fuzzy_match_v2("\u{ac00}", "\u{1100}", false, false), (-1, -1, 0, vec![]));
}

#[test]
fn segment_starts_win_over_nearness() {
    let (start, end, score, positions) = fuzzy_match_v2("foo_bar_baz", "bb", false, false);
    assert_eq!(positions, vec![4, 8]);
    assert_eq!((start, end), (4, 9));
    // 16 + 2 * 9 for the first 'b', three characters skipped (-3), 16 + 9 for
    // the second.
    assert_eq!(score, 56);
}

#[test]
fn boundary_bonus_depends_on_what_comes_before() {
    assert_eq!(fuzzy_match_v2("foo bar", "b", false, false), (4, 5, 36, vec![4]));
    assert_eq!(fuzzy_match_v2("foo-bar", "b", false, false), (4, 5, 34, vec![4]));
    assert_eq!(fuzzy_match_v2("foobar", "b", false, false), (3, 4, 16, vec![3]));
    assert_eq!(fuzzy_match_v2("a", "a", true, false), (0, 1, 36, vec![0]));
    assert_eq!(fuzzy_match_v2(" a", "a", true, false), (1, 2, 36, vec![1]));
    assert_eq!(fuzzy_match_v2("_a", "a", true, false), (1, 2, 34, vec![1]));
    assert_eq!(fuzzy_match_v2("ba", "a", true, false), (1, 2, 16, vec![1]));
}

#[test]
fn first_of_equal_peaks_is_kept() {
    assert_eq!(fuzzy_match_v2("aa", "a", true, false), (0, 1, 36, vec![0]));
    assert_eq!(fuzzy_match_v2("a a", "a", true, false), (0, 1, 36, vec![0]));
}

#[test]
fn skipped_text_characters_cost_one_each() {
    assert_eq!(fuzzy_match_v2("a b", "ab", false, false), (0, 3, 61, vec![0, 2]));
    assert_eq!(fuzzy_match_v2("src/lib.rs", "slr", false, false), (0, 9, 80, vec![0, 4, 8]));
}

#[test]
fn a_match_may_cover_part_of_the_pattern() {
    assert_eq!(fuzzy_match_v2("xyz", "xa", false, false), (0, 1, 36, vec![0]));
    assert_eq!(fuzzy_match_v2("abc", "aqb", false, false), (0, 2, 49, vec![0, 1]));
    let text = "axxxxxxxxxxxxxxxxxxxxxxxxxxxxxxxxxxxxxxxxb";
    assert_eq!(fuzzy_match_v2(text, "ab", false, false), (0, 1, 36, vec![0]));
}

#[test]
fn positions_ascend_and_frame_the_match() {
    let cases = [
        ("abcdefghijklmnopqrstuvwxyz", "ace"),
        ("foo_bar_baz", "bb"),
        ("Hello World", "hw"),
        ("src/lib.rs", "slr"),
        ("xyz", "xa"),
    ];
    for (text, pattern) in cases {
        let (start, end, score, positions) = fuzzy_match_v2(text, pattern, false, true);
        assert!(score > 0);
        assert!(!positions.is_empty());
        assert!(positions.len() <= pattern.chars().count());
        assert!(positions.windows(2).all(|w| w[0] < w[1]));
        assert_eq!(start, positions[0] as isize);
        assert_eq!(end, positions[positions.len() - 1] as isize + 1);
        assert!(positions[positions.len() - 1] < text.chars().count());
    }
}

#[test]
fn score_is_that_of_the_full_match() {
    let cases = [
        ("abcdefghijklmnopqrstuvwxyz", "ace"),
        ("algorithm", "alm"),
        ("café", "cafe"),
        ("xyz", "abc"),
        ("ab", "abc"),
        ("abc", ""),
        ("", ""),
    ];
    for (text, pattern) in cases {
        for case_sensitive in [false, true] {
            for normalize in [false, true] {
                assert_eq!(
                    fuzzy_match_score(text, pattern, case_sensitive, normalize),
                    fuzzy_match_v2(text, pattern, case_sensitive, normalize).2
                );
            }
        }
    }
}

#[test]
fn align_takes_characters_as_they_are() {
    let text: Vec<char> = "foo_bar_baz".chars().collect();
    let pattern: Vec<char> = "bb".chars().collect();
    let bonus = bonus_table(&text);
    assert_eq!(align(&text, &pattern, &bonus), (4, 9, 56, vec![4, 8]));
    assert_eq!(align(&text, &[], &bonus), (0, 0, 0, vec![]));
    assert_eq!(align(&[], &[], &[]), (0, 0, 0, vec![]));
    assert_eq!(align(&[], &pattern, &[]), (-1, -1, 0, vec![]));
    assert_eq!(align(&['A', 'B'], &['a'], &[10, 0]), (-1, -1, 0, vec![]));
    assert_eq!(align(&['é'], &['e'], &[10]), (-1, -1, 0, vec![]));
}

#[test]
fn align_scores_by_the_bonus_it_is_given() {
    let text = ['a', 'b'];
    assert_eq!(align(&text, &text, &[0, 0]), (0, 2, 32, vec![0, 1]));
    assert_eq!(align(&text, &text, &[10, 0]), (0, 2, 52, vec![0, 1]));
    assert_eq!(align(&text, &text, &[10, 9]), (0, 2, 61, vec![0, 1]));
    assert_eq!(align(&text, &['b'], &[0, 0]), (1, 2, 16, vec![1]));
    assert_eq!(align(&text, &['b'], &[0, 9]), (1, 2, 34, vec![1]));
    assert_eq!(align(&text, &['b'], &[0, 10]), (1, 2, 36, vec![1]));
    // Each text character that the match skips costs 1.
    assert_eq!(align(&['a', 'x', 'b'], &text, &[0, 0, 0]), (0, 3, 31, vec![0, 2]));
    assert_eq!(align(&['a', 'x', 'x', 'b'], &text, &[0, 0, 0, 0]), (0, 4, 30, vec![0, 3]));
}

#[test]
fn guarded_entry_points_agree_with_the_plain_ones() {
    assert!(can_match("abcdefghijklmnopqrstuvwxyz", "ace", false, true));
    assert!(can_match("", "", true, false));
    assert_eq!(
        try_fuzzy_match_v2("abcdefghijklmnopqrstuvwxyz", "ace", false, true),
        Some((0, 5, 66, vec![0, 2, 4]))
    );
    assert_eq!(try_fuzzy_match_v2("xyz", "abc", false, true), Some((-1, -1, 0, vec![])));
    assert_eq!(try_fuzzy_match_v2("xyz", "", false, true), Some((0, 0, 0, vec![])));
    assert_eq!(try_fuzzy_match_score("algorithm", "alm", false, true), Some(62));
    assert_eq!(try_fuzzy_match_score("ab", "abc", false, true), Some(0));
}
