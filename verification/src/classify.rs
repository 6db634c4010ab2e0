//! Character classes and the bonus for a character that starts a word.

use crate::weights::BONUS_BOUNDARY;
use vstd::prelude::*;

verus! {

/// What a character is, as far as word boundaries are concerned.
#[derive(Clone, Copy, Debug, PartialEq, Eq, Structural)]
pub enum CharClass {
    /// White space.
    White,
    /// Alphabetic or numeric.
    Alnum,
    /// Anything else: punctuation, symbols, controls.
    Punct,
}

/// Whether `c` has the Unicode property `White_Space`, as `char::is_whitespace`
/// decides it.
pub uninterp spec fn is_white_space(c: char) -> bool;

/// Whether `c` is alphabetic or numeric in Unicode's sense, as
/// `char::is_alphanumeric` decides it.
pub uninterp spec fn is_alphanumeric(c: char) -> bool;

/// `char::is_whitespace` answers by the Unicode property `White_Space`; the
/// answer depends on the character alone and is what [`is_white_space`] names.
pub assume_specification[ char::is_whitespace ](c: char) -> (b: bool)
    ensures
        b == is_white_space(c),
;

/// `char::is_alphanumeric` answers by the Unicode categories of letters and
/// numbers; the answer depends on the character alone and is what
/// [`is_alphanumeric`] names.
pub assume_specification[ char::is_alphanumeric ](c: char) -> (b: bool)
    ensures
        b == is_alphanumeric(c),
;

/// The class of a character: white space wins over alphanumeric, and whatever
/// is neither is punctuation.
pub open spec fn class_of(c: char) -> CharClass {
    if is_white_space(c) {
        CharClass::White
    } else if is_alphanumeric(c) {
        CharClass::Alnum
    } else {
        CharClass::Punct
    }
}

/// The bonus for a character of class `curr` that follows one of class `prev`.
/// Only an alphanumeric character earns one, and only after something that is
/// not alphanumeric; white space before it is worth more than punctuation.
pub open spec fn boundary_bonus(prev: CharClass, curr: CharClass) -> int {
    match (prev, curr) {
        (CharClass::White, CharClass::Alnum) => BONUS_BOUNDARY + 2,
        (CharClass::Punct, CharClass::Alnum) => BONUS_BOUNDARY + 1,
        _ => 0,
    }
}

/// The class of the character before position `j` of `text`. The text is taken
/// to follow white space, so that its first character starts a word.
pub open spec fn class_before(text: Seq<char>, j: int) -> CharClass {
    if j <= 0 {
        CharClass::White
    } else {
        class_of(text[j - 1])
    }
}

/// The bonus that a match on position `j` of `text` earns.
pub open spec fn bonus_at(text: Seq<char>, j: int) -> int {
    boundary_bonus(class_before(text, j), class_of(text[j]))
}

/// The bonus table of `text`: the bonus of each of its positions.
pub open spec fn bonuses(text: Seq<char>) -> Seq<int> {
    Seq::new(text.len(), |j: int| bonus_at(text, j))
}

/// The entries of a bonus table, as integers.
pub open spec fn bonus_values(bonus: Seq<i32>) -> Seq<int> {
    bonus.map_values(|b: i32| b as int)
}

/// Whether every entry of `bonus` is a bonus: none negative, none above the
/// bonus for the start of a word after white space.
pub open spec fn bonus_in_range(bonus: Seq<int>) -> bool {
    forall|j: int| 0 <= j < bonus.len() ==> 0 <= #[trigger] bonus[j] <= BONUS_BOUNDARY + 2
}

/// The bonus table of a text has one entry for each character, and every
/// entry is a bonus.
pub proof fn lemma_bonuses_in_range(text: Seq<char>)
    ensures
        bonuses(text).len() == text.len(),
        bonus_in_range(bonuses(text)),
{
}

/// Classifies one character.
pub fn char_class(c: char) -> (class: CharClass)
    ensures
        class == class_of(c),
{
    if c.is_whitespace() {
        CharClass::White
    } else if c.is_alphanumeric() {
        CharClass::Alnum
    } else {
        CharClass::Punct
    }
}

/// The bonus for a character of class `curr_class` after one of class
/// `prev_class`.
pub fn bonus_for(prev_class: &CharClass, curr_class: &CharClass) -> (bonus: i32)
    ensures
        bonus == boundary_bonus(*prev_class, *curr_class),
        0 <= bonus <= BONUS_BOUNDARY + 2,
{
    match curr_class {
        CharClass::Alnum => match prev_class {
            CharClass::White => BONUS_BOUNDARY + 2,
            CharClass::Punct => BONUS_BOUNDARY + 1,
            CharClass::Alnum => 0,
        },
        _ => 0,
    }
}

/// The bonus of every position of `text`, computed in one pass.
pub fn bonus_table(text: &[char]) -> (bonus: Vec<i32>)
    ensures
        bonus_values(bonus@) == bonuses(text@),
        bonus.len() == text.len(),
        bonus_in_range(bonus_values(bonus@)),
{
    let mut bonus: Vec<i32> = Vec::new();
    let mut prev_class = CharClass::White;
    let mut j: usize = 0;
    while j < text.len()
        invariant
            j <= text.len(),
            bonus.len() == j,
            prev_class == class_before(text@, j as int),
            forall|k: int| 0 <= k < j ==> #[trigger] bonus[k] == bonus_at(text@, k),
        decreases text.len() - j,
    {
        let curr_class = char_class(text[j]);
        bonus.push(bonus_for(&prev_class, &curr_class));
        prev_class = curr_class;
        j += 1;
    }
    assert(bonus_values(bonus@) =~= bonuses(text@));
    bonus
}

} // verus!
