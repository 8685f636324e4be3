//! Special characters: a symbol is inserted after every seventh character.
use vstd::prelude::*;

use super::{Strategy, periodic_insert, insert_periodically};
use crate::text::{chars_of, string_of};

verus! {

/// Insert special characters periodically (every ~7 chars).
pub struct SpecialCharsStrategy;

/// The inserted symbols, used in turn:
/// section, pilcrow, daggers, copyright, registered, trade mark, currencies,
/// arrows, check marks, stars and card suits.
pub const SPECIAL_CHARS: [char; 22] = [
    '\u{00A7}', '\u{00B6}', '\u{2020}', '\u{2021}', '\u{00A9}', '\u{00AE}', '\u{2122}',
    '\u{20AC}', '\u{00A3}', '\u{00A5}', '\u{2190}', '\u{2192}', '\u{2191}', '\u{2193}',
    '\u{2713}', '\u{2717}', '\u{2605}', '\u{2606}', '\u{2660}', '\u{2663}', '\u{2665}',
    '\u{2666}',
];

/// Number of characters between two insertions.
pub const SPECIAL_PERIOD: usize = 7;

impl SpecialCharsStrategy {
    pub fn transform_chars(&self, text: &Vec<char>) -> (r: Vec<char>)
        ensures
            r@ == periodic_insert(text@, SPECIAL_PERIOD as nat, SPECIAL_CHARS@),
    {
        insert_periodically(text, SPECIAL_PERIOD, &SPECIAL_CHARS)
    }
}

impl Strategy for SpecialCharsStrategy {
    open spec fn transformed(&self, text: Seq<char>) -> Seq<char> {
        periodic_insert(text, SPECIAL_PERIOD as nat, SPECIAL_CHARS@)
    }

    fn transform(&self, text: &str) -> (r: String) {
        string_of(&self.transform_chars(&chars_of(text)))
    }
}

} // verus!
