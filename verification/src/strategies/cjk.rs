//! CJK: a CJK ideograph is inserted after every fifth character.
use vstd::prelude::*;

use super::{Strategy, periodic_insert, insert_periodically};
use crate::text::{chars_of, string_of};

verus! {

/// Insert CJK characters periodically (every ~5 chars).
pub struct CjkStrategy;

/// The inserted ideographs, used in turn.
pub const CJK_CHARS: [char; 7] = [
    '\u{4E2D}', '\u{6587}', '\u{97D3}', '\u{56FD}', '\u{8A9E}', '\u{65E5}', '\u{672C}',
];

/// Number of characters between two insertions.
pub const CJK_PERIOD: usize = 5;

impl CjkStrategy {
    pub fn transform_chars(&self, text: &Vec<char>) -> (r: Vec<char>)
        ensures
            r@ == periodic_insert(text@, CJK_PERIOD as nat, CJK_CHARS@),
    {
        insert_periodically(text, CJK_PERIOD, &CJK_CHARS)
    }
}

impl Strategy for CjkStrategy {
    open spec fn transformed(&self, text: Seq<char>) -> Seq<char> {
        periodic_insert(text, CJK_PERIOD as nat, CJK_CHARS@)
    }

    fn transform(&self, text: &str) -> (r: String) {
        string_of(&self.transform_chars(&chars_of(text)))
    }
}

} // verus!
