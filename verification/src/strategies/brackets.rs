//! Brackets: the whole text is wrapped as `[text]`.
use vstd::prelude::*;

use super::Strategy;
use crate::text::{chars_of, string_of, push_all};

verus! {

/// Wrap text with square brackets: `[text]`.
pub struct BracketStrategy;

/// `[text]`, or the empty text unchanged.
pub open spec fn bracketed(text: Seq<char>) -> Seq<char> {
    if text.len() == 0 {
        text
    } else {
        seq!['['] + text + seq![']']
    }
}

impl BracketStrategy {
    pub fn transform_chars(&self, text: &Vec<char>) -> (r: Vec<char>)
        ensures
            r@ == bracketed(text@),
    {
        if text.len() == 0 {
            return Vec::new();
        }
        let mut out: Vec<char> = Vec::new();
        out.push('[');
        push_all(&mut out, text);
        out.push(']');
        out
    }
}

impl Strategy for BracketStrategy {
    open spec fn transformed(&self, text: Seq<char>) -> Seq<char> {
        bracketed(text)
    }

    fn transform(&self, text: &str) -> (r: String) {
        string_of(&self.transform_chars(&chars_of(text)))
    }
}

} // verus!
