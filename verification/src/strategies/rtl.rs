//! RTL: the whole text is embedded between bidi control characters.
use vstd::prelude::*;

use super::Strategy;
use crate::text::{chars_of, string_of, push_all};

verus! {

/// Wrap text with Unicode bidi markers for RTL testing.
/// U+202B (RIGHT-TO-LEFT EMBEDDING) before, U+202C (POP DIRECTIONAL FORMATTING) after.
pub struct RtlStrategy;

/// RIGHT-TO-LEFT EMBEDDING
pub const RLE: char = '\u{202B}';

/// POP DIRECTIONAL FORMATTING
pub const PDF: char = '\u{202C}';

/// `RLE text PDF`, or the empty text unchanged.
pub open spec fn rtl_embedded(text: Seq<char>) -> Seq<char> {
    if text.len() == 0 {
        text
    } else {
        seq![RLE] + text + seq![PDF]
    }
}

impl RtlStrategy {
    pub fn transform_chars(&self, text: &Vec<char>) -> (r: Vec<char>)
        ensures
            r@ == rtl_embedded(text@),
    {
        if text.len() == 0 {
            return Vec::new();
        }
        let mut out: Vec<char> = Vec::new();
        out.push(RLE);
        push_all(&mut out, text);
        out.push(PDF);
        out
    }
}

impl Strategy for RtlStrategy {
    open spec fn transformed(&self, text: Seq<char>) -> Seq<char> {
        rtl_embedded(text)
    }

    fn transform(&self, text: &str) -> (r: String) {
        string_of(&self.transform_chars(&chars_of(text)))
    }
}

} // verus!
