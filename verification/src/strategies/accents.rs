//! Accents: every ASCII Latin letter is replaced by an accented look-alike.
use vstd::prelude::*;

use super::Strategy;
use crate::text::{chars_of, string_of};

verus! {

/// Replace ASCII Latin characters with accented Unicode equivalents.
pub struct AccentStrategy;

/// Accented replacements for `a` ..= `z`, in alphabetical order.
pub const ACCENTED_LOWER: [char; 26] = [
    '\u{00E1}', '\u{0180}', '\u{00E7}', '\u{00F0}', '\u{00E9}', '\u{0192}', '\u{01F5}',
    '\u{0125}', '\u{00ED}', '\u{0135}', '\u{0199}', '\u{013E}', '\u{0271}', '\u{00F1}',
    '\u{00F3}', '\u{00FE}', '\u{A757}', '\u{0155}', '\u{0161}', '\u{0165}', '\u{00FA}',
    '\u{1E7D}', '\u{1E83}', '\u{1E8B}', '\u{00FD}', '\u{017E}',
];

/// Accented replacements for `A` ..= `Z`, in alphabetical order.
pub const ACCENTED_UPPER: [char; 26] = [
    '\u{00C1}', '\u{0181}', '\u{00C7}', '\u{00D0}', '\u{00C9}', '\u{0191}', '\u{01F4}',
    '\u{0124}', '\u{00CD}', '\u{0134}', '\u{0198}', '\u{013D}', '\u{1E40}', '\u{00D1}',
    '\u{00D3}', '\u{00DE}', '\u{A756}', '\u{0154}', '\u{0160}', '\u{0164}', '\u{00DA}',
    '\u{1E7C}', '\u{1E82}', '\u{1E8A}', '\u{00DD}', '\u{017D}',
];

/// The accented form of a character: ASCII letters are looked up in the two
/// tables above, every other character is left as it is.
pub open spec fn accented(c: char) -> char {
    if 'a' <= c <= 'z' {
        ACCENTED_LOWER@[c as int - 'a' as int]
    } else if 'A' <= c <= 'Z' {
        ACCENTED_UPPER@[c as int - 'A' as int]
    } else {
        c
    }
}

/// The whole text with every character accented.
pub open spec fn accented_text(text: Seq<char>) -> Seq<char> {
    text.map_values(|c: char| accented(c))
}

/// The accented form of one character.
pub fn accent_char(c: char) -> (r: char)
    ensures
        r == accented(c),
{
    if 'a' <= c && c <= 'z' {
        let k: usize = (c as u32 - 'a' as u32) as usize;
        ACCENTED_LOWER[k]
    } else if 'A' <= c && c <= 'Z' {
        let k: usize = (c as u32 - 'A' as u32) as usize;
        ACCENTED_UPPER[k]
    } else {
        c
    }
}

impl AccentStrategy {
    /// Accents every character of `text`.
    pub fn transform_chars(&self, text: &Vec<char>) -> (r: Vec<char>)
        ensures
            r@ == accented_text(text@),
    {
        let mut out: Vec<char> = Vec::new();
        let mut i: usize = 0;
        while i < text.len()
            invariant
                i <= text@.len(),
                out@ == accented_text(text@.take(i as int)),
            decreases text@.len() - i,
        {
            out.push(accent_char(text[i]));
            assert(accented_text(text@.take(i + 1)) =~= accented_text(text@.take(i as int)).push(
                accented(text@[i as int]),
            ));
            i = i + 1;
        }
        assert(text@.take(i as int) == text@);
        out
    }
}

impl Strategy for AccentStrategy {
    open spec fn transformed(&self, text: Seq<char>) -> Seq<char> {
        accented_text(text)
    }

    fn transform(&self, text: &str) -> (r: String) {
        string_of(&self.transform_chars(&chars_of(text)))
    }
}

} // verus!
