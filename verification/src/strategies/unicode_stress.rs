//! Unicode stress: combining diacritics, zero-width joiners and emoji
//! sequences are inserted periodically.
use vstd::prelude::*;

use super::{Strategy, lemma_div_step};
use crate::text::{chars_of, string_of};

verus! {

/// Add combining diacritics, zero-width joiners, and emoji sequences periodically
/// to stress-test Unicode handling.
pub struct UnicodeStressStrategy;

/// Combining diacritics (U+0300-U+036F range, selected subset): grave, acute,
/// circumflex, tilde, diaeresis, ring above, double acute, caron, cedilla, ogonek.
pub const COMBINING_DIACRITICS: [char; 10] = [
    '\u{0300}', '\u{0301}', '\u{0302}', '\u{0303}', '\u{0308}', '\u{030A}', '\u{030B}',
    '\u{030C}', '\u{0327}', '\u{0328}',
];

/// Zero-width joiner
pub const ZWJ: char = '\u{200D}';

/// Whether `char::is_alphanumeric` holds of a character (Unicode Alphabetic or
/// Numeric).
pub uninterp spec fn char_is_alphanumeric(c: char) -> bool;

/// std's `char::is_alphanumeric` (the char is Alphabetic or Numeric). The
/// contract ties the answer to the character through `char_is_alphanumeric`
/// and states it for ASCII: exactly the letters and digits are alphanumeric.
/// The Unicode tables for the other characters are not restated here.
#[verifier::external_body]
fn is_alphanumeric(c: char) -> (b: bool)
    ensures
        b == char_is_alphanumeric(c),
        (c as int) < 0x80 ==> (b <==> (('a' <= c <= 'z') || ('A' <= c <= 'Z') || ('0' <= c
            <= '9'))),
{
    c.is_alphanumeric()
}

/// Whether a character counts as alphanumeric for the stress strategy: for
/// ASCII, exactly the letters and digits; beyond ASCII, what
/// `char::is_alphanumeric` answers.
pub open spec fn alphanumeric(c: char) -> bool {
    if (c as int) < 0x80 {
        ('a' <= c <= 'z') || ('A' <= c <= 'Z') || ('0' <= c <= '9')
    } else {
        char_is_alphanumeric(c)
    }
}

/// The emoji sequences inserted in turn: family (man, woman, girl), rainbow
/// flag, woman technologist.
pub open spec fn emoji_sequence(k: int) -> Seq<char> {
    if k == 0 {
        seq!['\u{1F468}', ZWJ, '\u{1F469}', ZWJ, '\u{1F467}']
    } else if k == 1 {
        seq!['\u{1F3F3}', '\u{FE0F}', ZWJ, '\u{1F308}']
    } else {
        seq!['\u{1F469}', ZWJ, '\u{1F4BB}']
    }
}

/// Number of combining diacritics inserted for `text`: one for each
/// alphanumeric character at a position (counted from 1) that is a multiple of 3.
pub open spec fn diacritic_count(text: Seq<char>) -> nat
    decreases text.len(),
{
    if text.len() == 0 {
        0
    } else {
        diacritic_count(text.drop_last()) + (if text.len() % 3 == 0 && alphanumeric(text.last()) {
            1nat
        } else {
            0nat
        })
    }
}

/// What follows the `n`-th character `c` of the output (counted from 1), given
/// the characters `before` it: a diacritic after every third character when that
/// character is alphanumeric, a ZWJ after every eighth, an emoji sequence after
/// every twelfth.
pub open spec fn stress_after(before: Seq<char>, c: char, n: nat) -> Seq<char> {
    (if n % 3 == 0 && alphanumeric(c) {
        seq![COMBINING_DIACRITICS@[(diacritic_count(before) % 10) as int]]
    } else {
        Seq::<char>::empty()
    }) + (if n % 8 == 0 {
        seq![ZWJ]
    } else {
        Seq::<char>::empty()
    }) + (if n % 12 == 0 {
        emoji_sequence(((n / 12 - 1) as int) % 3)
    } else {
        Seq::<char>::empty()
    })
}

/// The stressed text.
pub open spec fn stressed(text: Seq<char>) -> Seq<char>
    decreases text.len(),
{
    if text.len() == 0 {
        text
    } else {
        stressed(text.drop_last()) + seq![text.last()] + stress_after(
            text.drop_last(),
            text.last(),
            text.len(),
        )
    }
}

proof fn lemma_diacritic_count_bound(text: Seq<char>)
    ensures
        diacritic_count(text) <= text.len(),
    decreases text.len(),
{
    if text.len() > 0 {
        lemma_diacritic_count_bound(text.drop_last());
    }
}

fn push_emoji(out: &mut Vec<char>, k: usize)
    requires
        k < 3,
    ensures
        final(out)@ == old(out)@ + emoji_sequence(k as int),
{
    if k == 0 {
        out.push('\u{1F468}');
        out.push(ZWJ);
        out.push('\u{1F469}');
        out.push(ZWJ);
        out.push('\u{1F467}');
    } else if k == 1 {
        out.push('\u{1F3F3}');
        out.push('\u{FE0F}');
        out.push(ZWJ);
        out.push('\u{1F308}');
    } else {
        out.push('\u{1F469}');
        out.push(ZWJ);
        out.push('\u{1F4BB}');
    }
}

impl UnicodeStressStrategy {
    pub fn transform_chars(&self, text: &Vec<char>) -> (r: Vec<char>)
        ensures
            r@ == stressed(text@),
    {
        let mut out: Vec<char> = Vec::new();
        let mut char_count: usize = 0;
        let mut diacritic_idx: usize = 0;
        let mut emoji_idx: usize = 0;
        while char_count < text.len()
            invariant
                char_count <= text@.len(),
                diacritic_idx == diacritic_count(text@.take(char_count as int)),
                emoji_idx == char_count / 12,
                out@ == stressed(text@.take(char_count as int)),
            decreases text@.len() - char_count,
        {
            let ch = text[char_count];
            let ghost prev = text@.take(char_count as int);
            let ghost before = out@;
            assert(text@.take(char_count + 1).drop_last() == prev);
            assert(text@.take(char_count + 1).last() == ch);
            proof {
                lemma_diacritic_count_bound(prev);
                lemma_div_step(char_count as int, 12);
            }
            out.push(ch);
            char_count = char_count + 1;
            if char_count % 3 == 0 && is_alphanumeric(ch) {
                out.push(COMBINING_DIACRITICS[diacritic_idx % 10]);
                diacritic_idx = diacritic_idx + 1;
            }
            if char_count % 8 == 0 {
                out.push(ZWJ);
            }
            if char_count % 12 == 0 {
                push_emoji(&mut out, emoji_idx % 3);
                emoji_idx = emoji_idx + 1;
            }
            assert(out@ == before + seq![ch] + stress_after(prev, ch, char_count as nat));
        }
        assert(text@.take(char_count as int) == text@);
        out
    }
}

impl Strategy for UnicodeStressStrategy {
    open spec fn transformed(&self, text: Seq<char>) -> Seq<char> {
        stressed(text)
    }

    fn transform(&self, text: &str) -> (r: String) {
        string_of(&self.transform_chars(&chars_of(text)))
    }
}

} // verus!
