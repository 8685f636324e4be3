//! Expansion: the text is lengthened to a given ratio of its length by doubling
//! vowels and then appending padding.
use vstd::prelude::*;

use super::Strategy;
use crate::text::{chars_of, string_of};

verus! {

/// Expand text length by a configurable ratio (1.0-3.0), given in thousandths
/// (`1300` stands for a ratio of 1.3).
/// Pads by repeating vowels in the text and appending padding characters.
pub struct ExpansionStrategy {
    ratio_permille: u32,
}

/// Smallest accepted ratio, in thousandths.
pub const MIN_RATIO_PERMILLE: u32 = 1000;

/// Largest accepted ratio, in thousandths.
pub const MAX_RATIO_PERMILLE: u32 = 3000;

/// The padding characters appended in turn.
pub const PADDING_CHARS: [char; 4] = ['~', '-', '.', ' '];

/// A ratio clamped into `[MIN_RATIO_PERMILLE, MAX_RATIO_PERMILLE]`.
pub open spec fn clamped_ratio(ratio_permille: u32) -> nat {
    if ratio_permille < MIN_RATIO_PERMILLE {
        MIN_RATIO_PERMILLE as nat
    } else if ratio_permille > MAX_RATIO_PERMILLE {
        MAX_RATIO_PERMILLE as nat
    } else {
        ratio_permille as nat
    }
}

/// The length a text of `n` characters is expanded to: `ceil(n * ratio)`.
pub open spec fn target_len(n: nat, ratio_permille: nat) -> nat {
    (n * ratio_permille + 999) / 1000
}

/// How many characters must be added to reach the target length.
pub open spec fn extra_needed(n: nat, ratio_permille: nat) -> nat {
    if target_len(n, ratio_permille) > n {
        (target_len(n, ratio_permille) - n) as nat
    } else {
        0
    }
}

/// The vowels that get doubled: `aeiou`, upper or lower case, and the acute
/// accented vowels.
pub open spec fn is_vowel_char(c: char) -> bool {
    ||| c == 'a' || c == 'e' || c == 'i' || c == 'o' || c == 'u'
    ||| c == 'A' || c == 'E' || c == 'I' || c == 'O' || c == 'U'
    ||| c == '\u{00E1}' || c == '\u{00E9}' || c == '\u{00ED}' || c == '\u{00F3}' || c == '\u{00FA}'
    ||| c == '\u{00C1}' || c == '\u{00C9}' || c == '\u{00CD}' || c == '\u{00D3}' || c == '\u{00DA}'
}

/// Number of vowels in `text`.
pub open spec fn vowel_count(text: Seq<char>) -> nat
    decreases text.len(),
{
    if text.len() == 0 {
        0
    } else {
        vowel_count(text.drop_last()) + (if is_vowel_char(text.last()) {
            1nat
        } else {
            0nat
        })
    }
}

/// `text` with its first `budget` vowels doubled.
pub open spec fn doubled_vowels(text: Seq<char>, budget: nat) -> Seq<char>
    decreases text.len(),
{
    if text.len() == 0 {
        text
    } else {
        let c = text.last();
        doubled_vowels(text.drop_last(), budget) + (if is_vowel_char(c) && vowel_count(
            text.drop_last(),
        ) < budget {
            seq![c, c]
        } else {
            seq![c]
        })
    }
}

/// `m` padding characters, cycling through `PADDING_CHARS`.
pub open spec fn padding(m: nat) -> Seq<char> {
    Seq::new(m, |i: int| PADDING_CHARS@[i % 4])
}

/// The expanded text: the first vowels doubled, then padding, until
/// `extra_needed` characters have been added.
pub open spec fn expanded(text: Seq<char>, ratio_permille: nat) -> Seq<char> {
    let extra: nat = extra_needed(text.len(), ratio_permille);
    let from_vowels: nat = if vowel_count(text) < extra {
        vowel_count(text)
    } else {
        extra
    };
    doubled_vowels(text, extra) + padding((extra - from_vowels) as nat)
}

/// Whether the character is doubled by the expansion.
pub fn is_vowel(c: char) -> (b: bool)
    ensures
        b == is_vowel_char(c),
{
    match c {
        'a' | 'e' | 'i' | 'o' | 'u' | 'A' | 'E' | 'I' | 'O' | 'U' => true,
        '\u{00E1}' | '\u{00E9}' | '\u{00ED}' | '\u{00F3}' | '\u{00FA}' => true,
        '\u{00C1}' | '\u{00C9}' | '\u{00CD}' | '\u{00D3}' | '\u{00DA}' => true,
        _ => false,
    }
}

impl ExpansionStrategy {
    /// The ratio in thousandths, always within `[1000, 3000]`.
    pub closed spec fn ratio(&self) -> nat {
        self.ratio_permille as nat
    }

    /// The strategy `new` builds for a ratio.
    pub closed spec fn with_ratio(ratio_permille: u32) -> Self {
        ExpansionStrategy { ratio_permille: clamped_ratio(ratio_permille) as u32 }
    }

    /// The ratio of `with_ratio(r)` is `r` clamped.
    pub proof fn lemma_with_ratio(ratio_permille: u32)
        ensures
            Self::with_ratio(ratio_permille).ratio() == clamped_ratio(ratio_permille),
    {
    }

    /// A strategy with the given ratio (in thousandths) clamped to `[1000, 3000]`.
    pub fn new(ratio_permille: u32) -> (s: Self)
        ensures
            s == Self::with_ratio(ratio_permille),
            s.ratio() == clamped_ratio(ratio_permille),
    {
        let r: u32 = if ratio_permille < MIN_RATIO_PERMILLE {
            MIN_RATIO_PERMILLE
        } else if ratio_permille > MAX_RATIO_PERMILLE {
            MAX_RATIO_PERMILLE
        } else {
            ratio_permille
        };
        ExpansionStrategy { ratio_permille: r }
    }

    /// The ratio in thousandths.
    pub fn ratio_permille(&self) -> (r: u32)
        ensures
            r as nat == self.ratio(),
    {
        self.ratio_permille
    }

    pub fn transform_chars(&self, text: &Vec<char>) -> (r: Vec<char>)
        ensures
            r@ == expanded(text@, self.ratio()),
    {
        let n: usize = text.len();
        let wide_n: u128 = n as u128;
        let wide_ratio: u128 = self.ratio_permille as u128;
        assert(wide_n * wide_ratio + 999 <= u128::MAX) by (nonlinear_arith)
            requires
                wide_n <= u64::MAX,
                wide_ratio <= u32::MAX,
        ;
        let target: u128 = (wide_n * wide_ratio + 999) / 1000;
        let extra: u128 = if target > n as u128 {
            target - n as u128
        } else {
            0
        };
        assert(extra == extra_needed(n as nat, self.ratio()));
        // First pass: double the leading vowels.
        let mut out: Vec<char> = Vec::new();
        let mut added: u128 = 0;
        let mut i: usize = 0;
        while i < n
            invariant
                n == text@.len(),
                i <= n,
                added <= extra,
                added == (if vowel_count(text@.take(i as int)) < extra {
                    vowel_count(text@.take(i as int))
                } else {
                    extra as nat
                }),
                out@ == doubled_vowels(text@.take(i as int), extra as nat),
            decreases n - i,
        {
            let ch = text[i];
            assert(text@.take(i + 1).drop_last() == text@.take(i as int));
            assert(text@.take(i + 1).last() == ch);
            out.push(ch);
            if added < extra && is_vowel(ch) {
                out.push(ch);
                added = added + 1;
            }
            i = i + 1;
        }
        assert(text@.take(n as int) == text@);
        // Second pass: pad until the target length is reached.
        let ghost from_vowels = added;
        let mut pad: u128 = 0;
        while added < extra
            invariant
                added <= extra,
                added == from_vowels + pad,
                out@ == doubled_vowels(text@, extra as nat) + padding(pad as nat),
            decreases extra - added,
        {
            out.push(PADDING_CHARS[(pad % 4) as usize]);
            assert(padding((pad + 1) as nat) =~= padding(pad as nat).push(PADDING_CHARS@[(pad % 4) as int]));
            pad = pad + 1;
            added = added + 1;
        }
        out
    }
}

impl Strategy for ExpansionStrategy {
    open spec fn transformed(&self, text: Seq<char>) -> Seq<char> {
        expanded(text, self.ratio())
    }

    fn transform(&self, text: &str) -> (r: String) {
        string_of(&self.transform_chars(&chars_of(text)))
    }
}

} // verus!
