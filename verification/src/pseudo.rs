//! Pseudo-translation of translation values: placeholders and HTML tags are
//! swapped for opaque tokens, the strategy pipeline runs on what is left, and
//! the tokens are swapped back.
use vstd::prelude::*;

use crate::markup::{find_html_tags, html_tags};
use crate::strategies::{run_steps, StrategyPipeline};
use crate::text::{
    chars_of, contains_chars, contains_seq, replace_all, replace_all_chars, replace_first,
    replace_first_chars, string_of, subst_char, subst_char_chars,
};

verus! {

/// A placeholder of a translation entry, as written in the text
/// (`{name}`, `%s`, `{{count}}`, ...).
pub struct Placeholder {
    pub original_syntax: String,
}

impl Placeholder {
    pub fn new(original_syntax: &str) -> (p: Self)
        ensures
            p.original_syntax@ == original_syntax@,
    {
        Placeholder { original_syntax: original_syntax.to_owned() }
    }
}

/// The syntaxes of a list of placeholders.
pub open spec fn syntaxes(placeholders: Seq<Placeholder>) -> Seq<Seq<char>> {
    placeholders.map_values(|p: Placeholder| p.original_syntax@)
}

/// The contents of a list of character vectors.
pub open spec fn contents(v: Seq<Vec<char>>) -> Seq<Seq<char>> {
    v.map_values(|x: Vec<char>| x@)
}

/// First code point used for tokens: the start of the Private Use Area.
pub const TOKEN_BASE: u32 = 0xE000;

/// Largest number of tokens one text can use: 6400, every code point of the
/// Private Use Area U+E000..=U+F8FF.
pub const MAX_TOKENS: u32 = 0x1900;

/// The `k`-th token: the code point U+E000 + k.
pub open spec fn token_char(k: nat) -> char {
    choose|c: char| #[trigger] code_point(c) == 0xE000 + k
}

/// The code point of a character.
pub open spec fn code_point(c: char) -> int {
    c as int
}

/// std's `char::from_u32`: `Some` of the character with that code point when it
/// is a Unicode scalar value, `None` otherwise.
#[verifier::external_body]
fn char_from_u32(v: u32) -> (r: Option<char>)
    ensures
        r matches Some(c) ==> c as int == v as int,
        r is Some <==> (v <= 0x10FFFF && !(0xD800 <= v <= 0xDFFF)),
{
    char::from_u32(v)
}

/// The `counter`-th token character.
pub fn token_char_exec(counter: u32) -> (c: char)
    requires
        counter < MAX_TOKENS,
    ensures
        c == token_char(counter as nat),
{
    match char_from_u32(TOKEN_BASE + counter) {
        Some(c) => {
            assert(code_point(c) == 0xE000 + counter);
            let ghost t = token_char(counter as nat);
            assert(code_point(t) == 0xE000 + counter);
            c
        },
        None => {
            assert(false);
            ' '
        },
    }
}

/// Build an opaque single-character token from the Private Use Area:
/// U+E000 + counter, which no strategy alters. Supports up to 6400 tokens per
/// text (U+E000..U+F8FF).
pub fn make_token(counter: u32) -> (t: String)
    requires
        counter < MAX_TOKENS,
    ensures
        t@ == seq![token_char(counter as nat)],
{
    let mut v: Vec<char> = Vec::new();
    v.push(token_char_exec(counter));
    string_of(&v)
}

/// Placeholders that occur replaced, one after the other, by the next token;
/// the result is the protected text and the originals of the tokens used.
pub open spec fn protect_placeholders(text: Seq<char>, phs: Seq<Seq<char>>) -> (
    Seq<char>,
    Seq<Seq<char>>,
)
    decreases phs.len(),
{
    if phs.len() == 0 {
        (text, Seq::empty())
    } else {
        let (w, origs) = protect_placeholders(text, phs.drop_last());
        let p = phs.last();
        if p.len() > 0 && contains_seq(w, p) {
            (replace_all(w, p, seq![token_char(origs.len())]), origs.push(p))
        } else {
            (w, origs)
        }
    }
}

/// Tags that still occur replaced, one after the other, at their first
/// occurrence by the next token.
pub open spec fn protect_tags(w: Seq<char>, tags: Seq<Seq<char>>, origs: Seq<Seq<char>>) -> (
    Seq<char>,
    Seq<Seq<char>>,
)
    decreases tags.len(),
{
    if tags.len() == 0 {
        (w, origs)
    } else {
        let (w1, o1) = protect_tags(w, tags.drop_last(), origs);
        let g = tags.last();
        if contains_seq(w1, g) {
            (replace_first(w1, g, seq![token_char(o1.len())]), o1.push(g))
        } else {
            (w1, o1)
        }
    }
}

/// The text with placeholders, then the HTML tags of the result, protected.
pub open spec fn protected(text: Seq<char>, phs: Seq<Seq<char>>) -> (Seq<char>, Seq<Seq<char>>) {
    let (w, origs) = protect_placeholders(text, phs);
    protect_tags(w, html_tags(w), origs)
}

/// Number of tokens used for a text.
pub open spec fn token_count(text: Seq<char>, phs: Seq<Seq<char>>) -> nat {
    protected(text, phs).1.len()
}

/// The tokens swapped back for their originals, the last token first.
pub open spec fn restore(w: Seq<char>, origs: Seq<Seq<char>>) -> Seq<char>
    decreases origs.len(),
{
    if origs.len() == 0 {
        w
    } else {
        restore(
            subst_char(w, token_char((origs.len() - 1) as nat), origs.last()),
            origs.drop_last(),
        )
    }
}

/// The pseudo-translation of a text: protected, transformed by the pipeline
/// steps, restored. The empty text stays empty.
pub open spec fn pseudo_text(
    text: Seq<char>,
    phs: Seq<Seq<char>>,
    steps: Seq<crate::strategies::PipelineStep>,
) -> Seq<char> {
    if text.len() == 0 {
        text
    } else {
        let (w, origs) = protected(text, phs);
        restore(run_steps(steps, w), origs)
    }
}

proof fn lemma_protect_placeholders_grows(text: Seq<char>, phs: Seq<Seq<char>>, i: int)
    requires
        0 <= i <= phs.len(),
    ensures
        protect_placeholders(text, phs.take(i)).1.len() <= protect_placeholders(text, phs).1.len(),
    decreases phs.len() - i,
{
    if i < phs.len() {
        lemma_protect_placeholders_grows(text, phs, i + 1);
        assert(phs.take(i + 1).drop_last() == phs.take(i));
    } else {
        assert(phs.take(i) == phs);
    }
}

proof fn lemma_protect_tags_grows(
    w: Seq<char>,
    tags: Seq<Seq<char>>,
    origs: Seq<Seq<char>>,
    i: int,
)
    requires
        0 <= i <= tags.len(),
    ensures
        protect_tags(w, tags.take(i), origs).1.len() <= protect_tags(w, tags, origs).1.len(),
        origs.len() <= protect_tags(w, tags.take(i), origs).1.len(),
    decreases tags.len() - i,
{
    lemma_protect_tags_keeps(w, tags.take(i), origs);
    if i < tags.len() {
        lemma_protect_tags_grows(w, tags, origs, i + 1);
        assert(tags.take(i + 1).drop_last() == tags.take(i));
    } else {
        assert(tags.take(i) == tags);
        lemma_protect_tags_keeps(w, tags, origs);
    }
}

proof fn lemma_protect_tags_keeps(w: Seq<char>, tags: Seq<Seq<char>>, origs: Seq<Seq<char>>)
    ensures
        origs.len() <= protect_tags(w, tags, origs).1.len(),
    decreases tags.len(),
{
    if tags.len() > 0 {
        lemma_protect_tags_keeps(w, tags.drop_last(), origs);
    }
}

/// Every tag found by the scanner is non-empty.
pub proof fn lemma_tags_nonempty(s: Seq<char>, i: int)
    ensures
        forall|k: int| 0 <= k < crate::markup::tags_from(s, i).len() ==> (
        #[trigger] crate::markup::tags_from(s, i)[k]).len() > 0,
    decreases s.len() - i,
{
    if 0 <= i < s.len() {
        crate::markup::lemma_tag_len_bounds(s, i);
        match crate::markup::tag_len_at(s, i) {
            Some(l) => {
                lemma_tags_nonempty(s, i + l);
                let rest = crate::markup::tags_from(s, i + l);
                assert(crate::markup::tags_from(s, i) == seq![s.subrange(i, i + l)] + rest);
                assert forall|k: int|
                    0 <= k < crate::markup::tags_from(s, i).len() implies (
                #[trigger] crate::markup::tags_from(s, i)[k]).len() > 0 by {
                    if k > 0 {
                        assert(crate::markup::tags_from(s, i)[k] == rest[k - 1]);
                    }
                }
            },
            None => {
                lemma_tags_nonempty(s, i + 1);
                assert(crate::markup::tags_from(s, i) == crate::markup::tags_from(s, i + 1));
            },
        }
    }
}

/// The text with its placeholders, then its HTML tags, swapped for tokens,
/// and the originals of the tokens; `None` when more than `MAX_TOKENS` tokens
/// would be needed.
fn protect_text(text: &Vec<char>, placeholders: &[Placeholder]) -> (r: Option<
    (Vec<char>, Vec<Vec<char>>),
>)
    ensures
        match r {
            Some((w, origs)) => token_count(text@, syntaxes(placeholders@)) <= MAX_TOKENS && (
            w@,
            contents(origs@),
            ) == protected(text@, syntaxes(placeholders@)),
            None => token_count(text@, syntaxes(placeholders@)) > MAX_TOKENS,
        },
{
    let ghost phs = syntaxes(placeholders@);
    let mut working: Vec<char> = Vec::new();
    crate::text::push_all(&mut working, text);
    let mut originals: Vec<Vec<char>> = Vec::new();
    let mut counter: u32 = 0;

    // Replace placeholders with tokens
    let mut i: usize = 0;
    while i < placeholders.len()
        invariant
            i <= placeholders@.len(),
            phs == syntaxes(placeholders@),
            (working@, contents(originals@)) == protect_placeholders(text@, phs.take(i as int)),
            counter as nat == originals@.len(),
            counter <= MAX_TOKENS,
        decreases placeholders@.len() - i,
    {
        proof {
            assert(phs.take(i + 1).drop_last() == phs.take(i as int));
            assert(phs.take(i + 1).last() == placeholders@[i as int].original_syntax@);
            lemma_protect_placeholders_grows(text@, phs, i + 1);
            let (w1, o1) = protect_placeholders(text@, phs);
            lemma_protect_tags_keeps(w1, html_tags(w1), o1);
        }
        let syntax = chars_of(placeholders[i].original_syntax.as_str());
        if syntax.len() > 0 && contains_chars(&working, &syntax) {
            if counter >= MAX_TOKENS {
                return None;
            }
            let mut token: Vec<char> = Vec::new();
            token.push(token_char_exec(counter));
            counter = counter + 1;
            working = replace_all_chars(&working, &syntax, &token);
            let ghost before = contents(originals@);
            originals.push(syntax);
            assert(contents(originals@) == before.push(phs.take(i + 1).last()));
        }
        i = i + 1;
    }
    assert(phs.take(i as int) == phs);

    // Replace HTML tags with tokens
    let tags = find_html_tags(&working);
    let ghost w1 = working@;
    let ghost o1 = contents(originals@);
    let ghost all_tags = html_tags(w1);
    proof {
        lemma_tags_nonempty(w1, 0);
    }
    let mut j: usize = 0;
    while j < tags.len()
        invariant
            j <= tags@.len(),
            contents(tags@) == all_tags,
            all_tags == html_tags(w1),
            (w1, o1) == protect_placeholders(text@, phs),
            phs == syntaxes(placeholders@),
            forall|k: int| 0 <= k < all_tags.len() ==> (#[trigger] all_tags[k]).len() > 0,
            (working@, contents(originals@)) == protect_tags(w1, all_tags.take(j as int), o1),
            counter as nat == originals@.len(),
            counter <= MAX_TOKENS,
        decreases tags@.len() - j,
    {
        proof {
            assert(all_tags.take(j + 1).drop_last() == all_tags.take(j as int));
            assert(all_tags.take(j + 1).last() == tags@[j as int]@);
            lemma_protect_tags_grows(w1, all_tags, o1, j + 1);
        }
        if contains_chars(&working, &tags[j]) {
            if counter >= MAX_TOKENS {
                return None;
            }
            assert(tags@[j as int]@.len() > 0);
            let mut token: Vec<char> = Vec::new();
            token.push(token_char_exec(counter));
            counter = counter + 1;
            working = replace_first_chars(&working, &tags[j], &token);
            let ghost before = contents(originals@);
            originals.push(tags[j].clone());
            assert(contents(originals@) == before.push(all_tags.take(j + 1).last()));
        }
        j = j + 1;
    }
    assert(all_tags.take(j as int) == all_tags);
    Some((working, originals))
}

/// Whether `transform_text` can handle the text: at most `MAX_TOKENS`
/// placeholders and tags are swapped for tokens.
pub fn within_token_limit(text: &str, placeholders: &[Placeholder]) -> (b: bool)
    ensures
        b == (token_count(text@, syntaxes(placeholders@)) <= MAX_TOKENS),
{
    protect_text(&chars_of(text), placeholders).is_some()
}

/// Transform a single text string, preserving placeholders and HTML tags.
///
/// 1. Replace placeholders and HTML tags with opaque tokens
/// 2. Run the strategy pipeline on the cleaned text
/// 3. Restore the original placeholders and HTML tags
pub fn transform_text(text: &str, placeholders: &[Placeholder], pipeline: &StrategyPipeline) -> (r:
    String)
    requires
        token_count(text@, syntaxes(placeholders@)) <= MAX_TOKENS,
    ensures
        r@ == pseudo_text(text@, syntaxes(placeholders@), pipeline@),
{
    let chars = chars_of(text);
    if chars.len() == 0 {
        return String::new();
    }
    let (mut working, originals) = match protect_text(&chars, placeholders) {
        Some(p) => p,
        None => {
            assert(false);
            return String::new();
        },
    };

    // Apply the strategy pipeline
    let ghost transformed = run_steps(pipeline@, working@);
    working = pipeline.apply_chars(&working);

    // Restore tokens, the last one first
    let mut k: usize = originals.len();
    assert(contents(originals@).take(k as int) == contents(originals@));
    while k > 0
        invariant
            k <= originals@.len(),
            originals@.len() <= MAX_TOKENS,
            restore(working@, contents(originals@).take(k as int)) == restore(
                transformed,
                contents(originals@),
            ),
        decreases k,
    {
        let ghost before = working@;
        let ghost prefix = contents(originals@).take(k as int);
        let tok = token_char_exec((k - 1) as u32);
        working = subst_char_chars(&working, tok, &originals[k - 1]);
        assert(prefix.last() == originals@[k - 1]@);
        assert(prefix.drop_last() == contents(originals@).take(k - 1));
        k = k - 1;
    }
    assert(contents(originals@).take(0) == Seq::<Seq<char>>::empty());
    string_of(&working)
}

} // verus!
