//! Recognition of HTML tags inside a translation value.
//!
//! A tag is `<`, an optional `/`, an ASCII letter, ASCII letters and digits,
//! then either `>` directly or white space followed by anything up to the first
//! `>` (the pattern `</?[a-zA-Z][a-zA-Z0-9]*(?:\s+[^>]*)?>`, with `\s` the
//! Unicode White_Space characters). Tags are found left to right without
//! overlap.
use vstd::prelude::*;

verus! {

pub open spec fn is_ascii_letter(c: char) -> bool {
    ('a' <= c <= 'z') || ('A' <= c <= 'Z')
}

pub open spec fn is_ascii_alnum(c: char) -> bool {
    is_ascii_letter(c) || ('0' <= c <= '9')
}

/// The Unicode White_Space characters.
pub open spec fn is_white_space(c: char) -> bool {
    ||| '\u{0009}' <= c <= '\u{000D}'
    ||| c == ' '
    ||| c == '\u{0085}'
    ||| c == '\u{00A0}'
    ||| c == '\u{1680}'
    ||| '\u{2000}' <= c <= '\u{200A}'
    ||| c == '\u{2028}' || c == '\u{2029}'
    ||| c == '\u{202F}'
    ||| c == '\u{205F}'
    ||| c == '\u{3000}'
}

/// The end of the run of ASCII letters and digits that starts at `j`.
pub open spec fn name_end(s: Seq<char>, j: int) -> int
    decreases s.len() - j,
{
    if 0 <= j < s.len() && is_ascii_alnum(s[j]) {
        name_end(s, j + 1)
    } else {
        j
    }
}

/// The index of the first `>` at or after `j`, or `s.len()` if there is none.
pub open spec fn first_gt(s: Seq<char>, j: int) -> int
    decreases s.len() - j,
{
    if 0 <= j < s.len() && s[j] != '>' {
        first_gt(s, j + 1)
    } else {
        j
    }
}

/// The length of the tag that starts at index `i`, if one does.
pub open spec fn tag_len_at(s: Seq<char>, i: int) -> Option<nat> {
    if !(0 <= i < s.len() && s[i] == '<') {
        None
    } else {
        let a = if i + 1 < s.len() && s[i + 1] == '/' {
            i + 2
        } else {
            i + 1
        };
        if !(a < s.len() && is_ascii_letter(s[a])) {
            None
        } else {
            let e = name_end(s, a + 1);
            if e < s.len() && s[e] == '>' {
                Some((e + 1 - i) as nat)
            } else if e < s.len() && is_white_space(s[e]) && first_gt(s, e) < s.len() {
                Some((first_gt(s, e) + 1 - i) as nat)
            } else {
                None
            }
        }
    }
}

pub proof fn lemma_name_end_bounds(s: Seq<char>, j: int)
    requires
        0 <= j <= s.len(),
    ensures
        j <= name_end(s, j) <= s.len(),
        forall|k: int| j <= k < name_end(s, j) ==> is_ascii_alnum(s[k]),
        name_end(s, j) < s.len() ==> !is_ascii_alnum(s[name_end(s, j)]),
    decreases s.len() - j,
{
    if j < s.len() && is_ascii_alnum(s[j]) {
        lemma_name_end_bounds(s, j + 1);
    }
}

pub proof fn lemma_first_gt_bounds(s: Seq<char>, j: int)
    requires
        0 <= j <= s.len(),
    ensures
        j <= first_gt(s, j) <= s.len(),
        forall|k: int| j <= k < first_gt(s, j) ==> s[k] != '>',
        first_gt(s, j) < s.len() ==> s[first_gt(s, j)] == '>',
    decreases s.len() - j,
{
    if j < s.len() && s[j] != '>' {
        lemma_first_gt_bounds(s, j + 1);
    }
}

/// A tag found at `i` has at least three characters and fits in `s`.
pub proof fn lemma_tag_len_bounds(s: Seq<char>, i: int)
    ensures
        tag_len_at(s, i) matches Some(l) ==> 3 <= l && i + l <= s.len() && s[i] == '<' && s[i
            + l - 1] == '>',
{
    if 0 <= i < s.len() && s[i] == '<' {
        let a = if i + 1 < s.len() && s[i + 1] == '/' {
            i + 2
        } else {
            i + 1
        };
        if a < s.len() && is_ascii_letter(s[a]) {
            lemma_name_end_bounds(s, a + 1);
            let e = name_end(s, a + 1);
            if e < s.len() {
                lemma_first_gt_bounds(s, e);
            }
        }
    }
}

/// The tags found scanning `s` from index `i`.
pub open spec fn tags_from(s: Seq<char>, i: int) -> Seq<Seq<char>>
    decreases s.len() - i,
{
    if !(0 <= i < s.len()) {
        Seq::empty()
    } else {
        match tag_len_at(s, i) {
            Some(l) => {
                proof {
                    lemma_tag_len_bounds(s, i);
                }
                seq![s.subrange(i, i + l)] + tags_from(s, i + l)
            },
            None => tags_from(s, i + 1),
        }
    }
}

/// All tags of `s`, left to right.
pub open spec fn html_tags(s: Seq<char>) -> Seq<Seq<char>> {
    tags_from(s, 0)
}

fn is_ascii_letter_exec(c: char) -> (b: bool)
    ensures
        b == is_ascii_letter(c),
{
    ('a' <= c && c <= 'z') || ('A' <= c && c <= 'Z')
}

fn is_ascii_alnum_exec(c: char) -> (b: bool)
    ensures
        b == is_ascii_alnum(c),
{
    is_ascii_letter_exec(c) || ('0' <= c && c <= '9')
}

fn is_white_space_exec(c: char) -> (b: bool)
    ensures
        b == is_white_space(c),
{
    ('\u{0009}' <= c && c <= '\u{000D}') || c == ' ' || c == '\u{0085}' || c == '\u{00A0}' || c
        == '\u{1680}' || ('\u{2000}' <= c && c <= '\u{200A}') || c == '\u{2028}' || c == '\u{2029}'
        || c == '\u{202F}' || c == '\u{205F}' || c == '\u{3000}'
}

/// The length of the tag that starts at index `i`, if one does.
pub fn tag_len_at_exec(s: &Vec<char>, i: usize) -> (r: Option<usize>)
    requires
        i < s@.len(),
    ensures
        r matches Some(l) ==> tag_len_at(s@, i as int) == Some(l as nat),
        r is None ==> tag_len_at(s@, i as int) is None,
{
    let n: usize = s.len();
    if s[i] != '<' {
        return None;
    }
    let mut a: usize = i + 1;
    if a < n && s[a] == '/' {
        a = a + 1;
    }
    if !(a < n && is_ascii_letter_exec(s[a])) {
        return None;
    }
    let mut e: usize = a + 1;
    while e < n && is_ascii_alnum_exec(s[e])
        invariant
            n == s@.len(),
            a + 1 <= e <= s@.len(),
            name_end(s@, e as int) == name_end(s@, a + 1),
        decreases s@.len() - e,
    {
        e = e + 1;
    }
    if e < n && s[e] == '>' {
        return Some(e + 1 - i);
    }
    if e < n && is_white_space_exec(s[e]) {
        let mut k: usize = e;
        while k < n && s[k] != '>'
            invariant
                n == s@.len(),
                e <= k <= s@.len(),
                first_gt(s@, k as int) == first_gt(s@, e as int),
            decreases s@.len() - k,
        {
            k = k + 1;
        }
        if k < n {
            return Some(k + 1 - i);
        }
    }
    None
}

/// All tags of `s`, left to right (the matches of the tag pattern).
pub fn find_html_tags(s: &Vec<char>) -> (tags: Vec<Vec<char>>)
    ensures
        tags@.map_values(|t: Vec<char>| t@) == html_tags(s@),
{
    let mut tags: Vec<Vec<char>> = Vec::new();
    let mut i: usize = 0;
    while i < s.len()
        invariant
            i <= s@.len(),
            tags@.map_values(|t: Vec<char>| t@) + tags_from(s@, i as int) == html_tags(s@),
        decreases s@.len() - i,
    {
        match tag_len_at_exec(s, i) {
            Some(l) => {
                proof {
                    lemma_tag_len_bounds(s@, i as int);
                }
                let end: usize = i + l;
                let mut tag: Vec<char> = Vec::new();
                let mut k: usize = i;
                while k < end
                    invariant
                        end == i + l,
                        i <= k <= i + l <= s@.len(),
                        tag@ == s@.subrange(i as int, k as int),
                    decreases end - k,
                {
                    tag.push(s[k]);
                    assert(s@.subrange(i as int, k + 1) == s@.subrange(i as int, k as int).push(
                        s@[k as int],
                    ));
                    k = k + 1;
                }
                let ghost before = tags@.map_values(|t: Vec<char>| t@);
                tags.push(tag);
                assert(tags@.map_values(|t: Vec<char>| t@) == before.push(
                    s@.subrange(i as int, i + l),
                ));
                assert(before.push(s@.subrange(i as int, i + l)) + tags_from(s@, i + l) == before
                    + tags_from(s@, i as int));
                i = i + l;
            },
            None => {
                i = i + 1;
            },
        }
    }
    assert(tags_from(s@, i as int) == Seq::<Seq<char>>::empty());
    assert(tags@.map_values(|t: Vec<char>| t@) + Seq::<Seq<char>>::empty() == tags@.map_values(
        |t: Vec<char>| t@,
    ));
    tags
}

} // verus!
