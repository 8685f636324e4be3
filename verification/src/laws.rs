//! Properties of the library as a whole: what every strategy keeps, how long
//! its output is, and what a round of protection, transformation and
//! restoration leaves of a text.
use vstd::prelude::*;

use crate::cli::{any_flag, preset_config, resolved_config, with_flags, Cli, Preset, StrategyConfig};
use crate::pseudo::{code_point, protected, pseudo_text, restore, token_char, token_count};
use crate::strategies::accents::{accented, accented_text};
use crate::strategies::cjk::CJK_CHARS;
use crate::strategies::expansion::{
    doubled_vowels, expanded, extra_needed, is_vowel_char, padding, target_len, vowel_count,
};
use crate::strategies::special_chars::SPECIAL_CHARS;
use crate::strategies::unicode_stress::{
    emoji_sequence, stress_after, stressed, COMBINING_DIACRITICS,
};
use crate::strategies::expansion::ExpansionStrategy;
use crate::strategies::{
    config_steps, lemma_div_step, periodic_insert, run_steps, step_output, PipelineStep,
};
use crate::text::{contains_seq, occurs_at, replace_all, replace_first, subst_char};

verus! {

/// A character of the Private Use Area, U+E000 ..= U+F8FF.
pub open spec fn is_private_use(c: char) -> bool {
    0xE000 <= c as int <= 0xF8FF
}

/// The Private Use Area characters of `s`, in order.
pub open spec fn private_use_chars(s: Seq<char>) -> Seq<char>
    decreases s.len(),
{
    if s.len() == 0 {
        s
    } else {
        private_use_chars(s.drop_last()) + (if is_private_use(s.last()) {
            seq![s.last()]
        } else {
            Seq::<char>::empty()
        })
    }
}

/// `s` holds no Private Use Area character.
pub open spec fn free_of_private_use(s: Seq<char>) -> bool {
    forall|i: int| 0 <= i < s.len() ==> !is_private_use(#[trigger] s[i])
}

proof fn lemma_puc_add(a: Seq<char>, b: Seq<char>)
    ensures
        private_use_chars(a + b) == private_use_chars(a) + private_use_chars(b),
    decreases b.len(),
{
    if b.len() == 0 {
        assert(a + b == a);
        assert(private_use_chars(a) + Seq::<char>::empty() == private_use_chars(a));
    } else {
        lemma_puc_add(a, b.drop_last());
        assert((a + b).drop_last() == a + b.drop_last());
        assert((a + b).last() == b.last());
    }
}

proof fn lemma_puc_free(s: Seq<char>)
    requires
        free_of_private_use(s),
    ensures
        private_use_chars(s) == Seq::<char>::empty(),
    decreases s.len(),
{
    if s.len() > 0 {
        assert(free_of_private_use(s.drop_last())) by {
            assert forall|i: int| 0 <= i < s.drop_last().len() implies !is_private_use(
                #[trigger] s.drop_last()[i],
            ) by {
                assert(s.drop_last()[i] == s[i]);
            }
        }
        lemma_puc_free(s.drop_last());
        assert(!is_private_use(s[s.len() - 1]));
    }
}

proof fn lemma_puc_one(c: char)
    ensures
        private_use_chars(seq![c]) == (if is_private_use(c) {
            seq![c]
        } else {
            Seq::<char>::empty()
        }),
{
    assert(seq![c].drop_last() == Seq::<char>::empty());
    assert(private_use_chars(Seq::<char>::empty()) == Seq::<char>::empty());
    assert(Seq::<char>::empty() + seq![c] == seq![c]);
    assert(Seq::<char>::empty() + Seq::<char>::empty() == Seq::<char>::empty());
}

// ---------------------------------------------------------------------------
// Accents
// ---------------------------------------------------------------------------

/// Accenting keeps the length of the text, changes every ASCII letter to a
/// non-ASCII character and leaves every other character as it is.
pub proof fn law_accents_shape(text: Seq<char>)
    ensures
        accented_text(text).len() == text.len(),
        forall|i: int|
            0 <= i < text.len() ==> (#[trigger] accented_text(text)[i] == accented(text[i])),
        forall|c: char|
            ('a' <= c <= 'z' || 'A' <= c <= 'Z') ==> #[trigger] accented(c) as int >= 0x80,
        forall|c: char| !('a' <= c <= 'z' || 'A' <= c <= 'Z') ==> #[trigger] accented(c) == c,
{
}

/// Accenting leaves the Private Use Area characters of a text in place.
proof fn lemma_accents_keep_private_use(text: Seq<char>)
    ensures
        private_use_chars(accented_text(text)) == private_use_chars(text),
    decreases text.len(),
{
    if text.len() > 0 {
        let t = text.drop_last();
        lemma_accents_keep_private_use(t);
        assert(accented_text(text) == accented_text(t) + seq![accented(text.last())]);
        lemma_puc_add(accented_text(t), seq![accented(text.last())]);
        lemma_puc_one(accented(text.last()));
        assert(accented_text(text).drop_last() == accented_text(t));
    }
}

// ---------------------------------------------------------------------------
// Periodic insertion (CJK and special characters)
// ---------------------------------------------------------------------------

/// Periodic insertion adds one mark per `period` characters and keeps every
/// original character, in order: the `i`-th one lands at `i + i / period`.
pub proof fn law_periodic_insert_layout(text: Seq<char>, period: nat, marks: Seq<char>)
    requires
        period > 0,
        marks.len() > 0,
    ensures
        periodic_insert(text, period, marks).len() == text.len() + text.len() / period,
        forall|i: int|
            0 <= i < text.len() ==> #[trigger] periodic_insert(text, period, marks)[i + i
                / (period as int)] == text[i],
    decreases text.len(),
{
    if text.len() > 0 {
        let t = text.drop_last();
        let n = text.len() as int;
        let p = period as int;
        law_periodic_insert_layout(t, period, marks);
        lemma_div_step(n - 1, p);
        let out = periodic_insert(text, period, marks);
        let prev = periodic_insert(t, period, marks);
        assert(out.len() == text.len() + text.len() / period);
        assert forall|i: int| 0 <= i < text.len() implies #[trigger] out[i + i / p] == text[i] by {
            if i < n - 1 {
                vstd::arithmetic::div_mod::lemma_div_is_ordered(i, n - 1, p);
                assert(i + i / p < prev.len());
                assert(out[i + i / p] == prev[i + i / p]);
                assert(t[i] == text[i]);
            } else {
                assert(i + i / p == prev.len());
            }
        }
    }
}

proof fn lemma_periodic_keeps_private_use(text: Seq<char>, period: nat, marks: Seq<char>)
    requires
        period > 0,
        marks.len() > 0,
        free_of_private_use(marks),
    ensures
        private_use_chars(periodic_insert(text, period, marks)) == private_use_chars(text),
    decreases text.len(),
{
    if text.len() > 0 {
        let t = text.drop_last();
        let n = text.len();
        lemma_periodic_keeps_private_use(t, period, marks);
        let mark_part = if n % period == 0 {
            seq![marks[((n / period - 1) as int) % (marks.len() as int)]]
        } else {
            Seq::<char>::empty()
        };
        assert(free_of_private_use(mark_part));
        lemma_puc_free(mark_part);
        lemma_puc_add(periodic_insert(t, period, marks), seq![text.last()]);
        lemma_puc_add(periodic_insert(t, period, marks) + seq![text.last()], mark_part);
        lemma_puc_one(text.last());
        lemma_puc_add(t, seq![text.last()]);
        assert(t + seq![text.last()] == text);
    }
}

// ---------------------------------------------------------------------------
// Unicode stress
// ---------------------------------------------------------------------------

proof fn lemma_stress_keeps_private_use(text: Seq<char>)
    ensures
        private_use_chars(stressed(text)) == private_use_chars(text),
    decreases text.len(),
{
    if text.len() > 0 {
        let t = text.drop_last();
        lemma_stress_keeps_private_use(t);
        let after = stress_after(t, text.last(), text.len());
        assert(free_of_private_use(after)) by {
            assert(forall|k: int| 0 <= k < 10 ==> !is_private_use(
                #[trigger] COMBINING_DIACRITICS@[k],
            ));
            let e = emoji_sequence(((text.len() / 12 - 1) as int) % 3);
            assert(free_of_private_use(e));
        }
        lemma_puc_free(after);
        lemma_puc_add(stressed(t), seq![text.last()]);
        lemma_puc_add(stressed(t) + seq![text.last()], after);
        lemma_puc_one(text.last());
        lemma_puc_add(t, seq![text.last()]);
        assert(t + seq![text.last()] == text);
    }
}

// ---------------------------------------------------------------------------
// Expansion
// ---------------------------------------------------------------------------

proof fn lemma_doubled_vowels_len(text: Seq<char>, budget: nat)
    ensures
        doubled_vowels(text, budget).len() == text.len() + (if vowel_count(text) < budget {
            vowel_count(text)
        } else {
            budget
        }),
    decreases text.len(),
{
    if text.len() > 0 {
        lemma_doubled_vowels_len(text.drop_last(), budget);
    }
}

proof fn lemma_doubled_vowels_none(text: Seq<char>)
    ensures
        doubled_vowels(text, 0) == text,
    decreases text.len(),
{
    if text.len() > 0 {
        lemma_doubled_vowels_none(text.drop_last());
        assert(text.drop_last() + seq![text.last()] == text);
    }
}

/// Expansion lengthens a text of `n` characters to exactly
/// `max(n, ceil(n * ratio))` characters.
pub proof fn law_expansion_length(text: Seq<char>, ratio_permille: nat)
    ensures
        expanded(text, ratio_permille).len() == if target_len(text.len(), ratio_permille)
            > text.len() {
            target_len(text.len(), ratio_permille)
        } else {
            text.len()
        },
{
    lemma_doubled_vowels_len(text, extra_needed(text.len(), ratio_permille));
}

/// A ratio of 1.0 leaves the text unchanged, and so does the empty text.
pub proof fn law_expansion_identity(text: Seq<char>, ratio_permille: nat)
    requires
        ratio_permille <= 1000 || text.len() == 0,
    ensures
        expanded(text, ratio_permille) == text,
{
    assert(text.len() * ratio_permille <= text.len() * 1000) by (nonlinear_arith)
        requires
            ratio_permille <= 1000 || text.len() == 0,
    ;
    assert(target_len(text.len(), ratio_permille) <= text.len());
    lemma_doubled_vowels_none(text);
    assert(padding(0) =~= Seq::<char>::empty());
    assert(text + Seq::<char>::empty() == text);
}

proof fn lemma_doubled_vowels_keep_private_use(text: Seq<char>, budget: nat)
    ensures
        private_use_chars(doubled_vowels(text, budget)) == private_use_chars(text),
    decreases text.len(),
{
    if text.len() > 0 {
        let t = text.drop_last();
        let c = text.last();
        lemma_doubled_vowels_keep_private_use(t, budget);
        lemma_puc_add(t, seq![c]);
        assert(t + seq![c] == text);
        lemma_puc_one(c);
        if is_vowel_char(c) && vowel_count(t) < budget {
            assert(free_of_private_use(seq![c, c]));
            lemma_puc_free(seq![c, c]);
            assert(!is_private_use(c));
            lemma_puc_add(doubled_vowels(t, budget), seq![c, c]);
        } else {
            lemma_puc_add(doubled_vowels(t, budget), seq![c]);
        }
    }
}

proof fn lemma_expansion_keeps_private_use(text: Seq<char>, ratio_permille: nat)
    ensures
        private_use_chars(expanded(text, ratio_permille)) == private_use_chars(text),
{
    let extra = extra_needed(text.len(), ratio_permille);
    let from_vowels = if vowel_count(text) < extra {
        vowel_count(text)
    } else {
        extra
    };
    let pad = padding((extra - from_vowels) as nat);
    assert(free_of_private_use(pad)) by {
        assert(forall|k: int| 0 <= k < 4 ==> !is_private_use(
            #[trigger] crate::strategies::expansion::PADDING_CHARS@[k],
        ));
        assert forall|i: int| 0 <= i < pad.len() implies !is_private_use(#[trigger] pad[i]) by {
            assert(pad[i] == crate::strategies::expansion::PADDING_CHARS@[i % 4]);
        }
    }
    lemma_puc_free(pad);
    lemma_doubled_vowels_keep_private_use(text, extra);
    lemma_puc_add(doubled_vowels(text, extra), pad);
}

// ---------------------------------------------------------------------------
// Every step and every pipeline
// ---------------------------------------------------------------------------

proof fn lemma_wrap_keeps_private_use(text: Seq<char>, open: char, close: char)
    requires
        !is_private_use(open),
        !is_private_use(close),
    ensures
        private_use_chars(seq![open] + text + seq![close]) == private_use_chars(text),
{
    lemma_puc_add(seq![open] + text, seq![close]);
    lemma_puc_add(seq![open], text);
    lemma_puc_one(open);
    lemma_puc_one(close);
    assert(Seq::<char>::empty() + private_use_chars(text) == private_use_chars(text));
    assert(private_use_chars(text) + Seq::<char>::empty() == private_use_chars(text));
}

/// Every strategy leaves the Private Use Area characters of a text where they
/// are: none is added, none is removed, their order is kept.
pub proof fn law_step_keeps_private_use(step: PipelineStep, text: Seq<char>)
    ensures
        private_use_chars(step_output(step, text)) == private_use_chars(text),
{
    match step {
        PipelineStep::Accents(_) => lemma_accents_keep_private_use(text),
        PipelineStep::Cjk(_) => {
            assert(free_of_private_use(CJK_CHARS@));
            lemma_periodic_keeps_private_use(text, 5, CJK_CHARS@);
        },
        PipelineStep::SpecialChars(_) => {
            assert(free_of_private_use(SPECIAL_CHARS@));
            lemma_periodic_keeps_private_use(text, 7, SPECIAL_CHARS@);
        },
        PipelineStep::UnicodeStress(_) => lemma_stress_keeps_private_use(text),
        PipelineStep::Expansion(s) => lemma_expansion_keeps_private_use(text, s.ratio()),
        PipelineStep::Rtl(_) => {
            if text.len() > 0 {
                lemma_wrap_keeps_private_use(text, '\u{202B}', '\u{202C}');
            }
        },
        PipelineStep::Brackets(_) => {
            if text.len() > 0 {
                lemma_wrap_keeps_private_use(text, '[', ']');
            }
        },
    }
}

/// A whole pipeline leaves the Private Use Area characters of a text in place.
pub proof fn law_pipeline_keeps_private_use(steps: Seq<PipelineStep>, text: Seq<char>)
    ensures
        private_use_chars(run_steps(steps, text)) == private_use_chars(text),
    decreases steps.len(),
{
    if steps.len() > 0 {
        law_pipeline_keeps_private_use(steps.drop_last(), text);
        law_step_keeps_private_use(steps.last(), run_steps(steps.drop_last(), text));
    }
}

/// Running two pipelines one after the other is running their concatenation;
/// the empty pipeline changes nothing.
pub proof fn law_pipeline_composition(first: Seq<PipelineStep>, second: Seq<PipelineStep>, text: Seq<char>)
    ensures
        run_steps(first + second, text) == run_steps(second, run_steps(first, text)),
        run_steps(Seq::empty(), text) == text,
    decreases second.len(),
{
    if second.len() == 0 {
        assert(first + second == first);
    } else {
        law_pipeline_composition(first, second.drop_last(), text);
        assert((first + second).drop_last() == first + second.drop_last());
        assert((first + second).last() == second.last());
    }
}

} // verus!

verus! {

// ---------------------------------------------------------------------------
// Substitution of one character
// ---------------------------------------------------------------------------

/// `c` does not occur in `s`.
pub open spec fn lacks(s: Seq<char>, c: char) -> bool {
    forall|i: int| 0 <= i < s.len() ==> #[trigger] s[i] != c
}

proof fn lemma_subst_add(a: Seq<char>, b: Seq<char>, c: char, q: Seq<char>)
    ensures
        subst_char(a + b, c, q) == subst_char(a, c, q) + subst_char(b, c, q),
    decreases b.len(),
{
    if b.len() == 0 {
        assert(a + b == a);
        assert(subst_char(b, c, q) == Seq::<char>::empty());
        assert(subst_char(a, c, q) + Seq::<char>::empty() == subst_char(a, c, q));
    } else {
        lemma_subst_add(a, b.drop_last(), c, q);
        assert((a + b).drop_last() == a + b.drop_last());
        assert((a + b).last() == b.last());
    }
}

proof fn lemma_subst_one(x: char, c: char, q: Seq<char>)
    ensures
        subst_char(seq![x], c, q) == (if x == c {
            q
        } else {
            seq![x]
        }),
{
    assert(seq![x].drop_last() == Seq::<char>::empty());
    assert(subst_char(Seq::<char>::empty(), c, q) == Seq::<char>::empty());
    assert(Seq::<char>::empty() + q == q);
    assert(Seq::<char>::empty() + seq![x] == seq![x]);
}

proof fn lemma_subst_absent(s: Seq<char>, c: char, q: Seq<char>)
    requires
        lacks(s, c),
    ensures
        subst_char(s, c, q) == s,
    decreases s.len(),
{
    if s.len() > 0 {
        assert(lacks(s.drop_last(), c)) by {
            assert forall|i: int| 0 <= i < s.drop_last().len() implies #[trigger] s.drop_last()[i]
                != c by {
                assert(s.drop_last()[i] == s[i]);
            }
        }
        lemma_subst_absent(s.drop_last(), c, q);
        assert(s[s.len() - 1] != c);
        assert(s.drop_last() + seq![s.last()] == s);
    }
}

/// Substituting a character maps every piece of a text to the substituted piece.
proof fn lemma_subst_keeps_piece(s: Seq<char>, g: Seq<char>, c: char, q: Seq<char>)
    requires
        contains_seq(s, g),
    ensures
        contains_seq(subst_char(s, c, q), subst_char(g, c, q)),
{
    let i = choose|i: int| occurs_at(s, g, i);
    let a = s.take(i);
    let b = s.skip(i + g.len());
    assert(s == a + g + b);
    lemma_subst_add(a + g, b, c, q);
    lemma_subst_add(a, g, c, q);
    let out = subst_char(s, c, q);
    let sa = subst_char(a, c, q);
    let sg = subst_char(g, c, q);
    assert(out.subrange(sa.len() as int, (sa.len() + sg.len()) as int) =~= sg);
    assert(occurs_at(out, sg, sa.len() as int));
}

proof fn lemma_subst_yields(s: Seq<char>, c: char, q: Seq<char>)
    requires
        !lacks(s, c),
    ensures
        contains_seq(subst_char(s, c, q), q),
{
    let i = choose|i: int| 0 <= i < s.len() && #[trigger] s[i] == c;
    assert(s.subrange(i, i + 1) =~= seq![c]);
    assert(occurs_at(s, seq![c], i));
    lemma_subst_keeps_piece(s, seq![c], c, q);
    lemma_subst_one(c, c, q);
}

/// Restoring maps every piece of a text to the restored piece.
proof fn lemma_restore_keeps_piece(s: Seq<char>, g: Seq<char>, origs: Seq<Seq<char>>)
    requires
        contains_seq(s, g),
    ensures
        contains_seq(restore(s, origs), restore(g, origs)),
    decreases origs.len(),
{
    if origs.len() > 0 {
        let c = token_char((origs.len() - 1) as nat);
        lemma_subst_keeps_piece(s, g, c, origs.last());
        lemma_restore_keeps_piece(
            subst_char(s, c, origs.last()),
            subst_char(g, c, origs.last()),
            origs.drop_last(),
        );
    }
}

proof fn lemma_puc_subst(s: Seq<char>, c: char, q: Seq<char>)
    requires
        is_private_use(c),
    ensures
        private_use_chars(subst_char(s, c, q)) == subst_char(
            private_use_chars(s),
            c,
            private_use_chars(q),
        ),
    decreases s.len(),
{
    if s.len() > 0 {
        let t = s.drop_last();
        let x = s.last();
        lemma_puc_subst(t, c, q);
        let part = if x == c {
            q
        } else {
            seq![x]
        };
        lemma_puc_add(subst_char(t, c, q), part);
        let ppart = if is_private_use(x) {
            seq![x]
        } else {
            Seq::<char>::empty()
        };
        lemma_subst_add(private_use_chars(t), ppart, c, private_use_chars(q));
        lemma_puc_one(x);
        lemma_subst_one(x, c, private_use_chars(q));
        assert(subst_char(Seq::<char>::empty(), c, private_use_chars(q)) == Seq::<char>::empty());
    }
}

proof fn lemma_puc_member(s: Seq<char>, x: char)
    requires
        is_private_use(x),
    ensures
        lacks(s, x) <==> lacks(private_use_chars(s), x),
    decreases s.len(),
{
    if s.len() > 0 {
        let t = s.drop_last();
        lemma_puc_member(t, x);
        lemma_puc_one(s.last());
        lemma_puc_add(t, seq![s.last()]);
        assert(t + seq![s.last()] == s);
        let pt = private_use_chars(t);
        let ps = private_use_chars(s);
        if lacks(s, x) {
            assert forall|i: int| 0 <= i < t.len() implies #[trigger] t[i] != x by {
                assert(t[i] == s[i]);
            }
            assert forall|i: int| 0 <= i < ps.len() implies #[trigger] ps[i] != x by {
                if i < pt.len() {
                    assert(ps[i] == pt[i]);
                } else {
                    assert(ps[i] == s.last());
                    assert(s[s.len() - 1] != x);
                }
            }
        } else {
            let i = choose|i: int| 0 <= i < s.len() && #[trigger] s[i] == x;
            if i < t.len() {
                assert(t[i] == x);
                let j = choose|j: int| 0 <= j < pt.len() && #[trigger] pt[j] == x;
                assert(ps[j] == pt[j]);
            } else {
                assert(ps[pt.len() as int] == x);
            }
        }
    }
}

// ---------------------------------------------------------------------------
// Replacement by a fresh character is undone by substituting it back
// ---------------------------------------------------------------------------

proof fn lemma_replace_all_undone(s: Seq<char>, p: Seq<char>, c: char)
    requires
        p.len() > 0,
        lacks(s, c),
    ensures
        subst_char(replace_all(s, p, seq![c]), c, p) == s,
    decreases s.len(),
{
    if s.len() < p.len() {
        lemma_subst_absent(s, c, p);
    } else if s.take(p.len() as int) == p {
        let rest = s.skip(p.len() as int);
        assert(lacks(rest, c)) by {
            assert forall|i: int| 0 <= i < rest.len() implies #[trigger] rest[i] != c by {
                assert(rest[i] == s[i + p.len()]);
            }
        }
        lemma_replace_all_undone(rest, p, c);
        lemma_subst_add(seq![c], replace_all(rest, p, seq![c]), c, p);
        lemma_subst_one(c, c, p);
        assert(p + rest == s);
    } else {
        let rest = s.skip(1);
        assert(lacks(rest, c)) by {
            assert forall|i: int| 0 <= i < rest.len() implies #[trigger] rest[i] != c by {
                assert(rest[i] == s[i + 1]);
            }
        }
        lemma_replace_all_undone(rest, p, c);
        lemma_subst_add(seq![s[0]], replace_all(rest, p, seq![c]), c, p);
        lemma_subst_one(s[0], c, p);
        assert(seq![s[0]] + rest == s);
    }
}

proof fn lemma_replace_first_undone(s: Seq<char>, p: Seq<char>, c: char)
    requires
        p.len() > 0,
        lacks(s, c),
    ensures
        subst_char(replace_first(s, p, seq![c]), c, p) == s,
    decreases s.len(),
{
    if s.len() < p.len() {
        lemma_subst_absent(s, c, p);
    } else if s.take(p.len() as int) == p {
        let rest = s.skip(p.len() as int);
        assert(lacks(rest, c)) by {
            assert forall|i: int| 0 <= i < rest.len() implies #[trigger] rest[i] != c by {
                assert(rest[i] == s[i + p.len()]);
            }
        }
        lemma_subst_absent(rest, c, p);
        lemma_subst_add(seq![c], rest, c, p);
        lemma_subst_one(c, c, p);
        assert(p + rest == s);
    } else {
        let rest = s.skip(1);
        assert(lacks(rest, c)) by {
            assert forall|i: int| 0 <= i < rest.len() implies #[trigger] rest[i] != c by {
                assert(rest[i] == s[i + 1]);
            }
        }
        lemma_replace_first_undone(rest, p, c);
        lemma_subst_add(seq![s[0]], replace_first(rest, p, seq![c]), c, p);
        lemma_subst_one(s[0], c, p);
        assert(seq![s[0]] + rest == s);
    }
}

/// Replacing an occurring pattern by `[c]` leaves `c` in the text.
proof fn lemma_replace_all_places(s: Seq<char>, p: Seq<char>, c: char)
    requires
        p.len() > 0,
        contains_seq(s, p),
    ensures
        !lacks(replace_all(s, p, seq![c]), c),
    decreases s.len(),
{
    let out = replace_all(s, p, seq![c]);
    if s.take(p.len() as int) == p {
        assert(out[0] == c);
    } else {
        let i = choose|i: int| occurs_at(s, p, i);
        if i == 0 {
            assert(s.subrange(0, p.len() as int) == s.take(p.len() as int));
        }
        assert(occurs_at(s.skip(1), p, i - 1)) by {
            assert(s.skip(1).subrange(i - 1, i - 1 + p.len()) =~= s.subrange(i, i + p.len()));
        }
        lemma_replace_all_places(s.skip(1), p, c);
        let rest = replace_all(s.skip(1), p, seq![c]);
        let j = choose|j: int| 0 <= j < rest.len() && #[trigger] rest[j] == c;
        assert(out[j + 1] == rest[j]);
    }
}

proof fn lemma_replace_first_places(s: Seq<char>, p: Seq<char>, c: char)
    requires
        p.len() > 0,
        contains_seq(s, p),
    ensures
        !lacks(replace_first(s, p, seq![c]), c),
    decreases s.len(),
{
    let out = replace_first(s, p, seq![c]);
    if s.take(p.len() as int) == p {
        assert(out[0] == c);
    } else {
        let i = choose|i: int| occurs_at(s, p, i);
        if i == 0 {
            assert(s.subrange(0, p.len() as int) == s.take(p.len() as int));
        }
        assert(occurs_at(s.skip(1), p, i - 1)) by {
            assert(s.skip(1).subrange(i - 1, i - 1 + p.len()) =~= s.subrange(i, i + p.len()));
        }
        lemma_replace_first_places(s.skip(1), p, c);
        let rest = replace_first(s.skip(1), p, seq![c]);
        let j = choose|j: int| 0 <= j < rest.len() && #[trigger] rest[j] == c;
        assert(out[j + 1] == rest[j]);
    }
}

/// The Private Use Area characters of `s` are all tokens numbered below `n`.
pub open spec fn tokens_below(s: Seq<char>, n: nat) -> bool {
    forall|i: int|
        0 <= i < s.len() && is_private_use(#[trigger] s[i]) ==> code_point(s[i]) < 0xE000 + n
}

proof fn lemma_token_char(k: nat)
    requires
        k < 0x1900,
    ensures
        code_point(token_char(k)) == 0xE000 + k,
        is_private_use(token_char(k)),
{
    let c = ((0xE000 + k) as u32) as char;
    assert(code_point(c) == 0xE000 + k) by {
        assert((0xE000 + k) as u32 == 0xE000 + k);
    }
}

} // verus!

verus! {

// ---------------------------------------------------------------------------
// Protection and restoration
// ---------------------------------------------------------------------------

/// The tokens numbered `m` and above restored, the last one first.
pub open spec fn restore_down(w: Seq<char>, origs: Seq<Seq<char>>, m: nat) -> Seq<char>
    decreases origs.len(),
{
    if origs.len() <= m {
        w
    } else {
        restore_down(
            subst_char(w, token_char((origs.len() - 1) as nat), origs.last()),
            origs.drop_last(),
            m,
        )
    }
}

/// What holds of a protected text `w` with token originals `origs`: its Private
/// Use Area characters are its tokens, restoring every token gives back `text`,
/// and token `m - 1` is present once the tokens above it are restored.
pub open spec fn stage_ok(text: Seq<char>, w: Seq<char>, origs: Seq<Seq<char>>) -> bool {
    &&& origs.len() <= 0x1900
    &&& tokens_below(w, origs.len())
    &&& restore_down(w, origs, 0) == text
    &&& forall|m: nat|
        1 <= m <= origs.len() ==> !lacks(
            #[trigger] restore_down(w, origs, m),
            token_char((m - 1) as nat),
        )
}

proof fn lemma_restore_split(w: Seq<char>, origs: Seq<Seq<char>>, m: nat)
    requires
        m <= origs.len(),
    ensures
        restore(w, origs) == restore(restore_down(w, origs, m), origs.take(m as int)),
    decreases origs.len(),
{
    if origs.len() <= m {
        assert(origs.take(m as int) == origs);
    } else {
        let c = token_char((origs.len() - 1) as nat);
        lemma_restore_split(subst_char(w, c, origs.last()), origs.drop_last(), m);
        assert(origs.drop_last().take(m as int) == origs.take(m as int));
    }
}

proof fn lemma_restore_down_step(w: Seq<char>, origs: Seq<Seq<char>>, m: nat)
    requires
        1 <= m <= origs.len(),
    ensures
        restore_down(w, origs, (m - 1) as nat) == subst_char(
            restore_down(w, origs, m),
            token_char((m - 1) as nat),
            origs[m - 1],
        ),
    decreases origs.len(),
{
    if origs.len() > m {
        let c = token_char((origs.len() - 1) as nat);
        lemma_restore_down_step(subst_char(w, c, origs.last()), origs.drop_last(), m);
        assert(origs.drop_last()[m - 1] == origs[m - 1]);
    } else {
        let c = token_char((origs.len() - 1) as nat);
        assert(origs.drop_last().len() <= (m - 1) as nat);
        assert(origs.last() == origs[m - 1]);
        assert(restore_down(subst_char(w, c, origs.last()), origs.drop_last(), (m - 1) as nat)
            == subst_char(w, c, origs.last()));
    }
}

proof fn lemma_restore_down_push(
    w: Seq<char>,
    w2: Seq<char>,
    origs: Seq<Seq<char>>,
    p: Seq<char>,
    m: nat,
)
    requires
        subst_char(w2, token_char(origs.len()), p) == w,
    ensures
        m <= origs.len() ==> restore_down(w2, origs.push(p), m) == restore_down(w, origs, m),
        restore_down(w2, origs.push(p), origs.len() + 1) == w2,
{
    let o2 = origs.push(p);
    assert(o2.drop_last() == origs);
    assert(o2.last() == p);
}

proof fn lemma_replace_all_tokens_below(s: Seq<char>, p: Seq<char>, c: char, n: nat)
    requires
        tokens_below(s, n),
        code_point(c) < 0xE000 + n,
    ensures
        tokens_below(replace_all(s, p, seq![c]), n),
    decreases s.len(),
{
    if p.len() == 0 || s.len() < p.len() {
    } else if s.take(p.len() as int) == p {
        let rest = s.skip(p.len() as int);
        assert(tokens_below(rest, n)) by {
            assert forall|i: int| 0 <= i < rest.len() && is_private_use(#[trigger] rest[i]) implies code_point(rest[i]) < 0xE000 + n by {
                assert(rest[i] == s[i + p.len()]);
            }
        }
        lemma_replace_all_tokens_below(rest, p, c, n);
        let out = replace_all(s, p, seq![c]);
        let tail = replace_all(rest, p, seq![c]);
        assert forall|i: int| 0 <= i < out.len() && is_private_use(#[trigger] out[i]) implies code_point(out[i]) < 0xE000 + n by {
            if i > 0 {
                assert(out[i] == tail[i - 1]);
            }
        }
    } else {
        let rest = s.skip(1);
        assert(tokens_below(rest, n)) by {
            assert forall|i: int| 0 <= i < rest.len() && is_private_use(#[trigger] rest[i]) implies code_point(rest[i]) < 0xE000 + n by {
                assert(rest[i] == s[i + 1]);
            }
        }
        lemma_replace_all_tokens_below(rest, p, c, n);
        let out = replace_all(s, p, seq![c]);
        let tail = replace_all(rest, p, seq![c]);
        assert forall|i: int| 0 <= i < out.len() && is_private_use(#[trigger] out[i]) implies code_point(out[i]) < 0xE000 + n by {
            if i > 0 {
                assert(out[i] == tail[i - 1]);
            } else {
                assert(out[0] == s[0]);
            }
        }
    }
}

proof fn lemma_replace_first_tokens_below(s: Seq<char>, p: Seq<char>, c: char, n: nat)
    requires
        tokens_below(s, n),
        code_point(c) < 0xE000 + n,
    ensures
        tokens_below(replace_first(s, p, seq![c]), n),
    decreases s.len(),
{
    if p.len() == 0 || s.len() < p.len() {
    } else if s.take(p.len() as int) == p {
        let rest = s.skip(p.len() as int);
        let out = replace_first(s, p, seq![c]);
        assert forall|i: int| 0 <= i < out.len() && is_private_use(#[trigger] out[i]) implies code_point(out[i]) < 0xE000 + n by {
            if i > 0 {
                assert(out[i] == s[i - 1 + p.len()]);
            }
        }
    } else {
        let rest = s.skip(1);
        assert(tokens_below(rest, n)) by {
            assert forall|i: int| 0 <= i < rest.len() && is_private_use(#[trigger] rest[i]) implies code_point(rest[i]) < 0xE000 + n by {
                assert(rest[i] == s[i + 1]);
            }
        }
        lemma_replace_first_tokens_below(rest, p, c, n);
        let out = replace_first(s, p, seq![c]);
        let tail = replace_first(rest, p, seq![c]);
        assert forall|i: int| 0 <= i < out.len() && is_private_use(#[trigger] out[i]) implies code_point(out[i]) < 0xE000 + n by {
            if i > 0 {
                assert(out[i] == tail[i - 1]);
            } else {
                assert(out[0] == s[0]);
            }
        }
    }
}

/// Adding a token for a piece `p` that occurs, replaced by `w2`, keeps the
/// stage properties.
proof fn lemma_stage_add(
    text: Seq<char>,
    w: Seq<char>,
    w2: Seq<char>,
    origs: Seq<Seq<char>>,
    p: Seq<char>,
)
    requires
        stage_ok(text, w, origs),
        origs.len() + 1 <= 0x1900,
        p.len() > 0,
        subst_char(w2, token_char(origs.len()), p) == w,
        !lacks(w2, token_char(origs.len())),
        tokens_below(w2, origs.len() + 1),
    ensures
        stage_ok(text, w2, origs.push(p)),
{
    let o2 = origs.push(p);
    let k = origs.len();
    lemma_restore_down_push(w, w2, origs, p, 0);
    assert forall|m: nat| 1 <= m <= o2.len() implies !lacks(
        #[trigger] restore_down(w2, o2, m),
        token_char((m - 1) as nat),
    ) by {
        lemma_restore_down_push(w, w2, origs, p, m);
        if m <= k {
            assert(restore_down(w, origs, m) == restore_down(w2, o2, m));
        }
    }
}

proof fn lemma_tokens_below_grows(w: Seq<char>, n: nat)
    requires
        tokens_below(w, n),
    ensures
        tokens_below(w, n + 1),
{
}

proof fn lemma_protect_placeholders_stage(text: Seq<char>, phs: Seq<Seq<char>>)
    requires
        free_of_private_use(text),
        crate::pseudo::protect_placeholders(text, phs).1.len() <= 0x1900,
    ensures
        ({
            let (w, origs) = crate::pseudo::protect_placeholders(text, phs);
            stage_ok(text, w, origs)
        }),
    decreases phs.len(),
{
    if phs.len() == 0 {
        assert(tokens_below(text, 0));
    } else {
        let (w, origs) = crate::pseudo::protect_placeholders(text, phs.drop_last());
        lemma_protect_placeholders_stage(text, phs.drop_last());
        let p = phs.last();
        if p.len() > 0 && contains_seq(w, p) {
            let k = origs.len();
            let t = token_char(k);
            lemma_token_char(k);
            lemma_fresh_above(w, k, k);
            let w2 = replace_all(w, p, seq![t]);
            lemma_replace_all_undone(w, p, t);
            lemma_replace_all_places(w, p, t);
            lemma_tokens_below_grows(w, k);
            lemma_replace_all_tokens_below(w, p, t, k + 1);
            lemma_stage_add(text, w, w2, origs, p);
        }
    }
}

proof fn lemma_protect_tags_stage(
    text: Seq<char>,
    w: Seq<char>,
    tags: Seq<Seq<char>>,
    origs: Seq<Seq<char>>,
)
    requires
        stage_ok(text, w, origs),
        forall|j: int| 0 <= j < tags.len() ==> (#[trigger] tags[j]).len() > 0,
        crate::pseudo::protect_tags(w, tags, origs).1.len() <= 0x1900,
    ensures
        ({
            let (w2, o2) = crate::pseudo::protect_tags(w, tags, origs);
            stage_ok(text, w2, o2)
        }),
    decreases tags.len(),
{
    if tags.len() > 0 {
        let (w1, o1) = crate::pseudo::protect_tags(w, tags.drop_last(), origs);
        assert forall|j: int| 0 <= j < tags.drop_last().len() implies (
        #[trigger] tags.drop_last()[j]).len() > 0 by {
            assert(tags.drop_last()[j] == tags[j]);
        }
        lemma_protect_tags_stage(text, w, tags.drop_last(), origs);
        let g = tags.last();
        assert(g == tags[tags.len() - 1]);
        if contains_seq(w1, g) {
            let k = o1.len();
            let t = token_char(k);
            lemma_token_char(k);
            lemma_fresh_above(w1, k, k);
            let w2 = replace_first(w1, g, seq![t]);
            lemma_replace_first_undone(w1, g, t);
            lemma_replace_first_places(w1, g, t);
            lemma_tokens_below_grows(w1, k);
            lemma_replace_first_tokens_below(w1, g, t, k + 1);
            lemma_stage_add(text, w1, w2, o1, g);
        }
    }
}

proof fn lemma_protected_stage(text: Seq<char>, phs: Seq<Seq<char>>)
    requires
        free_of_private_use(text),
        token_count(text, phs) <= crate::pseudo::MAX_TOKENS,
    ensures
        ({
            let (w, origs) = protected(text, phs);
            stage_ok(text, w, origs)
        }),
{
    let (w1, o1) = crate::pseudo::protect_placeholders(text, phs);
    let tags = crate::markup::html_tags(w1);
    lemma_tags_count(w1, tags, o1);
    lemma_protect_placeholders_stage(text, phs);
    crate::pseudo::lemma_tags_nonempty(w1, 0);
    lemma_protect_tags_stage(text, w1, tags, o1);
}

proof fn lemma_tags_count(w: Seq<char>, tags: Seq<Seq<char>>, origs: Seq<Seq<char>>)
    ensures
        origs.len() <= crate::pseudo::protect_tags(w, tags, origs).1.len(),
        crate::pseudo::protect_tags(w, tags, origs).1.take(origs.len() as int) == origs,
    decreases tags.len(),
{
    if tags.len() > 0 {
        lemma_tags_count(w, tags.drop_last(), origs);
        let (w1, o1) = crate::pseudo::protect_tags(w, tags.drop_last(), origs);
        assert(o1.push(tags.last()).take(origs.len() as int) == o1.take(origs.len() as int));
    } else {
        assert(origs.take(origs.len() as int) == origs);
    }
}

/// With no strategy at all, pseudo-translation gives the text back exactly:
/// restoring the tokens undoes the protection of placeholders and tags
/// (for a text without Private Use Area characters, using at most 6400 tokens).
pub proof fn law_round_trip(text: Seq<char>, phs: Seq<Seq<char>>)
    requires
        free_of_private_use(text),
        token_count(text, phs) <= crate::pseudo::MAX_TOKENS,
    ensures
        pseudo_text(text, phs, Seq::empty()) == text,
{
    if text.len() > 0 {
        lemma_protected_stage(text, phs);
        let (w, origs) = protected(text, phs);
        lemma_restore_split(w, origs, 0);
        assert(origs.take(0) == Seq::<Seq<char>>::empty());
    }
}

proof fn lemma_restore_down_puc(
    a: Seq<char>,
    b: Seq<char>,
    origs: Seq<Seq<char>>,
    m: nat,
)
    requires
        private_use_chars(a) == private_use_chars(b),
        origs.len() <= 0x1900,
    ensures
        private_use_chars(restore_down(a, origs, m)) == private_use_chars(
            restore_down(b, origs, m),
        ),
    decreases origs.len(),
{
    if origs.len() > m {
        let c = token_char((origs.len() - 1) as nat);
        lemma_token_char((origs.len() - 1) as nat);
        lemma_puc_subst(a, c, origs.last());
        lemma_puc_subst(b, c, origs.last());
        lemma_restore_down_puc(
            subst_char(a, c, origs.last()),
            subst_char(b, c, origs.last()),
            origs.drop_last(),
            m,
        );
    }
}

/// Every piece that was swapped for a token (a placeholder, or an HTML tag)
/// comes back in the output of any pipeline, with the tokens inside it restored
/// (for a text without Private Use Area characters, using at most 6400 tokens).
pub proof fn law_protected_pieces_survive(
    text: Seq<char>,
    phs: Seq<Seq<char>>,
    steps: Seq<PipelineStep>,
)
    requires
        free_of_private_use(text),
        token_count(text, phs) <= crate::pseudo::MAX_TOKENS,
    ensures
        forall|k: int|
            0 <= k < protected(text, phs).1.len() ==> contains_seq(
                pseudo_text(text, phs, steps),
                restore(
                    #[trigger] protected(text, phs).1[k],
                    protected(text, phs).1.take(k),
                ),
            ),
{
    let (w, origs) = protected(text, phs);
    lemma_protected_stage(text, phs);
    if text.len() > 0 {
        let out = pseudo_text(text, phs, steps);
        let big_w = run_steps(steps, w);
        law_pipeline_keeps_private_use(steps, w);
        assert forall|k: int| 0 <= k < origs.len() implies contains_seq(
            out,
            restore(#[trigger] origs[k], origs.take(k)),
        ) by {
            let m = (k + 1) as nat;
            let t = token_char(k as nat);
            lemma_token_char(k as nat);
            lemma_restore_down_puc(big_w, w, origs, m);
            assert(!lacks(restore_down(w, origs, m), t));
            lemma_puc_member(restore_down(w, origs, m), t);
            lemma_puc_member(restore_down(big_w, origs, m), t);
            let r_m = restore_down(big_w, origs, m);
            lemma_restore_down_step(big_w, origs, m);
            lemma_subst_yields(r_m, t, origs[k]);
            let r_k = restore_down(big_w, origs, k as nat);
            lemma_restore_split(big_w, origs, k as nat);
            lemma_restore_keeps_piece(r_k, origs[k], origs.take(k));
        }
    } else {
        lemma_empty_text_no_tokens(text, phs);
    }
}

proof fn lemma_empty_placeholders_no_tokens(text: Seq<char>, phs: Seq<Seq<char>>)
    requires
        text.len() == 0,
    ensures
        crate::pseudo::protect_placeholders(text, phs) == (text, Seq::<Seq<char>>::empty()),
    decreases phs.len(),
{
    if phs.len() > 0 {
        lemma_empty_placeholders_no_tokens(text, phs.drop_last());
        let p = phs.last();
        if p.len() > 0 && contains_seq(text, p) {
            let i = choose|i: int| occurs_at(text, p, i);
            assert(false);
        }
    }
}

proof fn lemma_empty_text_no_tokens(text: Seq<char>, phs: Seq<Seq<char>>)
    requires
        text.len() == 0,
    ensures
        protected(text, phs).1.len() == 0,
{
    lemma_empty_placeholders_no_tokens(text, phs);
    assert(crate::markup::html_tags(text) == Seq::<Seq<char>>::empty());
}

} // verus!

verus! {

proof fn lemma_restore_free(p: Seq<char>, origs: Seq<Seq<char>>)
    requires
        free_of_private_use(p),
        origs.len() <= 0x1900,
    ensures
        restore(p, origs) == p,
    decreases origs.len(),
{
    if origs.len() > 0 {
        let k = (origs.len() - 1) as nat;
        lemma_token_char(k);
        assert(lacks(p, token_char(k)));
        lemma_subst_absent(p, token_char(k), origs.last());
        lemma_restore_free(p, origs.drop_last());
    }
}

proof fn lemma_placeholder_origs_free(text: Seq<char>, phs: Seq<Seq<char>>)
    requires
        forall|j: int| 0 <= j < phs.len() ==> free_of_private_use(#[trigger] phs[j]),
    ensures
        forall|k: int|
            0 <= k < crate::pseudo::protect_placeholders(text, phs).1.len()
                ==> free_of_private_use(
                #[trigger] crate::pseudo::protect_placeholders(text, phs).1[k],
            ),
    decreases phs.len(),
{
    if phs.len() > 0 {
        assert forall|j: int| 0 <= j < phs.drop_last().len() implies free_of_private_use(
            #[trigger] phs.drop_last()[j],
        ) by {
            assert(phs.drop_last()[j] == phs[j]);
        }
        lemma_placeholder_origs_free(text, phs.drop_last());
        assert(free_of_private_use(phs[phs.len() - 1]));
        let (w, o) = crate::pseudo::protect_placeholders(text, phs.drop_last());
        let o2 = crate::pseudo::protect_placeholders(text, phs).1;
        assert forall|k: int| 0 <= k < o2.len() implies free_of_private_use(#[trigger] o2[k]) by {
            if o2.len() > o.len() {
                assert(o2 == o.push(phs.last()));
                if k < o.len() {
                    assert(o2[k] == o[k]);
                }
            } else {
                assert(o2 == o);
            }
        }
    }
}

/// Every placeholder that was swapped for a token comes back verbatim in the
/// output of any pipeline. A non-empty placeholder is swapped when it occurs in
/// the text after the placeholders before it in the list were swapped (for a
/// text and placeholders without Private Use Area characters, using at most
/// 6400 tokens).
pub proof fn law_placeholders_survive(
    text: Seq<char>,
    phs: Seq<Seq<char>>,
    steps: Seq<PipelineStep>,
)
    requires
        free_of_private_use(text),
        forall|j: int| 0 <= j < phs.len() ==> free_of_private_use(#[trigger] phs[j]),
        token_count(text, phs) <= crate::pseudo::MAX_TOKENS,
    ensures
        forall|k: int|
            0 <= k < crate::pseudo::protect_placeholders(text, phs).1.len() ==> contains_seq(
                pseudo_text(text, phs, steps),
                #[trigger] crate::pseudo::protect_placeholders(text, phs).1[k],
            ),
{
    let (w1, o1) = crate::pseudo::protect_placeholders(text, phs);
    let origs = protected(text, phs).1;
    lemma_tags_count(w1, crate::markup::html_tags(w1), o1);
    lemma_placeholder_origs_free(text, phs);
    law_protected_pieces_survive(text, phs, steps);
    assert forall|k: int| 0 <= k < o1.len() implies contains_seq(
        pseudo_text(text, phs, steps),
        #[trigger] o1[k],
    ) by {
        assert(origs.take(o1.len() as int)[k] == origs[k]);
        assert(origs[k] == o1[k]);
        lemma_restore_free(o1[k], origs.take(k));
    }
}

} // verus!

verus! {

// ---------------------------------------------------------------------------
// Strategy selection
// ---------------------------------------------------------------------------

/// The default preset (accents and brackets) applies exactly when neither a
/// preset nor any individual flag is given; otherwise the flags are applied to
/// the preset's defaults, or to nothing when there is no preset.
pub proof fn law_default_only_without_arguments(cli: &Cli)
    ensures
        cli.preset is None && !any_flag(cli) ==> resolved_config(cli) == preset_config(
            Some(Preset::Default),
        ),
        cli.preset is Some || any_flag(cli) ==> resolved_config(cli) == with_flags(
            preset_config(cli.preset),
            cli,
        ),
{
}

/// A disable flag always wins: over the preset, over the matching enable flag
/// and over the default selection.
pub proof fn law_disable_flags_win(cli: &Cli)
    ensures
        cli.no_accents ==> !resolved_config(cli).accents,
        cli.no_cjk ==> !resolved_config(cli).cjk,
        cli.no_special_chars ==> !resolved_config(cli).special_chars,
        cli.no_expansion ==> resolved_config(cli).expansion is None,
        cli.no_brackets ==> !resolved_config(cli).brackets,
        cli.no_rtl ==> !resolved_config(cli).rtl,
        cli.no_unicode_stress ==> !resolved_config(cli).unicode_stress,
{
}

/// An enable flag turns its strategy on unless the matching disable flag is
/// given; an expansion ratio given on the command line replaces the preset's.
pub proof fn law_enable_flags_apply(cli: &Cli)
    ensures
        cli.accents && !cli.no_accents ==> resolved_config(cli).accents,
        cli.cjk && !cli.no_cjk ==> resolved_config(cli).cjk,
        cli.special_chars && !cli.no_special_chars ==> resolved_config(cli).special_chars,
        cli.expansion is Some && !cli.no_expansion ==> resolved_config(cli).expansion
            == cli.expansion,
        cli.brackets && !cli.no_brackets ==> resolved_config(cli).brackets,
        cli.rtl && !cli.no_rtl ==> resolved_config(cli).rtl,
        cli.unicode_stress && !cli.no_unicode_stress ==> resolved_config(cli).unicode_stress,
{
}

// ---------------------------------------------------------------------------
// Unicode stress length
// ---------------------------------------------------------------------------

/// Unicode stress keeps every character and adds at least a zero-width joiner
/// for every eight characters and an emoji sequence for every twelve.
pub proof fn law_stress_grows(text: Seq<char>)
    ensures
        stressed(text).len() >= text.len() + text.len() / 8 + 3 * (text.len() / 12),
    decreases text.len(),
{
    if text.len() > 0 {
        let n = text.len() as int;
        law_stress_grows(text.drop_last());
        lemma_div_step(n - 1, 8);
        lemma_div_step(n - 1, 12);
        let e = emoji_sequence(((text.len() / 12 - 1) as int) % 3);
        assert(e.len() >= 3);
    }
}

} // verus!

verus! {

// ---------------------------------------------------------------------------
// Every HTML tag is protected
// ---------------------------------------------------------------------------

/// `w` ends with `tail`.
pub open spec fn ends_with(w: Seq<char>, tail: Seq<char>) -> bool {
    w.len() >= tail.len() && w.skip(w.len() - tail.len()) == tail
}

proof fn lemma_protect_tags_concat(
    w: Seq<char>,
    a: Seq<Seq<char>>,
    b: Seq<Seq<char>>,
    origs: Seq<Seq<char>>,
)
    ensures
        crate::pseudo::protect_tags(w, a + b, origs) == ({
            let (w1, o1) = crate::pseudo::protect_tags(w, a, origs);
            crate::pseudo::protect_tags(w1, b, o1)
        }),
    decreases b.len(),
{
    if b.len() == 0 {
        assert(a + b == a);
    } else {
        lemma_protect_tags_concat(w, a, b.drop_last(), origs);
        assert((a + b).drop_last() == a + b.drop_last());
        assert((a + b).last() == b.last());
    }
}

/// The first occurrence of `g` starts no later than any occurrence `a`, so
/// replacing it leaves everything after `a + g.len()` in place.
proof fn lemma_replace_first_keeps_tail(w: Seq<char>, g: Seq<char>, r: Seq<char>, a: int)
    requires
        g.len() > 0,
        occurs_at(w, g, a),
    ensures
        ends_with(replace_first(w, g, r), w.skip(a + g.len())),
    decreases w.len(),
{
    let out = replace_first(w, g, r);
    let tail = w.skip(a + g.len());
    if w.take(g.len() as int) == g {
        let rest = w.skip(g.len() as int);
        assert(out == r + rest);
        assert(rest.skip(rest.len() - tail.len()) =~= tail);
        assert(out.skip(out.len() - tail.len()) =~= rest.skip(rest.len() - tail.len()));
    } else {
        if a == 0 {
            assert(w.subrange(0, g.len() as int) == w.take(g.len() as int));
        }
        assert(occurs_at(w.skip(1), g, a - 1)) by {
            assert(w.skip(1).subrange(a - 1, a - 1 + g.len()) =~= w.subrange(a, a + g.len()));
        }
        lemma_replace_first_keeps_tail(w.skip(1), g, r, a - 1);
        let inner = replace_first(w.skip(1), g, r);
        assert(w.skip(1).skip(a - 1 + g.len()) =~= tail);
        assert(out == seq![w[0]] + inner);
        assert(out.skip(out.len() - tail.len()) =~= inner.skip(inner.len() - tail.len()));
    }
}

proof fn lemma_all_tags_captured(s: Seq<char>, i: int, w: Seq<char>, origs: Seq<Seq<char>>)
    requires
        0 <= i <= s.len(),
        ends_with(w, s.skip(i)),
    ensures
        crate::pseudo::protect_tags(w, crate::markup::tags_from(s, i), origs).1 == origs
            + crate::markup::tags_from(s, i),
    decreases s.len() - i,
{
    let tags = crate::markup::tags_from(s, i);
    if i >= s.len() {
        assert(tags == Seq::<Seq<char>>::empty());
        assert(origs + tags == origs);
    } else {
        crate::markup::lemma_tag_len_bounds(s, i);
        match crate::markup::tag_len_at(s, i) {
            None => {
                assert(tags == crate::markup::tags_from(s, i + 1));
                assert(s.skip(i + 1) =~= s.skip(i).skip(1));
                assert(w.skip(w.len() - s.skip(i + 1).len()) =~= s.skip(i + 1));
                lemma_all_tags_captured(s, i + 1, w, origs);
            },
            Some(l) => {
                let g = s.subrange(i, i + l);
                let rest = crate::markup::tags_from(s, i + l);
                assert(tags == seq![g] + rest);
                let a = w.len() - s.skip(i).len();
                assert(occurs_at(w, g, a)) by {
                    assert(w.subrange(a, a + g.len()) =~= g);
                }
                let t = token_char(origs.len());
                let w1 = replace_first(w, g, seq![t]);
                assert(seq![g].drop_last() == Seq::<Seq<char>>::empty());
                assert(seq![g].last() == g);
                assert(contains_seq(w, g));
                assert(crate::pseudo::protect_tags(w, Seq::<Seq<char>>::empty(), origs) == (
                    w,
                    origs,
                ));
                assert(crate::pseudo::protect_tags(w, seq![g], origs) == (w1, origs.push(g)));
                lemma_protect_tags_concat(w, seq![g], rest, origs);
                lemma_replace_first_keeps_tail(w, g, seq![t], a);
                assert(w.skip(a) == s.skip(i));
                assert(g.len() == l);
                assert(w.skip(a + g.len()) =~= w.skip(a).skip(l as int));
                assert(s.skip(i + l) =~= s.skip(i).skip(l as int));
                assert(w.skip(a + g.len()) =~= s.skip(i + l));
                lemma_all_tags_captured(s, i + l, w1, origs.push(g));
                assert(origs.push(g) + rest == origs + tags);
            },
        }
    }
}

/// Every HTML tag found in the text (after its placeholders were swapped for
/// tokens) is itself swapped for a token: the tokens are the captured
/// placeholders followed by all the tags, in order.
pub proof fn law_all_tags_protected(text: Seq<char>, phs: Seq<Seq<char>>)
    ensures
        ({
            let (w1, o1) = crate::pseudo::protect_placeholders(text, phs);
            protected(text, phs).1 == o1 + crate::markup::html_tags(w1)
        }),
{
    let (w1, o1) = crate::pseudo::protect_placeholders(text, phs);
    assert(w1.skip(0) == w1);
    assert(w1.skip(w1.len() - w1.skip(0).len()) == w1.skip(0));
    lemma_all_tags_captured(w1, 0, w1, o1);
}

/// When no placeholder is swapped (for instance when there are none), every
/// HTML tag of the text appears verbatim in the output of any pipeline (for a
/// text without Private Use Area characters, using at most 6400 tokens).
pub proof fn law_html_tags_survive(text: Seq<char>, phs: Seq<Seq<char>>, steps: Seq<PipelineStep>)
    requires
        free_of_private_use(text),
        crate::pseudo::protect_placeholders(text, phs).1.len() == 0,
        token_count(text, phs) <= crate::pseudo::MAX_TOKENS,
    ensures
        forall|j: int|
            0 <= j < crate::markup::html_tags(text).len() ==> contains_seq(
                pseudo_text(text, phs, steps),
                #[trigger] crate::markup::html_tags(text)[j],
            ),
{
    let (w1, o1) = crate::pseudo::protect_placeholders(text, phs);
    lemma_no_capture_keeps_text(text, phs);
    law_all_tags_protected(text, phs);
    law_protected_pieces_survive(text, phs, steps);
    let tags = crate::markup::html_tags(text);
    let origs = protected(text, phs).1;
    assert(origs == tags) by {
        assert(o1 + tags =~= tags);
    }
    assert forall|j: int| 0 <= j < tags.len() implies contains_seq(
        pseudo_text(text, phs, steps),
        #[trigger] tags[j],
    ) by {
        lemma_tag_is_piece(text, j);
        lemma_restore_free(tags[j], origs.take(j));
    }
}

proof fn lemma_no_capture_keeps_text(text: Seq<char>, phs: Seq<Seq<char>>)
    requires
        crate::pseudo::protect_placeholders(text, phs).1.len() == 0,
    ensures
        crate::pseudo::protect_placeholders(text, phs).0 == text,
    decreases phs.len(),
{
    if phs.len() > 0 {
        let (w, o) = crate::pseudo::protect_placeholders(text, phs.drop_last());
        if o.len() > 0 {
            lemma_placeholder_count_grows(text, phs);
        }
        lemma_no_capture_keeps_text(text, phs.drop_last());
    }
}

proof fn lemma_placeholder_count_grows(text: Seq<char>, phs: Seq<Seq<char>>)
    requires
        phs.len() > 0,
    ensures
        crate::pseudo::protect_placeholders(text, phs.drop_last()).1.len()
            <= crate::pseudo::protect_placeholders(text, phs).1.len(),
{
}

/// A tag of a text free of Private Use Area characters is free of them too.
proof fn lemma_tag_is_piece(text: Seq<char>, j: int)
    requires
        free_of_private_use(text),
        0 <= j < crate::markup::html_tags(text).len(),
    ensures
        free_of_private_use(crate::markup::html_tags(text)[j]),
{
    lemma_tags_are_pieces(text, 0);
}

proof fn lemma_tags_are_pieces(s: Seq<char>, i: int)
    requires
        free_of_private_use(s),
    ensures
        forall|j: int|
            0 <= j < crate::markup::tags_from(s, i).len() ==> free_of_private_use(
                #[trigger] crate::markup::tags_from(s, i)[j],
            ),
    decreases s.len() - i,
{
    if 0 <= i < s.len() {
        crate::markup::lemma_tag_len_bounds(s, i);
        match crate::markup::tag_len_at(s, i) {
            None => {
                lemma_tags_are_pieces(s, i + 1);
                assert(crate::markup::tags_from(s, i) == crate::markup::tags_from(s, i + 1));
            },
            Some(l) => {
                lemma_tags_are_pieces(s, i + l);
                let g = s.subrange(i, i + l);
                let rest = crate::markup::tags_from(s, i + l);
                assert(crate::markup::tags_from(s, i) == seq![g] + rest);
                assert forall|j: int|
                    0 <= j < crate::markup::tags_from(s, i).len() implies free_of_private_use(
                    #[trigger] crate::markup::tags_from(s, i)[j],
                ) by {
                    if j == 0 {
                        assert forall|k: int| 0 <= k < g.len() implies !is_private_use(
                            #[trigger] g[k],
                        ) by {
                            assert(g[k] == s[i + k]);
                        }
                    } else {
                        assert(crate::markup::tags_from(s, i)[j] == rest[j - 1]);
                    }
                }
            },
        }
    }
}

} // verus!

verus! {

proof fn lemma_restore_down_absent(s: Seq<char>, origs: Seq<Seq<char>>, m: nat)
    requires
        tokens_below(s, m),
        origs.len() <= 0x1900,
    ensures
        restore_down(s, origs, m) == s,
    decreases origs.len(),
{
    if origs.len() > m {
        let k = (origs.len() - 1) as nat;
        lemma_token_char(k);
        lemma_fresh_above(s, m, k);
        lemma_subst_absent(s, token_char(k), origs.last());
        lemma_restore_down_absent(s, origs.drop_last(), m);
    }
}

/// A token numbered `m` or above does not occur in a text whose tokens are
/// numbered below `m`.
proof fn lemma_fresh_above(w: Seq<char>, m: nat, k: nat)
    requires
        tokens_below(w, m),
        m <= k < 0x1900,
    ensures
        lacks(w, token_char(k)),
{
    lemma_token_char(k);
    assert forall|i: int| 0 <= i < w.len() implies #[trigger] w[i] != token_char(k) by {
        if w[i] == token_char(k) {
            assert(is_private_use(w[i]));
        }
    }
}

proof fn lemma_tags_tokens_below(s: Seq<char>, i: int, n: nat)
    requires
        tokens_below(s, n),
    ensures
        forall|j: int|
            0 <= j < crate::markup::tags_from(s, i).len() ==> tokens_below(
                #[trigger] crate::markup::tags_from(s, i)[j],
                n,
            ),
    decreases s.len() - i,
{
    if 0 <= i < s.len() {
        crate::markup::lemma_tag_len_bounds(s, i);
        match crate::markup::tag_len_at(s, i) {
            None => {
                lemma_tags_tokens_below(s, i + 1, n);
                assert(crate::markup::tags_from(s, i) == crate::markup::tags_from(s, i + 1));
            },
            Some(l) => {
                lemma_tags_tokens_below(s, i + l, n);
                let g = s.subrange(i, i + l);
                let rest = crate::markup::tags_from(s, i + l);
                assert(crate::markup::tags_from(s, i) == seq![g] + rest);
                assert forall|j: int|
                    0 <= j < crate::markup::tags_from(s, i).len() implies tokens_below(
                    #[trigger] crate::markup::tags_from(s, i)[j],
                    n,
                ) by {
                    if j == 0 {
                        assert forall|k: int|
                            0 <= k < g.len() && is_private_use(#[trigger] g[k]) implies code_point(
                            g[k],
                        ) < 0xE000 + n by {
                            assert(g[k] == s[i + k]);
                        }
                    } else {
                        assert(crate::markup::tags_from(s, i)[j] == rest[j - 1]);
                    }
                }
            },
        }
    }
}

/// Every HTML tag comes back in the output of any pipeline, with the
/// placeholders inside it restored: for each tag `g` found once the
/// placeholders were swapped for tokens, the output contains `g` with those
/// tokens swapped back (for a text without Private Use Area characters, using
/// at most 6400 tokens).
pub proof fn law_html_tags_come_back(
    text: Seq<char>,
    phs: Seq<Seq<char>>,
    steps: Seq<PipelineStep>,
)
    requires
        free_of_private_use(text),
        token_count(text, phs) <= crate::pseudo::MAX_TOKENS,
    ensures
        ({
            let (w1, o1) = crate::pseudo::protect_placeholders(text, phs);
            forall|j: int|
                0 <= j < crate::markup::html_tags(w1).len() ==> contains_seq(
                    pseudo_text(text, phs, steps),
                    restore(#[trigger] crate::markup::html_tags(w1)[j], o1),
                )
        }),
{
    let (w1, o1) = crate::pseudo::protect_placeholders(text, phs);
    let tags = crate::markup::html_tags(w1);
    let origs = protected(text, phs).1;
    law_all_tags_protected(text, phs);
    law_protected_pieces_survive(text, phs, steps);
    lemma_tags_count(w1, tags, o1);
    lemma_protect_placeholders_stage(text, phs);
    lemma_tags_tokens_below(w1, 0, o1.len());
    assert forall|j: int| 0 <= j < tags.len() implies contains_seq(
        pseudo_text(text, phs, steps),
        restore(#[trigger] tags[j], o1),
    ) by {
        let k = o1.len() + j;
        assert(origs[k] == tags[j]);
        let prefix = origs.take(k);
        assert(prefix.take(o1.len() as int) =~= o1);
        lemma_restore_split(tags[j], prefix, o1.len());
        lemma_restore_down_absent(tags[j], prefix, o1.len());
    }
}

} // verus!

verus! {

// ---------------------------------------------------------------------------
// Pipeline construction
// ---------------------------------------------------------------------------

/// The place of a strategy in the documented pipeline order: accents, CJK,
/// special chars, unicode stress, expansion, RTL, brackets.
pub open spec fn documented_rank(step: PipelineStep) -> int {
    match step {
        PipelineStep::Accents(_) => 0,
        PipelineStep::Cjk(_) => 1,
        PipelineStep::SpecialChars(_) => 2,
        PipelineStep::UnicodeStress(_) => 3,
        PipelineStep::Expansion(_) => 4,
        PipelineStep::Rtl(_) => 5,
        PipelineStep::Brackets(_) => 6,
    }
}

/// Whether the configuration enables the strategy of documented rank `k`.
pub open spec fn enables(config: StrategyConfig, k: int) -> bool {
    if k == 0 {
        config.accents
    } else if k == 1 {
        config.cjk
    } else if k == 2 {
        config.special_chars
    } else if k == 3 {
        config.unicode_stress
    } else if k == 4 {
        config.expansion is Some
    } else if k == 5 {
        config.rtl
    } else if k == 6 {
        config.brackets
    } else {
        false
    }
}

/// How many of the strategies of rank below `k` the configuration enables.
pub open spec fn enabled_below(config: StrategyConfig, k: int) -> int
    decreases k,
{
    if k <= 0 {
        0
    } else {
        enabled_below(config, k - 1) + (if enables(config, k - 1) {
            1int
        } else {
            0int
        })
    }
}

/// A configured ratio (in thousandths) brought into `[1000, 3000]`.
pub open spec fn ratio_in_range(r: u32) -> nat {
    if r < 1000 {
        1000
    } else if r > 3000 {
        3000
    } else {
        r as nat
    }
}

/// An expansion step carries the configured ratio, brought into range.
pub open spec fn carries_configured_ratio(config: StrategyConfig, step: PipelineStep) -> bool {
    step matches PipelineStep::Expansion(s) ==> (config.expansion matches Some(r) && s.ratio()
        == ratio_in_range(r))
}

spec fn ordered_prefix(steps: Seq<PipelineStep>, config: StrategyConfig, k: int) -> bool {
    &&& forall|i: int, j: int|
        0 <= i < j < steps.len() ==> documented_rank(#[trigger] steps[i]) < documented_rank(
            #[trigger] steps[j],
        )
    &&& forall|i: int|
        0 <= i < steps.len() ==> documented_rank(#[trigger] steps[i]) < k && enables(
            config,
            documented_rank(steps[i]),
        ) && carries_configured_ratio(config, steps[i])
    &&& steps.len() == enabled_below(config, k)
}

proof fn lemma_ordered_extend(
    steps: Seq<PipelineStep>,
    config: StrategyConfig,
    k: int,
    piece: Seq<PipelineStep>,
    step: PipelineStep,
)
    requires
        k >= 0,
        ordered_prefix(steps, config, k),
        documented_rank(step) == k,
        piece == (if enables(config, k) {
            seq![step]
        } else {
            Seq::<PipelineStep>::empty()
        }),
        enables(config, k) ==> carries_configured_ratio(config, step),
    ensures
        ordered_prefix(steps + piece, config, k + 1),
{
    let r = steps + piece;
    assert forall|i: int| 0 <= i < r.len() implies documented_rank(#[trigger] r[i]) < k + 1
        && enables(config, documented_rank(r[i])) && carries_configured_ratio(config, r[i]) by {
        if i < steps.len() {
            assert(r[i] == steps[i]);
        } else {
            assert(r[i] == step);
        }
    }
    assert forall|i: int, j: int| 0 <= i < j < r.len() implies documented_rank(
        #[trigger] r[i],
    ) < documented_rank(#[trigger] r[j]) by {
        if j < steps.len() {
            assert(r[i] == steps[i]);
            assert(r[j] == steps[j]);
        } else {
            assert(r[j] == step);
            assert(r[i] == steps[i]);
        }
    }
}

/// The pipeline a configuration builds holds exactly the strategies it
/// enables, each once, in the documented order (accents, CJK, special chars,
/// unicode stress, expansion, RTL, brackets), and its expansion step runs with
/// the configured ratio brought into `[1000, 3000]`.
pub proof fn law_pipeline_follows_configuration(config: StrategyConfig)
    ensures
        forall|i: int, j: int|
            0 <= i < j < config_steps(config).len() ==> documented_rank(
                #[trigger] config_steps(config)[i],
            ) < documented_rank(#[trigger] config_steps(config)[j]),
        forall|i: int|
            0 <= i < config_steps(config).len() ==> enables(
                config,
                documented_rank(#[trigger] config_steps(config)[i]),
            ),
        config_steps(config).len() == enabled_below(config, 7),
        forall|i: int|
            0 <= i < config_steps(config).len() ==> carries_configured_ratio(
                config,
                #[trigger] config_steps(config)[i],
            ),
{
    let e = Seq::<PipelineStep>::empty();
    let p0 = if config.accents {
        seq![PipelineStep::Accents(crate::strategies::accents::AccentStrategy)]
    } else {
        e
    };
    let p1 = if config.cjk {
        seq![PipelineStep::Cjk(crate::strategies::cjk::CjkStrategy)]
    } else {
        e
    };
    let p2 = if config.special_chars {
        seq![PipelineStep::SpecialChars(crate::strategies::special_chars::SpecialCharsStrategy)]
    } else {
        e
    };
    let p3 = if config.unicode_stress {
        seq![PipelineStep::UnicodeStress(crate::strategies::unicode_stress::UnicodeStressStrategy)]
    } else {
        e
    };
    let r: u32 = match config.expansion {
        Some(r) => r,
        None => 1000,
    };
    let x = PipelineStep::Expansion(ExpansionStrategy::with_ratio(r));
    ExpansionStrategy::lemma_with_ratio(r);
    let p4 = match config.expansion {
        Some(ratio) => seq![PipelineStep::Expansion(ExpansionStrategy::with_ratio(ratio))],
        None => e,
    };
    let p5 = if config.rtl {
        seq![PipelineStep::Rtl(crate::strategies::rtl::RtlStrategy)]
    } else {
        e
    };
    let p6 = if config.brackets {
        seq![PipelineStep::Brackets(crate::strategies::brackets::BracketStrategy)]
    } else {
        e
    };
    assert(config_steps(config) == p0 + p1 + p2 + p3 + p4 + p5 + p6);
    assert(ordered_prefix(e, config, 0));
    lemma_ordered_extend(e, config, 0, p0, PipelineStep::Accents(crate::strategies::accents::AccentStrategy));
    assert(e + p0 == p0);
    lemma_ordered_extend(p0, config, 1, p1, PipelineStep::Cjk(crate::strategies::cjk::CjkStrategy));
    lemma_ordered_extend(
        p0 + p1,
        config,
        2,
        p2,
        PipelineStep::SpecialChars(crate::strategies::special_chars::SpecialCharsStrategy),
    );
    lemma_ordered_extend(
        p0 + p1 + p2,
        config,
        3,
        p3,
        PipelineStep::UnicodeStress(crate::strategies::unicode_stress::UnicodeStressStrategy),
    );
    lemma_ordered_extend(p0 + p1 + p2 + p3, config, 4, p4, x);
    lemma_ordered_extend(
        p0 + p1 + p2 + p3 + p4,
        config,
        5,
        p5,
        PipelineStep::Rtl(crate::strategies::rtl::RtlStrategy),
    );
    lemma_ordered_extend(
        p0 + p1 + p2 + p3 + p4 + p5,
        config,
        6,
        p6,
        PipelineStep::Brackets(crate::strategies::brackets::BracketStrategy),
    );
}

// ---------------------------------------------------------------------------
// Expansion: which characters are doubled
// ---------------------------------------------------------------------------

/// The vowels the expansion doubles: `a e i o u` in lower and upper case and
/// the acute-accented vowels (U+00E1, U+00E9, U+00ED, U+00F3, U+00FA) in lower
/// and upper case.
pub open spec fn doubling_vowel(c: char) -> bool {
    ||| c == 'a' || c == 'e' || c == 'i' || c == 'o' || c == 'u'
    ||| c == 'A' || c == 'E' || c == 'I' || c == 'O' || c == 'U'
    ||| c == '\u{00E1}' || c == '\u{00E9}' || c == '\u{00ED}' || c == '\u{00F3}' || c == '\u{00FA}'
    ||| c == '\u{00C1}' || c == '\u{00C9}' || c == '\u{00CD}' || c == '\u{00D3}' || c == '\u{00DA}'
}

/// The vowels of `text`, in order.
pub open spec fn vowels_of(text: Seq<char>) -> Seq<char> {
    text.filter(|c: char| doubling_vowel(c))
}

/// The number of vowels counted by the expansion is the number of vowels
/// (upper or lower case, plain or acute-accented) in the text.
pub proof fn law_vowel_count_counts_vowels(text: Seq<char>)
    ensures
        vowel_count(text) == vowels_of(text).len(),
    decreases text.len(),
{
    reveal(Seq::filter);
    if text.len() > 0 {
        law_vowel_count_counts_vowels(text.drop_last());
    }
}

/// Doubling the first `budget` vowels: appending a character to the text
/// appends it to the result, twice when it is a vowel and fewer than `budget`
/// vowels come before it, once otherwise; the empty text stays empty.
pub proof fn law_doubling_appends(text: Seq<char>, c: char, budget: nat)
    ensures
        doubled_vowels(Seq::<char>::empty(), budget) == Seq::<char>::empty(),
        doubled_vowels(text.push(c), budget) == doubled_vowels(text, budget) + (if doubling_vowel(
            c,
        ) && vowels_of(text).len() < budget {
            seq![c, c]
        } else {
            seq![c]
        }),
{
    law_vowel_count_counts_vowels(text);
    assert(text.push(c).drop_last() == text);
    assert(text.push(c).last() == c);
}

/// Doubling adds one character for each of the first `budget` vowels of the
/// text, and no other.
pub proof fn law_doubling_length(text: Seq<char>, budget: nat)
    ensures
        doubled_vowels(text, budget).len() == text.len() + (if vowels_of(text).len() < budget {
            vowels_of(text).len()
        } else {
            budget
        }),
{
    lemma_doubled_vowels_len(text, budget);
    law_vowel_count_counts_vowels(text);
}

/// How many characters the expansion adds to a text of `n` characters at a
/// ratio of `ratio_permille` thousandths: `ceil(n * ratio) - n`, or none.
pub open spec fn characters_to_add(n: nat, ratio_permille: nat) -> nat {
    let target: int = ((n * ratio_permille + 999) / 1000) as int;
    if target > n {
        (target - n) as nat
    } else {
        0
    }
}

/// The expanded text is the text with its first vowels doubled, as many as
/// there are characters to add, followed by padding (`~ - . ` in turn) for the
/// characters the vowels could not provide.
pub proof fn law_expansion_doubles_then_pads(text: Seq<char>, ratio_permille: nat)
    ensures
        ({
            let extra = characters_to_add(text.len(), ratio_permille);
            let doubled = doubled_vowels(text, extra);
            let out = expanded(text, ratio_permille);
            &&& doubled.len() <= out.len()
            &&& out.subrange(0, doubled.len() as int) == doubled
            &&& out.len() - doubled.len() == extra - (if vowels_of(text).len() < extra {
                vowels_of(text).len()
            } else {
                extra
            })
            &&& forall|k: int|
                doubled.len() <= k < out.len() ==> #[trigger] out[k] == (if (k - doubled.len())
                    % 4 == 0 {
                    '~'
                } else if (k - doubled.len()) % 4 == 1 {
                    '-'
                } else if (k - doubled.len()) % 4 == 2 {
                    '.'
                } else {
                    ' '
                })
        }),
{
    let extra = characters_to_add(text.len(), ratio_permille);
    assert(extra == extra_needed(text.len(), ratio_permille));
    law_vowel_count_counts_vowels(text);
    let doubled = doubled_vowels(text, extra);
    let from_vowels: nat = if vowel_count(text) < extra {
        vowel_count(text)
    } else {
        extra
    };
    let pad = padding((extra - from_vowels) as nat);
    let out = expanded(text, ratio_permille);
    assert(out == doubled + pad);
    assert(out.subrange(0, doubled.len() as int) == doubled);
    assert forall|k: int| doubled.len() <= k < out.len() implies #[trigger] out[k] == (if (k
        - doubled.len()) % 4 == 0 {
        '~'
    } else if (k - doubled.len()) % 4 == 1 {
        '-'
    } else if (k - doubled.len()) % 4 == 2 {
        '.'
    } else {
        ' '
    }) by {
        assert(out[k] == pad[k - doubled.len()]);
        assert(pad[k - doubled.len()] == crate::strategies::expansion::PADDING_CHARS@[(k
            - doubled.len()) % 4]);
    }
}

// ---------------------------------------------------------------------------
// Unicode stress: what follows each character
// ---------------------------------------------------------------------------

/// The emoji sequences inserted in turn after every twelfth character: the
/// family (man, woman, girl), the rainbow flag, the woman technologist.
pub open spec fn emoji_in_turn(k: int) -> Seq<char> {
    if k % 3 == 0 {
        seq!['\u{1F468}', '\u{200D}', '\u{1F469}', '\u{200D}', '\u{1F467}']
    } else if k % 3 == 1 {
        seq!['\u{1F3F3}', '\u{FE0F}', '\u{200D}', '\u{1F308}']
    } else {
        seq!['\u{1F469}', '\u{200D}', '\u{1F4BB}']
    }
}

/// The combining diacritics inserted in turn: grave, acute, circumflex,
/// tilde, diaeresis, ring above, double acute, caron, cedilla, ogonek.
pub open spec fn diacritic_in_turn(k: int) -> char {
    let m = k % 10;
    if m == 0 {
        '\u{0300}'
    } else if m == 1 {
        '\u{0301}'
    } else if m == 2 {
        '\u{0302}'
    } else if m == 3 {
        '\u{0303}'
    } else if m == 4 {
        '\u{0308}'
    } else if m == 5 {
        '\u{030A}'
    } else if m == 6 {
        '\u{030B}'
    } else if m == 7 {
        '\u{030C}'
    } else if m == 8 {
        '\u{0327}'
    } else {
        '\u{0328}'
    }
}

/// How many characters of `text` are at a position (counted from 1) that is a
/// multiple of 3 and alphanumeric: the diacritics stressing `text` inserts.
pub open spec fn alphanumeric_thirds(text: Seq<char>) -> nat
    decreases text.len(),
{
    if text.len() == 0 {
        0
    } else {
        alphanumeric_thirds(text.drop_last()) + (if text.len() % 3 == 0
            && crate::strategies::unicode_stress::alphanumeric(text.last()) {
            1nat
        } else {
            0nat
        })
    }
}

proof fn lemma_alphanumeric_thirds(text: Seq<char>)
    ensures
        alphanumeric_thirds(text) == crate::strategies::unicode_stress::diacritic_count(text),
    decreases text.len(),
{
    if text.len() > 0 {
        lemma_alphanumeric_thirds(text.drop_last());
    }
}

/// Stressing one more character keeps what came before and appends the
/// character, then the next combining diacritic in turn when it is the 3rd,
/// 6th, ... character and alphanumeric, then a zero-width joiner when it
/// is the 8th, 16th, ... character, then, when it is the `12 * (k + 1)`-th
/// character, the `k`-th emoji sequence in turn (family, rainbow flag, woman
/// technologist, family, ...).
pub proof fn law_stress_appends(text: Seq<char>, c: char)
    ensures
        ({
            let before = stressed(text);
            let out = stressed(text.push(c));
            let n = text.len() + 1;
            let d: int = if n % 3 == 0 && crate::strategies::unicode_stress::alphanumeric(c) {
                1
            } else {
                0
            };
            let z: int = if n % 8 == 0 {
                1
            } else {
                0
            };
            let e: Seq<char> = if n % 12 == 0 {
                emoji_in_turn(n / 12 - 1)
            } else {
                Seq::<char>::empty()
            };
            &&& out.len() == before.len() + 1 + d + z + e.len()
            &&& out.subrange(0, before.len() as int) == before
            &&& out[before.len() as int] == c
            &&& d == 1 ==> out[before.len() + 1int] == diacritic_in_turn(
                alphanumeric_thirds(text) as int,
            )
            &&& z == 1 ==> out[before.len() + 1 + d] == '\u{200D}'
            &&& out.subrange(out.len() - e.len(), out.len() as int) == e
        }),
{
    let t = text.push(c);
    assert(t.drop_last() == text);
    assert(t.last() == c);
    let before = stressed(text);
    let n = text.len() + 1;
    let tail = stress_after(text, c, n);
    let out = stressed(t);
    assert(out == before + seq![c] + tail);
    lemma_alphanumeric_thirds(text);
    assert(forall|k: int|
        0 <= k < 10 ==> #[trigger] COMBINING_DIACRITICS@[k] == diacritic_in_turn(k));
    assert(out.subrange(0, before.len() as int) == before);
}

// ---------------------------------------------------------------------------
// HTML tags: white space after the tag name
// ---------------------------------------------------------------------------

/// The Unicode White_Space characters (what `\s` matches in the tag pattern):
/// U+0009..U+000D, space, U+0085, U+00A0, U+1680, U+2000..U+200A, U+2028,
/// U+2029, U+202F, U+205F, U+3000.
pub open spec fn unicode_white_space(c: char) -> bool {
    let v = c as int;
    ||| 0x09 <= v <= 0x0D
    ||| v == 0x20 || v == 0x85 || v == 0xA0 || v == 0x1680
    ||| 0x2000 <= v <= 0x200A
    ||| v == 0x2028 || v == 0x2029 || v == 0x202F || v == 0x205F || v == 0x3000
}

proof fn lemma_name_end_at(s: Seq<char>, j: int, e: int)
    requires
        0 <= j <= e <= s.len(),
        forall|k: int| j <= k < e ==> crate::markup::is_ascii_alnum(#[trigger] s[k]),
        e < s.len() ==> !crate::markup::is_ascii_alnum(s[e]),
    ensures
        crate::markup::name_end(s, j) == e,
    decreases e - j,
{
    if j < e {
        lemma_name_end_at(s, j + 1, e);
    }
}

proof fn lemma_first_gt_at(s: Seq<char>, j: int, g: int)
    requires
        0 <= j <= g < s.len(),
        forall|k: int| j <= k < g ==> #[trigger] s[k] != '>',
        s[g] == '>',
    ensures
        crate::markup::first_gt(s, j) == g,
    decreases g - j,
{
    if j < g {
        lemma_first_gt_at(s, j + 1, g);
    }
}

/// `<` (or `</`), an ASCII letter, ASCII letters and digits, then a Unicode
/// White_Space character (line breaks and tabs included) and anything up to
/// the first `>`: that is a tag, running from the `<` to that `>`; at the start
/// of a text it is the first tag found.
pub proof fn law_tag_with_white_space(s: Seq<char>, i: int, a: int, e: int, g: int)
    requires
        0 <= i,
        s[i] == '<',
        a == i + 1 || (a == i + 2 && s[i + 1] == '/'),
        a < e < g < s.len(),
        ('a' <= s[a] <= 'z') || ('A' <= s[a] <= 'Z'),
        forall|k: int|
            a < k < e ==> ('a' <= #[trigger] s[k] <= 'z') || ('A' <= s[k] <= 'Z') || ('0' <= s[k]
                <= '9'),
        unicode_white_space(s[e]),
        s[g] == '>',
        forall|k: int| e < k < g ==> #[trigger] s[k] != '>',
    ensures
        crate::markup::tag_len_at(s, i) == Some((g + 1 - i) as nat),
        i == 0 ==> crate::markup::html_tags(s).len() >= 1 && crate::markup::html_tags(s)[0]
            == s.subrange(0, g + 1),
{
    lemma_name_end_at(s, a + 1, e);
    lemma_first_gt_at(s, e, g);
}

// ---------------------------------------------------------------------------
// Periodic insertion: which mark comes where
// ---------------------------------------------------------------------------

/// The marks are used in turn: right after the `(k + 1) * period`-th original
/// character comes `marks[k % marks.len()]`.
pub proof fn law_periodic_insert_marks_in_turn(
    text: Seq<char>,
    period: nat,
    marks: Seq<char>,
    k: nat,
)
    requires
        period > 0,
        marks.len() > 0,
        (k + 1) * period <= text.len(),
    ensures
        periodic_insert(text, period, marks)[((k + 1) * period + k) as int] == marks[(k as int)
            % (marks.len() as int)],
    decreases text.len(),
{
    let n = text.len() as int;
    let p = period as int;
    assert((k + 1) * period >= 1) by (nonlinear_arith)
        requires
            period > 0,
    ;
    let t = text.drop_last();
    law_periodic_insert_layout(t, period, marks);
    lemma_div_step(n - 1, p);
    let prev = periodic_insert(t, period, marks);
    let out = periodic_insert(text, period, marks);
    let idx = (k + 1) * period + k;
    if (k + 1) * period == n {
        assert(n % p == 0 && n / p == k + 1) by (nonlinear_arith)
            requires
                (k + 1) * p == n,
                p > 0,
        ;
        assert((n - 1) / p == k);
        assert(prev.len() == n - 1 + k);
        assert(idx == prev.len() + 1);
        assert(out == prev + seq![text.last()] + seq![marks[((n / p - 1) as int) % (
        marks.len() as int)]]);
    } else {
        law_periodic_insert_marks_in_turn(t, period, marks, k);
        assert((k + 1) * period <= n - 1);
        assert(((n - 1) / p) >= k + 1) by (nonlinear_arith)
            requires
                (k + 1) * p <= n - 1,
                p > 0,
        {
            vstd::arithmetic::div_mod::lemma_div_is_ordered((k + 1) * p, n - 1, p);
            vstd::arithmetic::div_mod::lemma_div_multiples_vanish((k + 1) as int, p);
        }
        assert(idx < prev.len());
        assert(out[idx as int] == prev[idx as int]);
    }
}

proof fn lemma_first_gt_none(s: Seq<char>, j: int)
    requires
        0 <= j <= s.len(),
        forall|k: int| j <= k < s.len() ==> #[trigger] s[k] != '>',
    ensures
        crate::markup::first_gt(s, j) == s.len(),
    decreases s.len() - j,
{
    if j < s.len() {
        lemma_first_gt_none(s, j + 1);
    }
}

/// `<` (or `</`) not followed by an ASCII letter starts no tag.
pub proof fn law_no_tag_without_letter(s: Seq<char>, i: int)
    requires
        0 <= i < s.len(),
    ensures
        ({
            let a = if i + 1 < s.len() && s[i + 1] == '/' {
                i + 2
            } else {
                i + 1
            };
            !(a < s.len() && (('a' <= s[a] <= 'z') || ('A' <= s[a] <= 'Z')))
                ==> crate::markup::tag_len_at(s, i) is None
        }),
{
}

/// After `<` (or `</`) and a name (an ASCII letter, then ASCII letters and
/// digits) the tag ends right there at a `>`; it goes on to the first `>` when
/// a Unicode White_Space character follows the name; anything else, or the
/// end of the text, or no `>` after the white space, makes no tag.
pub proof fn law_tag_after_name(s: Seq<char>, i: int, a: int, e: int)
    requires
        0 <= i,
        s[i] == '<',
        a == i + 1 || (a == i + 2 && s[i + 1] == '/'),
        a < e <= s.len(),
        ('a' <= s[a] <= 'z') || ('A' <= s[a] <= 'Z'),
        forall|k: int|
            a < k < e ==> ('a' <= #[trigger] s[k] <= 'z') || ('A' <= s[k] <= 'Z') || ('0' <= s[k]
                <= '9'),
        e < s.len() ==> !(('a' <= s[e] <= 'z') || ('A' <= s[e] <= 'Z') || ('0' <= s[e] <= '9')),
    ensures
        e == s.len() ==> crate::markup::tag_len_at(s, i) is None,
        e < s.len() && s[e] == '>' ==> crate::markup::tag_len_at(s, i) == Some(
            (e + 1 - i) as nat,
        ),
        e < s.len() && s[e] != '>' && !unicode_white_space(s[e]) ==> crate::markup::tag_len_at(
            s,
            i,
        ) is None,
        e < s.len() && unicode_white_space(s[e]) && (forall|k: int|
            e <= k < s.len() ==> #[trigger] s[k] != '>') ==> crate::markup::tag_len_at(s, i)
            is None,
{
    lemma_name_end_at(s, a + 1, e);
    if e < s.len() && unicode_white_space(s[e]) && (forall|k: int|
        e <= k < s.len() ==> #[trigger] s[k] != '>') {
        lemma_first_gt_none(s, e);
    }
}

// ---------------------------------------------------------------------------
// Replacing every occurrence
// ---------------------------------------------------------------------------

proof fn lemma_replace_all_prefix(s: Seq<char>, p: Seq<char>, t: char, k: int)
    requires
        p.len() > 0,
        0 <= k <= replace_all(s, p, seq![t]).len(),
        forall|j: int| 0 <= j < k ==> #[trigger] replace_all(s, p, seq![t])[j] != t,
    ensures
        k <= s.len(),
        replace_all(s, p, seq![t]).subrange(0, k) == s.subrange(0, k),
    decreases s.len(),
{
    let out = replace_all(s, p, seq![t]);
    if s.len() < p.len() {
    } else if s.take(p.len() as int) == p {
        if k > 0 {
            assert(out[0] == t);
        }
    } else if k > 0 {
        let rest = replace_all(s.skip(1), p, seq![t]);
        assert(out == seq![s[0]] + rest);
        assert forall|j: int| 0 <= j < k - 1 implies #[trigger] rest[j] != t by {
            assert(rest[j] == out[j + 1]);
        }
        lemma_replace_all_prefix(s.skip(1), p, t, k - 1);
        assert(out.subrange(0, k) == seq![s[0]] + rest.subrange(0, k - 1));
        assert(s.subrange(0, k) == seq![s[0]] + s.skip(1).subrange(0, k - 1));
    }
}

/// Replacing every occurrence of a pattern by a character that the pattern
/// does not hold leaves no occurrence of the pattern behind.
pub proof fn law_replace_all_leaves_none(s: Seq<char>, p: Seq<char>, t: char)
    requires
        p.len() > 0,
        forall|j: int| 0 <= j < p.len() ==> #[trigger] p[j] != t,
    ensures
        !contains_seq(replace_all(s, p, seq![t]), p),
    decreases s.len(),
{
    let out = replace_all(s, p, seq![t]);
    if s.len() < p.len() {
        assert forall|i: int| !occurs_at(out, p, i) by {}
    } else if s.take(p.len() as int) == p {
        let rest = replace_all(s.skip(p.len() as int), p, seq![t]);
        law_replace_all_leaves_none(s.skip(p.len() as int), p, t);
        assert(out == seq![t] + rest);
        assert forall|i: int| !occurs_at(out, p, i) by {
            if occurs_at(out, p, i) {
                if i == 0 {
                    assert(out.subrange(0, p.len() as int)[0] == p[0]);
                    assert(out[0] == t);
                } else {
                    assert(out.subrange(i, i + p.len()) == rest.subrange(i - 1, i - 1 + p.len()));
                    assert(occurs_at(rest, p, i - 1));
                }
            }
        }
    } else {
        let rest = replace_all(s.skip(1), p, seq![t]);
        law_replace_all_leaves_none(s.skip(1), p, t);
        assert(out == seq![s[0]] + rest);
        assert forall|i: int| !occurs_at(out, p, i) by {
            if occurs_at(out, p, i) {
                if i == 0 {
                    let m = p.len() - 1;
                    assert forall|j: int| 0 <= j < m implies #[trigger] rest[j] != t by {
                        assert(rest[j] == out[j + 1]);
                        assert(out[j + 1] == out.subrange(0, p.len() as int)[j + 1]);
                        assert(p[j + 1] != t);
                    }
                    lemma_replace_all_prefix(s.skip(1), p, t, m);
                    assert(s.take(p.len() as int) =~= seq![s[0]] + s.skip(1).subrange(0, m));
                    assert(out.subrange(0, p.len() as int) =~= seq![s[0]] + rest.subrange(0, m));
                } else {
                    assert(out.subrange(i, i + p.len()) == rest.subrange(i - 1, i - 1 + p.len()));
                    assert(occurs_at(rest, p, i - 1));
                }
            }
        }
    }
}

/// Replacing the first occurrence: when `p` first occurs in `s` at `i`, the
/// result is what comes before it, then `r`, then what comes after it; when
/// `p` does not occur, `s` is left as it is.
pub proof fn law_replace_first_at_first_occurrence(s: Seq<char>, p: Seq<char>, r: Seq<char>, i: int)
    requires
        p.len() > 0,
        occurs_at(s, p, i),
        forall|j: int| 0 <= j < i ==> !occurs_at(s, p, j),
    ensures
        replace_first(s, p, r) == s.subrange(0, i) + r + s.subrange(i + p.len(), s.len() as int),
    decreases s.len(),
{
    if s.take(p.len() as int) == p {
        if i > 0 {
            assert(s.subrange(0, p.len() as int) == s.take(p.len() as int));
            assert(occurs_at(s, p, 0));
        }
        assert(s.subrange(0, 0) + r + s.subrange(p.len() as int, s.len() as int) =~= r + s.skip(
            p.len() as int,
        ));
    } else {
        assert(i != 0) by {
            if i == 0 {
                assert(s.subrange(0, p.len() as int) == s.take(p.len() as int));
            }
        }
        let t = s.skip(1);
        assert(occurs_at(t, p, i - 1)) by {
            assert(t.subrange(i - 1, i - 1 + p.len()) =~= s.subrange(i, i + p.len()));
        }
        assert forall|j: int| 0 <= j < i - 1 implies !occurs_at(t, p, j) by {
            if occurs_at(t, p, j) {
                assert(t.subrange(j, j + p.len()) =~= s.subrange(j + 1, j + 1 + p.len()));
                assert(occurs_at(s, p, j + 1));
            }
        }
        law_replace_first_at_first_occurrence(t, p, r, i - 1);
        assert(seq![s[0]] + (t.subrange(0, i - 1) + r + t.subrange(i - 1 + p.len(), t.len() as int))
            =~= s.subrange(0, i) + r + s.subrange(i + p.len(), s.len() as int));
    }
}

/// Without an occurrence of `p`, replacing its first occurrence changes
/// nothing.
pub proof fn law_replace_first_absent(s: Seq<char>, p: Seq<char>, r: Seq<char>)
    requires
        p.len() > 0,
        !contains_seq(s, p),
    ensures
        replace_first(s, p, r) == s,
    decreases s.len(),
{
    if s.len() >= p.len() {
        if s.take(p.len() as int) == p {
            assert(s.subrange(0, p.len() as int) == s.take(p.len() as int));
            assert(occurs_at(s, p, 0));
        }
        let t = s.skip(1);
        assert(!contains_seq(t, p)) by {
            if contains_seq(t, p) {
                let j = choose|j: int| occurs_at(t, p, j);
                assert(t.subrange(j, j + p.len()) =~= s.subrange(j + 1, j + 1 + p.len()));
                assert(occurs_at(s, p, j + 1));
            }
        }
        law_replace_first_absent(t, p, r);
        assert(seq![s[0]] + t =~= s);
    }
}

/// Swapping a character for a text works character by character: a single
/// character becomes the text when it is that character and stays otherwise,
/// and two texts joined are swapped each on its own.
pub proof fn law_subst_char_piecewise(a: Seq<char>, b: Seq<char>, c: char, q: Seq<char>, x: char)
    ensures
        subst_char(seq![x], c, q) == (if x == c {
            q
        } else {
            seq![x]
        }),
        subst_char(a + b, c, q) == subst_char(a, c, q) + subst_char(b, c, q),
    decreases b.len(),
{
    assert(seq![x].drop_last() == Seq::<char>::empty());
    assert(subst_char(Seq::<char>::empty(), c, q) == Seq::<char>::empty());
    assert(Seq::<char>::empty() + q == q);
    assert(Seq::<char>::empty() + seq![x] == seq![x]);
    if b.len() == 0 {
        assert(a + b == a);
        assert(subst_char(b, c, q) == b);
        assert(subst_char(a, c, q) + b == subst_char(a, c, q));
    } else {
        law_subst_char_piecewise(a, b.drop_last(), c, q, x);
        assert((a + b).drop_last() == a + b.drop_last());
        assert((a + b).last() == b.last());
    }
}

// ---------------------------------------------------------------------------
// Plural values
// ---------------------------------------------------------------------------

/// A plural form present before is present after, pseudo-translated; an absent
/// one stays absent.
pub open spec fn form_pseudo_translated(
    old: Option<String>,
    new: Option<String>,
    phs: Seq<Seq<char>>,
    steps: Seq<PipelineStep>,
) -> bool {
    &&& (old is Some <==> new is Some)
    &&& old is Some ==> new.unwrap()@ == pseudo_text(old.unwrap()@, phs, steps)
}

/// Transforming a plural value pseudo-translates every form: zero, one, two,
/// few, many (when present), other, and each exact-count and range form in
/// order; whether the plural is ordinal is kept.
pub proof fn law_every_plural_form_transformed(
    old: crate::resource::PluralSet,
    new: crate::resource::PluralSet,
    phs: Seq<Seq<char>>,
    steps: Seq<PipelineStep>,
)
    requires
        crate::resource::plural_mapped(old, new, phs, steps),
    ensures
        form_pseudo_translated(old.zero, new.zero, phs, steps),
        form_pseudo_translated(old.one, new.one, phs, steps),
        form_pseudo_translated(old.two, new.two, phs, steps),
        form_pseudo_translated(old.few, new.few, phs, steps),
        form_pseudo_translated(old.many, new.many, phs, steps),
        new.other@ == pseudo_text(old.other@, phs, steps),
        new.exact_matches@.len() == old.exact_matches@.len(),
        forall|i: int|
            0 <= i < old.exact_matches@.len() ==> (#[trigger] new.exact_matches@[i])@
                == pseudo_text(old.exact_matches@[i]@, phs, steps),
        new.range_matches@.len() == old.range_matches@.len(),
        forall|i: int|
            0 <= i < old.range_matches@.len() ==> (#[trigger] new.range_matches@[i])@
                == pseudo_text(old.range_matches@[i]@, phs, steps),
        new.ordinal == old.ordinal,
{
}

/// Transforming a resource keeps its entries in order with their keys, flags
/// and placeholders; an entry marked not translatable keeps its value, every
/// other entry (marked translatable or not marked at all) has its value
/// transformed with its own placeholders protected.
pub proof fn law_resource_entries(
    old: crate::resource::I18nResource,
    new: crate::resource::I18nResource,
    steps: Seq<PipelineStep>,
)
    requires
        crate::resource::resource_mapped(old, new, steps),
    ensures
        new.entries@.len() == old.entries@.len(),
        forall|i: int|
            0 <= i < old.entries@.len() ==> (#[trigger] new.entries@[i]).key == old.entries@[i].key
                && new.entries@[i].translatable == old.entries@[i].translatable
                && new.entries@[i].placeholders == old.entries@[i].placeholders,
        forall|i: int|
            0 <= i < old.entries@.len() && old.entries@[i].translatable == Some(false) ==> (
            #[trigger] new.entries@[i]).value == old.entries@[i].value,
        forall|i: int|
            0 <= i < old.entries@.len() && (old.entries@[i].translatable is None
                || old.entries@[i].translatable == Some(true)) ==> crate::resource::value_mapped(
                old.entries@[i].value,
                (#[trigger] new.entries@[i]).value,
                crate::pseudo::syntaxes(old.entries@[i].placeholders@),
                steps,
            ),
{
    assert forall|i: int| 0 <= i < old.entries@.len() implies (#[trigger] new.entries@[i]).key
        == old.entries@[i].key && new.entries@[i].translatable == old.entries@[i].translatable
        && new.entries@[i].placeholders == old.entries@[i].placeholders by {}
}

// ---------------------------------------------------------------------------
// Numbers in messages
// ---------------------------------------------------------------------------

/// A decimal digit.
pub open spec fn is_digit(c: char) -> bool {
    0x30 <= c as int <= 0x39
}

/// The number a string of decimal digits stands for.
pub open spec fn digits_value(s: Seq<char>) -> int
    decreases s.len(),
{
    if s.len() == 0 {
        0
    } else {
        digits_value(s.drop_last()) * 10 + (s.last() as int - 0x30)
    }
}

proof fn lemma_digits_table()
    ensures
        forall|k: int|
            0 <= k < 10 ==> #[trigger] crate::session::DIGITS@[k] as int == 0x30 + k,
{
}

/// A number is written as its decimal digits: only digits, no leading zero
/// (but for zero itself), and they stand for the number.
pub proof fn law_decimal_digits(n: nat)
    ensures
        crate::session::decimal(n).len() >= 1,
        forall|k: int|
            0 <= k < crate::session::decimal(n).len() ==> is_digit(
                #[trigger] crate::session::decimal(n)[k],
            ),
        crate::session::decimal(n).len() > 1 ==> crate::session::decimal(n)[0] as int != 0x30,
        n > 0 ==> crate::session::decimal(n)[0] as int != 0x30,
        digits_value(crate::session::decimal(n)) == n,
    decreases n,
{
    lemma_digits_table();
    let d = crate::session::decimal(n);
    if n < 10 {
        assert(d == seq![crate::session::DIGITS@[n as int]]);
        assert(d.drop_last() =~= Seq::<char>::empty());
        assert(d.last() == crate::session::DIGITS@[n as int]);
        assert(crate::session::DIGITS@[n as int] as int == 0x30 + n);
        assert(digits_value(Seq::<char>::empty()) == 0);
        assert(digits_value(d) == digits_value(d.drop_last()) * 10 + (d.last() as int - 0x30));
    } else {
        law_decimal_digits(n / 10);
        let h = crate::session::decimal(n / 10);
        let last = crate::session::DIGITS@[(n % 10) as int];
        assert(d == h + seq![last]);
        assert(d.drop_last() == h);
        assert(d.last() == last);
        assert(last as int == 0x30 + n % 10);
        assert(d[0] == h[0]);
        assert(n / 10 > 0);
        assert forall|k: int| 0 <= k < d.len() implies is_digit(#[trigger] d[k]) by {
            if k < h.len() {
                assert(d[k] == h[k]);
            }
        }
        assert(n == (n / 10) * 10 + n % 10);
        assert(digits_value(d) == digits_value(h) * 10 + (last as int - 0x30));
    }
}

/// A ratio in thousandths is written as its whole part, then, when it has a
/// fractional part, a point and one to three digits without a trailing zero
/// that stand for that fractional part.
pub proof fn law_ratio_text_digits(permille: nat)
    ensures
        ({
            let whole = crate::session::decimal(permille / 1000);
            let t = crate::session::ratio_text(permille);
            let f = permille % 1000;
            &&& t.len() >= whole.len()
            &&& t.subrange(0, whole.len() as int) == whole
            &&& f == 0 ==> t.len() == whole.len()
            &&& f != 0 ==> {
                let frac = t.subrange(whole.len() + 1int, t.len() as int);
                &&& t.len() >= whole.len() + 2
                &&& t[whole.len() as int] == '.'
                &&& frac.len() <= 3
                &&& frac.last() as int != 0x30
                &&& forall|k: int| 0 <= k < frac.len() ==> is_digit(#[trigger] frac[k])
                &&& (if frac.len() == 1 {
                    digits_value(frac) * 100
                } else if frac.len() == 2 {
                    digits_value(frac) * 10
                } else {
                    digits_value(frac)
                }) == f
            }
        }),
{
    lemma_digits_table();
    let whole = crate::session::decimal(permille / 1000);
    let t = crate::session::ratio_text(permille);
    let f = permille % 1000;
    if f == 0 {
        assert(t.subrange(0, whole.len() as int) == whole);
    } else {
        let fd = crate::session::fraction_digits(f);
        assert(t == whole + seq!['.'] + fd);
        assert(t.subrange(0, whole.len() as int) == whole);
        let frac = t.subrange(whole.len() + 1int, t.len() as int);
        assert(frac == fd);
        let a = f / 100;
        let b = (f / 10) % 10;
        let c = f % 10;
        assert(f == a * 100 + b * 10 + c);
        assert(a < 10);
        let da = crate::session::DIGITS@[a as int];
        let db = crate::session::DIGITS@[b as int];
        let dc = crate::session::DIGITS@[c as int];
        assert(da as int == 0x30 + a && db as int == 0x30 + b && dc as int == 0x30 + c);
        assert(digits_value(Seq::<char>::empty()) == 0);
        assert(seq![da].drop_last() =~= Seq::<char>::empty());
        assert(digits_value(seq![da]) == a);
        if c != 0 {
            assert(fd == seq![da, db, dc]);
            assert(seq![da, db].drop_last() =~= seq![da]);
            assert(digits_value(seq![da, db]) == a * 10 + b);
            assert(seq![da, db, dc].drop_last() =~= seq![da, db]);
            assert(digits_value(fd) == (a * 10 + b) * 10 + c);
        } else if b != 0 {
            assert(fd == seq![da, db]);
            assert(seq![da, db].drop_last() =~= seq![da]);
            assert(digits_value(fd) == a * 10 + b);
        } else {
            assert(fd == seq![da]);
            assert(a != 0);
        }
    }
}

} // verus!
