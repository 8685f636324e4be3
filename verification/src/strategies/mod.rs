//! Pseudo-translation strategies and the pipeline that chains them.
use vstd::prelude::*;

pub mod accents;
pub mod brackets;
pub mod cjk;
pub mod expansion;
pub mod rtl;
pub mod special_chars;
pub mod unicode_stress;

use crate::cli::StrategyConfig;
use crate::text::{chars_of, push_all, string_of};
use accents::AccentStrategy;
use brackets::BracketStrategy;
use cjk::CjkStrategy;
use expansion::ExpansionStrategy;
use rtl::RtlStrategy;
use special_chars::SpecialCharsStrategy;
use unicode_stress::UnicodeStressStrategy;

verus! {

/// A single pseudo-translation transformation.
pub trait Strategy {
    /// What the transformation makes of a text.
    spec fn transformed(&self, text: Seq<char>) -> Seq<char>;

    fn transform(&self, text: &str) -> (r: String)
        ensures
            r@ == self.transformed(text@),
    ;
}

/// `text` with `marks[k % marks.len()]` inserted right after its
/// `(k + 1) * period`-th character, for every `k`.
pub open spec fn periodic_insert(text: Seq<char>, period: nat, marks: Seq<char>) -> Seq<char>
    decreases text.len(),
{
    if text.len() == 0 {
        text
    } else {
        let n: nat = text.len();
        periodic_insert(text.drop_last(), period, marks) + seq![text.last()] + (if n % period
            == 0 {
            seq![marks[((n / period - 1) as int) % (marks.len() as int)]]
        } else {
            Seq::<char>::empty()
        })
    }
}

/// Counting one more item moves the quotient by one exactly at multiples.
pub proof fn lemma_div_step(c: int, p: int)
    requires
        c >= 0,
        p > 0,
    ensures
        (c + 1) % p == 0 ==> (c + 1) / p == c / p + 1,
        (c + 1) % p != 0 ==> (c + 1) / p == c / p,
{
    vstd::arithmetic::div_mod::lemma_fundamental_div_mod(c, p);
    vstd::arithmetic::div_mod::lemma_fundamental_div_mod(c + 1, p);
    vstd::arithmetic::div_mod::lemma_mod_bound(c, p);
    vstd::arithmetic::div_mod::lemma_mod_bound(c + 1, p);
    if (c + 1) % p == 0 {
        assert((c + 1) / p == c / p + 1) by (nonlinear_arith)
            requires
                c == p * (c / p) + c % p,
                c + 1 == p * ((c + 1) / p) + (c + 1) % p,
                0 <= c % p < p,
                (c + 1) % p == 0,
                p > 0,
        ;
    } else {
        assert((c + 1) / p == c / p) by (nonlinear_arith)
            requires
                c == p * (c / p) + c % p,
                c + 1 == p * ((c + 1) / p) + (c + 1) % p,
                0 <= c % p < p,
                0 < (c + 1) % p < p,
                p > 0,
        ;
    }
}

/// Copies `text`, inserting the next mark (cycling through `marks`) after every
/// `period` characters.
pub fn insert_periodically(text: &Vec<char>, period: usize, marks: &[char]) -> (r: Vec<char>)
    requires
        period > 0,
        marks@.len() > 0,
    ensures
        r@ == periodic_insert(text@, period as nat, marks@),
{
    let mut out: Vec<char> = Vec::new();
    let mut char_count: usize = 0;
    let mut mark_idx: usize = 0;
    while char_count < text.len()
        invariant
            period > 0,
            marks@.len() > 0,
            char_count <= text@.len(),
            mark_idx == char_count / period,
            out@ == periodic_insert(text@.take(char_count as int), period as nat, marks@),
        decreases text@.len() - char_count,
    {
        let ch = text[char_count];
        let ghost prev = text@.take(char_count as int);
        assert(text@.take(char_count + 1).drop_last() == prev);
        out.push(ch);
        char_count = char_count + 1;
        if char_count % period == 0 {
            out.push(marks[mark_idx % marks.len()]);
            mark_idx = mark_idx + 1;
        }
        proof {
            lemma_div_step(char_count as int - 1, period as int);
        }
    }
    assert(text@.take(char_count as int) == text@);
    out
}

} // verus!

verus! {

/// One step of a pipeline: one of the strategies of this crate.
pub enum PipelineStep {
    Accents(AccentStrategy),
    Cjk(CjkStrategy),
    SpecialChars(SpecialCharsStrategy),
    UnicodeStress(UnicodeStressStrategy),
    Expansion(ExpansionStrategy),
    Rtl(RtlStrategy),
    Brackets(BracketStrategy),
}

/// What one step makes of a text.
pub open spec fn step_output(step: PipelineStep, text: Seq<char>) -> Seq<char> {
    match step {
        PipelineStep::Accents(s) => s.transformed(text),
        PipelineStep::Cjk(s) => s.transformed(text),
        PipelineStep::SpecialChars(s) => s.transformed(text),
        PipelineStep::UnicodeStress(s) => s.transformed(text),
        PipelineStep::Expansion(s) => s.transformed(text),
        PipelineStep::Rtl(s) => s.transformed(text),
        PipelineStep::Brackets(s) => s.transformed(text),
    }
}

/// The steps applied one after the other, first step first.
pub open spec fn run_steps(steps: Seq<PipelineStep>, text: Seq<char>) -> Seq<char>
    decreases steps.len(),
{
    if steps.len() == 0 {
        text
    } else {
        step_output(steps.last(), run_steps(steps.drop_last(), text))
    }
}

impl PipelineStep {
    pub fn apply_chars(&self, text: &Vec<char>) -> (r: Vec<char>)
        ensures
            r@ == step_output(*self, text@),
    {
        match self {
            PipelineStep::Accents(s) => s.transform_chars(text),
            PipelineStep::Cjk(s) => s.transform_chars(text),
            PipelineStep::SpecialChars(s) => s.transform_chars(text),
            PipelineStep::UnicodeStress(s) => s.transform_chars(text),
            PipelineStep::Expansion(s) => s.transform_chars(text),
            PipelineStep::Rtl(s) => s.transform_chars(text),
            PipelineStep::Brackets(s) => s.transform_chars(text),
        }
    }
}

impl Strategy for PipelineStep {
    open spec fn transformed(&self, text: Seq<char>) -> Seq<char> {
        step_output(*self, text)
    }

    fn transform(&self, text: &str) -> (r: String) {
        string_of(&self.apply_chars(&chars_of(text)))
    }
}

/// Chains multiple strategies in order.
pub struct StrategyPipeline {
    strategies: Vec<PipelineStep>,
}

impl View for StrategyPipeline {
    type V = Seq<PipelineStep>;

    closed spec fn view(&self) -> Seq<PipelineStep> {
        self.strategies@
    }
}

impl StrategyPipeline {
    pub fn new(strategies: Vec<PipelineStep>) -> (p: Self)
        ensures
            p@ == strategies@,
    {
        Self { strategies }
    }

    /// Apply all strategies in sequence.
    pub fn apply(&self, text: &str) -> (r: String)
        ensures
            r@ == run_steps(self@, text@),
    {
        string_of(&self.apply_chars(&chars_of(text)))
    }

    /// Apply all strategies in sequence to a character sequence.
    pub fn apply_chars(&self, text: &Vec<char>) -> (r: Vec<char>)
        ensures
            r@ == run_steps(self@, text@),
    {
        let mut result: Vec<char> = Vec::new();
        push_all(&mut result, text);
        let mut i: usize = 0;
        while i < self.strategies.len()
            invariant
                i <= self@.len(),
                self@ == self.strategies@,
                result@ == run_steps(self@.take(i as int), text@),
            decreases self@.len() - i,
        {
            assert(self@.take(i + 1).drop_last() == self@.take(i as int));
            result = self.strategies[i].apply_chars(&result);
            i = i + 1;
        }
        assert(self@.take(i as int) == self@);
        result
    }

    /// Returns the number of strategies in the pipeline.
    pub fn len(&self) -> (n: usize)
        ensures
            n == self@.len(),
    {
        self.strategies.len()
    }

    /// Returns true if the pipeline has no strategies.
    pub fn is_empty(&self) -> (b: bool)
        ensures
            b == (self@.len() == 0),
    {
        self.strategies.len() == 0
    }
}

/// The steps a configuration selects, in the fixed order: accents, CJK,
/// special chars, unicode stress, expansion, RTL, brackets.
pub open spec fn config_steps(config: StrategyConfig) -> Seq<PipelineStep> {
    (if config.accents {
        seq![PipelineStep::Accents(AccentStrategy)]
    } else {
        Seq::empty()
    }) + (if config.cjk {
        seq![PipelineStep::Cjk(CjkStrategy)]
    } else {
        Seq::empty()
    }) + (if config.special_chars {
        seq![PipelineStep::SpecialChars(SpecialCharsStrategy)]
    } else {
        Seq::empty()
    }) + (if config.unicode_stress {
        seq![PipelineStep::UnicodeStress(UnicodeStressStrategy)]
    } else {
        Seq::empty()
    }) + (match config.expansion {
        Some(ratio) => seq![PipelineStep::Expansion(ExpansionStrategy::with_ratio(ratio))],
        None => Seq::empty(),
    }) + (if config.rtl {
        seq![PipelineStep::Rtl(RtlStrategy)]
    } else {
        Seq::empty()
    }) + (if config.brackets {
        seq![PipelineStep::Brackets(BracketStrategy)]
    } else {
        Seq::empty()
    })
}

/// Build a strategy pipeline from resolved config.
///
/// Order:
/// 1. Accents
/// 2. CJK
/// 3. Special chars
/// 4. Unicode stress
/// 5. Expansion
/// 6. RTL
/// 7. Brackets
#[verifier::rlimit(40)]
pub fn build_pipeline(config: &StrategyConfig) -> (p: StrategyPipeline)
    ensures
        p@ == config_steps(*config),
{
    let mut strategies: Vec<PipelineStep> = Vec::new();
    if config.accents {
        strategies.push(PipelineStep::Accents(AccentStrategy));
    }
    let ghost s1 = strategies@;
    if config.cjk {
        strategies.push(PipelineStep::Cjk(CjkStrategy));
    }
    let ghost s2 = strategies@;
    if config.special_chars {
        strategies.push(PipelineStep::SpecialChars(SpecialCharsStrategy));
    }
    let ghost s3 = strategies@;
    if config.unicode_stress {
        strategies.push(PipelineStep::UnicodeStress(UnicodeStressStrategy));
    }
    let ghost s4 = strategies@;
    if let Some(ratio) = config.expansion {
        strategies.push(PipelineStep::Expansion(ExpansionStrategy::new(ratio)));
    }
    let ghost s5 = strategies@;
    if config.rtl {
        strategies.push(PipelineStep::Rtl(RtlStrategy));
    }
    let ghost s6 = strategies@;
    if config.brackets {
        strategies.push(PipelineStep::Brackets(BracketStrategy));
    }
    assert(strategies@ =~= config_steps(*config));
    StrategyPipeline::new(strategies)
}

} // verus!
