//! Translation resources (what a format parser produces) and their
//! pseudo-translation: every translatable string value goes through
//! `transform_text`, everything else is kept.
use vstd::prelude::*;

use crate::pseudo::{
    pseudo_text, syntaxes, token_count, transform_text, within_token_limit, Placeholder, MAX_TOKENS,
};
use crate::strategies::StrategyPipeline;

verus! {

/// The plural forms of a value.
pub struct PluralSet {
    pub zero: Option<String>,
    pub one: Option<String>,
    pub two: Option<String>,
    pub few: Option<String>,
    pub many: Option<String>,
    pub other: String,
    /// The values of the forms for exact counts, in order.
    pub exact_matches: Vec<String>,
    /// The values of the forms for count ranges, in order.
    pub range_matches: Vec<String>,
    pub ordinal: bool,
}

/// A value chosen by a variable (`{gender, select, ...}`).
pub struct SelectSet {
    pub variable: String,
    /// The cases, each a selector and its value.
    pub cases: Vec<(String, String)>,
}

/// One variable of a plural pattern with several variables.
pub struct PluralVariable {
    pub name: String,
    pub plural_set: PluralSet,
}

/// A pattern whose plural forms depend on several variables.
pub struct MultiVariablePlural {
    pub pattern: String,
    pub variables: Vec<PluralVariable>,
}

/// The value of a translation entry.
pub enum EntryValue {
    Simple(String),
    Plural(PluralSet),
    Array(Vec<String>),
    Select(SelectSet),
    MultiVariablePlural(MultiVariablePlural),
}

/// One translation entry.
pub struct I18nEntry {
    pub key: String,
    pub value: EntryValue,
    /// `Some(false)` marks an entry that must not be translated.
    pub translatable: Option<bool>,
    pub placeholders: Vec<Placeholder>,
}

/// The entries of a translation file, in order.
pub struct I18nResource {
    pub entries: Vec<I18nEntry>,
}

// ---------------------------------------------------------------------------
// Which texts can be transformed (the token limit of `transform_text`)
// ---------------------------------------------------------------------------

pub open spec fn text_fits(s: String, phs: Seq<Seq<char>>) -> bool {
    token_count(s@, phs) <= MAX_TOKENS
}

pub open spec fn opt_fits(o: Option<String>, phs: Seq<Seq<char>>) -> bool {
    match o {
        Some(s) => text_fits(s, phs),
        None => true,
    }
}

pub open spec fn texts_fit(v: Seq<String>, phs: Seq<Seq<char>>) -> bool {
    forall|i: int| 0 <= i < v.len() ==> text_fits(#[trigger] v[i], phs)
}

pub open spec fn plural_fits(p: PluralSet, phs: Seq<Seq<char>>) -> bool {
    &&& opt_fits(p.zero, phs)
    &&& opt_fits(p.one, phs)
    &&& opt_fits(p.two, phs)
    &&& opt_fits(p.few, phs)
    &&& opt_fits(p.many, phs)
    &&& text_fits(p.other, phs)
    &&& texts_fit(p.exact_matches@, phs)
    &&& texts_fit(p.range_matches@, phs)
}

pub open spec fn value_fits(v: EntryValue, phs: Seq<Seq<char>>) -> bool {
    match v {
        EntryValue::Simple(s) => text_fits(s, phs),
        EntryValue::Plural(p) => plural_fits(p, phs),
        EntryValue::Array(items) => texts_fit(items@, phs),
        EntryValue::Select(sel) => forall|i: int|
            0 <= i < sel.cases@.len() ==> text_fits(#[trigger] sel.cases@[i].1, phs),
        EntryValue::MultiVariablePlural(m) => text_fits(m.pattern, phs) && forall|i: int|
            0 <= i < m.variables@.len() ==> plural_fits(#[trigger] m.variables@[i].plural_set, phs),
    }
}

/// Every translatable entry of the resource can be transformed.
pub open spec fn resource_fits(r: I18nResource) -> bool {
    forall|i: int|
        0 <= i < r.entries@.len() && #[trigger] r.entries@[i].translatable != Some(false)
            ==> value_fits(r.entries@[i].value, syntaxes(r.entries@[i].placeholders@))
}

fn opt_within(o: &Option<String>, placeholders: &[Placeholder]) -> (b: bool)
    ensures
        b == opt_fits(*o, syntaxes(placeholders@)),
{
    match o {
        Some(s) => within_token_limit(s.as_str(), placeholders),
        None => true,
    }
}

fn texts_within(items: &Vec<String>, placeholders: &[Placeholder]) -> (b: bool)
    ensures
        b == texts_fit(items@, syntaxes(placeholders@)),
{
    let mut i: usize = 0;
    while i < items.len()
        invariant
            i <= items@.len(),
            forall|j: int| 0 <= j < i ==> text_fits(#[trigger] items@[j], syntaxes(placeholders@)),
        decreases items@.len() - i,
    {
        if !within_token_limit(items[i].as_str(), placeholders) {
            return false;
        }
        i = i + 1;
    }
    true
}

fn plural_within(p: &PluralSet, placeholders: &[Placeholder]) -> (b: bool)
    ensures
        b == plural_fits(*p, syntaxes(placeholders@)),
{
    opt_within(&p.zero, placeholders) && opt_within(&p.one, placeholders) && opt_within(
        &p.two,
        placeholders,
    ) && opt_within(&p.few, placeholders) && opt_within(&p.many, placeholders)
        && within_token_limit(p.other.as_str(), placeholders) && texts_within(
        &p.exact_matches,
        placeholders,
    ) && texts_within(&p.range_matches, placeholders)
}

fn cases_within(cases: &Vec<(String, String)>, placeholders: &[Placeholder]) -> (b: bool)
    ensures
        b == forall|j: int|
            0 <= j < cases@.len() ==> text_fits(#[trigger] cases@[j].1, syntaxes(placeholders@)),
{
    let mut i: usize = 0;
    while i < cases.len()
        invariant
            i <= cases@.len(),
            forall|j: int|
                0 <= j < i ==> text_fits(#[trigger] cases@[j].1, syntaxes(placeholders@)),
        decreases cases@.len() - i,
    {
        if !within_token_limit(cases[i].1.as_str(), placeholders) {
            assert(!text_fits(cases@[i as int].1, syntaxes(placeholders@)));
            return false;
        }
        i = i + 1;
    }
    true
}

fn value_within(v: &EntryValue, placeholders: &[Placeholder]) -> (b: bool)
    ensures
        b == value_fits(*v, syntaxes(placeholders@)),
{
    match v {
        EntryValue::Simple(s) => within_token_limit(s.as_str(), placeholders),
        EntryValue::Plural(p) => plural_within(p, placeholders),
        EntryValue::Array(items) => texts_within(items, placeholders),
        EntryValue::Select(sel) => cases_within(&sel.cases, placeholders),
        EntryValue::MultiVariablePlural(m) => {
            if !within_token_limit(m.pattern.as_str(), placeholders) {
                return false;
            }
            let mut i: usize = 0;
            while i < m.variables.len()
                invariant
                    i <= m.variables@.len(),
                    *v == EntryValue::MultiVariablePlural(*m),
                    text_fits(m.pattern, syntaxes(placeholders@)),
                    forall|j: int|
                        0 <= j < i ==> plural_fits(
                            #[trigger] m.variables@[j].plural_set,
                            syntaxes(placeholders@),
                        ),
                decreases m.variables@.len() - i,
            {
                if !plural_within(&m.variables[i].plural_set, placeholders) {
                    assert(!plural_fits(m.variables@[i as int].plural_set, syntaxes(placeholders@)));
                    return false;
                }
                i = i + 1;
            }
            true
        },
    }
}

/// Whether `transform_resource` can handle the resource: no translatable text
/// needs more than `MAX_TOKENS` tokens.
pub fn resource_within_token_limit(r: &I18nResource) -> (b: bool)
    ensures
        b == resource_fits(*r),
{
    let mut i: usize = 0;
    while i < r.entries.len()
        invariant
            i <= r.entries@.len(),
            forall|j: int|
                0 <= j < i && #[trigger] r.entries@[j].translatable != Some(false) ==> value_fits(
                    r.entries@[j].value,
                    syntaxes(r.entries@[j].placeholders@),
                ),
        decreases r.entries@.len() - i,
    {
        let e = &r.entries[i];
        if e.translatable != Some(false) && !value_within(&e.value, e.placeholders.as_slice()) {
            return false;
        }
        i = i + 1;
    }
    true
}

// ---------------------------------------------------------------------------
// What the transformation does
// ---------------------------------------------------------------------------

pub open spec fn text_mapped(old: String, new: String, phs: Seq<Seq<char>>, steps: Seq<
    crate::strategies::PipelineStep,
>) -> bool {
    new@ == pseudo_text(old@, phs, steps)
}

pub open spec fn opt_mapped(
    old: Option<String>,
    new: Option<String>,
    phs: Seq<Seq<char>>,
    steps: Seq<crate::strategies::PipelineStep>,
) -> bool {
    match (old, new) {
        (Some(a), Some(b)) => text_mapped(a, b, phs, steps),
        (None, None) => true,
        _ => false,
    }
}

pub open spec fn texts_mapped(
    old: Seq<String>,
    new: Seq<String>,
    phs: Seq<Seq<char>>,
    steps: Seq<crate::strategies::PipelineStep>,
) -> bool {
    &&& new.len() == old.len()
    &&& forall|i: int| 0 <= i < old.len() ==> text_mapped(old[i], #[trigger] new[i], phs, steps)
}

/// Every form transformed, the ordinal flag kept.
pub open spec fn plural_mapped(
    old: PluralSet,
    new: PluralSet,
    phs: Seq<Seq<char>>,
    steps: Seq<crate::strategies::PipelineStep>,
) -> bool {
    &&& opt_mapped(old.zero, new.zero, phs, steps)
    &&& opt_mapped(old.one, new.one, phs, steps)
    &&& opt_mapped(old.two, new.two, phs, steps)
    &&& opt_mapped(old.few, new.few, phs, steps)
    &&& opt_mapped(old.many, new.many, phs, steps)
    &&& text_mapped(old.other, new.other, phs, steps)
    &&& texts_mapped(old.exact_matches@, new.exact_matches@, phs, steps)
    &&& texts_mapped(old.range_matches@, new.range_matches@, phs, steps)
    &&& new.ordinal == old.ordinal
}

/// Every string of the value transformed; variant, selectors, variable names
/// and flags kept.
pub open spec fn value_mapped(
    old: EntryValue,
    new: EntryValue,
    phs: Seq<Seq<char>>,
    steps: Seq<crate::strategies::PipelineStep>,
) -> bool {
    match (old, new) {
        (EntryValue::Simple(a), EntryValue::Simple(b)) => text_mapped(a, b, phs, steps),
        (EntryValue::Plural(a), EntryValue::Plural(b)) => plural_mapped(a, b, phs, steps),
        (EntryValue::Array(a), EntryValue::Array(b)) => texts_mapped(a@, b@, phs, steps),
        (EntryValue::Select(a), EntryValue::Select(b)) => {
            &&& b.variable == a.variable
            &&& b.cases@.len() == a.cases@.len()
            &&& forall|i: int|
                0 <= i < a.cases@.len() ==> {
                    &&& (#[trigger] b.cases@[i]).0 == a.cases@[i].0
                    &&& text_mapped(a.cases@[i].1, b.cases@[i].1, phs, steps)
                }
        },
        (EntryValue::MultiVariablePlural(a), EntryValue::MultiVariablePlural(b)) => {
            &&& text_mapped(a.pattern, b.pattern, phs, steps)
            &&& b.variables@.len() == a.variables@.len()
            &&& forall|i: int|
                0 <= i < a.variables@.len() ==> {
                    &&& (#[trigger] b.variables@[i]).name == a.variables@[i].name
                    &&& plural_mapped(
                        a.variables@[i].plural_set,
                        b.variables@[i].plural_set,
                        phs,
                        steps,
                    )
                }
        },
        _ => false,
    }
}

/// The resource after pseudo-translation: entries in the same order with the
/// same keys, flags and placeholders; the values of translatable entries
/// transformed with their own placeholders protected, the others unchanged.
pub open spec fn resource_mapped(
    old: I18nResource,
    new: I18nResource,
    steps: Seq<crate::strategies::PipelineStep>,
) -> bool {
    &&& new.entries@.len() == old.entries@.len()
    &&& forall|i: int|
        0 <= i < old.entries@.len() ==> {
            let a = old.entries@[i];
            let b = #[trigger] new.entries@[i];
            &&& b.key == a.key
            &&& b.translatable == a.translatable
            &&& b.placeholders == a.placeholders
            &&& if a.translatable == Some(false) {
                b.value == a.value
            } else {
                value_mapped(a.value, b.value, syntaxes(a.placeholders@), steps)
            }
        }
}

// ---------------------------------------------------------------------------
// The transformation
// ---------------------------------------------------------------------------

fn transformed_opt(o: &Option<String>, placeholders: &[Placeholder], pipeline: &StrategyPipeline) -> (r:
    Option<String>)
    requires
        opt_fits(*o, syntaxes(placeholders@)),
    ensures
        opt_mapped(*o, r, syntaxes(placeholders@), pipeline@),
{
    match o {
        Some(s) => Some(transform_text(s.as_str(), placeholders, pipeline)),
        None => None,
    }
}

fn transformed_texts(items: &Vec<String>, placeholders: &[Placeholder], pipeline: &StrategyPipeline) -> (r:
    Vec<String>)
    requires
        texts_fit(items@, syntaxes(placeholders@)),
    ensures
        texts_mapped(items@, r@, syntaxes(placeholders@), pipeline@),
{
    let mut out: Vec<String> = Vec::new();
    let mut i: usize = 0;
    while i < items.len()
        invariant
            i <= items@.len(),
            texts_fit(items@, syntaxes(placeholders@)),
            out@.len() == i,
            forall|j: int|
                0 <= j < i ==> text_mapped(
                    items@[j],
                    #[trigger] out@[j],
                    syntaxes(placeholders@),
                    pipeline@,
                ),
        decreases items@.len() - i,
    {
        assert(text_fits(items@[i as int], syntaxes(placeholders@)));
        out.push(transform_text(items[i].as_str(), placeholders, pipeline));
        i = i + 1;
    }
    out
}

fn transformed_plural_set(
    plural: &PluralSet,
    placeholders: &[Placeholder],
    pipeline: &StrategyPipeline,
) -> (r: PluralSet)
    requires
        plural_fits(*plural, syntaxes(placeholders@)),
    ensures
        plural_mapped(*plural, r, syntaxes(placeholders@), pipeline@),
{
    PluralSet {
        zero: transformed_opt(&plural.zero, placeholders, pipeline),
        one: transformed_opt(&plural.one, placeholders, pipeline),
        two: transformed_opt(&plural.two, placeholders, pipeline),
        few: transformed_opt(&plural.few, placeholders, pipeline),
        many: transformed_opt(&plural.many, placeholders, pipeline),
        other: transform_text(plural.other.as_str(), placeholders, pipeline),
        exact_matches: transformed_texts(&plural.exact_matches, placeholders, pipeline),
        range_matches: transformed_texts(&plural.range_matches, placeholders, pipeline),
        ordinal: plural.ordinal,
    }
}

/// Transform all forms in a PluralSet.
pub fn transform_plural_set(
    plural: &mut PluralSet,
    placeholders: &[Placeholder],
    pipeline: &StrategyPipeline,
)
    requires
        plural_fits(*old(plural), syntaxes(placeholders@)),
    ensures
        plural_mapped(*old(plural), *final(plural), syntaxes(placeholders@), pipeline@),
{
    let new_plural = transformed_plural_set(plural, placeholders, pipeline);
    *plural = new_plural;
}

fn transformed_entry_value(
    value: &EntryValue,
    placeholders: &[Placeholder],
    pipeline: &StrategyPipeline,
) -> (r: EntryValue)
    requires
        value_fits(*value, syntaxes(placeholders@)),
    ensures
        value_mapped(*value, r, syntaxes(placeholders@), pipeline@),
{
    match value {
        EntryValue::Simple(text) => EntryValue::Simple(
            transform_text(text.as_str(), placeholders, pipeline),
        ),
        EntryValue::Plural(plural) => EntryValue::Plural(
            transformed_plural_set(plural, placeholders, pipeline),
        ),
        EntryValue::Array(items) => EntryValue::Array(
            transformed_texts(items, placeholders, pipeline),
        ),
        EntryValue::Select(select) => {
            let mut cases: Vec<(String, String)> = Vec::new();
            let mut i: usize = 0;
            while i < select.cases.len()
                invariant
                    i <= select.cases@.len(),
                    forall|j: int|
                        0 <= j < select.cases@.len() ==> text_fits(
                            #[trigger] select.cases@[j].1,
                            syntaxes(placeholders@),
                        ),
                    cases@.len() == i,
                    forall|j: int|
                        0 <= j < i ==> {
                            &&& (#[trigger] cases@[j]).0 == select.cases@[j].0
                            &&& text_mapped(
                                select.cases@[j].1,
                                cases@[j].1,
                                syntaxes(placeholders@),
                                pipeline@,
                            )
                        },
                decreases select.cases@.len() - i,
            {
                assert(text_fits(select.cases@[i as int].1, syntaxes(placeholders@)));
                let (selector, case_value) = &select.cases[i];
                cases.push(
                    (selector.clone(), transform_text(case_value.as_str(), placeholders, pipeline)),
                );
                i = i + 1;
            }
            EntryValue::Select(SelectSet { variable: select.variable.clone(), cases })
        },
        EntryValue::MultiVariablePlural(mvp) => {
            let pattern = transform_text(mvp.pattern.as_str(), placeholders, pipeline);
            let mut variables: Vec<PluralVariable> = Vec::new();
            let mut i: usize = 0;
            while i < mvp.variables.len()
                invariant
                    i <= mvp.variables@.len(),
                    forall|j: int|
                        0 <= j < mvp.variables@.len() ==> plural_fits(
                            #[trigger] mvp.variables@[j].plural_set,
                            syntaxes(placeholders@),
                        ),
                    variables@.len() == i,
                    forall|j: int|
                        0 <= j < i ==> {
                            &&& (#[trigger] variables@[j]).name == mvp.variables@[j].name
                            &&& plural_mapped(
                                mvp.variables@[j].plural_set,
                                variables@[j].plural_set,
                                syntaxes(placeholders@),
                                pipeline@,
                            )
                        },
                decreases mvp.variables@.len() - i,
            {
                assert(plural_fits(mvp.variables@[i as int].plural_set, syntaxes(placeholders@)));
                let var = &mvp.variables[i];
                variables.push(
                    PluralVariable {
                        name: var.name.clone(),
                        plural_set: transformed_plural_set(&var.plural_set, placeholders, pipeline),
                    },
                );
                i = i + 1;
            }
            EntryValue::MultiVariablePlural(MultiVariablePlural { pattern, variables })
        },
    }
}

/// Transform an EntryValue, visiting all string values.
pub fn transform_entry_value(
    value: &mut EntryValue,
    placeholders: &[Placeholder],
    pipeline: &StrategyPipeline,
)
    requires
        value_fits(*old(value), syntaxes(placeholders@)),
    ensures
        value_mapped(*old(value), *final(value), syntaxes(placeholders@), pipeline@),
{
    let new_value = transformed_entry_value(value, placeholders, pipeline);
    *value = new_value;
}

/// Transform all entries in a resource using the strategy pipeline; entries
/// marked not translatable are skipped.
pub fn transform_resource(resource: &mut I18nResource, pipeline: &StrategyPipeline)
    requires
        resource_fits(*old(resource)),
    ensures
        resource_mapped(*old(resource), *final(resource), pipeline@),
{
    let ghost start = *resource;
    let mut i: usize = 0;
    while i < resource.entries.len()
        invariant
            i <= resource.entries@.len(),
            resource_fits(start),
            resource.entries@.len() == start.entries@.len(),
            forall|j: int|
                i <= j < start.entries@.len() ==> #[trigger] resource.entries@[j]
                    == start.entries@[j],
            forall|j: int|
                0 <= j < i ==> {
                    let a = start.entries@[j];
                    let b = #[trigger] resource.entries@[j];
                    &&& b.key == a.key
                    &&& b.translatable == a.translatable
                    &&& b.placeholders == a.placeholders
                    &&& if a.translatable == Some(false) {
                        b.value == a.value
                    } else {
                        value_mapped(a.value, b.value, syntaxes(a.placeholders@), pipeline@)
                    }
                },
        decreases resource.entries@.len() - i,
    {
        if resource.entries[i].translatable != Some(false) {
            let entry = &resource.entries[i];
            let new_value = transformed_entry_value(
                &entry.value,
                entry.placeholders.as_slice(),
                pipeline,
            );
            resource.entries[i].value = new_value;
        }
        i = i + 1;
    }
}

} // verus!
