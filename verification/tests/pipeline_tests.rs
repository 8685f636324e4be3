use i18n_pseudo::cli::StrategyConfig;
use i18n_pseudo::pseudo::{transform_text, Placeholder};
use i18n_pseudo::resource::{
    transform_entry_value, transform_resource, EntryValue, I18nEntry, I18nResource,
    MultiVariablePlural, PluralSet, PluralVariable, SelectSet,
};
use i18n_pseudo::strategies::accents::AccentStrategy;
use i18n_pseudo::strategies::brackets::BracketStrategy;
use i18n_pseudo::strategies::{self, PipelineStep, StrategyPipeline};

fn make_config(accents: bool, brackets: bool) -> StrategyConfig {
    StrategyConfig {
        accents,
        cjk: false,
        special_chars: false,
        expansion: None,
        brackets,
        rtl: false,
        unicode_stress: false,
    }
}

fn make_full_config() -> StrategyConfig {
    StrategyConfig {
        accents: true,
        cjk: true,
        special_chars: true,
        expansion: Some(1300),
        brackets: true,
        rtl: true,
        unicode_stress: true,
    }
}

fn entry(key: &str, value: EntryValue, translatable: Option<bool>) -> I18nEntry {
    I18nEntry {
        key: key.to_string(),
        value,
        translatable,
        placeholders: Vec::new(),
    }
}

#[test]
fn placeholder_preservation_through_pipeline() {
    let pipeline = strategies::build_pipeline(&make_full_config());

    let placeholders = vec![
        Placeholder {
            original_syntax: "{name}".to_string(),
        },
        Placeholder {
            original_syntax: "{count}".to_string(),
        },
    ];

    let text = "Hello {name}, you have {count} items";
    let result = transform_text(text, &placeholders, &pipeline);

    assert!(
        result.contains("{name}"),
        "Placeholder {{name}} should be preserved: {result}"
    );
    assert!(
        result.contains("{count}"),
        "Placeholder {{count}} should be preserved: {result}"
    );
}

#[test]
fn translatable_false_entries_skipped() {
    let pipeline = strategies::build_pipeline(&make_config(true, true));

    let mut resource = I18nResource { entries: Vec::new() };

    // Entry that should NOT be transformed
    resource.entries.push(entry(
        "app_name",
        EntryValue::Simple("MyApp".to_string()),
        Some(false),
    ));

    // Entry that SHOULD be transformed
    resource.entries.push(entry(
        "greeting",
        EntryValue::Simple("Hello".to_string()),
        None,
    ));

    transform_resource(&mut resource, &pipeline);

    // app_name should be unchanged
    if let EntryValue::Simple(ref val) = resource.entries[0].value {
        assert_eq!(val, "MyApp", "translatable=false should be unchanged");
    }

    // greeting should be transformed
    if let EntryValue::Simple(ref val) = resource.entries[1].value {
        assert_ne!(val, "Hello", "translatable=None should be transformed");
        assert!(val.contains('['), "Should have brackets: {val}");
    }
}

#[test]
fn preset_default_uses_accents_and_brackets() {
    let config = make_config(true, true);
    let pipeline = strategies::build_pipeline(&config);

    assert_eq!(pipeline.len(), 2, "default preset = accents + brackets");

    let result = pipeline.apply("Hello");
    assert!(
        result.starts_with('['),
        "Should start with bracket: {result}"
    );
    assert!(result.ends_with(']'), "Should end with bracket: {result}");
    // Inside brackets, chars should be accented
    assert!(
        result.contains('\u{00E9}'),
        "Should contain accented 'e': {result}"
    );
}

#[test]
fn plural_values_all_transformed() {
    let pipeline = strategies::build_pipeline(&make_config(true, true));

    let mut value = EntryValue::Plural(PluralSet {
        zero: Some("no items".to_string()),
        one: Some("one item".to_string()),
        two: None,
        few: None,
        many: None,
        other: "many items".to_string(),
        exact_matches: Vec::new(),
        range_matches: Vec::new(),
        ordinal: false,
    });

    transform_entry_value(&mut value, &[], &pipeline);

    if let EntryValue::Plural(ref plural) = value {
        assert!(
            plural.zero.as_ref().unwrap().contains('['),
            "zero form should be transformed"
        );
        assert!(
            plural.one.as_ref().unwrap().contains('['),
            "one form should be transformed"
        );
        assert!(
            plural.other.contains('['),
            "other form should be transformed"
        );
        assert!(plural.two.is_none());
    } else {
        panic!("Expected Plural variant");
    }
}

#[test]
fn array_values_all_transformed() {
    let pipeline = strategies::build_pipeline(&make_config(true, true));

    let mut value = EntryValue::Array(vec![
        "first".to_string(),
        "second".to_string(),
        "third".to_string(),
    ]);

    transform_entry_value(&mut value, &[], &pipeline);

    if let EntryValue::Array(ref items) = value {
        for (i, item) in items.iter().enumerate() {
            assert!(item.contains('['), "item {i} should be transformed: {item}");
        }
    }
}

#[test]
fn select_values_transformed() {
    let pipeline = strategies::build_pipeline(&make_config(true, true));

    let cases = vec![
        ("male".to_string(), "He said hello".to_string()),
        ("female".to_string(), "She said hello".to_string()),
    ];

    let mut value = EntryValue::Select(SelectSet {
        variable: "gender".to_string(),
        cases,
    });

    transform_entry_value(&mut value, &[], &pipeline);

    if let EntryValue::Select(ref select) = value {
        assert_eq!(
            select.variable, "gender",
            "variable name should be unchanged"
        );
        for (key, val) in &select.cases {
            assert!(
                val.contains('['),
                "case '{key}' value should be transformed: {val}"
            );
        }
        assert_eq!(select.cases[0].0, "male");
        assert_eq!(select.cases[1].0, "female");
    }
}

#[test]
fn html_tags_preserved_in_pipeline() {
    let pipeline = strategies::build_pipeline(&make_config(true, true));
    let result = transform_text("Click <b>here</b> please", &[], &pipeline);
    assert!(
        result.contains("<b>") && result.contains("</b>"),
        "HTML tags should be preserved: {result}"
    );
}

#[test]
fn empty_pipeline_no_change() {
    let config = StrategyConfig {
        accents: false,
        cjk: false,
        special_chars: false,
        expansion: None,
        brackets: false,
        rtl: false,
        unicode_stress: false,
    };
    let pipeline = strategies::build_pipeline(&config);
    assert!(pipeline.is_empty());
    assert_eq!(pipeline.apply("Hello"), "Hello");
}

#[test]
fn pipeline_order_is_fixed() {
    let pipeline = strategies::build_pipeline(&make_full_config());
    assert_eq!(pipeline.len(), 7);
    // accents first, then CJK after the fifth char, ..., RTL markers, brackets outermost
    let result = pipeline.apply("ab");
    assert_eq!(result, "[\u{202B}ááƀ\u{202C}]");
}

#[test]
fn pipeline_composition_law() {
    let both = StrategyPipeline::new(vec![
        PipelineStep::Accents(AccentStrategy),
        PipelineStep::Brackets(BracketStrategy),
    ]);
    let first = StrategyPipeline::new(vec![PipelineStep::Accents(AccentStrategy)]);
    let second = StrategyPipeline::new(vec![PipelineStep::Brackets(BracketStrategy)]);
    let text = "Save changes";
    assert_eq!(both.apply(text), second.apply(&first.apply(text)));
    assert_eq!(both.apply(text), "[Šáṽé çĥáñǵéš]");
}

#[test]
fn multi_variable_plural_transformed() {
    let pipeline = strategies::build_pipeline(&make_config(false, true));
    let mut value = EntryValue::MultiVariablePlural(MultiVariablePlural {
        pattern: "%1$s and %2$s".to_string(),
        variables: vec![PluralVariable {
            name: "files".to_string(),
            plural_set: PluralSet {
                zero: None,
                one: Some("one file".to_string()),
                two: None,
                few: None,
                many: None,
                other: "many files".to_string(),
                exact_matches: vec!["exactly two".to_string()],
                range_matches: vec!["a few".to_string()],
                ordinal: true,
            },
        }],
    });
    transform_entry_value(&mut value, &[], &pipeline);
    if let EntryValue::MultiVariablePlural(ref m) = value {
        assert_eq!(m.pattern, "[%1$s and %2$s]");
        let p = &m.variables[0].plural_set;
        assert_eq!(m.variables[0].name, "files");
        assert_eq!(p.one.as_deref(), Some("[one file]"));
        assert_eq!(p.other, "[many files]");
        assert_eq!(p.exact_matches, vec!["[exactly two]".to_string()]);
        assert_eq!(p.range_matches, vec!["[a few]".to_string()]);
        assert!(p.ordinal);
    } else {
        panic!("Expected MultiVariablePlural variant");
    }
}

#[test]
fn resource_keys_and_flags_kept() {
    let pipeline = strategies::build_pipeline(&make_config(true, false));
    let mut resource = I18nResource {
        entries: vec![
            entry("a", EntryValue::Simple("abc".to_string()), Some(true)),
            entry("b", EntryValue::Array(vec!["x".to_string()]), Some(false)),
            entry("c", EntryValue::Simple(String::new()), None),
        ],
    };
    resource.entries[0].placeholders.push(Placeholder::new("b"));
    transform_resource(&mut resource, &pipeline);
    assert_eq!(resource.entries.len(), 3);
    assert_eq!(resource.entries[0].key, "a");
    assert_eq!(resource.entries[0].translatable, Some(true));
    // the placeholder "b" of entry "a" is protected from accents
    if let EntryValue::Simple(ref v) = resource.entries[0].value {
        assert_eq!(v, "ábç");
    }
    if let EntryValue::Array(ref v) = resource.entries[1].value {
        assert_eq!(v, &vec!["x".to_string()]);
    }
    if let EntryValue::Simple(ref v) = resource.entries[2].value {
        assert_eq!(v, "");
    }
}
