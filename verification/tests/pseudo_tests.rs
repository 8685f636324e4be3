use i18n_pseudo::cli::StrategyConfig;
use i18n_pseudo::pseudo::{make_token, transform_text, within_token_limit, Placeholder};
use i18n_pseudo::resource::{
    resource_within_token_limit, transform_resource, EntryValue, I18nEntry, I18nResource,
};
use i18n_pseudo::strategies::{self, StrategyPipeline};

fn default_pipeline() -> StrategyPipeline {
    let config = StrategyConfig {
        accents: true,
        cjk: false,
        special_chars: false,
        expansion: None,
        brackets: true,
        rtl: false,
        unicode_stress: false,
    };
    strategies::build_pipeline(&config)
}

fn full_pipeline() -> StrategyPipeline {
    strategies::build_pipeline(&StrategyConfig {
        accents: true,
        cjk: true,
        special_chars: true,
        expansion: Some(1300),
        brackets: true,
        rtl: true,
        unicode_stress: true,
    })
}

fn empty_pipeline() -> StrategyPipeline {
    strategies::build_pipeline(&StrategyConfig {
        accents: false,
        cjk: false,
        special_chars: false,
        expansion: None,
        brackets: false,
        rtl: false,
        unicode_stress: false,
    })
}

#[test]
fn test_transform_text_empty() {
    let pipeline = default_pipeline();
    let result = transform_text("", &[], &pipeline);
    assert_eq!(result, "");
}

#[test]
fn test_transform_text_preserves_placeholders() {
    let pipeline = default_pipeline();
    let placeholders = vec![Placeholder {
        original_syntax: "{name}".to_string(),
    }];
    let result = transform_text("Hello {name}!", &placeholders, &pipeline);
    assert!(
        result.contains("{name}"),
        "Placeholder should be preserved, got: {result}"
    );
}

#[test]
fn test_transform_text_preserves_html() {
    let pipeline = default_pipeline();
    let result = transform_text("Click <b>here</b> now", &[], &pipeline);
    assert!(
        result.contains("<b>") && result.contains("</b>"),
        "HTML tags should be preserved, got: {result}"
    );
}

#[test]
fn test_translatable_false_skipped() {
    let pipeline = default_pipeline();
    let mut resource = I18nResource { entries: Vec::new() };
    resource.entries.push(I18nEntry {
        key: "key1".to_string(),
        value: EntryValue::Simple("Do not touch".to_string()),
        translatable: Some(false),
        placeholders: Vec::new(),
    });
    resource.entries.push(I18nEntry {
        key: "key2".to_string(),
        value: EntryValue::Simple("Hello".to_string()),
        translatable: None,
        placeholders: Vec::new(),
    });

    transform_resource(&mut resource, &pipeline);

    match resource.entries[0].value {
        EntryValue::Simple(ref v) => assert_eq!(
            v, "Do not touch",
            "translatable=false entry should be unchanged"
        ),
        _ => panic!("variant changed"),
    }
    // key2 should be transformed
    if let EntryValue::Simple(ref val) = resource.entries[1].value {
        assert_ne!(val, "Hello", "translatable=None entry should be transformed");
    }
}

#[test]
fn transform_text_exact_default() {
    let pipeline = default_pipeline();
    let placeholders = vec![Placeholder::new("{name}")];
    assert_eq!(
        transform_text("Hello {name}!", &placeholders, &pipeline),
        "[Ĥéľľó {name}!]"
    );
    assert_eq!(
        transform_text("Click <b>here</b> now", &[], &pipeline),
        "[Çľíçƙ <b>ĥéŕé</b> ñóẃ]"
    );
}

#[test]
fn round_trip_with_empty_pipeline() {
    // with no strategy the text comes back exactly
    let pipeline = empty_pipeline();
    let placeholders = vec![
        Placeholder::new("{name}"),
        Placeholder::new("%s"),
        Placeholder::new("{{count}}"),
        Placeholder::new(""),
    ];
    for text in [
        "Hello {name}, %s has {{count}} <a href=\"x\">links</a> <br/> </p>",
        "<b title={name}>bold</b>",
        "no markup at all",
        "a < b > c",
    ] {
        assert_eq!(transform_text(text, &placeholders, &pipeline), text);
    }
}

#[test]
fn placeholders_survive_full_pipeline() {
    let pipeline = full_pipeline();
    let placeholders = vec![
        Placeholder::new("{name}"),
        Placeholder::new("%1$s"),
        Placeholder::new("{{count}}"),
    ];
    let text = "Dear {name}, your order %1$s contains {{count}} items, {name}!";
    let out = transform_text(text, &placeholders, &pipeline);
    assert!(out.contains("{name}"), "{out}");
    assert!(out.contains("%1$s"), "{out}");
    assert!(out.contains("{{count}}"), "{out}");
    assert_eq!(out.matches("{name}").count(), 2, "{out}");
}

#[test]
fn tags_with_placeholders_inside_survive() {
    let pipeline = full_pipeline();
    let placeholders = vec![Placeholder::new("{url}")];
    let text = "See <a href=\"{url}\">the documentation</a> for details";
    let out = transform_text(text, &placeholders, &pipeline);
    assert!(out.contains("<a href=\"{url}\">"), "{out}");
    assert!(out.contains("</a>"), "{out}");
}

#[test]
fn placeholder_absent_is_not_a_token() {
    let pipeline = default_pipeline();
    let placeholders = vec![Placeholder::new("{missing}")];
    assert_eq!(transform_text("abc", &placeholders, &pipeline), "[áƀç]");
}

#[test]
fn tokens_are_private_use_chars() {
    assert_eq!(make_token(0), "\u{E000}");
    assert_eq!(make_token(1), "\u{E001}");
    assert_eq!(make_token(6399), "\u{F8FF}");
}

#[test]
fn token_limit_checks() {
    let placeholders = vec![Placeholder::new("{a}")];
    assert!(within_token_limit("", &placeholders));
    assert!(within_token_limit("{a} <b>x</b> {a}", &placeholders));
    let many_tags = "<i>".repeat(7000);
    assert!(!within_token_limit(&many_tags, &[]));
    let resource = I18nResource {
        entries: vec![I18nEntry {
            key: "k".to_string(),
            value: EntryValue::Array(vec!["<p>one</p>".to_string(), "two".to_string()]),
            translatable: None,
            placeholders: Vec::new(),
        }],
    };
    assert!(resource_within_token_limit(&resource));
}

#[test]
fn tags_up_to_the_private_use_area_limit() {
    // 6400 tokens fill U+E000..U+F8FF; one more tag is beyond the limit
    let pipeline = empty_pipeline();
    let text = "<i>".repeat(6400);
    assert!(within_token_limit(&text, &[]));
    assert_eq!(transform_text(&text, &[], &pipeline), text);
    let over = "<i>".repeat(6401);
    assert!(!within_token_limit(&over, &[]));
}
