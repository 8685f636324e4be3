use i18n_pseudo::cli::{Cli, StrategyConfig};
use i18n_pseudo::session::{
    join_candidates, plan_output, ratio_string, resolve_detected_format, validate_run,
    OutputPlan, PseudoError,
};

fn cli(files: &[&str]) -> Cli {
    Cli {
        files: files.iter().map(|f| f.to_string()).collect(),
        output: None,
        format: None,
        in_place: false,
        no_backup: false,
        preset: None,
        accents: false,
        cjk: false,
        special_chars: false,
        expansion: None,
        brackets: false,
        rtl: false,
        unicode_stress: false,
        no_accents: false,
        no_cjk: false,
        no_special_chars: false,
        no_expansion: false,
        no_brackets: false,
        no_rtl: false,
        no_unicode_stress: false,
    }
}

fn config(expansion: Option<u32>) -> StrategyConfig {
    StrategyConfig {
        accents: true,
        cjk: false,
        special_chars: false,
        expansion,
        brackets: true,
        rtl: false,
        unicode_stress: false,
    }
}

#[test]
fn multiple_files_need_destination() {
    let c = cli(&["a.json", "b.json"]);
    match validate_run(&c, &config(None)) {
        Err(PseudoError::InvalidArgs(m)) => {
            assert_eq!(m, "Multiple files require -o <directory> or --in-place")
        }
        _ => panic!("expected InvalidArgs"),
    }
    let mut with_dir = cli(&["a.json", "b.json"]);
    with_dir.output = Some("out".to_string());
    assert!(validate_run(&with_dir, &config(None)).is_ok());
    let mut in_place = cli(&["a.json", "b.json"]);
    in_place.in_place = true;
    assert!(validate_run(&in_place, &config(None)).is_ok());
    assert!(validate_run(&cli(&["a.json"]), &config(None)).is_ok());
}

#[test]
fn expansion_ratio_range_checked() {
    let c = cli(&["a.json"]);
    assert!(validate_run(&c, &config(Some(1000))).is_ok());
    assert!(validate_run(&c, &config(Some(3000))).is_ok());
    assert!(validate_run(&c, &config(Some(1300))).is_ok());
    match validate_run(&c, &config(Some(3500))) {
        Err(PseudoError::InvalidArgs(m)) => {
            assert_eq!(m, "Expansion ratio must be between 1.0 and 3.0, got 3.5")
        }
        _ => panic!("expected InvalidArgs"),
    }
    match validate_run(&c, &config(Some(500))) {
        Err(e) => {
            assert_eq!(
                e.message(),
                "Invalid arguments: Expansion ratio must be between 1.0 and 3.0, got 0.5"
            );
            assert_eq!(e.exit_code(), 2);
        }
        _ => panic!("expected InvalidArgs"),
    }
}

#[test]
fn ratios_written_like_floats() {
    assert_eq!(ratio_string(1500), "1.5");
    assert_eq!(ratio_string(4000), "4");
    assert_eq!(ratio_string(1001), "1.001");
    assert_eq!(ratio_string(1250), "1.25");
    assert_eq!(ratio_string(999), "0.999");
    assert_eq!(ratio_string(0), "0");
    assert_eq!(ratio_string(12345678), "12345.678");
    assert_eq!(ratio_string(10), "0.01");
}

#[test]
fn detection_outcomes() {
    match resolve_detected_format("en.json", false, &vec![], None) {
        Err(PseudoError::NoFormat { path }) => assert_eq!(path, "en.json"),
        _ => panic!("expected NoFormat"),
    }
    let tied = vec!["json".to_string(), "i18next".to_string()];
    match resolve_detected_format("en.json", true, &tied, Some("json".to_string())) {
        Err(e @ PseudoError::AmbiguousFormat { .. }) => {
            assert_eq!(
                e.message(),
                "Ambiguous format for en.json: multiple candidates with equal confidence: json, i18next. Use -f to specify."
            );
            assert_eq!(e.exit_code(), 2);
        }
        _ => panic!("expected AmbiguousFormat"),
    }
    let single = vec!["json".to_string()];
    match resolve_detected_format("en.json", true, &single, Some("json".to_string())) {
        Ok(id) => assert_eq!(id, "json"),
        _ => panic!("expected json"),
    }
    match resolve_detected_format("en.json", true, &single, None) {
        Err(e @ PseudoError::NoFormat { .. }) => {
            assert_eq!(e.message(), "No format detected for en.json. Use -f to specify.");
            assert_eq!(e.exit_code(), 1);
        }
        _ => panic!("expected NoFormat"),
    }
}

#[test]
fn candidates_joined() {
    assert_eq!(join_candidates(&vec![]), "");
    assert_eq!(join_candidates(&vec!["a".to_string()]), "a");
    assert_eq!(
        join_candidates(&vec!["a".to_string(), "b".to_string(), "c".to_string()]),
        "a, b, c"
    );
}

#[test]
fn error_messages_and_codes() {
    let cases = vec![
        (PseudoError::UnknownFormat("xml9".to_string()), "Unknown format: xml9", 1),
        (PseudoError::Parse("bad".to_string()), "Parse error: bad", 1),
        (PseudoError::Write("full".to_string()), "Write error: full", 1),
        (PseudoError::Io("denied".to_string()), "IO error: denied", 1),
        (PseudoError::InvalidArgs("x".to_string()), "Invalid arguments: x", 2),
    ];
    for (e, msg, code) in cases {
        assert_eq!(e.message(), msg);
        assert_eq!(e.exit_code(), code);
    }
}

#[test]
fn output_destinations() {
    let mut c = cli(&["dir/en.json"]);
    assert!(matches!(plan_output("dir/en.json", &c), OutputPlan::Stdout));
    c.output = Some("out".to_string());
    match plan_output("dir/en.json", &c) {
        OutputPlan::Directory { dir, source } => {
            assert_eq!(dir, "out");
            assert_eq!(source, "dir/en.json");
        }
        _ => panic!("expected Directory"),
    }
    c.in_place = true;
    match plan_output("dir/en.json", &c) {
        OutputPlan::InPlace { path, backup } => {
            assert_eq!(path, "dir/en.json");
            assert_eq!(backup, Some("dir/en.json.bak".to_string()));
        }
        _ => panic!("expected InPlace"),
    }
    c.no_backup = true;
    match plan_output("dir/en.json", &c) {
        OutputPlan::InPlace { backup, .. } => assert_eq!(backup, None),
        _ => panic!("expected InPlace"),
    }
}
