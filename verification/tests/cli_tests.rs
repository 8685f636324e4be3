use i18n_pseudo::cli::{Cli, Preset, StrategyConfig};

fn cli(preset: Option<Preset>) -> Cli {
    Cli {
        files: vec!["en.json".to_string()],
        output: None,
        format: None,
        in_place: false,
        no_backup: false,
        preset,
        accents: false,
        cjk: false,
        special_chars: false,
        expansion: None,
        brackets: false,
        rtl: false,
        unicode_stress: false,
        no_accents: false,
        no_cjk: false,
        no_special_chars: false,
        no_expansion: false,
        no_brackets: false,
        no_rtl: false,
        no_unicode_stress: false,
    }
}

fn cfg(
    accents: bool,
    cjk: bool,
    special_chars: bool,
    expansion: Option<u32>,
    brackets: bool,
    rtl: bool,
    unicode_stress: bool,
) -> StrategyConfig {
    StrategyConfig { accents, cjk, special_chars, expansion, brackets, rtl, unicode_stress }
}

#[test]
fn no_arguments_fall_back_to_default_preset() {
    let c = StrategyConfig::from_cli(&cli(None));
    assert_eq!(c, cfg(true, false, false, None, true, false, false));
    assert_eq!(c, StrategyConfig::from_cli(&cli(Some(Preset::Default))));
}

#[test]
fn presets() {
    assert_eq!(
        StrategyConfig::from_cli(&cli(Some(Preset::Layout))),
        cfg(false, false, false, Some(1500), true, false, false)
    );
    assert_eq!(
        StrategyConfig::from_cli(&cli(Some(Preset::Charset))),
        cfg(true, true, true, None, false, false, true)
    );
    assert_eq!(
        StrategyConfig::from_cli(&cli(Some(Preset::Rtl))),
        cfg(false, false, false, Some(1300), true, true, false)
    );
    assert_eq!(
        StrategyConfig::from_cli(&cli(Some(Preset::Full))),
        cfg(true, true, true, Some(1300), true, true, true)
    );
}

#[test]
fn enable_flags_replace_fallback() {
    let mut c = cli(None);
    c.cjk = true;
    assert_eq!(StrategyConfig::from_cli(&c), cfg(false, true, false, None, false, false, false));
    let mut c = cli(Some(Preset::Layout));
    c.expansion = Some(2000);
    c.rtl = true;
    assert_eq!(
        StrategyConfig::from_cli(&c),
        cfg(false, false, false, Some(2000), true, true, false)
    );
}

#[test]
fn disable_flags_win() {
    let mut c = cli(Some(Preset::Full));
    c.no_accents = true;
    c.no_expansion = true;
    c.cjk = true;
    c.no_cjk = true;
    assert_eq!(StrategyConfig::from_cli(&c), cfg(false, false, true, None, true, true, true));
}

#[test]
fn disable_flags_without_preset_turn_the_default_off() {
    // without a preset, a disable flag alone is a flag: no default selection
    let mut c = cli(None);
    c.no_accents = true;
    assert_eq!(StrategyConfig::from_cli(&c), cfg(false, false, false, None, false, false, false));
    // enabling and disabling the same strategy leaves nothing selected
    let mut c = cli(None);
    c.brackets = true;
    c.no_brackets = true;
    assert_eq!(StrategyConfig::from_cli(&c), cfg(false, false, false, None, false, false, false));
    // with a preset it stays empty too
    let mut c = cli(Some(Preset::Default));
    c.no_accents = true;
    c.no_brackets = true;
    assert_eq!(StrategyConfig::from_cli(&c), cfg(false, false, false, None, false, false, false));
}
