//! Resolution of the command-line strategy selection: a preset's defaults,
//! then the individual enable flags, then the individual disable flags.
use vstd::prelude::*;

verus! {

/// Preset strategy combinations.
#[derive(Clone, Copy, Debug, PartialEq, Eq)]
pub enum Preset {
    /// accents + brackets — quick visual scan
    Default,
    /// expansion 1.5 + brackets — test UI overflow
    Layout,
    /// accents + cjk + special-chars + unicode-stress — encoding test
    Charset,
    /// rtl + brackets + expansion 1.3 — RTL layout testing
    Rtl,
    /// all 7 strategies, expansion 1.3 — kitchen sink
    Full,
}

/// The command-line arguments, with the expansion ratio in thousandths
/// (`1300` for a ratio of 1.3).
pub struct Cli {
    /// Input file paths
    pub files: Vec<String>,
    /// Output directory (default: stdout for single file)
    pub output: Option<String>,
    /// Override format detection
    pub format: Option<String>,
    /// Modify files in-place (creates .bak backups)
    pub in_place: bool,
    /// Skip .bak backup when using --in-place
    pub no_backup: bool,
    /// Preset strategy combination
    pub preset: Option<Preset>,
    pub accents: bool,
    pub cjk: bool,
    pub special_chars: bool,
    /// Enable text expansion (ratio in thousandths)
    pub expansion: Option<u32>,
    pub brackets: bool,
    pub rtl: bool,
    pub unicode_stress: bool,
    pub no_accents: bool,
    pub no_cjk: bool,
    pub no_special_chars: bool,
    pub no_expansion: bool,
    pub no_brackets: bool,
    pub no_rtl: bool,
    pub no_unicode_stress: bool,
}

/// Resolved strategy configuration after merging preset + individual flags.
/// The expansion ratio is in thousandths.
#[derive(Clone, Copy, Debug, PartialEq, Eq)]
pub struct StrategyConfig {
    pub accents: bool,
    pub cjk: bool,
    pub special_chars: bool,
    pub expansion: Option<u32>,
    pub brackets: bool,
    pub rtl: bool,
    pub unicode_stress: bool,
}

/// The strategies a preset enables; no preset enables nothing.
pub open spec fn preset_config(preset: Option<Preset>) -> StrategyConfig {
    match preset {
        None => StrategyConfig {
            accents: false,
            cjk: false,
            special_chars: false,
            expansion: None,
            brackets: false,
            rtl: false,
            unicode_stress: false,
        },
        Some(Preset::Default) => StrategyConfig {
            accents: true,
            cjk: false,
            special_chars: false,
            expansion: None,
            brackets: true,
            rtl: false,
            unicode_stress: false,
        },
        Some(Preset::Layout) => StrategyConfig {
            accents: false,
            cjk: false,
            special_chars: false,
            expansion: Some(1500),
            brackets: true,
            rtl: false,
            unicode_stress: false,
        },
        Some(Preset::Charset) => StrategyConfig {
            accents: true,
            cjk: true,
            special_chars: true,
            expansion: None,
            brackets: false,
            rtl: false,
            unicode_stress: true,
        },
        Some(Preset::Rtl) => StrategyConfig {
            accents: false,
            cjk: false,
            special_chars: false,
            expansion: Some(1300),
            brackets: true,
            rtl: true,
            unicode_stress: false,
        },
        Some(Preset::Full) => StrategyConfig {
            accents: true,
            cjk: true,
            special_chars: true,
            expansion: Some(1300),
            brackets: true,
            rtl: true,
            unicode_stress: true,
        },
    }
}

/// `base` with the enable flags of `cli` turned on, then its disable flags
/// turned off.
pub open spec fn with_flags(base: StrategyConfig, cli: &Cli) -> StrategyConfig {
    StrategyConfig {
        accents: !cli.no_accents && (cli.accents || base.accents),
        cjk: !cli.no_cjk && (cli.cjk || base.cjk),
        special_chars: !cli.no_special_chars && (cli.special_chars || base.special_chars),
        expansion: if cli.no_expansion {
            None
        } else if cli.expansion is Some {
            cli.expansion
        } else {
            base.expansion
        },
        brackets: !cli.no_brackets && (cli.brackets || base.brackets),
        rtl: !cli.no_rtl && (cli.rtl || base.rtl),
        unicode_stress: !cli.no_unicode_stress && (cli.unicode_stress || base.unicode_stress),
    }
}

/// Some individual strategy flag is given: an enable flag, an expansion ratio
/// or a disable flag.
pub open spec fn any_flag(cli: &Cli) -> bool {
    cli.accents || cli.cjk || cli.special_chars || cli.expansion is Some || cli.brackets || cli.rtl
        || cli.unicode_stress || cli.no_accents || cli.no_cjk || cli.no_special_chars
        || cli.no_expansion || cli.no_brackets || cli.no_rtl || cli.no_unicode_stress
}

/// The configuration selected by the arguments: the preset's defaults with the
/// flags applied; with no preset and no individual flag at all, accents and
/// brackets (the default preset).
pub open spec fn resolved_config(cli: &Cli) -> StrategyConfig {
    if cli.preset is None && !any_flag(cli) {
        preset_config(Some(Preset::Default))
    } else {
        with_flags(preset_config(cli.preset), cli)
    }
}

impl StrategyConfig {
    /// Resolve strategy config from CLI args: start with preset defaults,
    /// then apply individual enable/disable overrides. With no preset and no
    /// individual flag at all, the default preset applies: accents and
    /// brackets. A disable flag always turns its strategy off.
    pub fn from_cli(cli: &Cli) -> (c: Self)
        ensures
            c == resolved_config(cli),
    {
        // Start from preset defaults
        let (
            mut accents,
            mut cjk,
            mut special_chars,
            mut expansion,
            mut brackets,
            mut rtl,
            mut unicode_stress,
        ): (bool, bool, bool, Option<u32>, bool, bool, bool) = match cli.preset {
            None => (false, false, false, None, false, false, false),
            Some(Preset::Default) => (true, false, false, None, true, false, false),
            Some(Preset::Layout) => (false, false, false, Some(1500), true, false, false),
            Some(Preset::Charset) => (true, true, true, None, false, false, true),
            Some(Preset::Rtl) => (false, false, false, Some(1300), true, true, false),
            Some(Preset::Full) => (true, true, true, Some(1300), true, true, true),
        };

        // Individual enable flags override (turn ON)
        if cli.accents {
            accents = true;
        }
        if cli.cjk {
            cjk = true;
        }
        if cli.special_chars {
            special_chars = true;
        }
        if cli.expansion.is_some() {
            expansion = cli.expansion;
        }
        if cli.brackets {
            brackets = true;
        }
        if cli.rtl {
            rtl = true;
        }
        if cli.unicode_stress {
            unicode_stress = true;
        }

        // Individual disable flags override (turn OFF)
        if cli.no_accents {
            accents = false;
        }
        if cli.no_cjk {
            cjk = false;
        }
        if cli.no_special_chars {
            special_chars = false;
        }
        if cli.no_expansion {
            expansion = None;
        }
        if cli.no_brackets {
            brackets = false;
        }
        if cli.no_rtl {
            rtl = false;
        }
        if cli.no_unicode_stress {
            unicode_stress = false;
        }

        // If no preset and no individual flags, fall back to default preset behavior
        let any_flag = cli.accents || cli.cjk || cli.special_chars || cli.expansion.is_some()
            || cli.brackets || cli.rtl || cli.unicode_stress || cli.no_accents || cli.no_cjk
            || cli.no_special_chars || cli.no_expansion || cli.no_brackets || cli.no_rtl
            || cli.no_unicode_stress;

        if !any_flag && cli.preset.is_none() {
            accents = true;
            brackets = true;
        }

        StrategyConfig { accents, cjk, special_chars, expansion, brackets, rtl, unicode_stress }
    }
}

} // verus!
