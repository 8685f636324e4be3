//! The decisions of a run that surround the transformation: which arguments
//! are refused, which detected format is used, where the output goes, and how
//! errors are reported.
use vstd::prelude::*;

use crate::cli::{Cli, StrategyConfig};
use crate::strategies::expansion::{MAX_RATIO_PERMILLE, MIN_RATIO_PERMILLE};

verus! {

/// Errors of a run.
pub enum PseudoError {
    AmbiguousFormat { path: String, candidates: String },
    NoFormat { path: String },
    UnknownFormat(String),
    Parse(String),
    Write(String),
    /// An I/O failure, with the system's description of it.
    Io(String),
    InvalidArgs(String),
}

/// The decimal digits.
pub const DIGITS: [char; 10] = ['0', '1', '2', '3', '4', '5', '6', '7', '8', '9'];

/// The decimal representation of `n`.
pub open spec fn decimal(n: nat) -> Seq<char>
    decreases n,
{
    if n < 10 {
        seq![DIGITS@[n as int]]
    } else {
        decimal(n / 10) + seq![DIGITS@[(n % 10) as int]]
    }
}

/// The digits of a fraction of thousandths `f` (`1 <= f <= 999`) without
/// trailing zeros.
pub open spec fn fraction_digits(f: nat) -> Seq<char> {
    let d1 = DIGITS@[(f / 100) as int];
    let d2 = DIGITS@[((f / 10) % 10) as int];
    let d3 = DIGITS@[(f % 10) as int];
    if f % 10 != 0 {
        seq![d1, d2, d3]
    } else if (f / 10) % 10 != 0 {
        seq![d1, d2]
    } else {
        seq![d1]
    }
}

/// A ratio given in thousandths written as a decimal number, the way Rust
/// prints that number: `1500` is `1.5`, `4000` is `4`, `1001` is `1.001`.
pub open spec fn ratio_text(permille: nat) -> Seq<char> {
    if permille % 1000 == 0 {
        decimal(permille / 1000)
    } else {
        decimal(permille / 1000) + seq!['.'] + fraction_digits(permille % 1000)
    }
}

fn push_decimal(out: &mut String, n: u32)
    ensures
        final(out)@ == old(out)@ + decimal(n as nat),
    decreases n,
{
    if n >= 10 {
        push_decimal(out, n / 10);
    }
    let d: usize = (n % 10) as usize;
    out.append(digit_str(d));
}

fn digit_str(d: usize) -> (s: &'static str)
    requires
        d < 10,
    ensures
        s@ == seq![DIGITS@[d as int]],
{
    proof {
        reveal_strlit("0");
        reveal_strlit("1");
        reveal_strlit("2");
        reveal_strlit("3");
        reveal_strlit("4");
        reveal_strlit("5");
        reveal_strlit("6");
        reveal_strlit("7");
        reveal_strlit("8");
        reveal_strlit("9");
    }
    match d {
        0 => "0",
        1 => "1",
        2 => "2",
        3 => "3",
        4 => "4",
        5 => "5",
        6 => "6",
        7 => "7",
        8 => "8",
        _ => "9",
    }
}


/// Writes a ratio given in thousandths as a decimal number.
pub fn ratio_string(permille: u32) -> (s: String)
    ensures
        s@ == ratio_text(permille as nat),
{
    let mut s = String::new();
    push_decimal(&mut s, permille / 1000);
    let f: u32 = permille % 1000;
    if f != 0 {
        proof {
            reveal_strlit(".");
        }
        s.append(".");
        s.append(digit_str((f / 100) as usize));
        if f % 10 != 0 {
            s.append(digit_str(((f / 10) % 10) as usize));
            s.append(digit_str((f % 10) as usize));
        } else if (f / 10) % 10 != 0 {
            s.append(digit_str(((f / 10) % 10) as usize));
        }
    }
    s
}

/// The multi-file refusal.
pub open spec fn multiple_files_message() -> Seq<char> {
    "Multiple files require -o <directory> or --in-place"@
}

/// The refusal of a ratio outside `[1.0, 3.0]`.
pub open spec fn ratio_message(permille: nat) -> Seq<char> {
    "Expansion ratio must be between 1.0 and 3.0, got "@ + ratio_text(permille)
}

/// What a run refuses before touching any file: several files without an
/// output directory or `--in-place`; an expansion ratio outside `[1.0, 3.0]`.
pub open spec fn run_refusal(cli: &Cli, config: StrategyConfig) -> Option<Seq<char>> {
    if cli.files@.len() > 1 && cli.output is None && !cli.in_place {
        Some(multiple_files_message())
    } else {
        match config.expansion {
            Some(r) => if r < MIN_RATIO_PERMILLE || r > MAX_RATIO_PERMILLE {
                Some(ratio_message(r as nat))
            } else {
                None
            },
            None => None,
        }
    }
}

/// Checks the arguments of a run against the resolved configuration.
pub fn validate_run(cli: &Cli, config: &StrategyConfig) -> (r: Result<(), PseudoError>)
    ensures
        match run_refusal(cli, *config) {
            None => r is Ok,
            Some(msg) => r matches Err(PseudoError::InvalidArgs(m)) && m@ == msg,
        },
{
    // Validate multi-file requires -o or --in-place
    if cli.files.len() > 1 && cli.output.is_none() && !cli.in_place {
        let mut m = String::new();
        m.append("Multiple files require -o <directory> or --in-place");
        return Err(PseudoError::InvalidArgs(m));
    }
    // Validate expansion ratio if provided
    if let Some(ratio) = config.expansion {
        if ratio < MIN_RATIO_PERMILLE || ratio > MAX_RATIO_PERMILLE {
            let mut m = String::new();
            m.append("Expansion ratio must be between 1.0 and 3.0, got ");
            let r = ratio_string(ratio);
            m.append(r.as_str());
            return Err(PseudoError::InvalidArgs(m));
        }
    }
    Ok(())
}

/// The candidates joined by `", "`.
pub open spec fn joined(items: Seq<Seq<char>>) -> Seq<char>
    decreases items.len(),
{
    if items.len() == 0 {
        Seq::empty()
    } else if items.len() == 1 {
        items[0]
    } else {
        joined(items.drop_last()) + ", "@ + items.last()
    }
}

/// Joins strings with `", "` between them.
pub fn join_candidates(items: &Vec<String>) -> (s: String)
    ensures
        s@ == joined(items@.map_values(|x: String| x@)),
{
    let ghost views = items@.map_values(|x: String| x@);
    let mut s = String::new();
    let mut i: usize = 0;
    while i < items.len()
        invariant
            i <= items@.len(),
            views == items@.map_values(|x: String| x@),
            s@ == joined(views.take(i as int)),
        decreases items@.len() - i,
    {
        assert(views.take(i + 1).drop_last() == views.take(i as int));
        assert(views.take(i + 1).last() == items@[i as int]@);
        if i > 0 {
            s.append(", ");
        } else {
            assert(joined(views.take(0)) == Seq::<char>::empty());
            assert(Seq::<char>::empty() + items@[0]@ == items@[0]@);
        }
        s.append(items[i].as_str());
        i = i + 1;
    }
    assert(views.take(i as int) == views);
    s
}

/// The format a run uses after detection, given what detection reported: whether
/// it found any candidate, the candidates sharing the top confidence, and the
/// single best match.
pub open spec fn detection_outcome(
    path: Seq<char>,
    any_results: bool,
    top_candidates: Seq<Seq<char>>,
    best: Option<Seq<char>>,
) -> Result<Seq<char>, (bool, Seq<char>)> {
    if !any_results {
        Err((false, path))
    } else if top_candidates.len() > 1 {
        Err((true, joined(top_candidates)))
    } else {
        match best {
            Some(b) => Ok(b),
            None => Err((false, path)),
        }
    }
}

/// Resolve the format from auto-detection, erroring on ambiguity: no result
/// gives `NoFormat`, several candidates with the top confidence give
/// `AmbiguousFormat` listing them, otherwise the best match is used.
pub fn resolve_detected_format(
    path: &str,
    any_results: bool,
    top_candidates: &Vec<String>,
    best: Option<String>,
) -> (r: Result<String, PseudoError>)
    ensures
        match detection_outcome(
            path@,
            any_results,
            top_candidates@.map_values(|x: String| x@),
            match best {
                Some(b) => Some(b@),
                None => None,
            },
        ) {
            Ok(id) => r matches Ok(s) && s@ == id,
            Err((true, list)) => r matches Err(PseudoError::AmbiguousFormat { path: p, candidates: c })
                && p@ == path@ && c@ == list,
            Err((false, _)) => r matches Err(PseudoError::NoFormat { path: p }) && p@ == path@,
        },
{
    if !any_results {
        return Err(PseudoError::NoFormat { path: path.to_owned() });
    }
    if top_candidates.len() > 1 {
        return Err(
            PseudoError::AmbiguousFormat {
                path: path.to_owned(),
                candidates: join_candidates(top_candidates),
            },
        );
    }
    match best {
        Some(b) => Ok(b),
        None => Err(PseudoError::NoFormat { path: path.to_owned() }),
    }
}

/// Where the output of one file goes.
pub enum OutputPlan {
    /// Overwrite the input, after copying it to `backup` when there is one.
    InPlace { path: String, backup: Option<String> },
    /// Write a file of the same name into the directory.
    Directory { dir: String, source: String },
    /// Write to standard output.
    Stdout,
}

/// In place (with a `.bak` copy unless `--no-backup`) when asked; otherwise into
/// the output directory when one is given; otherwise to standard output.
pub open spec fn output_plan_ok(file_path: Seq<char>, cli: &Cli, plan: OutputPlan) -> bool {
    if cli.in_place {
        plan matches OutputPlan::InPlace { path, backup } && path@ == file_path && if cli.no_backup {
            backup is None
        } else {
            backup matches Some(b) && b@ == file_path + ".bak"@
        }
    } else {
        match cli.output {
            Some(dir) => plan matches OutputPlan::Directory { dir: d, source } && d@ == dir@
                && source@ == file_path,
            None => plan is Stdout,
        }
    }
}

/// Decide the destination of one file's output.
pub fn plan_output(file_path: &str, cli: &Cli) -> (plan: OutputPlan)
    ensures
        output_plan_ok(file_path@, cli, plan),
{
    if cli.in_place {
        let backup = if !cli.no_backup {
            let mut b = file_path.to_owned();
            b.append(".bak");
            Some(b)
        } else {
            None
        };
        OutputPlan::InPlace { path: file_path.to_owned(), backup }
    } else if let Some(dir) = &cli.output {
        OutputPlan::Directory { dir: dir.clone(), source: file_path.to_owned() }
    } else {
        OutputPlan::Stdout
    }
}

/// The message of an error, as the program prints it.
pub open spec fn error_message(e: PseudoError) -> Seq<char> {
    match e {
        PseudoError::AmbiguousFormat { path, candidates } => "Ambiguous format for "@ + path@
            + ": multiple candidates with equal confidence: "@ + candidates@
            + ". Use -f to specify."@,
        PseudoError::NoFormat { path } => "No format detected for "@ + path@
            + ". Use -f to specify."@,
        PseudoError::UnknownFormat(f) => "Unknown format: "@ + f@,
        PseudoError::Parse(m) => "Parse error: "@ + m@,
        PseudoError::Write(m) => "Write error: "@ + m@,
        PseudoError::Io(m) => "IO error: "@ + m@,
        PseudoError::InvalidArgs(m) => "Invalid arguments: "@ + m@,
    }
}

impl PseudoError {
    /// The message of the error.
    pub fn message(&self) -> (s: String)
        ensures
            s@ == error_message(*self),
    {
        let mut s = String::new();
        match self {
            PseudoError::AmbiguousFormat { path, candidates } => {
                s.append("Ambiguous format for ");
                s.append(path.as_str());
                s.append(": multiple candidates with equal confidence: ");
                s.append(candidates.as_str());
                s.append(". Use -f to specify.");
            },
            PseudoError::NoFormat { path } => {
                s.append("No format detected for ");
                s.append(path.as_str());
                s.append(". Use -f to specify.");
            },
            PseudoError::UnknownFormat(f) => {
                s.append("Unknown format: ");
                s.append(f.as_str());
            },
            PseudoError::Parse(m) => {
                s.append("Parse error: ");
                s.append(m.as_str());
            },
            PseudoError::Write(m) => {
                s.append("Write error: ");
                s.append(m.as_str());
            },
            PseudoError::Io(m) => {
                s.append("IO error: ");
                s.append(m.as_str());
            },
            PseudoError::InvalidArgs(m) => {
                s.append("Invalid arguments: ");
                s.append(m.as_str());
            },
        }
        s
    }

    /// The process exit code for the error: 2 for an ambiguous format or
    /// refused arguments, 1 otherwise.
    pub fn exit_code(&self) -> (code: i32)
        ensures
            code == (if self is AmbiguousFormat || self is InvalidArgs {
                2i32
            } else {
                1i32
            }),
    {
        match self {
            PseudoError::AmbiguousFormat { .. } => 2,
            PseudoError::InvalidArgs(_) => 2,
            _ => 1,
        }
    }
}

} // verus!
