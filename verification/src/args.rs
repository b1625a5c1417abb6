//! Resolution of the run configuration from the invocation arguments.
//!
//! The argument list is scanned left to right, starting after the program
//! name.  A help flag wins as soon as it is seen; the first argument that is
//! no known flag is reported back verbatim; otherwise the recognised flags
//! accumulate into a [`RunConfig`].

use vstd::prelude::*;

verus! {

/// The immutable per-run configuration, resolved once at startup and read
/// by every step of the pipeline thereafter.
#[derive(Clone, Copy, PartialEq, Eq, Structural, Debug)]
pub struct RunConfig {
    /// When set, steps describe the actions they would run instead of
    /// running them.
    pub dry_run: bool,
    /// When set, the caller renders detailed narration; the flag never
    /// changes what the pipeline decides to do.
    pub verbose: bool,
}

/// What the invocation arguments call for.
#[derive(Clone, PartialEq, Eq, Debug)]
pub enum ParseOutcome {
    /// Run the pipeline under the given configuration.
    Run { config: RunConfig },
    /// A help flag was seen before anything unrecognised: print usage and
    /// exit successfully without probing or acting.
    Help,
    /// The given argument is no known flag: report it and exit with an
    /// error, again without probing or acting.
    Unknown { arg: String },
}

/// Result of the specification-level scan of the argument list.
pub enum ArgScan {
    /// Every argument was a recognised flag.
    Finished { dry_run: bool, verbose: bool },
    /// A help flag stands at this index, before anything unrecognised.
    HelpAt { index: int },
    /// The first unrecognised argument stands at this index.
    UnknownAt { index: int },
}

pub open spec fn is_help_flag(a: Seq<char>) -> bool {
    a == "--help"@ || a == "-h"@
}

pub open spec fn is_dry_run_flag(a: Seq<char>) -> bool {
    a == "--dry-run"@
}

pub open spec fn is_verbose_flag(a: Seq<char>) -> bool {
    a == "--verbose"@ || a == "-v"@
}

/// Left-to-right scan of the arguments from index `i`, with the flags seen
/// so far accumulated in `dry` and `verb`.
pub open spec fn scan_args(args: Seq<Seq<char>>, i: int, dry: bool, verb: bool) -> ArgScan
    decreases args.len() - i,
{
    if i < 0 || i >= args.len() {
        ArgScan::Finished { dry_run: dry, verbose: verb }
    } else if is_help_flag(args[i]) {
        ArgScan::HelpAt { index: i }
    } else if is_dry_run_flag(args[i]) {
        scan_args(args, i + 1, true, verb)
    } else if is_verbose_flag(args[i]) {
        scan_args(args, i + 1, dry, true)
    } else {
        ArgScan::UnknownAt { index: i }
    }
}

/// What parsing the full argument vector (program name included, and
/// ignored) must yield.
pub open spec fn parse_spec(args: Seq<Seq<char>>) -> ArgScan {
    scan_args(args, 1, false, false)
}

/// Resolves the run configuration from the full argument vector, program
/// name first.  The first help flag short-circuits to `Help`; the first
/// argument that is no known flag short-circuits to `Unknown`; otherwise
/// the recognised flags are folded into a `RunConfig`.
pub fn parse_args(args: &Vec<String>) -> (r: ParseOutcome)
    ensures
        match parse_spec(args.deep_view()) {
            ArgScan::Finished { dry_run, verbose } => r == (ParseOutcome::Run {
                config: RunConfig { dry_run, verbose },
            }),
            ArgScan::HelpAt { index } => r is Help,
            ArgScan::UnknownAt { index } => {
                &&& r is Unknown
                &&& r matches ParseOutcome::Unknown { arg } && arg@ == args.deep_view()[index]
            },
        },
{
    let ghost views = args.deep_view();
    let mut dry: bool = false;
    let mut verb: bool = false;
    let mut i: usize = 1;
    while i < args.len()
        invariant
            1 <= i,
            views == args.deep_view(),
            views.len() == args.len(),
            scan_args(views, 1, false, false) == scan_args(views, i as int, dry, verb),
        decreases args.len() - i,
    {
        let a = &args[i];
        if *a == "--help".to_owned() || *a == "-h".to_owned() {
            return ParseOutcome::Help;
        } else if *a == "--dry-run".to_owned() {
            dry = true;
        } else if *a == "--verbose".to_owned() || *a == "-v".to_owned() {
            verb = true;
        } else {
            return ParseOutcome::Unknown { arg: a.clone() };
        }
        i = i + 1;
    }
    ParseOutcome::Run { config: RunConfig { dry_run: dry, verbose: verb } }
}

impl ParseOutcome {
    /// The process exit code owed before the pipeline even starts: 0 for a
    /// help display, 1 for an unrecognised argument, and none when the
    /// pipeline is to run.
    pub fn immediate_exit_code(&self) -> (r: Option<u8>)
        ensures
            r == match self {
                ParseOutcome::Run { config } => None::<u8>,
                ParseOutcome::Help => Some(0u8),
                ParseOutcome::Unknown { arg } => Some(1u8),
            },
    {
        match self {
            ParseOutcome::Run { .. } => None,
            ParseOutcome::Help => Some(0),
            ParseOutcome::Unknown { .. } => Some(1),
        }
    }
}

} // verus!
