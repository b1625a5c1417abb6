use stepwise::args::ParseOutcome;
use stepwise::args::RunConfig;
use stepwise::args::parse_args;

fn argv(args: &[&str]) -> Vec<String> {
    let mut v = vec!["setup".to_string()];
    for a in args {
        v.push(a.to_string());
    }
    v
}

#[test]
fn no_flags_give_default_config() {
    let r = parse_args(&argv(&[]));
    assert_eq!(
        r,
        ParseOutcome::Run { config: RunConfig { dry_run: false, verbose: false } }
    );
    assert_eq!(r.immediate_exit_code(), None);
}

#[test]
fn dry_run_flag_is_recognised() {
    let r = parse_args(&argv(&["--dry-run"]));
    assert_eq!(
        r,
        ParseOutcome::Run { config: RunConfig { dry_run: true, verbose: false } }
    );
}

#[test]
fn verbose_flags_are_recognised() {
    let long = parse_args(&argv(&["--verbose"]));
    let short = parse_args(&argv(&["-v"]));
    let expected = ParseOutcome::Run { config: RunConfig { dry_run: false, verbose: true } };
    assert_eq!(long, expected);
    assert_eq!(short, expected);
}

#[test]
fn flags_accumulate() {
    let r = parse_args(&argv(&["--dry-run", "-v"]));
    assert_eq!(
        r,
        ParseOutcome::Run { config: RunConfig { dry_run: true, verbose: true } }
    );
}

#[test]
fn help_short_circuits_everything_else() {
    assert_eq!(parse_args(&argv(&["--help"])), ParseOutcome::Help);
    assert_eq!(parse_args(&argv(&["-h"])), ParseOutcome::Help);
    assert_eq!(parse_args(&argv(&["--dry-run", "--help", "--bogus"])), ParseOutcome::Help);
    assert_eq!(parse_args(&argv(&["--help"])).immediate_exit_code(), Some(0));
}

#[test]
fn unknown_flag_is_reported_verbatim() {
    let r = parse_args(&argv(&["--bogus"]));
    assert_eq!(r, ParseOutcome::Unknown { arg: "--bogus".to_string() });
    assert_eq!(r.immediate_exit_code(), Some(1));
}

#[test]
fn first_unknown_wins_over_later_help() {
    let r = parse_args(&argv(&["--bogus", "--help"]));
    assert_eq!(r, ParseOutcome::Unknown { arg: "--bogus".to_string() });
}

#[test]
fn program_name_is_ignored() {
    let r = parse_args(&vec!["--bogus".to_string()]);
    assert_eq!(
        r,
        ParseOutcome::Run { config: RunConfig { dry_run: false, verbose: false } }
    );
}
