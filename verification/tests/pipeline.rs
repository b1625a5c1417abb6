use stepwise::args::RunConfig;
use stepwise::engine::ActionOutcome;
use stepwise::engine::Directive;
use stepwise::engine::Engine;
use stepwise::engine::Event;
use stepwise::engine::Notice;
use stepwise::model::Action;
use stepwise::model::Probe;
use stepwise::model::Step;
use stepwise::model::StepKind;
use stepwise::model::StepState;
use stepwise::model::PipelineResult;
use stepwise::model::exit_code;
use stepwise::model::table_ok;
use stepwise::text::contains_marker;

fn action(program: &str) -> Action {
    Action {
        program: program.to_string(),
        args: Vec::new(),
        cwd: None,
        stdin_source: None,
    }
}

fn step(name: &str, probe: Option<Probe>, kind: StepKind, actions: Vec<Action>) -> Step {
    Step { name: name.to_string(), probe, kind, actions }
}

fn tool(name: &str) -> Option<Probe> {
    Some(Probe::ToolOnPath { tool: name.to_string() })
}

fn config(dry_run: bool) -> RunConfig {
    RunConfig { dry_run, verbose: false }
}

/// Drives the engine to its `Finish` directive, answering each pending
/// directive through `respond`, and returns every directive emitted.
fn drive<F: FnMut(&Directive) -> Event>(table: Vec<Step>, cfg: RunConfig, mut respond: F) -> Vec<Directive> {
    assert!(table_ok(&table));
    let (mut eng, mut batch) = Engine::start(cfg, table);
    let mut all: Vec<Directive> = Vec::new();
    let mut rounds = 0;
    loop {
        all.extend(batch.iter().cloned());
        let last = *all.last().expect("empty batch");
        match last {
            Directive::Finish { .. } => return all,
            Directive::Report { .. } => panic!("batch ended with a bare notice"),
            _ => {}
        }
        let ev = respond(&last);
        let (next, out) = eng.handle(ev);
        eng = next;
        batch = out;
        rounds += 1;
        assert!(rounds < 1000, "pipeline did not terminate");
    }
}

fn executes(all: &[Directive]) -> Vec<(usize, usize)> {
    all.iter()
        .filter_map(|d| match d {
            Directive::Execute { step, action } => Some((*step, *action)),
            _ => None,
        })
        .collect()
}

fn finish_code(all: &[Directive]) -> u8 {
    match all.last() {
        Some(Directive::Finish { code }) => *code,
        other => panic!("no finish directive, got {:?}", other),
    }
}

fn demo_table() -> Vec<Step> {
    vec![
        step("helper", tool("paru"), StepKind::Fatal, vec![action("git"), action("makepkg")]),
        step("deploy", None, StepKind::Fatal, vec![action("stow")]),
        step(
            "wallpapers",
            tool("wallpapers"),
            StepKind::BestEffort,
            vec![action("git"), action("git")],
        ),
    ]
}

#[test]
fn dry_run_executes_nothing_and_succeeds() {
    let all = drive(demo_table(), config(true), |d| match d {
        Directive::RunProbe { .. } => Event::ProbeReply { state: StepState::NotSatisfied },
        Directive::AskContinue { .. } => Event::AnswerReply { yes: true },
        Directive::Execute { .. } => panic!("dry run asked for an execution"),
        _ => unreachable!(),
    });
    assert!(executes(&all).is_empty());
    assert_eq!(finish_code(&all), 0);
    // The plan of every unsatisfied step is still announced in full.
    assert!(all.contains(&Directive::Report {
        notice: Notice::PlannedAction { step: 0, action: 1 }
    }));
    assert!(all.contains(&Directive::Report {
        notice: Notice::PlannedAction { step: 1, action: 0 }
    }));
}

#[test]
fn satisfied_step_is_skipped_without_execution() {
    let all = drive(demo_table(), config(false), |d| match d {
        Directive::RunProbe { step: 0 } => Event::ProbeReply { state: StepState::Satisfied },
        Directive::RunProbe { .. } => Event::ProbeReply { state: StepState::NotSatisfied },
        Directive::Execute { .. } => {
            Event::ActionReply { outcome: ActionOutcome::Exited { success: true } }
        }
        _ => unreachable!(),
    });
    assert!(all.contains(&Directive::Report { notice: Notice::AlreadySatisfied { step: 0 } }));
    // Nothing of the satisfied step ran; the later steps still did.
    assert!(executes(&all).iter().all(|(s, _)| *s != 0));
    assert!(executes(&all).contains(&(1, 0)));
    assert_eq!(finish_code(&all), 0);
}

#[test]
fn second_run_over_provisioned_system_executes_nothing() {
    // Every step carries a probe here, and every probe reports done: the
    // shape of a re-run after a fully successful run.
    let table = vec![
        step("helper", tool("paru"), StepKind::Fatal, vec![action("git")]),
        step("channel", tool("nix"), StepKind::Fatal, vec![action("nix-channel")]),
        step("wallpapers", tool("walls"), StepKind::BestEffort, vec![action("git")]),
    ];
    let mut probes = 0;
    let all = drive(table, config(false), |d| match d {
        Directive::RunProbe { .. } => {
            probes += 1;
            Event::ProbeReply { state: StepState::Satisfied }
        }
        _ => unreachable!(),
    });
    assert_eq!(probes, 3);
    assert!(executes(&all).is_empty());
    assert_eq!(finish_code(&all), 0);
}

#[test]
fn fatal_action_failure_aborts_the_pipeline() {
    let all = drive(demo_table(), config(false), |d| match d {
        Directive::RunProbe { .. } => Event::ProbeReply { state: StepState::NotSatisfied },
        Directive::Execute { step: 0, action: 0 } => {
            Event::ActionReply { outcome: ActionOutcome::Exited { success: false } }
        }
        Directive::Execute { .. } => panic!("pipeline went on after a fatal failure"),
        _ => unreachable!(),
    });
    assert_eq!(executes(&all), vec![(0, 0)]);
    assert!(all.contains(&Directive::Report {
        notice: Notice::ActionFailure { step: 0, action: 0 }
    }));
    // The next step never begins.
    assert!(!all.contains(&Directive::Report { notice: Notice::StepBegin { step: 1 } }));
    assert_eq!(finish_code(&all), 1);
}

#[test]
fn nothing_happens_after_the_finish_directive() {
    let table = vec![step("req", tool("sudo"), StepKind::Required, Vec::new())];
    let (eng, _first) = Engine::start(config(false), table);
    let (eng, batch) = eng.handle(Event::ProbeReply { state: StepState::NotSatisfied });
    assert_eq!(finish_code(&batch), 1);
    let (_eng, after) = eng.handle(Event::ProbeReply { state: StepState::Satisfied });
    assert!(after.is_empty());
}

#[test]
fn best_effort_failure_does_not_stop_the_remaining_repeats() {
    let clones = vec![action("git"), action("git"), action("git"), action("git"), action("git")];
    let table = vec![
        step("wallpapers", tool("walls"), StepKind::BestEffort, clones),
        step("rebuild", None, StepKind::Fatal, vec![action("home-manager")]),
    ];
    let all = drive(table, config(false), |d| match d {
        Directive::RunProbe { .. } => Event::ProbeReply { state: StepState::NotSatisfied },
        Directive::Execute { step: 0, action: 2 } => {
            // Repeat 3 of 5 fails...
            Event::ActionReply { outcome: ActionOutcome::Exited { success: false } }
        }
        Directive::Execute { .. } => {
            Event::ActionReply { outcome: ActionOutcome::Exited { success: true } }
        }
        _ => unreachable!(),
    });
    // ... and repeats 4 and 5 still run, the step closes, the next step runs.
    assert_eq!(
        executes(&all),
        vec![(0, 0), (0, 1), (0, 2), (0, 3), (0, 4), (1, 0)]
    );
    assert!(all.contains(&Directive::Report {
        notice: Notice::BestEffortFailure { step: 0, action: 2 }
    }));
    assert!(all.contains(&Directive::Report { notice: Notice::StepDone { step: 0 } }));
    assert_eq!(finish_code(&all), 0);
}

#[test]
fn spawn_failure_aborts_even_a_best_effort_step() {
    let table = vec![step(
        "wallpapers",
        tool("walls"),
        StepKind::BestEffort,
        vec![action("git"), action("git")],
    )];
    let all = drive(table, config(false), |d| match d {
        Directive::RunProbe { .. } => Event::ProbeReply { state: StepState::NotSatisfied },
        Directive::Execute { step: 0, action: 0 } => {
            Event::ActionReply { outcome: ActionOutcome::SpawnError }
        }
        Directive::Execute { .. } => panic!("pipeline went on after a spawn failure"),
        _ => unreachable!(),
    });
    assert_eq!(executes(&all), vec![(0, 0)]);
    assert!(all.contains(&Directive::Report {
        notice: Notice::SpawnFailure { step: 0, action: 0 }
    }));
    assert_eq!(finish_code(&all), 1);
}

#[test]
fn present_marker_reports_already_configured_and_writes_nothing() {
    let pacman_conf =
        b"[options]\nHoldPkg = pacman glibc\n\n[chaotic-aur]\nInclude = /etc/pacman.d/chaotic-mirrorlist\n"
            .to_vec();
    let table = vec![step(
        "repository",
        Some(Probe::FileContains {
            path: "/etc/pacman.conf".to_string(),
            marker: "[chaotic-aur]".to_string(),
        }),
        StepKind::Fatal,
        vec![action("pacman-key"), action("tee")],
    )];
    let all = drive(table, config(false), |d| match d {
        Directive::RunProbe { .. } => {
            // The caller evaluates the probe against the file contents.
            let found = contains_marker(&pacman_conf, &b"[chaotic-aur]".to_vec());
            let state = if found { StepState::Satisfied } else { StepState::NotSatisfied };
            Event::ProbeReply { state }
        }
        _ => unreachable!(),
    });
    assert!(all.contains(&Directive::Report { notice: Notice::AlreadySatisfied { step: 0 } }));
    assert!(executes(&all).is_empty());
    assert_eq!(finish_code(&all), 0);
}

#[test]
fn declined_confirmation_ends_the_run_cleanly() {
    let table = vec![
        step("connection", None, StepKind::Confirm, Vec::new()),
        step("helper", tool("paru"), StepKind::Fatal, vec![action("git")]),
    ];
    let all = drive(table, config(false), |d| match d {
        Directive::AskContinue { .. } => Event::AnswerReply { yes: false },
        _ => unreachable!(),
    });
    assert!(all.contains(&Directive::Report { notice: Notice::Declined }));
    assert!(executes(&all).is_empty());
    assert!(!all.contains(&Directive::Report { notice: Notice::StepBegin { step: 1 } }));
    assert_eq!(finish_code(&all), 0);
}

#[test]
fn consent_lets_the_pipeline_continue() {
    let table = vec![
        step("connection", None, StepKind::Confirm, Vec::new()),
        step("helper", tool("paru"), StepKind::Fatal, vec![action("git")]),
    ];
    let all = drive(table, config(false), |d| match d {
        Directive::AskContinue { .. } => Event::AnswerReply { yes: true },
        Directive::RunProbe { .. } => Event::ProbeReply { state: StepState::NotSatisfied },
        Directive::Execute { .. } => {
            Event::ActionReply { outcome: ActionOutcome::Exited { success: true } }
        }
        _ => unreachable!(),
    });
    assert!(executes(&all).contains(&(1, 0)));
    assert_eq!(finish_code(&all), 0);
}

#[test]
fn dry_run_does_not_ask_the_operator() {
    let table = vec![step("connection", None, StepKind::Confirm, Vec::new())];
    let all = drive(table, config(true), |_| unreachable!());
    assert!(all.contains(&Directive::Report { notice: Notice::PlannedConfirm { step: 0 } }));
    assert!(!all.iter().any(|d| matches!(d, Directive::AskContinue { .. })));
    assert_eq!(finish_code(&all), 0);
}

#[test]
fn missing_requirement_aborts_even_in_a_dry_run() {
    let table = vec![step("systemd", tool("systemctl"), StepKind::Required, Vec::new())];
    let all = drive(table, config(true), |d| match d {
        Directive::RunProbe { .. } => Event::ProbeReply { state: StepState::NotSatisfied },
        _ => unreachable!(),
    });
    assert!(all.contains(&Directive::Report { notice: Notice::RequirementMissing { step: 0 } }));
    assert!(executes(&all).is_empty());
    assert_eq!(finish_code(&all), 1);
}

#[test]
fn event_that_answers_nothing_is_ignored() {
    let table = vec![step("helper", tool("paru"), StepKind::Fatal, vec![action("git")])];
    let (eng, first) = Engine::start(config(false), table);
    assert!(matches!(first.last(), Some(Directive::RunProbe { step: 0 })));
    // An answer nobody asked for changes nothing.
    let (eng, ignored) = eng.handle(Event::AnswerReply { yes: false });
    assert!(ignored.is_empty());
    // The probe can still be answered afterwards.
    let (_eng, batch) = eng.handle(Event::ProbeReply { state: StepState::Satisfied });
    assert!(batch.contains(&Directive::Report { notice: Notice::AlreadySatisfied { step: 0 } }));
    assert_eq!(finish_code(&batch), 0);
}

#[test]
fn empty_table_finishes_at_once() {
    let (_eng, batch) = Engine::start(config(false), Vec::new());
    assert_eq!(
        batch,
        vec![
            Directive::Report { notice: Notice::PipelineDone },
            Directive::Finish { code: 0 },
        ]
    );
}

#[test]
fn exit_codes_follow_the_verdict() {
    assert_eq!(exit_code(PipelineResult::Success), 0);
    assert_eq!(exit_code(PipelineResult::Declined), 0);
    assert_eq!(exit_code(PipelineResult::AbortedAt { step: 3 }), 1);
}

#[test]
fn malformed_tables_are_rejected() {
    let good = demo_table();
    assert!(table_ok(&good));
    let confirm_with_actions = vec![step(
        "connection",
        None,
        StepKind::Confirm,
        vec![action("ping")],
    )];
    assert!(!table_ok(&confirm_with_actions));
    let requirement_without_probe =
        vec![step("systemd", None, StepKind::Required, Vec::new())];
    assert!(!table_ok(&requirement_without_probe));
}
