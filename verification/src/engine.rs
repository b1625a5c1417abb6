//! The step-orchestration engine.
//!
//! The engine is a state machine driven by the caller.  Starting it, and
//! feeding it each observed [`Event`], yields a batch of [`Directive`]s:
//! notices to render, exactly one probe to run, action to execute,
//! question to ask, or exit to perform.  The caller carries the directives
//! out in order and reports the outcome of the last one back as the next
//! event.  The engine itself never touches the system: it only decides.
//!
//! Every transition is specified by a spec-level function
//! ([`spec_handle`]), and the executable transitions are proved to follow
//! it exactly.  An event that does not fit the current phase is ignored:
//! the engine stays put and emits nothing.

use crate::args::RunConfig;
use crate::model::PipelineResult;
use crate::model::Step;
use crate::model::StepKind;
use crate::model::StepState;
use crate::model::step_wf;
use crate::model::steps_wf;
use vstd::prelude::*;

verus! {

/// Where the engine stands between two events.
#[derive(Clone, Copy, PartialEq, Eq, Structural, Debug)]
pub enum Phase {
    /// The probe of the current step was issued; a probe reply is owed.
    AwaitProbe,
    /// An action of the current step was issued; an action reply is owed.
    AwaitAction,
    /// The current step asked the operator; an answer is owed.
    AwaitAnswer,
    /// The run is over; the final `Finish` directive was already issued
    /// and every further event is ignored.
    Done { verdict: PipelineResult },
}

/// What became of one issued action.
#[derive(Clone, Copy, PartialEq, Eq, Structural, Debug)]
pub enum ActionOutcome {
    /// The program could not be started at all: an environment error,
    /// fatal even in a best-effort step.
    SpawnError,
    /// The program ran; `success` tells whether it exited cleanly.  A
    /// non-success is a business failure.
    Exited { success: bool },
}

/// What the caller reports back to the engine.
#[derive(Clone, Copy, PartialEq, Eq, Structural, Debug)]
pub enum Event {
    /// Answer to the pending `RunProbe` directive.
    ProbeReply { state: StepState },
    /// Answer to the pending `Execute` directive.
    ActionReply { outcome: ActionOutcome },
    /// Answer to the pending `AskContinue` directive.
    AnswerReply { yes: bool },
}

/// A line of narration for the caller to render.  Steps and actions are
/// named by their position in the step table the engine was started with.
#[derive(Clone, Copy, PartialEq, Eq, Structural, Debug)]
pub enum Notice {
    /// The named step is being considered.
    StepBegin { step: usize },
    /// Its probe reported the step already satisfied; it is skipped.
    AlreadySatisfied { step: usize },
    /// Dry run: the plan of the step follows, one notice per action.
    PlanHeader { step: usize },
    /// Dry run: this action would run, in this position.
    PlannedAction { step: usize, action: usize },
    /// Dry run: the step would ask the operator whether to continue.
    PlannedConfirm { step: usize },
    /// The step completed its work.
    StepDone { step: usize },
    /// A best-effort repeat failed; the remaining repeats still run.
    BestEffortFailure { step: usize, action: usize },
    /// An action reported a business failure; the pipeline aborts.
    ActionFailure { step: usize, action: usize },
    /// An action could not be spawned; the pipeline aborts.
    SpawnFailure { step: usize, action: usize },
    /// A hard requirement is not satisfied; the pipeline aborts.
    RequirementMissing { step: usize },
    /// The operator declined to continue; the run ends cleanly.
    Declined,
    /// Every step completed or was skipped.
    PipelineDone,
}

/// One instruction to the caller.  Each batch the engine emits consists of
/// notices followed by at most one directive that demands a response or
/// ends the process.
#[derive(Clone, Copy, PartialEq, Eq, Structural, Debug)]
pub enum Directive {
    /// Run the probe of the given step and reply with a `ProbeReply`.
    RunProbe { step: usize },
    /// Execute the given action of the given step — the only mutating
    /// directive — and reply with an `ActionReply`.
    Execute { step: usize, action: usize },
    /// Render the notice; nothing is owed back.
    Report { notice: Notice },
    /// Ask the operator whether to continue and reply with an
    /// `AnswerReply`.
    AskContinue { step: usize },
    /// End the process with this exit code.
    Finish { code: u8 },
}

/// The orchestrator: the immutable run configuration and step table, and
/// the position the run has reached.
pub struct Engine {
    /// The run configuration, fixed at start.
    pub config: RunConfig,
    /// The step table, fixed at start, executed strictly in order.
    pub steps: Vec<Step>,
    /// Where the engine stands.
    pub phase: Phase,
    /// Index of the current step.
    pub cur: usize,
    /// Index of the pending action within the current step.
    pub act: usize,
}

impl Engine {
    /// Internal consistency: the position fields point into the table and
    /// fit the phase, and no action is ever awaited during a dry run.
    pub open spec fn wf(self) -> bool {
        let c = self.cur as int;
        &&& steps_wf(self.steps@)
        &&& (self.phase is AwaitProbe ==> self.cur < self.steps@.len()
            && self.steps@[c].probe is Some)
        &&& (self.phase is AwaitAction ==> {
            &&& self.cur < self.steps@.len()
            &&& self.act < self.steps@[c].actions@.len()
            &&& (self.steps@[c].kind is Fatal || self.steps@[c].kind is BestEffort)
            &&& !self.config.dry_run
        })
        &&& (self.phase is AwaitAnswer ==> self.cur < self.steps@.len()
            && self.steps@[c].kind is Confirm && !self.config.dry_run)
    }
}

/// The plan notices of a dry run over `n` actions of step `i`, in action
/// order.
pub open spec fn plan_items(i: int, n: int) -> Seq<Directive> {
    Seq::new(
        if 0 <= n {
            n as nat
        } else {
            0nat
        },
        |j: int| Directive::Report { notice: Notice::PlannedAction { step: i as usize, action: j as usize } },
    )
}

/// Entering step `i`: past the end of the table the pipeline is done;
/// a probed step announces itself and asks for its probe; an unprobed
/// step goes straight to planning.
pub open spec fn spec_enter(e: Engine, i: int) -> (Engine, Seq<Directive>)
    decreases e.steps@.len() - i, 1int,
{
    if i < 0 {
        (e, Seq::empty())
    } else if i >= e.steps@.len() {
        (
            Engine {
                config: e.config,
                steps: e.steps,
                phase: Phase::Done { verdict: PipelineResult::Success },
                cur: i as usize,
                act: 0,
            },
            seq![
                Directive::Report { notice: Notice::PipelineDone },
                Directive::Finish { code: 0 },
            ],
        )
    } else if e.steps@[i].probe is Some {
        (
            Engine {
                config: e.config,
                steps: e.steps,
                phase: Phase::AwaitProbe,
                cur: i as usize,
                act: 0,
            },
            seq![
                Directive::Report { notice: Notice::StepBegin { step: i as usize } },
                Directive::RunProbe { step: i as usize },
            ],
        )
    } else {
        let r = spec_plan(e, i);
        (r.0, seq![Directive::Report { notice: Notice::StepBegin { step: i as usize } }] + r.1)
    }
}

/// Planning step `i`, whose probe (if any) reported work to do: a missing
/// hard requirement aborts; a confirmation step asks (or, dry, only says
/// it would); otherwise the step prints its plan in a dry run and issues
/// its first action in a real one.
pub open spec fn spec_plan(e: Engine, i: int) -> (Engine, Seq<Directive>)
    decreases e.steps@.len() - i, 0int,
{
    if i < 0 || i >= e.steps@.len() {
        (e, Seq::empty())
    } else {
        let s = e.steps@[i];
        match s.kind {
            StepKind::Required => (
                Engine {
                    config: e.config,
                    steps: e.steps,
                    phase: Phase::Done {
                        verdict: PipelineResult::AbortedAt { step: i as usize },
                    },
                    cur: i as usize,
                    act: 0,
                },
                seq![
                    Directive::Report { notice: Notice::RequirementMissing { step: i as usize } },
                    Directive::Finish { code: 1 },
                ],
            ),
            StepKind::Confirm => if e.config.dry_run {
                let r = spec_enter(e, i + 1);
                (
                    r.0,
                    seq![
                        Directive::Report { notice: Notice::PlannedConfirm { step: i as usize } },
                    ] + r.1,
                )
            } else {
                (
                    Engine {
                        config: e.config,
                        steps: e.steps,
                        phase: Phase::AwaitAnswer,
                        cur: i as usize,
                        act: 0,
                    },
                    seq![Directive::AskContinue { step: i as usize }],
                )
            },
            _ => if e.config.dry_run {
                let r = spec_enter(e, i + 1);
                (
                    r.0,
                    seq![Directive::Report { notice: Notice::PlanHeader { step: i as usize } }]
                        + plan_items(i, s.actions@.len() as int) + r.1,
                )
            } else if s.actions@.len() == 0 {
                let r = spec_enter(e, i + 1);
                (
                    r.0,
                    seq![Directive::Report { notice: Notice::StepDone { step: i as usize } }]
                        + r.1,
                )
            } else {
                (
                    Engine {
                        config: e.config,
                        steps: e.steps,
                        phase: Phase::AwaitAction,
                        cur: i as usize,
                        act: 0,
                    },
                    seq![Directive::Execute { step: i as usize, action: 0 }],
                )
            },
        }
    }
}

/// A probe reply for the current step: satisfied skips the step, work to
/// do goes to planning.
pub open spec fn spec_on_probe(e: Engine, st: StepState) -> (Engine, Seq<Directive>) {
    if st is Satisfied {
        let r = spec_enter(e, e.cur + 1);
        (
            r.0,
            seq![Directive::Report { notice: Notice::AlreadySatisfied { step: e.cur } }] + r.1,
        )
    } else {
        spec_plan(e, e.cur as int)
    }
}

/// The pending action concluded (successfully or tolerably): issue the
/// next action of the step, or close the step and move on.
pub open spec fn spec_act_next(e: Engine) -> (Engine, Seq<Directive>) {
    if e.act + 1 < e.steps@[e.cur as int].actions@.len() {
        (
            Engine {
                config: e.config,
                steps: e.steps,
                phase: Phase::AwaitAction,
                cur: e.cur,
                act: (e.act + 1) as usize,
            },
            seq![Directive::Execute { step: e.cur, action: (e.act + 1) as usize }],
        )
    } else {
        let r = spec_enter(e, e.cur + 1);
        (r.0, seq![Directive::Report { notice: Notice::StepDone { step: e.cur } }] + r.1)
    }
}

/// An action reply for the pending action: success moves on; a business
/// failure aborts unless the step is best-effort, in which case it is
/// warned about and the remaining actions still run; a spawn failure
/// always aborts.
pub open spec fn spec_on_action(e: Engine, outcome: ActionOutcome) -> (Engine, Seq<Directive>) {
    match outcome {
        ActionOutcome::Exited { success } => {
            if success {
                spec_act_next(e)
            } else if e.steps@[e.cur as int].kind is BestEffort {
                let r = spec_act_next(e);
                (
                    r.0,
                    seq![
                        Directive::Report {
                            notice: Notice::BestEffortFailure { step: e.cur, action: e.act },
                        },
                    ] + r.1,
                )
            } else {
                (
                    Engine {
                        config: e.config,
                        steps: e.steps,
                        phase: Phase::Done { verdict: PipelineResult::AbortedAt { step: e.cur } },
                        cur: e.cur,
                        act: e.act,
                    },
                    seq![
                        Directive::Report {
                            notice: Notice::ActionFailure { step: e.cur, action: e.act },
                        },
                        Directive::Finish { code: 1 },
                    ],
                )
            }
        },
        ActionOutcome::SpawnError => (
            Engine {
                config: e.config,
                steps: e.steps,
                phase: Phase::Done { verdict: PipelineResult::AbortedAt { step: e.cur } },
                cur: e.cur,
                act: e.act,
            },
            seq![
                Directive::Report { notice: Notice::SpawnFailure { step: e.cur, action: e.act } },
                Directive::Finish { code: 1 },
            ],
        ),
    }
}

/// An answer to the pending confirmation: consent closes the step,
/// declining ends the run cleanly with a success exit code.
pub open spec fn spec_on_answer(e: Engine, yes: bool) -> (Engine, Seq<Directive>) {
    if yes {
        let r = spec_enter(e, e.cur + 1);
        (r.0, seq![Directive::Report { notice: Notice::StepDone { step: e.cur } }] + r.1)
    } else {
        (
            Engine {
                config: e.config,
                steps: e.steps,
                phase: Phase::Done { verdict: PipelineResult::Declined },
                cur: e.cur,
                act: 0,
            },
            seq![
                Directive::Report { notice: Notice::Declined },
                Directive::Finish { code: 0 },
            ],
        )
    }
}

/// One transition of the engine.  An event that does not answer the
/// pending directive is ignored: the engine stays put and emits nothing.
pub open spec fn spec_handle(e: Engine, event: Event) -> (Engine, Seq<Directive>) {
    match event {
        Event::ProbeReply { state } => if e.phase is AwaitProbe {
            spec_on_probe(e, state)
        } else {
            (e, Seq::empty())
        },
        Event::ActionReply { outcome } => if e.phase is AwaitAction {
            spec_on_action(e, outcome)
        } else {
            (e, Seq::empty())
        },
        Event::AnswerReply { yes } => if e.phase is AwaitAnswer {
            spec_on_answer(e, yes)
        } else {
            (e, Seq::empty())
        },
    }
}

/// The engine and first batch of directives a run begins with.  The
/// initial phase is a placeholder: entering step 0 decides the real one.
pub open spec fn spec_start(config: RunConfig, steps: Vec<Step>) -> (Engine, Seq<Directive>) {
    spec_enter(
        Engine {
            config,
            steps,
            phase: Phase::Done { verdict: PipelineResult::Success },
            cur: 0,
            act: 0,
        },
        0,
    )
}

/// No directive of the batch is a mutating `Execute`.
pub open spec fn no_executes(ds: Seq<Directive>) -> bool {
    forall|k: int| 0 <= k < ds.len() ==> !((#[trigger] ds[k]) is Execute)
}

/// Whether this directive, if it is an `Execute`, addresses step `lo` or a
/// later one.
pub open spec fn execute_not_before(d: Directive, lo: int) -> bool {
    match d {
        Directive::Execute { step, action } => lo <= step,
        _ => true,
    }
}

/// Every `Execute` of the batch addresses step `lo` or a later one.
pub open spec fn executes_from(ds: Seq<Directive>, lo: int) -> bool {
    forall|k: int| 0 <= k < ds.len() ==> execute_not_before(#[trigger] ds[k], lo)
}

/// Every directive of the batch is a notice.
pub open spec fn all_reports(ds: Seq<Directive>) -> bool {
    forall|k: int| 0 <= k < ds.len() ==> (#[trigger] ds[k]) is Report
}

/// Every directive before the last is a notice: the caller owes a
/// response only to the final directive of a batch.
pub open spec fn batch_shaped(ds: Seq<Directive>) -> bool {
    forall|k: int| 0 <= k < ds.len() - 1 ==> (#[trigger] ds[k]) is Report
}

/// The event answers the directive the engine is waiting on.
pub open spec fn event_fits(e: Engine, ev: Event) -> bool {
    match ev {
        Event::ProbeReply { state } => e.phase is AwaitProbe,
        Event::ActionReply { outcome } => e.phase is AwaitAction,
        Event::AnswerReply { yes } => e.phase is AwaitAnswer,
    }
}

/// In a dry run an abort can only name a hard-requirement step.
pub open spec fn dry_abort_ok(e: Engine) -> bool {
    e.phase matches Phase::Done { verdict: PipelineResult::AbortedAt { step } }
        ==> step < e.steps@.len() && e.steps@[step as int].kind is Required
}

pub(crate) proof fn lemma_no_executes_concat(a: Seq<Directive>, b: Seq<Directive>)
    requires
        no_executes(a),
        no_executes(b),
    ensures
        no_executes(a + b),
{
    assert forall|k: int| 0 <= k < (a + b).len() implies !((#[trigger] (a + b)[k]) is Execute) by {
        if k < a.len() {
            assert((a + b)[k] == a[k]);
        } else {
            assert((a + b)[k] == b[k - a.len()]);
        }
    }
}

pub(crate) proof fn lemma_executes_from_concat(a: Seq<Directive>, b: Seq<Directive>, lo: int)
    requires
        executes_from(a, lo),
        executes_from(b, lo),
    ensures
        executes_from(a + b, lo),
{
    assert forall|k: int| 0 <= k < (a + b).len() implies execute_not_before(
        #[trigger] (a + b)[k],
        lo,
    ) by {
        if k < a.len() {
            assert((a + b)[k] == a[k]);
        } else {
            assert((a + b)[k] == b[k - a.len()]);
        }
    }
}

pub(crate) proof fn lemma_executes_from_weaken(ds: Seq<Directive>, hi: int, lo: int)
    requires
        executes_from(ds, hi),
        lo <= hi,
    ensures
        executes_from(ds, lo),
{
}

/// Prepending notices to a shaped batch keeps it shaped and keeps its
/// final directive.
pub(crate) proof fn lemma_batch_concat(a: Seq<Directive>, b: Seq<Directive>)
    requires
        all_reports(a),
        batch_shaped(b),
    ensures
        batch_shaped(a + b),
        b.len() > 0 ==> (a + b).len() > 0 && (a + b).last() == b.last(),
{
    assert forall|k: int| 0 <= k < (a + b).len() - 1 implies (#[trigger] (a + b)[k])
        is Report by {
        if k < a.len() {
            assert((a + b)[k] == a[k]);
        } else {
            assert((a + b)[k] == b[k - a.len()]);
        }
    }
    if b.len() > 0 {
        assert((a + b).last() == b[b.len() - 1]);
    }
}

pub(crate) proof fn lemma_all_reports_concat(a: Seq<Directive>, b: Seq<Directive>)
    requires
        all_reports(a),
        all_reports(b),
    ensures
        all_reports(a + b),
{
    assert forall|k: int| 0 <= k < (a + b).len() implies (#[trigger] (a + b)[k]) is Report by {
        if k < a.len() {
            assert((a + b)[k] == a[k]);
        } else {
            assert((a + b)[k] == b[k - a.len()]);
        }
    }
}

pub(crate) proof fn lemma_single(a: Directive, lo: int)
    requires
        execute_not_before(a, lo),
    ensures
        executes_from(seq![a], lo),
        !(a is Execute) ==> no_executes(seq![a]),
        a is Report ==> all_reports(seq![a]),
        batch_shaped(seq![a]),
        seq![a].last() == a,
{
    let s = seq![a];
    assert forall|k: int| 0 <= k < s.len() implies execute_not_before(#[trigger] s[k], lo) by {
        assert(s[0] == a);
    }
    if !(a is Execute) {
        assert forall|k: int| 0 <= k < s.len() implies !((#[trigger] s[k]) is Execute) by {
            assert(s[0] == a);
        }
    }
    if a is Report {
        assert forall|k: int| 0 <= k < s.len() implies (#[trigger] s[k]) is Report by {
            assert(s[0] == a);
        }
    }
}

pub(crate) proof fn lemma_pair(a: Directive, b: Directive, lo: int)
    requires
        execute_not_before(a, lo),
        execute_not_before(b, lo),
    ensures
        executes_from(seq![a, b], lo),
        !(a is Execute) && !(b is Execute) ==> no_executes(seq![a, b]),
        a is Report ==> batch_shaped(seq![a, b]),
        seq![a, b].last() == b,
{
    let s = seq![a, b];
    if a is Report {
        assert forall|k: int| 0 <= k < s.len() - 1 implies (#[trigger] s[k]) is Report by {
            assert(s[0] == a);
        }
    }
    assert forall|k: int| 0 <= k < s.len() implies execute_not_before(#[trigger] s[k], lo) by {
        if k == 0 {
            assert(s[0] == a);
        } else {
            assert(s[1] == b);
        }
    }
    if !(a is Execute) && !(b is Execute) {
        assert forall|k: int| 0 <= k < s.len() implies !((#[trigger] s[k]) is Execute) by {
            if k == 0 {
                assert(s[0] == a);
            } else {
                assert(s[1] == b);
            }
        }
    }
}

proof fn lemma_plan_items_props(i: int, n: int, lo: int)
    ensures
        no_executes(plan_items(i, n)),
        executes_from(plan_items(i, n), lo),
        all_reports(plan_items(i, n)),
{
    let s = plan_items(i, n);
    assert forall|k: int| 0 <= k < s.len() implies !((#[trigger] s[k]) is Execute)
        && execute_not_before(s[k], lo) by {
        assert(s[k] == Directive::Report {
            notice: Notice::PlannedAction { step: i as usize, action: k as usize },
        });
    }
}

/// The facts every entry into a step preserves: the result is well formed,
/// the configuration and the table are untouched, the engine never stands
/// before step `i`, a dry run emits no `Execute` and can only abort at a
/// hard requirement, no emitted `Execute` addresses a step before `i`, and
/// a real (non-dry) entry that immediately finishes finishes successfully.
pub proof fn lemma_enter_props(e: Engine, i: int)
    requires
        steps_wf(e.steps@),
        0 <= i,
    ensures
        ({
            let r = spec_enter(e, i);
            &&& r.0.wf()
            &&& r.0.config == e.config
            &&& r.0.steps == e.steps
            &&& (r.0.phase is Done || (i <= r.0.cur < e.steps@.len()))
            &&& (e.config.dry_run ==> no_executes(r.1))
            &&& (e.config.dry_run ==> dry_abort_ok(r.0))
            &&& executes_from(r.1, i)
            &&& batch_shaped(r.1)
            &&& r.1.len() > 0 && !(r.1.last() is Report)
            &&& (!e.config.dry_run ==> (r.0.phase matches Phase::Done { verdict }
                ==> verdict is Success))
        }),
    decreases e.steps@.len() - i, 1int,
{
    assert(e.steps@.len() == e.steps.len());
    let r = spec_enter(e, i);
    if i >= e.steps@.len() {
        lemma_pair(
            Directive::Report { notice: Notice::PipelineDone },
            Directive::Finish { code: 0 },
            i,
        );
    } else if e.steps@[i].probe is Some {
        lemma_pair(
            Directive::Report { notice: Notice::StepBegin { step: i as usize } },
            Directive::RunProbe { step: i as usize },
            i,
        );
    } else {
        assert(step_wf(e.steps@[i]));
        lemma_plan_props(e, i);
        let p = spec_plan(e, i);
        lemma_single(Directive::Report { notice: Notice::StepBegin { step: i as usize } }, i);
        if e.config.dry_run {
            lemma_no_executes_concat(
                seq![Directive::Report { notice: Notice::StepBegin { step: i as usize } }],
                p.1,
            );
        }
        lemma_executes_from_concat(
            seq![Directive::Report { notice: Notice::StepBegin { step: i as usize } }],
            p.1,
            i,
        );
        lemma_batch_concat(
            seq![Directive::Report { notice: Notice::StepBegin { step: i as usize } }],
            p.1,
        );
    }
}

/// The same facts for planning a step; a plan of anything but a hard
/// requirement never turns into an immediate abort.
pub proof fn lemma_plan_props(e: Engine, i: int)
    requires
        steps_wf(e.steps@),
        0 <= i < e.steps@.len(),
    ensures
        ({
            let r = spec_plan(e, i);
            &&& r.0.wf()
            &&& r.0.config == e.config
            &&& r.0.steps == e.steps
            &&& (r.0.phase is Done || (i <= r.0.cur < e.steps@.len()))
            &&& (e.config.dry_run ==> no_executes(r.1))
            &&& (e.config.dry_run ==> dry_abort_ok(r.0))
            &&& executes_from(r.1, i)
            &&& batch_shaped(r.1)
            &&& r.1.len() > 0 && !(r.1.last() is Report)
            &&& (!e.config.dry_run && !(e.steps@[i].kind is Required) ==> (r.0.phase matches
                Phase::Done { verdict } ==> verdict is Success))
        }),
    decreases e.steps@.len() - i, 0int,
{
    assert(e.steps@.len() == e.steps.len());
    let r = spec_plan(e, i);
    let s = e.steps@[i];
    assert(step_wf(s));
    match s.kind {
        StepKind::Required => {
            lemma_pair(
                Directive::Report { notice: Notice::RequirementMissing { step: i as usize } },
                Directive::Finish { code: 1 },
                i,
            );
        },
        StepKind::Confirm => {
            if e.config.dry_run {
                lemma_enter_props(e, i + 1);
                let n = spec_enter(e, i + 1);
                let front = seq![
                    Directive::Report { notice: Notice::PlannedConfirm { step: i as usize } },
                ];
                lemma_single(
                    Directive::Report { notice: Notice::PlannedConfirm { step: i as usize } },
                    i,
                );
                lemma_no_executes_concat(front, n.1);
                lemma_executes_from_weaken(n.1, i + 1, i);
                lemma_executes_from_concat(front, n.1, i);
                lemma_batch_concat(front, n.1);
            } else {
                lemma_single(Directive::AskContinue { step: i as usize }, i);
            }
        },
        _ => {
            if e.config.dry_run {
                lemma_enter_props(e, i + 1);
                let n = spec_enter(e, i + 1);
                let header = seq![
                    Directive::Report { notice: Notice::PlanHeader { step: i as usize } },
                ];
                let front = header + plan_items(i, s.actions@.len() as int);
                lemma_single(
                    Directive::Report { notice: Notice::PlanHeader { step: i as usize } },
                    i,
                );
                lemma_plan_items_props(i, s.actions@.len() as int, i);
                lemma_no_executes_concat(header, plan_items(i, s.actions@.len() as int));
                lemma_executes_from_concat(header, plan_items(i, s.actions@.len() as int), i);
                lemma_no_executes_concat(front, n.1);
                lemma_executes_from_weaken(n.1, i + 1, i);
                lemma_executes_from_concat(front, n.1, i);
                lemma_all_reports_concat(header, plan_items(i, s.actions@.len() as int));
                lemma_batch_concat(front, n.1);
                assert(r.1 == front + n.1);
            } else if s.actions@.len() == 0 {
                lemma_enter_props(e, i + 1);
                let n = spec_enter(e, i + 1);
                lemma_single(
                    Directive::Report { notice: Notice::StepDone { step: i as usize } },
                    i,
                );
                lemma_executes_from_weaken(n.1, i + 1, i);
                lemma_executes_from_concat(
                    seq![Directive::Report { notice: Notice::StepDone { step: i as usize } }],
                    n.1,
                    i,
                );
                lemma_batch_concat(
                    seq![Directive::Report { notice: Notice::StepDone { step: i as usize } }],
                    n.1,
                );
            } else {
                lemma_single(Directive::Execute { step: i as usize, action: 0 }, i);
            }
        },
    }
}

impl Engine {
    /// Starts a run: builds the engine over the given configuration and
    /// step table and returns it with the first batch of directives.
    pub fn start(config: RunConfig, steps: Vec<Step>) -> (r: (Engine, Vec<Directive>))
        requires
            steps_wf(steps@),
        ensures
            r.0 == spec_start(config, steps).0,
            r.1@ == spec_start(config, steps).1,
            r.0.wf(),
            batch_shaped(r.1@),
            r.1@.len() > 0 && !(r.1@.last() is Report),
    {
        let eng = Engine {
            config,
            steps,
            phase: Phase::Done { verdict: PipelineResult::Success },
            cur: 0,
            act: 0,
        };
        proof {
            lemma_enter_props(eng, 0);
        }
        eng.enter(0)
    }

    /// Feeds one event to the engine and returns the next batch of
    /// directives.  An event that does not answer the pending directive is
    /// ignored.
    pub fn handle(self, event: Event) -> (r: (Engine, Vec<Directive>))
        requires
            self.wf(),
        ensures
            r.0 == spec_handle(self, event).0,
            r.1@ == spec_handle(self, event).1,
            r.0.wf(),
            batch_shaped(r.1@),
            event_fits(self, event) ==> r.1@.len() > 0 && !(r.1@.last() is Report),
    {
        proof {
            lemma_handle_props(self, event);
        }
        match event {
            Event::ProbeReply { state } => {
                match self.phase {
                    Phase::AwaitProbe => self.on_probe(state),
                    _ => (self, Vec::new()),
                }
            },
            Event::ActionReply { outcome } => {
                match self.phase {
                    Phase::AwaitAction => self.on_action(outcome),
                    _ => (self, Vec::new()),
                }
            },
            Event::AnswerReply { yes } => {
                match self.phase {
                    Phase::AwaitAnswer => self.on_answer(yes),
                    _ => (self, Vec::new()),
                }
            },
        }
    }

    /// Executable mirror of [`spec_enter`].
    fn enter(self, i: usize) -> (r: (Engine, Vec<Directive>))
        requires
            steps_wf(self.steps@),
            i <= self.steps@.len(),
        ensures
            r.0 == spec_enter(self, i as int).0,
            r.1@ == spec_enter(self, i as int).1,
        decreases self.steps@.len() - i, 1int,
    {
        let ghost g = spec_enter(self, i as int);
        if i == self.steps.len() {
            let eng = Engine {
                config: self.config,
                steps: self.steps,
                phase: Phase::Done { verdict: PipelineResult::Success },
                cur: i,
                act: 0,
            };
            let mut out: Vec<Directive> = Vec::new();
            out.push(Directive::Report { notice: Notice::PipelineDone });
            out.push(Directive::Finish { code: 0 });
            proof {
                assert(out@ =~= g.1);
            }
            (eng, out)
        } else if self.steps[i].probe.is_some() {
            let eng = Engine {
                config: self.config,
                steps: self.steps,
                phase: Phase::AwaitProbe,
                cur: i,
                act: 0,
            };
            let mut out: Vec<Directive> = Vec::new();
            out.push(Directive::Report { notice: Notice::StepBegin { step: i } });
            out.push(Directive::RunProbe { step: i });
            proof {
                assert(out@ =~= g.1);
            }
            (eng, out)
        } else {
            let (eng, mut tail) = self.plan(i);
            let mut out: Vec<Directive> = Vec::new();
            out.push(Directive::Report { notice: Notice::StepBegin { step: i } });
            out.append(&mut tail);
            proof {
                assert(out@ =~= g.1);
            }
            (eng, out)
        }
    }

    /// Executable mirror of [`spec_plan`].
    fn plan(self, i: usize) -> (r: (Engine, Vec<Directive>))
        requires
            steps_wf(self.steps@),
            i < self.steps@.len(),
        ensures
            r.0 == spec_plan(self, i as int).0,
            r.1@ == spec_plan(self, i as int).1,
        decreases self.steps@.len() - i, 0int,
    {
        let ghost g = spec_plan(self, i as int);
        let nsteps = self.steps.len();
        match self.steps[i].kind {
            StepKind::Required => {
                let eng = Engine {
                    config: self.config,
                    steps: self.steps,
                    phase: Phase::Done { verdict: PipelineResult::AbortedAt { step: i } },
                    cur: i,
                    act: 0,
                };
                let mut out: Vec<Directive> = Vec::new();
                out.push(Directive::Report { notice: Notice::RequirementMissing { step: i } });
                out.push(Directive::Finish { code: 1 });
                proof {
                    assert(out@ =~= g.1);
                }
                (eng, out)
            },
            StepKind::Confirm => {
                if self.config.dry_run {
                    let (eng, mut tail) = self.enter(i + 1);
                    let mut out: Vec<Directive> = Vec::new();
                    out.push(Directive::Report { notice: Notice::PlannedConfirm { step: i } });
                    out.append(&mut tail);
                    proof {
                        assert(out@ =~= g.1);
                    }
                    (eng, out)
                } else {
                    let eng = Engine {
                        config: self.config,
                        steps: self.steps,
                        phase: Phase::AwaitAnswer,
                        cur: i,
                        act: 0,
                    };
                    let mut out: Vec<Directive> = Vec::new();
                    out.push(Directive::AskContinue { step: i });
                    proof {
                        assert(out@ =~= g.1);
                    }
                    (eng, out)
                }
            },
            _ => {
                if self.config.dry_run {
                    let n = self.steps[i].actions.len();
                    let mut out: Vec<Directive> = Vec::new();
                    out.push(Directive::Report { notice: Notice::PlanHeader { step: i } });
                    let mut j: usize = 0;
                    while j < n
                        invariant
                            j <= n,
                            n == self.steps@[i as int].actions@.len(),
                            i < self.steps@.len(),
                            out@ == seq![
                                Directive::Report { notice: Notice::PlanHeader { step: i } },
                            ] + plan_items(i as int, j as int),
                        decreases n - j,
                    {
                        out.push(
                            Directive::Report {
                                notice: Notice::PlannedAction { step: i, action: j },
                            },
                        );
                        proof {
                            assert(out@ =~= seq![
                                Directive::Report { notice: Notice::PlanHeader { step: i } },
                            ] + plan_items(i as int, j + 1));
                        }
                        j = j + 1;
                    }
                    let (eng, mut tail) = self.enter(i + 1);
                    out.append(&mut tail);
                    proof {
                        assert(out@ =~= g.1);
                    }
                    (eng, out)
                } else if self.steps[i].actions.len() == 0 {
                    let (eng, mut tail) = self.enter(i + 1);
                    let mut out: Vec<Directive> = Vec::new();
                    out.push(Directive::Report { notice: Notice::StepDone { step: i } });
                    out.append(&mut tail);
                    proof {
                        assert(out@ =~= g.1);
                    }
                    (eng, out)
                } else {
                    let eng = Engine {
                        config: self.config,
                        steps: self.steps,
                        phase: Phase::AwaitAction,
                        cur: i,
                        act: 0,
                    };
                    let mut out: Vec<Directive> = Vec::new();
                    out.push(Directive::Execute { step: i, action: 0 });
                    proof {
                        assert(out@ =~= g.1);
                    }
                    (eng, out)
                }
            },
        }
    }

    /// Executable mirror of [`spec_on_probe`].
    fn on_probe(self, st: StepState) -> (r: (Engine, Vec<Directive>))
        requires
            self.wf(),
            self.phase is AwaitProbe,
        ensures
            r.0 == spec_on_probe(self, st).0,
            r.1@ == spec_on_probe(self, st).1,
    {
        let ghost g = spec_on_probe(self, st);
        let nsteps = self.steps.len();
        let cur = self.cur;
        match st {
            StepState::Satisfied => {
                let (eng, mut tail) = self.enter(cur + 1);
                let mut out: Vec<Directive> = Vec::new();
                out.push(Directive::Report { notice: Notice::AlreadySatisfied { step: cur } });
                out.append(&mut tail);
                proof {
                    assert(out@ =~= g.1);
                }
                (eng, out)
            },
            StepState::NotSatisfied => self.plan(cur),
        }
    }

    /// Executable mirror of [`spec_act_next`].
    fn act_next(self) -> (r: (Engine, Vec<Directive>))
        requires
            self.wf(),
            self.phase is AwaitAction,
        ensures
            r.0 == spec_act_next(self).0,
            r.1@ == spec_act_next(self).1,
    {
        let ghost g = spec_act_next(self);
        let nsteps = self.steps.len();
        let i = self.cur;
        let j = self.act;
        let nacts = self.steps[i].actions.len();
        if j + 1 < nacts {
            let eng = Engine {
                config: self.config,
                steps: self.steps,
                phase: Phase::AwaitAction,
                cur: i,
                act: j + 1,
            };
            let mut out: Vec<Directive> = Vec::new();
            out.push(Directive::Execute { step: i, action: j + 1 });
            proof {
                assert(out@ =~= g.1);
            }
            (eng, out)
        } else {
            let (eng, mut tail) = self.enter(i + 1);
            let mut out: Vec<Directive> = Vec::new();
            out.push(Directive::Report { notice: Notice::StepDone { step: i } });
            out.append(&mut tail);
            proof {
                assert(out@ =~= g.1);
            }
            (eng, out)
        }
    }

    /// Executable mirror of [`spec_on_action`].
    fn on_action(self, outcome: ActionOutcome) -> (r: (Engine, Vec<Directive>))
        requires
            self.wf(),
            self.phase is AwaitAction,
        ensures
            r.0 == spec_on_action(self, outcome).0,
            r.1@ == spec_on_action(self, outcome).1,
    {
        let ghost g = spec_on_action(self, outcome);
        let i = self.cur;
        let j = self.act;
        match outcome {
            ActionOutcome::Exited { success } => {
                if success {
                    self.act_next()
                } else {
                    let best_effort = match self.steps[i].kind {
                        StepKind::BestEffort => true,
                        _ => false,
                    };
                    if best_effort {
                        let (eng, mut tail) = self.act_next();
                        let mut out: Vec<Directive> = Vec::new();
                        out.push(
                            Directive::Report {
                                notice: Notice::BestEffortFailure { step: i, action: j },
                            },
                        );
                        out.append(&mut tail);
                        proof {
                            assert(out@ =~= g.1);
                        }
                        (eng, out)
                    } else {
                        let eng = Engine {
                            config: self.config,
                            steps: self.steps,
                            phase: Phase::Done { verdict: PipelineResult::AbortedAt { step: i } },
                            cur: i,
                            act: j,
                        };
                        let mut out: Vec<Directive> = Vec::new();
                        out.push(
                            Directive::Report {
                                notice: Notice::ActionFailure { step: i, action: j },
                            },
                        );
                        out.push(Directive::Finish { code: 1 });
                        proof {
                            assert(out@ =~= g.1);
                        }
                        (eng, out)
                    }
                }
            },
            ActionOutcome::SpawnError => {
                let eng = Engine {
                    config: self.config,
                    steps: self.steps,
                    phase: Phase::Done { verdict: PipelineResult::AbortedAt { step: i } },
                    cur: i,
                    act: j,
                };
                let mut out: Vec<Directive> = Vec::new();
                out.push(Directive::Report { notice: Notice::SpawnFailure { step: i, action: j } });
                out.push(Directive::Finish { code: 1 });
                proof {
                    assert(out@ =~= g.1);
                }
                (eng, out)
            },
        }
    }

    /// Executable mirror of [`spec_on_answer`].
    fn on_answer(self, yes: bool) -> (r: (Engine, Vec<Directive>))
        requires
            self.wf(),
            self.phase is AwaitAnswer,
        ensures
            r.0 == spec_on_answer(self, yes).0,
            r.1@ == spec_on_answer(self, yes).1,
    {
        let ghost g = spec_on_answer(self, yes);
        let nsteps = self.steps.len();
        let cur = self.cur;
        if yes {
            let (eng, mut tail) = self.enter(cur + 1);
            let mut out: Vec<Directive> = Vec::new();
            out.push(Directive::Report { notice: Notice::StepDone { step: cur } });
            out.append(&mut tail);
            proof {
                assert(out@ =~= g.1);
            }
            (eng, out)
        } else {
            let eng = Engine {
                config: self.config,
                steps: self.steps,
                phase: Phase::Done { verdict: PipelineResult::Declined },
                cur: cur,
                act: 0,
            };
            let mut out: Vec<Directive> = Vec::new();
            out.push(Directive::Report { notice: Notice::Declined });
            out.push(Directive::Finish { code: 0 });
            proof {
                assert(out@ =~= g.1);
            }
            (eng, out)
        }
    }
}

/// The facts every transition preserves: the result is well formed, the
/// configuration and the table are untouched, a dry run emits no `Execute`
/// and can only abort at a hard requirement, and no emitted `Execute`
/// addresses a step before the current one.
pub proof fn lemma_handle_props(e: Engine, event: Event)
    requires
        e.wf(),
    ensures
        ({
            let r = spec_handle(e, event);
            &&& r.0.wf()
            &&& r.0.config == e.config
            &&& r.0.steps == e.steps
            &&& (e.config.dry_run ==> no_executes(r.1))
            &&& (e.config.dry_run && dry_abort_ok(e) ==> dry_abort_ok(r.0))
            &&& executes_from(r.1, e.cur as int)
            &&& batch_shaped(r.1)
            &&& (event_fits(e, event) ==> r.1.len() > 0 && !(r.1.last() is Report))
            &&& (r.0.phase is Done || r.0.cur >= e.cur)
        }),
{
    assert(e.steps@.len() == e.steps.len());
    let r = spec_handle(e, event);
    match event {
        Event::ProbeReply { state } => {
            if e.phase is AwaitProbe {
                if state is Satisfied {
                    lemma_enter_props(e, e.cur + 1);
                    let n = spec_enter(e, e.cur + 1);
                    if e.config.dry_run {
                        lemma_no_executes_concat(
                            seq![
                                Directive::Report {
                                    notice: Notice::AlreadySatisfied { step: e.cur },
                                },
                            ],
                            n.1,
                        );
                    }
                    lemma_executes_from_weaken(n.1, e.cur + 1, e.cur as int);
                    lemma_executes_from_concat(
                        seq![
                            Directive::Report { notice: Notice::AlreadySatisfied { step: e.cur } },
                        ],
                        n.1,
                        e.cur as int,
                    );
                    lemma_single(
                        Directive::Report { notice: Notice::AlreadySatisfied { step: e.cur } },
                        0,
                    );
                    lemma_batch_concat(
                        seq![
                            Directive::Report { notice: Notice::AlreadySatisfied { step: e.cur } },
                        ],
                        n.1,
                    );
                } else {
                    lemma_plan_props(e, e.cur as int);
                }
            }
        },
        Event::ActionReply { outcome } => {
            if e.phase is AwaitAction {
                lemma_act_next_props(e);
                let n = spec_act_next(e);
                match outcome {
                    ActionOutcome::Exited { success } => {
                        if !success && e.steps@[e.cur as int].kind is BestEffort {
                            lemma_executes_from_concat(
                                seq![
                                    Directive::Report {
                                        notice: Notice::BestEffortFailure {
                                            step: e.cur,
                                            action: e.act,
                                        },
                                    },
                                ],
                                n.1,
                                e.cur as int,
                            );
                            lemma_single(
                                Directive::Report {
                                    notice: Notice::BestEffortFailure {
                                        step: e.cur,
                                        action: e.act,
                                    },
                                },
                                0,
                            );
                            lemma_batch_concat(
                                seq![
                                    Directive::Report {
                                        notice: Notice::BestEffortFailure {
                                            step: e.cur,
                                            action: e.act,
                                        },
                                    },
                                ],
                                n.1,
                            );
                        }
                    },
                    ActionOutcome::SpawnError => {
                        lemma_pair(
                            Directive::Report {
                                notice: Notice::SpawnFailure { step: e.cur, action: e.act },
                            },
                            Directive::Finish { code: 1 },
                            0,
                        );
                    },
                }
            }
        },
        Event::AnswerReply { yes } => {
            if e.phase is AwaitAnswer {
                if yes {
                    lemma_enter_props(e, e.cur + 1);
                    let n = spec_enter(e, e.cur + 1);
                    lemma_executes_from_weaken(n.1, e.cur + 1, e.cur as int);
                    lemma_executes_from_concat(
                        seq![Directive::Report { notice: Notice::StepDone { step: e.cur } }],
                        n.1,
                        e.cur as int,
                    );
                    lemma_single(
                        Directive::Report { notice: Notice::StepDone { step: e.cur } },
                        0,
                    );
                    lemma_batch_concat(
                        seq![Directive::Report { notice: Notice::StepDone { step: e.cur } }],
                        n.1,
                    );
                } else {
                    lemma_pair(
                        Directive::Report { notice: Notice::Declined },
                        Directive::Finish { code: 0 },
                        0,
                    );
                }
            }
        },
    }
}

/// The same facts for closing or continuing the pending action.
proof fn lemma_act_next_props(e: Engine)
    requires
        e.wf(),
        e.phase is AwaitAction,
    ensures
        ({
            let r = spec_act_next(e);
            &&& r.0.wf()
            &&& r.0.config == e.config
            &&& r.0.steps == e.steps
            &&& executes_from(r.1, e.cur as int)
            &&& batch_shaped(r.1)
            &&& r.1.len() > 0 && !(r.1.last() is Report)
            &&& (r.0.phase is Done || r.0.cur >= e.cur)
        }),
{
    assert(e.steps@.len() == e.steps.len());
    let r = spec_act_next(e);
    if e.act + 1 < e.steps@[e.cur as int].actions@.len() {
        lemma_single(
            Directive::Execute { step: e.cur, action: (e.act + 1) as usize },
            e.cur as int,
        );
    } else {
        lemma_enter_props(e, e.cur + 1);
        let n = spec_enter(e, e.cur + 1);
        lemma_executes_from_weaken(n.1, e.cur + 1, e.cur as int);
        lemma_executes_from_concat(
            seq![Directive::Report { notice: Notice::StepDone { step: e.cur } }],
            n.1,
            e.cur as int,
        );
    }
}

} // verus!
