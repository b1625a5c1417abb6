//! The laws of the pipeline, proved over whole runs.
//!
//! [`spec_run`] folds any sequence of events through the engine's
//! transition function and collects every directive emitted on the way.
//! The proof functions below state, over that fold, what the pipeline
//! guarantees: a dry run mutates nothing, a satisfied step is never acted
//! on, a fully-satisfied system is re-provisioned without a single
//! mutating call, a fatal failure stops everything, and a best-effort
//! step carries on past a failed repeat.

use crate::args::RunConfig;
use crate::engine::ActionOutcome;
use crate::engine::Directive;
use crate::engine::Engine;
use crate::engine::Event;
use crate::engine::Notice;
use crate::engine::Phase;
use crate::engine::dry_abort_ok;
use crate::engine::executes_from;
use crate::engine::lemma_enter_props;
use crate::engine::lemma_executes_from_concat;
use crate::engine::lemma_executes_from_weaken;
use crate::engine::lemma_handle_props;
use crate::engine::lemma_no_executes_concat;
use crate::engine::lemma_pair;
use crate::engine::lemma_single;
use crate::engine::no_executes;
use crate::engine::plan_items;
use crate::engine::spec_enter;
use crate::engine::spec_handle;
use crate::engine::spec_plan;
use crate::engine::spec_start;
use crate::model::PipelineResult;
use crate::model::Step;
use crate::model::StepKind;
use crate::model::StepState;
use crate::model::spec_exit_code;
use crate::model::steps_wf;
use vstd::prelude::*;

verus! {

/// The whole run from state `e` over the events `evs`: the final engine
/// and every directive emitted along the way, in order.
pub open spec fn spec_run(e: Engine, evs: Seq<Event>) -> (Engine, Seq<Directive>)
    decreases evs.len(),
{
    if evs.len() == 0 {
        (e, Seq::empty())
    } else {
        let h = spec_handle(e, evs[0]);
        let rest = spec_run(h.0, evs.drop_first());
        (rest.0, h.1 + rest.1)
    }
}

/// What every run preserves: well-formedness, the configuration and the
/// step table (the run configuration is resolved once and never changes),
/// and in a dry run the absence of any `Execute` directive, with an abort
/// possible only at a hard-requirement step.
pub proof fn lemma_run_props(e: Engine, evs: Seq<Event>)
    requires
        e.wf(),
    ensures
        ({
            let r = spec_run(e, evs);
            &&& r.0.wf()
            &&& r.0.config == e.config
            &&& r.0.steps == e.steps
            &&& (e.config.dry_run ==> no_executes(r.1))
            &&& (e.config.dry_run && dry_abort_ok(e) ==> dry_abort_ok(r.0))
        }),
    decreases evs.len(),
{
    if evs.len() > 0 {
        lemma_handle_props(e, evs[0]);
        let h = spec_handle(e, evs[0]);
        lemma_run_props(h.0, evs.drop_first());
        if e.config.dry_run {
            lemma_no_executes_concat(h.1, spec_run(h.0, evs.drop_first()).1);
        }
    }
}

/// Once the engine is done it stays done: no event moves it and nothing
/// further is ever emitted.
pub proof fn lemma_done_is_final(e: Engine, evs: Seq<Event>)
    requires
        e.phase is Done,
    ensures
        spec_run(e, evs).0 == e,
        spec_run(e, evs).1 == Seq::<Directive>::empty(),
    decreases evs.len(),
{
    if evs.len() > 0 {
        lemma_done_is_final(e, evs.drop_first());
        assert(spec_run(e, evs).1 =~= Seq::<Directive>::empty());
    }
}

/// Steps run strictly in order: once the engine stands at step `lo`, no
/// later directive ever executes an action of an earlier step.
pub proof fn lemma_run_executes_from(e: Engine, evs: Seq<Event>, lo: int)
    requires
        e.wf(),
        e.phase is Done || e.cur >= lo,
    ensures
        executes_from(spec_run(e, evs).1, lo),
        spec_run(e, evs).0.phase is Done || spec_run(e, evs).0.cur >= lo,
    decreases evs.len(),
{
    if evs.len() > 0 {
        lemma_handle_props(e, evs[0]);
        let h = spec_handle(e, evs[0]);
        if e.phase is Done {
            lemma_done_is_final(e, evs);
            lemma_run_executes_from(h.0, evs.drop_first(), lo);
        } else {
            lemma_executes_from_weaken(h.1, e.cur as int, lo);
            lemma_run_executes_from(h.0, evs.drop_first(), lo);
            lemma_executes_from_concat(h.1, spec_run(h.0, evs.drop_first()).1, lo);
        }
    }
}

/// Law: a dry run executes nothing.  Whatever the probes and the operator
/// answer, a run started with `dry_run` set emits no `Execute` directive —
/// neither in its first batch nor after any sequence of events — and the
/// only abort it can ever reach names a hard-requirement step.
pub proof fn lemma_dry_run_executes_nothing(config: RunConfig, steps: Vec<Step>, evs: Seq<Event>)
    requires
        config.dry_run,
        steps_wf(steps@),
    ensures
        ({
            let s = spec_start(config, steps);
            let r = spec_run(s.0, evs);
            &&& no_executes(s.1)
            &&& no_executes(r.1)
            &&& dry_abort_ok(r.0)
        }),
{
    let e0 = Engine {
        config,
        steps,
        phase: Phase::Done { verdict: PipelineResult::Success },
        cur: 0,
        act: 0,
    };
    lemma_enter_props(e0, 0);
    let s = spec_start(config, steps);
    lemma_run_props(s.0, evs);
}

/// A directive that mutates nothing and demands nothing of the operator:
/// narration, a probe, or the final exit.
pub open spec fn inert_directive(d: Directive) -> bool {
    match d {
        Directive::Report { notice } => true,
        Directive::RunProbe { step } => true,
        Directive::Finish { code } => true,
        Directive::Execute { step, action } => false,
        Directive::AskContinue { step } => false,
    }
}

pub open spec fn all_inert(ds: Seq<Directive>) -> bool {
    forall|k: int| 0 <= k < ds.len() ==> inert_directive(#[trigger] ds[k])
}

proof fn lemma_inert_concat(a: Seq<Directive>, b: Seq<Directive>)
    requires
        all_inert(a),
        all_inert(b),
    ensures
        all_inert(a + b),
{
    assert forall|k: int| 0 <= k < (a + b).len() implies inert_directive(
        #[trigger] (a + b)[k],
    ) by {
        if k < a.len() {
            assert((a + b)[k] == a[k]);
        } else {
            assert((a + b)[k] == b[k - a.len()]);
        }
    }
}

proof fn lemma_inert_pair(a: Directive, b: Directive)
    requires
        inert_directive(a),
        inert_directive(b),
    ensures
        all_inert(seq![a, b]),
{
    let s = seq![a, b];
    assert forall|k: int| 0 <= k < s.len() implies inert_directive(#[trigger] s[k]) by {
        if k == 0 {
            assert(s[0] == a);
        } else {
            assert(s[1] == b);
        }
    }
}

proof fn lemma_inert_single(a: Directive)
    requires
        inert_directive(a),
    ensures
        all_inert(seq![a]),
{
    let t = seq![a];
    assert forall|k: int| 0 <= k < t.len() implies inert_directive(#[trigger] t[k]) by {
        assert(t[0] == a);
    }
}

proof fn lemma_enter_inert(e: Engine, i: int)
    requires
        steps_wf(e.steps@),
        e.config.dry_run,
        0 <= i,
    ensures
        all_inert(spec_enter(e, i).1),
    decreases e.steps@.len() - i, 1int,
{
    assert(e.steps@.len() == e.steps.len());
    if i >= e.steps@.len() {
        lemma_inert_pair(
            Directive::Report { notice: Notice::PipelineDone },
            Directive::Finish { code: 0 },
        );
    } else if e.steps@[i].probe is Some {
        lemma_inert_pair(
            Directive::Report { notice: Notice::StepBegin { step: i as usize } },
            Directive::RunProbe { step: i as usize },
        );
    } else {
        lemma_plan_inert(e, i);
        lemma_inert_single(Directive::Report { notice: Notice::StepBegin { step: i as usize } });
        lemma_inert_concat(
            seq![Directive::Report { notice: Notice::StepBegin { step: i as usize } }],
            spec_plan(e, i).1,
        );
    }
}

proof fn lemma_plan_inert(e: Engine, i: int)
    requires
        steps_wf(e.steps@),
        e.config.dry_run,
        0 <= i < e.steps@.len(),
    ensures
        all_inert(spec_plan(e, i).1),
    decreases e.steps@.len() - i, 0int,
{
    assert(e.steps@.len() == e.steps.len());
    let s = e.steps@[i];
    match s.kind {
        StepKind::Required => {
            lemma_inert_pair(
                Directive::Report { notice: Notice::RequirementMissing { step: i as usize } },
                Directive::Finish { code: 1 },
            );
        },
        StepKind::Confirm => {
            lemma_enter_inert(e, i + 1);
            let front = seq![
                Directive::Report { notice: Notice::PlannedConfirm { step: i as usize } },
            ];
            lemma_inert_single(front[0]);
            lemma_inert_concat(front, spec_enter(e, i + 1).1);
        },
        _ => {
            lemma_enter_inert(e, i + 1);
            let header = seq![
                Directive::Report { notice: Notice::PlanHeader { step: i as usize } },
            ];
            let items = plan_items(i, s.actions@.len() as int);
            assert forall|k: int| 0 <= k < items.len() implies inert_directive(
                #[trigger] items[k],
            ) by {
                assert(items[k] == Directive::Report {
                    notice: Notice::PlannedAction { step: i as usize, action: k as usize },
                });
            }
            lemma_inert_single(header[0]);
            lemma_inert_concat(header, items);
            lemma_inert_concat(header + items, spec_enter(e, i + 1).1);
        },
    }
}

proof fn lemma_handle_inert(e: Engine, ev: Event)
    requires
        e.wf(),
        e.config.dry_run,
    ensures
        all_inert(spec_handle(e, ev).1),
{
    assert(e.steps@.len() == e.steps.len());
    match ev {
        Event::ProbeReply { state } => {
            if e.phase is AwaitProbe {
                if state is Satisfied {
                    lemma_enter_inert(e, e.cur + 1);
                    let front = seq![
                        Directive::Report { notice: Notice::AlreadySatisfied { step: e.cur } },
                    ];
                    lemma_inert_single(front[0]);
                    lemma_inert_concat(front, spec_enter(e, e.cur + 1).1);
                } else {
                    lemma_plan_inert(e, e.cur as int);
                }
            }
        },
        // A dry run never awaits an action or an answer, so these events
        // are ignored and nothing is emitted.
        Event::ActionReply { outcome } => {},
        Event::AnswerReply { yes } => {},
    }
}

proof fn lemma_run_inert(e: Engine, evs: Seq<Event>)
    requires
        e.wf(),
        e.config.dry_run,
    ensures
        all_inert(spec_run(e, evs).1),
    decreases evs.len(),
{
    if evs.len() > 0 {
        lemma_handle_props(e, evs[0]);
        lemma_handle_inert(e, evs[0]);
        let h = spec_handle(e, evs[0]);
        lemma_run_inert(h.0, evs.drop_first());
        lemma_inert_concat(h.1, spec_run(h.0, evs.drop_first()).1);
    }
}

/// Law: a dry run is inert beyond probing.  Every directive a dry run ever
/// emits is narration, a probe, or the final exit: it neither executes an
/// action nor prompts the operator.
pub proof fn lemma_dry_run_is_inert(config: RunConfig, steps: Vec<Step>, evs: Seq<Event>)
    requires
        config.dry_run,
        steps_wf(steps@),
    ensures
        ({
            let s = spec_start(config, steps);
            let r = spec_run(s.0, evs);
            &&& all_inert(s.1)
            &&& all_inert(r.1)
        }),
{
    let e0 = Engine {
        config,
        steps,
        phase: Phase::Done { verdict: PipelineResult::Success },
        cur: 0,
        act: 0,
    };
    lemma_enter_props(e0, 0);
    lemma_enter_inert(e0, 0);
    lemma_run_inert(spec_start(config, steps).0, evs);
}

/// Law: a step whose probe reports `Satisfied` is skipped.  After such a
/// probe reply for the current step, neither the transition itself nor any
/// later one executes an action of that step (or of any earlier one).
pub proof fn lemma_satisfied_step_is_skipped(e: Engine, evs: Seq<Event>)
    requires
        e.wf(),
        e.phase is AwaitProbe,
    ensures
        ({
            let h = spec_handle(e, Event::ProbeReply { state: StepState::Satisfied });
            let r = spec_run(h.0, evs);
            &&& executes_from(h.1, e.cur + 1)
            &&& executes_from(r.1, e.cur + 1)
        }),
{
    assert(e.steps@.len() == e.steps.len());
    let h = spec_handle(e, Event::ProbeReply { state: StepState::Satisfied });
    lemma_enter_props(e, e.cur + 1);
    let n = spec_enter(e, e.cur + 1);
    lemma_single(
        Directive::Report { notice: Notice::AlreadySatisfied { step: e.cur } },
        e.cur + 1,
    );
    lemma_executes_from_concat(
        seq![Directive::Report { notice: Notice::AlreadySatisfied { step: e.cur } }],
        n.1,
        e.cur + 1,
    );
    lemma_run_executes_from(h.0, evs, e.cur + 1);
}

/// Every step of the table carries an idempotence probe, except the
/// confirmation steps, which have nothing to re-do.
pub open spec fn fully_probed(steps: Seq<Step>) -> bool {
    forall|i: int|
        0 <= i < steps.len() ==> ((#[trigger] steps[i]).probe is Some || steps[i].kind is Confirm)
}

/// An event as a second run over an already-provisioned system sees them:
/// every probe finds its step satisfied, and the operator consents when
/// asked.
pub open spec fn benign_event(ev: Event) -> bool {
    match ev {
        Event::ProbeReply { state } => state is Satisfied,
        Event::AnswerReply { yes } => yes,
        Event::ActionReply { outcome } => false,
    }
}

pub open spec fn benign_events(evs: Seq<Event>) -> bool {
    forall|k: int| 0 <= k < evs.len() ==> benign_event(#[trigger] evs[k])
}

/// The phases a run that only skips can pass through: probing, asking, or
/// successfully done.
pub open spec fn skip_phase(p: Phase) -> bool {
    match p {
        Phase::AwaitProbe => true,
        Phase::AwaitAnswer => true,
        Phase::AwaitAction => false,
        Phase::Done { verdict } => verdict is Success,
    }
}

proof fn lemma_enter_benign(e: Engine, i: int)
    requires
        steps_wf(e.steps@),
        fully_probed(e.steps@),
        0 <= i,
    ensures
        ({
            let r = spec_enter(e, i);
            &&& no_executes(r.1)
            &&& skip_phase(r.0.phase)
        }),
    decreases e.steps@.len() - i,
{
    assert(e.steps@.len() == e.steps.len());
    let r = spec_enter(e, i);
    if i >= e.steps@.len() {
        lemma_enter_props(e, i);
        assert(no_executes(r.1)) by {
            lemma_pair(
                Directive::Report { notice: Notice::PipelineDone },
                Directive::Finish { code: 0 },
                i,
            );
        }
    } else if e.steps@[i].probe is Some {
        lemma_pair(
            Directive::Report { notice: Notice::StepBegin { step: i as usize } },
            Directive::RunProbe { step: i as usize },
            i,
        );
    } else {
        // Without a probe the step is a confirmation step, whose plan
        // never executes anything.
        assert(e.steps@[i].kind is Confirm);
        let p = spec_plan(e, i);
        if e.config.dry_run {
            lemma_enter_benign(e, i + 1);
            let n = spec_enter(e, i + 1);
            lemma_single(
                Directive::Report { notice: Notice::PlannedConfirm { step: i as usize } },
                i,
            );
            lemma_no_executes_concat(
                seq![Directive::Report { notice: Notice::PlannedConfirm { step: i as usize } }],
                n.1,
            );
        } else {
            lemma_single(Directive::AskContinue { step: i as usize }, i);
        }
        lemma_single(Directive::Report { notice: Notice::StepBegin { step: i as usize } }, i);
        lemma_no_executes_concat(
            seq![Directive::Report { notice: Notice::StepBegin { step: i as usize } }],
            p.1,
        );
    }
}

proof fn lemma_handle_benign(e: Engine, ev: Event)
    requires
        e.wf(),
        fully_probed(e.steps@),
        skip_phase(e.phase),
        benign_event(ev),
    ensures
        ({
            let h = spec_handle(e, ev);
            &&& no_executes(h.1)
            &&& skip_phase(h.0.phase)
        }),
{
    assert(e.steps@.len() == e.steps.len());
    let h = spec_handle(e, ev);
    match ev {
        Event::ProbeReply { state } => {
            if e.phase is AwaitProbe {
                lemma_enter_benign(e, e.cur + 1);
                let n = spec_enter(e, e.cur + 1);
                lemma_single(
                    Directive::Report { notice: Notice::AlreadySatisfied { step: e.cur } },
                    0,
                );
                lemma_no_executes_concat(
                    seq![Directive::Report { notice: Notice::AlreadySatisfied { step: e.cur } }],
                    n.1,
                );
            }
        },
        Event::AnswerReply { yes } => {
            if e.phase is AwaitAnswer {
                lemma_enter_benign(e, e.cur + 1);
                let n = spec_enter(e, e.cur + 1);
                lemma_single(Directive::Report { notice: Notice::StepDone { step: e.cur } }, 0);
                lemma_no_executes_concat(
                    seq![Directive::Report { notice: Notice::StepDone { step: e.cur } }],
                    n.1,
                );
            }
        },
        Event::ActionReply { outcome } => {},
    }
}

proof fn lemma_run_benign(e: Engine, evs: Seq<Event>)
    requires
        e.wf(),
        fully_probed(e.steps@),
        skip_phase(e.phase),
        benign_events(evs),
    ensures
        ({
            let r = spec_run(e, evs);
            &&& no_executes(r.1)
            &&& skip_phase(r.0.phase)
        }),
    decreases evs.len(),
{
    if evs.len() > 0 {
        lemma_handle_props(e, evs[0]);
        lemma_handle_benign(e, evs[0]);
        let h = spec_handle(e, evs[0]);
        let evs2 = evs.drop_first();
        assert forall|k: int| 0 <= k < evs2.len() implies benign_event(#[trigger] evs2[k]) by {
            assert(evs2[k] == evs[k + 1]);
        }
        lemma_run_benign(h.0, evs2);
        lemma_no_executes_concat(h.1, spec_run(h.0, evs2).1);
    }
}

/// Law: idempotent re-run.  Over a table whose every step (confirmation
/// aside) carries a probe, a run in which every probe reports its step
/// already satisfied and the operator consents whenever asked — the shape
/// of a second run over a system a first run fully provisioned — executes
/// not a single action, and any verdict it reaches is success.
pub proof fn lemma_all_satisfied_executes_nothing(
    config: RunConfig,
    steps: Vec<Step>,
    evs: Seq<Event>,
)
    requires
        steps_wf(steps@),
        fully_probed(steps@),
        benign_events(evs),
    ensures
        ({
            let s = spec_start(config, steps);
            let r = spec_run(s.0, evs);
            &&& no_executes(s.1)
            &&& no_executes(r.1)
            &&& (r.0.phase matches Phase::Done { verdict } ==> verdict is Success)
        }),
{
    let e0 = Engine {
        config,
        steps,
        phase: Phase::Done { verdict: PipelineResult::Success },
        cur: 0,
        act: 0,
    };
    lemma_enter_props(e0, 0);
    lemma_enter_benign(e0, 0);
    let s = spec_start(config, steps);
    lemma_run_benign(s.0, evs);
}

/// All probe replies, all satisfied.
pub open spec fn all_satisfied_replies(evs: Seq<Event>) -> bool {
    forall|k: int|
        0 <= k < evs.len() ==> (#[trigger] evs[k]) == (Event::ProbeReply {
            state: StepState::Satisfied,
        })
}

proof fn lemma_satisfied_probes_complete(e: Engine, evs: Seq<Event>)
    requires
        e.wf(),
        e.phase is AwaitProbe,
        forall|i: int| 0 <= i < e.steps@.len() ==> (#[trigger] e.steps@[i]).probe is Some,
        evs.len() == e.steps@.len() - e.cur,
        all_satisfied_replies(evs),
    ensures
        ({
            let r = spec_run(e, evs);
            &&& r.0.phase == (Phase::Done { verdict: PipelineResult::Success })
            &&& r.1.len() > 0 && r.1.last() == (Directive::Finish { code: 0 })
        }),
    decreases evs.len(),
{
    assert(e.steps@.len() == e.steps.len());
    let r = spec_run(e, evs);
    assert(0 <= 0 < evs.len());
    let ev0 = evs[0];
    assert(ev0 == (Event::ProbeReply { state: StepState::Satisfied }));
    lemma_handle_props(e, ev0);
    let h = spec_handle(e, ev0);
    let evs2 = evs.drop_first();
    let rest = spec_run(h.0, evs2);
    if e.cur + 1 == e.steps@.len() {
        assert(evs2.len() == 0);
        assert(r.1 =~= h.1);
        assert(h.1.last() == (Directive::Finish { code: 0 }));
    } else {
        assert(h.0.phase is AwaitProbe && h.0.cur == e.cur + 1);
        assert forall|k: int|
            0 <= k < evs2.len() implies (#[trigger] evs2[k]) == (Event::ProbeReply {
            state: StepState::Satisfied,
        }) by {
            assert(evs2[k] == evs[k + 1]);
        }
        lemma_satisfied_probes_complete(h.0, evs2);
        assert(rest.1.len() > 0);
        assert(r.1.last() == rest.1.last()) by {
            assert(r.1[h.1.len() + rest.1.len() - 1] == rest.1[rest.1.len() - 1]);
        }
    }
}

/// Law: an idempotent re-run completes.  Over a table whose every step
/// carries a probe, a run that answers each probe `Satisfied` — a second
/// run over a system a first run fully provisioned — does not merely stay
/// harmless: it reaches the successful verdict, and its last directive is
/// the success exit.
pub proof fn lemma_second_run_reaches_success(
    config: RunConfig,
    steps: Vec<Step>,
    evs: Seq<Event>,
)
    requires
        steps_wf(steps@),
        forall|i: int| 0 <= i < steps@.len() ==> (#[trigger] steps@[i]).probe is Some,
        evs.len() == steps@.len(),
        all_satisfied_replies(evs),
    ensures
        ({
            let s = spec_start(config, steps);
            let r = spec_run(s.0, evs);
            r.0.phase == (Phase::Done { verdict: PipelineResult::Success })
        }),
{
    let e0 = Engine {
        config,
        steps,
        phase: Phase::Done { verdict: PipelineResult::Success },
        cur: 0,
        act: 0,
    };
    lemma_enter_props(e0, 0);
    let s = spec_start(config, steps);
    if steps@.len() == 0 {
        lemma_done_is_final(s.0, evs);
    } else {
        assert(s.0.phase is AwaitProbe && s.0.cur == 0);
        lemma_satisfied_probes_complete(s.0, evs);
    }
}

/// Law: fatal propagation.  A business failure of an action in a step that
/// is not best-effort ends the run at once: the engine reports the failed
/// action, finishes with exit code 1 — the non-zero code an abort owes —
/// and no event can ever make it proceed to another step or emit anything
/// again.
pub proof fn lemma_fatal_failure_aborts(e: Engine, evs: Seq<Event>)
    requires
        e.wf(),
        e.phase is AwaitAction,
        e.steps@[e.cur as int].kind is Fatal,
    ensures
        ({
            let h = spec_handle(
                e,
                Event::ActionReply { outcome: ActionOutcome::Exited { success: false } },
            );
            let r = spec_run(h.0, evs);
            &&& h.0.phase == (Phase::Done {
                verdict: PipelineResult::AbortedAt { step: e.cur },
            })
            &&& spec_exit_code(PipelineResult::AbortedAt { step: e.cur }) == 1
            &&& h.1 == seq![
                Directive::Report { notice: Notice::ActionFailure { step: e.cur, action: e.act } },
                Directive::Finish { code: 1 },
            ]
            &&& r.0 == h.0
            &&& r.1 == Seq::<Directive>::empty()
        }),
{
    let h = spec_handle(
        e,
        Event::ActionReply { outcome: ActionOutcome::Exited { success: false } },
    );
    lemma_done_is_final(h.0, evs);
}

/// Law: a spawn failure is fatal everywhere.  An action that could not be
/// started at all aborts the run even in a best-effort step, with exit
/// code 1, and nothing is ever emitted again.
pub proof fn lemma_spawn_failure_aborts(e: Engine, evs: Seq<Event>)
    requires
        e.wf(),
        e.phase is AwaitAction,
    ensures
        ({
            let h = spec_handle(e, Event::ActionReply { outcome: ActionOutcome::SpawnError });
            let r = spec_run(h.0, evs);
            &&& h.0.phase == (Phase::Done {
                verdict: PipelineResult::AbortedAt { step: e.cur },
            })
            &&& spec_exit_code(PipelineResult::AbortedAt { step: e.cur }) == 1
            &&& h.1 == seq![
                Directive::Report { notice: Notice::SpawnFailure { step: e.cur, action: e.act } },
                Directive::Finish { code: 1 },
            ]
            &&& r.0 == h.0
            &&& r.1 == Seq::<Directive>::empty()
        }),
{
    let h = spec_handle(e, Event::ActionReply { outcome: ActionOutcome::SpawnError });
    lemma_done_is_final(h.0, evs);
}

proof fn lemma_contains_concat_left(a: Seq<Directive>, b: Seq<Directive>, x: Directive)
    requires
        a.contains(x),
    ensures
        (a + b).contains(x),
{
    let j = choose|j: int| 0 <= j < a.len() && a[j] == x;
    assert((a + b)[j] == x);
}

proof fn lemma_contains_concat_right(a: Seq<Directive>, b: Seq<Directive>, x: Directive)
    requires
        b.contains(x),
    ensures
        (a + b).contains(x),
{
    let j = choose|j: int| 0 <= j < b.len() && b[j] == x;
    assert((a + b)[a.len() + j] == x);
}

proof fn lemma_enter_same_table(e1: Engine, e2: Engine, i: int)
    requires
        e1.config == e2.config,
        e1.steps == e2.steps,
        0 <= i,
    ensures
        spec_enter(e1, i).0 == spec_enter(e2, i).0,
        spec_enter(e1, i).1 == spec_enter(e2, i).1,
    decreases e1.steps@.len() - i, 1int,
{
    if i < e1.steps@.len() && !(e1.steps@[i].probe is Some) {
        lemma_plan_same_table(e1, e2, i);
    }
}

proof fn lemma_plan_same_table(e1: Engine, e2: Engine, i: int)
    requires
        e1.config == e2.config,
        e1.steps == e2.steps,
        0 <= i < e1.steps@.len(),
    ensures
        spec_plan(e1, i).0 == spec_plan(e2, i).0,
        spec_plan(e1, i).1 == spec_plan(e2, i).1,
    decreases e1.steps@.len() - i, 0int,
{
    let s = e1.steps@[i];
    match s.kind {
        StepKind::Required => {},
        StepKind::Confirm => {
            if e1.config.dry_run {
                lemma_enter_same_table(e1, e2, i + 1);
            }
        },
        _ => {
            if e1.config.dry_run || s.actions@.len() == 0 {
                lemma_enter_same_table(e1, e2, i + 1);
            }
        },
    }
}

/// Law: best-effort isolation.  In a best-effort step, however the
/// remaining repeats succeed or fail as business outcomes, every one of
/// them is still issued, the step still closes with its completion notice,
/// and the pipeline moves past it exactly as if all repeats had succeeded.
pub proof fn lemma_best_effort_keeps_going(e: Engine, evs: Seq<Event>)
    requires
        e.wf(),
        e.phase is AwaitAction,
        e.steps@[e.cur as int].kind is BestEffort,
        evs.len() == e.steps@[e.cur as int].actions@.len() - e.act,
        forall|k: int|
            0 <= k < evs.len() ==> (#[trigger] evs[k]) matches Event::ActionReply {
                outcome: ActionOutcome::Exited { success },
            },
    ensures
        ({
            let r = spec_run(e, evs);
            &&& forall|a: usize|
                e.act < a < e.steps@[e.cur as int].actions@.len() ==> #[trigger] r.1.contains(
                    Directive::Execute { step: e.cur, action: a },
                )
            &&& r.1.contains(Directive::Report { notice: Notice::StepDone { step: e.cur } })
            &&& r.0 == spec_enter(e, e.cur + 1).0
        }),
    decreases evs.len(),
{
    assert(e.steps@.len() == e.steps.len());
    assert(e.steps@[e.cur as int].actions@.len() == e.steps@[e.cur as int].actions.len());
    let n = e.steps@[e.cur as int].actions@.len();
    let r = spec_run(e, evs);
    let ev0 = evs[0];
    let h = spec_handle(e, ev0);
    let evs2 = evs.drop_first();
    let rest = spec_run(h.0, evs2);
    assert(0 <= 0 < evs.len());
    match ev0 {
        Event::ActionReply { outcome: ActionOutcome::Exited { success } } => {},
        _ => {
            assert(false);
        },
    }
    if e.act + 1 < n {
        // The step has more repeats: the transition issues the next one
        // and the engine stays inside the step.
        let e2 = h.0;
        assert(e2.cur == e.cur && e2.act == e.act + 1 && e2.phase is AwaitAction);
        assert(e2.wf()) by {
            lemma_handle_props(e, ev0);
        }
        assert forall|k: int|
            0 <= k < evs2.len() implies (#[trigger] evs2[k]) matches Event::ActionReply {
            outcome: ActionOutcome::Exited { success },
        } by {
            assert(evs2[k] == evs[k + 1]);
        }
        lemma_best_effort_keeps_going(e2, evs2);
        lemma_enter_same_table(e2, e, e.cur + 1);
        let nxt = Directive::Execute { step: e.cur, action: (e.act + 1) as usize };
        assert(h.1.contains(nxt)) by {
            assert(h.1[h.1.len() - 1] == nxt);
        }
        lemma_contains_concat_left(h.1, rest.1, nxt);
        lemma_contains_concat_right(
            h.1,
            rest.1,
            Directive::Report { notice: Notice::StepDone { step: e.cur } },
        );
        assert forall|a: usize| e.act < a < n implies #[trigger] r.1.contains(
            Directive::Execute { step: e.cur, action: a },
        ) by {
            if a > e.act + 1 {
                lemma_contains_concat_right(
                    h.1,
                    rest.1,
                    Directive::Execute { step: e.cur, action: a },
                );
            }
        }
    } else {
        // This was the last repeat: the step closes and the pipeline
        // enters the next step; no events remain.
        let done = Directive::Report { notice: Notice::StepDone { step: e.cur } };
        assert(h.1.contains(done)) by {
            match ev0 {
                Event::ActionReply { outcome: ActionOutcome::Exited { success } } => {
                    if success {
                        assert(h.1[0] == done);
                    } else {
                        assert(h.1[1] == done);
                    }
                },
                _ => {
                    assert(false);
                },
            }
        }
        assert(evs2.len() == 0);
        assert(r.1 =~= h.1 + rest.1);
        lemma_contains_concat_left(h.1, rest.1, done);
        assert(h.0 == spec_enter(e, e.cur + 1).0);
    }
}

} // verus!
