//! The data model of the pipeline: probes, actions, steps and the overall
//! pipeline verdict.
//!
//! A step is an idempotent unit of provisioning work.  Its probe describes a
//! non-mutating check of the current system state; its actions describe, in
//! order, the external commands that would bring the system to the satisfied
//! state.  The engine never performs any of this itself: probes and actions
//! are carried out by the caller, which reports the outcomes back.

use vstd::prelude::*;

verus! {

/// A non-mutating check of current system state, answered by the caller
/// with `Satisfied` or `NotSatisfied`.
#[derive(Clone, Debug)]
pub enum Probe {
    /// Is the named tool resolvable on the search path?
    ToolOnPath { tool: String },
    /// Does the named filesystem path exist?
    PathExists { path: String },
    /// Does the named file contain the given marker text?
    FileContains { path: String, marker: String },
}

/// Where the standard input of an action comes from.
#[derive(Clone, Debug)]
pub enum StdinSpec {
    /// The given text itself.
    Literal { content: String },
    /// The raw contents of the named file.
    FromFile { path: String },
    /// The contents of the named file read as a package list: one name per
    /// line, trimmed, with blank lines, comment lines and the excluded
    /// names dropped before piping.
    PackageList { path: String, exclude: Vec<String> },
}

/// One external command invocation: the unit of mutating work.
#[derive(Clone, Debug)]
pub struct Action {
    /// Program name, resolved on the search path by the caller.
    pub program: String,
    /// Argument list, in order.
    pub args: Vec<String>,
    /// Optional working-directory override.
    pub cwd: Option<String>,
    /// Optional standard-input redirection.
    pub stdin_source: Option<StdinSpec>,
}

/// How a step treats the outcomes of its actions.
#[derive(Clone, Copy, PartialEq, Eq, Structural, Debug)]
pub enum StepKind {
    /// The first action that fails aborts the whole pipeline.
    Fatal,
    /// The actions are independent repeats: one business failure is warned
    /// about and the remaining actions still run; the step still succeeds.
    BestEffort,
    /// The step asks the operator whether to continue; a negative answer
    /// ends the run cleanly, with a success exit code.
    Confirm,
    /// The probe names a hard precondition: when it is not satisfied the
    /// pipeline aborts, since no action can repair it.
    Required,
}

/// One named, idempotent unit of provisioning work.
#[derive(Clone, Debug)]
pub struct Step {
    /// Human-readable name, used by the caller when rendering notices.
    pub name: String,
    /// The idempotence probe.  A step without one is never considered
    /// already satisfied and plans its actions on every run.
    pub probe: Option<Probe>,
    /// The failure policy of the step.
    pub kind: StepKind,
    /// The mutating actions, in the exact order they are to run.
    pub actions: Vec<Action>,
}

/// Result of a probe, as reported back by the caller.
#[derive(Clone, Copy, PartialEq, Eq, Structural, Debug)]
pub enum StepState {
    /// The step's goal is already met; the step is skipped.
    Satisfied,
    /// There is work to plan or perform.
    NotSatisfied,
}

/// The overall verdict of one pipeline run.
#[derive(Clone, Copy, PartialEq, Eq, Structural, Debug)]
pub enum PipelineResult {
    /// Every step completed (or was skipped as already satisfied).
    Success,
    /// The operator declined to continue at a confirmation step; a clean,
    /// voluntary end of the run, not an error.
    Declined,
    /// The pipeline stopped at the given step: a hard requirement was
    /// missing, an action could not be spawned, or an action failed.
    AbortedAt { step: usize },
}

/// Well-formedness of a single step: the confirmation and hard-requirement
/// kinds carry no actions of their own, and a hard requirement must name
/// the probe it requires.
pub open spec fn step_wf(s: Step) -> bool {
    &&& (s.kind is Confirm ==> s.actions@.len() == 0)
    &&& (s.kind is Required ==> s.actions@.len() == 0 && s.probe is Some)
}

/// Well-formedness of a whole step table.
pub open spec fn steps_wf(steps: Seq<Step>) -> bool {
    forall|i: int| 0 <= i < steps.len() ==> #[trigger] step_wf(steps[i])
}

/// Runtime check of [`steps_wf`], for callers outside the verified world
/// that assemble a table and must establish its well-formedness before
/// starting the engine.
pub fn table_ok(steps: &Vec<Step>) -> (r: bool)
    ensures
        r == steps_wf(steps@),
{
    let mut i: usize = 0;
    while i < steps.len()
        invariant
            i <= steps@.len(),
            forall|k: int| 0 <= k < i ==> #[trigger] step_wf(steps@[k]),
        decreases steps@.len() - i,
    {
        let s = &steps[i];
        let ok = match s.kind {
            StepKind::Confirm => s.actions.len() == 0,
            StepKind::Required => s.actions.len() == 0 && s.probe.is_some(),
            _ => true,
        };
        if !ok {
            assert(!step_wf(steps@[i as int]));
            return false;
        }
        assert(step_wf(steps@[i as int]));
        i = i + 1;
    }
    true
}

/// The exit status a pipeline verdict maps to: zero for success and for a
/// declined continuation, one for an abort.
pub open spec fn spec_exit_code(r: PipelineResult) -> u8 {
    match r {
        PipelineResult::Success => 0u8,
        PipelineResult::Declined => 0u8,
        PipelineResult::AbortedAt { step } => 1u8,
    }
}

/// Executable form of [`spec_exit_code`].
pub fn exit_code(r: PipelineResult) -> (c: u8)
    ensures
        c == spec_exit_code(r),
{
    match r {
        PipelineResult::Success => 0,
        PipelineResult::Declined => 0,
        PipelineResult::AbortedAt { .. } => 1,
    }
}

} // verus!
