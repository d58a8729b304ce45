//! The statuses of steps and the reports of actions.
use vstd::prelude::*;

verus! {

/// Where a step of a submission stands.
#[derive(Debug, Clone, Copy, PartialEq, Eq, Structural)]
pub enum StepStatus {
    Pending,
    Running,
    Success,
    Failed,
    Skipped,
}

/// What a worker can be asked to do.
#[derive(Debug, Clone, Copy, PartialEq, Eq, Structural)]
pub enum ActionKind {
    Noop,
    AddFile,
    RunContainer,
    RunJudgeCompile,
    RunJudgeRun,
}

/// What an action that went well says of itself. `ext` is what the kind of
/// action adds.
#[derive(Debug)]
pub struct ActionSuccessReport<S> {
    /// When the action began, in nanoseconds since the Unix epoch.
    pub run_at: i64,
    pub time_elapsed_ms: u64,
    pub ext: S,
}

/// What is known of an action that did not go well. `ext` is the structured
/// outcome, where the failure is one.
#[derive(Debug)]
pub struct ActionFailedReport<F> {
    pub run_at: Option<i64>,
    pub time_elapsed_ms: Option<u64>,
    pub error: String,
    pub ext: Option<F>,
}

#[derive(Debug)]
pub enum ActionReport<S, F> {
    Success(ActionSuccessReport<S>),
    Failed(ActionFailedReport<F>),
}

impl StepStatus {
    /// The step was handed to a worker at some time.
    pub open spec fn spec_is_active(self) -> bool {
        self == StepStatus::Running || self == StepStatus::Success || self == StepStatus::Failed
    }

    #[verifier::when_used_as_spec(spec_is_active)]
    pub fn is_active(self) -> (active: bool)
        ensures
            active == self.spec_is_active(),
    {
        match self {
            StepStatus::Running | StepStatus::Success | StepStatus::Failed => true,
            _ => false,
        }
    }

    /// The step was given up, by its own failure or by that of a step it
    /// needs.
    pub open spec fn spec_is_lost(self) -> bool {
        self == StepStatus::Failed || self == StepStatus::Skipped
    }

    #[verifier::when_used_as_spec(spec_is_lost)]
    pub fn is_lost(self) -> (lost: bool)
        ensures
            lost == self.spec_is_lost(),
    {
        match self {
            StepStatus::Failed | StepStatus::Skipped => true,
            _ => false,
        }
    }

    /// Nothing more will happen to the step.
    pub open spec fn spec_is_settled(self) -> bool {
        self != StepStatus::Pending && self != StepStatus::Running
    }

    #[verifier::when_used_as_spec(spec_is_settled)]
    pub fn is_settled(self) -> (settled: bool)
        ensures
            settled == self.spec_is_settled(),
    {
        match self {
            StepStatus::Pending | StepStatus::Running => false,
            _ => true,
        }
    }
}

} // verus!
