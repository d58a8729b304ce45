//! What a worker does with a task: which executor runs it, what is pinned
//! while it runs, and the report that is made of how it ended.
use vstd::prelude::*;
use vstd::string::*;
use crate::entities::{ActionFailedReport, ActionKind, ActionReport, ActionSuccessReport};
use crate::shared::path::{join_path, joined_path};
use crate::worker::action::ActionContext;
use crate::worker::eviction::model::EvictionModel;
use crate::worker::eviction::EvictionManager;

pub mod action;
pub mod eviction;

verus! {

/// The failure of an action that is itself an outcome to report: it carries
/// the structured report through the path that errors take.
#[derive(Debug, Clone)]
pub struct ActionErrorWithReport<F> {
    report: F,
}

impl<F> ActionErrorWithReport<F> {
    pub closed spec fn spec_report(&self) -> F {
        self.report
    }

    pub fn new(report: F) -> (error: Self)
        ensures
            error.spec_report() == report,
    {
        Self { report }
    }

    /// The report that the failure carries.
    pub fn report(&self) -> (report: &F)
        ensures
            *report == self.spec_report(),
    {
        &self.report
    }

    pub fn into_report(self) -> (report: F)
        ensures
            report == self.spec_report(),
    {
        self.report
    }

    /// The failure in words.
    pub fn message(&self) -> (text: String)
        ensures
            text@ == "Action execution failed with a report"@,
    {
        String::from_str("Action execution failed with a report")
    }
}

/// How an action failed: the failure in words, and the structured outcome
/// where the root of the failure carries one.
#[derive(Debug)]
pub struct ActionFailure<F> {
    pub message: String,
    pub cause: Option<ActionErrorWithReport<F>>,
}

/// What makes the worker look up from its queue.
#[derive(Debug, Clone, Copy, PartialEq, Eq, Structural)]
pub enum WorkerEvent {
    ShutdownRequested,
    /// Nobody will put a task into the queue any more.
    QueueClosed,
    TaskReceived,
}

#[derive(Debug, Clone, Copy, PartialEq, Eq, Structural)]
pub enum WorkerStep {
    /// Leave the loop. Tasks that are under way run on.
    Stop,
    /// Run the task beside the loop, and send its report when it is done.
    RunTask,
}

/// What runs an action.
#[derive(Debug, Clone, Copy, PartialEq, Eq, Structural)]
pub enum Executor {
    /// Nothing is to be done.
    Noop,
    /// Bytes are written to a file under the submission's directory.
    AddFile,
    /// A sandbox is set up and the container runner is called.
    RunContainer,
}

pub open spec fn spec_executor_of(kind: ActionKind) -> Executor {
    match kind {
        ActionKind::Noop => Executor::Noop,
        ActionKind::AddFile => Executor::AddFile,
        ActionKind::RunContainer | ActionKind::RunJudgeCompile | ActionKind::RunJudgeRun => {
            Executor::RunContainer
        },
    }
}

/// What runs an action of kind `kind`.
#[verifier::when_used_as_spec(spec_executor_of)]
pub fn executor_of(kind: ActionKind) -> (executor: Executor)
    ensures
        executor == spec_executor_of(kind),
{
    match kind {
        ActionKind::Noop => Executor::Noop,
        ActionKind::AddFile => Executor::AddFile,
        ActionKind::RunContainer | ActionKind::RunJudgeCompile | ActionKind::RunJudgeRun => {
            Executor::RunContainer
        },
    }
}

/// What the worker does next: it stops when shutdown is asked for or the
/// queue is closed, and runs each task it receives.
pub fn worker_main(event: WorkerEvent) -> (step: WorkerStep)
    ensures
        step == if event == WorkerEvent::TaskReceived {
            WorkerStep::RunTask
        } else {
            WorkerStep::Stop
        },
{
    match event {
        WorkerEvent::TaskReceived => WorkerStep::RunTask,
        _ => WorkerStep::Stop,
    }
}

/// The report of an action that ended with `result`, began at `run_at` and
/// took `time_elapsed_ms`.
pub open spec fn report_of<S, F>(
    run_at: i64,
    time_elapsed_ms: u64,
    result: Result<S, ActionFailure<F>>,
    made: ActionReport<S, F>,
) -> bool {
    match result {
        Ok(ext) => made == ActionReport::<S, F>::Success(
            ActionSuccessReport { run_at, time_elapsed_ms, ext },
        ),
        Err(failure) => {
            &&& made is Failed
            &&& made->Failed_0.run_at == Some(run_at)
            &&& made->Failed_0.time_elapsed_ms == Some(time_elapsed_ms)
            &&& made->Failed_0.error@ == "Error executing the action: "@ + failure.message@
            &&& made->Failed_0.ext == match failure.cause {
                Some(cause) => Some(cause.spec_report()),
                None => None,
            }
        },
    }
}

/// Makes the report of an action from how it ended.
pub fn execute_action<S, F>(
    run_at: i64,
    time_elapsed_ms: u64,
    result: Result<S, ActionFailure<F>>,
) -> (made: ActionReport<S, F>)
    ensures
        report_of(run_at, time_elapsed_ms, result, made),
{
    match result {
        Ok(ext) => ActionReport::Success(ActionSuccessReport { run_at, time_elapsed_ms, ext }),
        Err(failure) => {
            let mut error = String::from_str("Error executing the action: ");
            error.append(failure.message.as_str());
            let ext = match failure.cause {
                Some(cause) => Some(cause.into_report()),
                None => None,
            };
            ActionReport::Failed(
                ActionFailedReport {
                    run_at: Some(run_at),
                    time_elapsed_ms: Some(time_elapsed_ms),
                    error,
                    ext,
                },
            )
        },
    }
}

/// Before an action runs, the directory of its submission is pinned and
/// counted as used.
pub fn enter_action(submissions: &mut EvictionManager, ctx: &ActionContext) -> (at: Option<i64>)
    requires
        old(submissions).wf(),
    ensures
        final(submissions).wf(),
        final(submissions).same_settings(old(submissions)),
        match at {
            Some(now) => final(submissions)@ == old(submissions)@.enter(
                ctx.submission_root@,
                now as int,
            ),
            None => final(submissions)@ == (EvictionModel {
                preserve: old(submissions)@.preserve.insert(ctx.submission_root@),
                ..old(submissions)@
            }),
        },
        old(submissions)@.consistent() ==> final(submissions)@.consistent(),
{
    submissions.visit_enter(ctx.submission_root.as_str())
}

/// After an action ran, however it ended, the directory of its submission
/// is unpinned.
pub fn leave_action(submissions: &mut EvictionManager, ctx: &ActionContext)
    requires
        old(submissions).wf(),
    ensures
        final(submissions).wf(),
        final(submissions).same_settings(old(submissions)),
        final(submissions)@ == old(submissions)@.leave(ctx.submission_root@),
        old(submissions)@.consistent() ==> final(submissions)@.consistent(),
{
    submissions.visit_leave(ctx.submission_root.as_str())
}

/// After an image was prepared, its unpacked directory counts as used.
pub fn note_image_use(images: &mut EvictionManager, unpacked_path: &str) -> (at: Option<i64>)
    requires
        old(images).wf(),
    ensures
        final(images).wf(),
        final(images).same_settings(old(images)),
        match at {
            Some(now) => final(images)@ == old(images)@.visit(unpacked_path@, now as int),
            None => final(images)@ == old(images)@,
        },
        old(images)@.consistent() ==> final(images)@.consistent(),
{
    images.visit_once(unpacked_path)
}

/// Where an action that adds a file writes it: `path` taken from the
/// directory of the submission.
pub fn add_file_target(ctx: &ActionContext, path: &str) -> (target: String)
    ensures
        target@ == joined_path(ctx.submission_root@, path@),
{
    join_path(ctx.submission_root.as_str(), path)
}

/// An action that was entered and left leaves its directory unpinned, and
/// the visit on record.
pub proof fn lemma_enter_leave(m: EvictionModel, path: Seq<char>, now: int)
    ensures
        !m.enter(path, now).leave(path).preserve.contains(path),
        m.enter(path, now).leave(path).preserve == m.preserve.remove(path),
        m.enter(path, now).leave(path).items == m.visit(path, now).items,
        m.enter(path, now).leave(path).time_to_data == m.visit(path, now).time_to_data,
        m.enter(path, now).leave(path).data_to_time == m.visit(path, now).data_to_time,
{
    assert(m.preserve.insert(path).remove(path) =~= m.preserve.remove(path));
}

} // verus!
