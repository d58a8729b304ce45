//! The verdict on one judged test.
use vstd::prelude::*;
use vstd::string::StringSliceAdditionalSpecFns;
use crate::shared::bytes::same_bytes;

verus! {

/// How a sandbox run ended, as the container runner tells it.
#[derive(Debug, Clone, Copy, PartialEq, Eq, Structural)]
pub enum ExecutionStatus {
    Normal,
    RuntimeError,
    SignalTerminate,
    UserTimeLimitExceeded,
    WallTimeLimitExceeded,
    MemoryLimitExceeded,
    OutputLimitExceeded,
    UnknownError,
}

impl ExecutionStatus {
    /// The name under which the container runner tells of the status.
    pub open spec fn spec_name(self) -> &'static str {
        match self {
            ExecutionStatus::Normal => "NORMAL",
            ExecutionStatus::RuntimeError => "RUNTIME_ERROR",
            ExecutionStatus::SignalTerminate => "SIGNAL_TERMINATE",
            ExecutionStatus::UserTimeLimitExceeded => "USER_TIME_LIMIT_EXCEEDED",
            ExecutionStatus::WallTimeLimitExceeded => "WALL_TIME_LIMIT_EXCEEDED",
            ExecutionStatus::MemoryLimitExceeded => "MEMORY_LIMIT_EXCEEDED",
            ExecutionStatus::OutputLimitExceeded => "OUTPUT_LIMIT_EXCEEDED",
            ExecutionStatus::UnknownError => "UNKNOWN_ERROR",
        }
    }

    #[verifier::when_used_as_spec(spec_name)]
    pub fn name(self) -> (name: &'static str)
        ensures
            name == self.spec_name(),
    {
        match self {
            ExecutionStatus::Normal => "NORMAL",
            ExecutionStatus::RuntimeError => "RUNTIME_ERROR",
            ExecutionStatus::SignalTerminate => "SIGNAL_TERMINATE",
            ExecutionStatus::UserTimeLimitExceeded => "USER_TIME_LIMIT_EXCEEDED",
            ExecutionStatus::WallTimeLimitExceeded => "WALL_TIME_LIMIT_EXCEEDED",
            ExecutionStatus::MemoryLimitExceeded => "MEMORY_LIMIT_EXCEEDED",
            ExecutionStatus::OutputLimitExceeded => "OUTPUT_LIMIT_EXCEEDED",
            ExecutionStatus::UnknownError => "UNKNOWN_ERROR",
        }
    }

    /// The run is an outcome to report as a failure: it did not end
    /// normally.
    pub open spec fn spec_is_failure(self) -> bool {
        self != ExecutionStatus::Normal
    }

    #[verifier::when_used_as_spec(spec_is_failure)]
    pub fn is_failure(self) -> (failure: bool)
        ensures
            failure == self.spec_is_failure(),
    {
        match self {
            ExecutionStatus::Normal => false,
            _ => true,
        }
    }
}

/// `text` is the name of `status`.
pub open spec fn names(text: &str, status: ExecutionStatus) -> bool {
    text.spec_bytes() == status.spec_name().spec_bytes()
}

/// The status that the name `text` stands for: the first of the statuses
/// that has the name, and an unknown error where none has.
pub open spec fn status_named(text: &str) -> ExecutionStatus {
    if names(text, ExecutionStatus::Normal) {
        ExecutionStatus::Normal
    } else if names(text, ExecutionStatus::RuntimeError) {
        ExecutionStatus::RuntimeError
    } else if names(text, ExecutionStatus::SignalTerminate) {
        ExecutionStatus::SignalTerminate
    } else if names(text, ExecutionStatus::UserTimeLimitExceeded) {
        ExecutionStatus::UserTimeLimitExceeded
    } else if names(text, ExecutionStatus::WallTimeLimitExceeded) {
        ExecutionStatus::WallTimeLimitExceeded
    } else if names(text, ExecutionStatus::MemoryLimitExceeded) {
        ExecutionStatus::MemoryLimitExceeded
    } else if names(text, ExecutionStatus::OutputLimitExceeded) {
        ExecutionStatus::OutputLimitExceeded
    } else {
        ExecutionStatus::UnknownError
    }
}

fn is_name_of(text: &str, status: ExecutionStatus) -> (same: bool)
    ensures
        same == names(text, status),
{
    let bytes = text.as_bytes();
    let wanted = status.name().as_bytes();
    let same = same_bytes(bytes, 0, bytes.len(), wanted);
    assert(bytes@.subrange(0, bytes@.len() as int) =~= bytes@);
    same
}

/// The status that the name `text` stands for.
pub fn status_of_name(text: &str) -> (status: ExecutionStatus)
    ensures
        status == status_named(text),
{
    if is_name_of(text, ExecutionStatus::Normal) {
        ExecutionStatus::Normal
    } else if is_name_of(text, ExecutionStatus::RuntimeError) {
        ExecutionStatus::RuntimeError
    } else if is_name_of(text, ExecutionStatus::SignalTerminate) {
        ExecutionStatus::SignalTerminate
    } else if is_name_of(text, ExecutionStatus::UserTimeLimitExceeded) {
        ExecutionStatus::UserTimeLimitExceeded
    } else if is_name_of(text, ExecutionStatus::WallTimeLimitExceeded) {
        ExecutionStatus::WallTimeLimitExceeded
    } else if is_name_of(text, ExecutionStatus::MemoryLimitExceeded) {
        ExecutionStatus::MemoryLimitExceeded
    } else if is_name_of(text, ExecutionStatus::OutputLimitExceeded) {
        ExecutionStatus::OutputLimitExceeded
    } else {
        ExecutionStatus::UnknownError
    }
}

/// The verdict of a judge on one test: the run decides it where the run
/// did not end normally; else the comparison does, a comparison that ends
/// normally meaning that the answer is right.
pub open spec fn oj_status_of(run: ExecutionStatus, compare: ExecutionStatus) -> &'static str {
    match run {
        ExecutionStatus::Normal => match compare {
            ExecutionStatus::Normal => "ACCEPTED",
            ExecutionStatus::RuntimeError => "WRONG_ANSWER",
            _ => "UNKNOWN_ERROR",
        },
        ExecutionStatus::RuntimeError => "RUNTIME_ERROR",
        ExecutionStatus::SignalTerminate => "SIGNAL_TERMINATE",
        ExecutionStatus::UserTimeLimitExceeded => "USER_TIME_LIMIT_EXCEEDED",
        ExecutionStatus::WallTimeLimitExceeded => "WALL_TIME_LIMIT_EXCEEDED",
        ExecutionStatus::MemoryLimitExceeded => "MEMORY_LIMIT_EXCEEDED",
        ExecutionStatus::OutputLimitExceeded => "OUTPUT_LIMIT_EXCEEDED",
        ExecutionStatus::UnknownError => "UNKNOWN_ERROR",
    }
}

/// The verdict of a judge on one test, from how the run and the comparison
/// of its output ended.
pub fn get_oj_status(run: ExecutionStatus, compare: ExecutionStatus) -> (status: &'static str)
    ensures
        status == oj_status_of(run, compare),
{
    match run {
        ExecutionStatus::Normal => match compare {
            ExecutionStatus::Normal => "ACCEPTED",
            ExecutionStatus::RuntimeError => "WRONG_ANSWER",
            _ => "UNKNOWN_ERROR",
        },
        ExecutionStatus::RuntimeError => "RUNTIME_ERROR",
        ExecutionStatus::SignalTerminate => "SIGNAL_TERMINATE",
        ExecutionStatus::UserTimeLimitExceeded => "USER_TIME_LIMIT_EXCEEDED",
        ExecutionStatus::WallTimeLimitExceeded => "WALL_TIME_LIMIT_EXCEEDED",
        ExecutionStatus::MemoryLimitExceeded => "MEMORY_LIMIT_EXCEEDED",
        ExecutionStatus::OutputLimitExceeded => "OUTPUT_LIMIT_EXCEEDED",
        ExecutionStatus::UnknownError => "UNKNOWN_ERROR",
    }
}

} // verus!
