//! The actions that a worker can run.
use vstd::prelude::*;

pub mod run_container;

verus! {

/// What every action of one submission works in.
#[derive(Debug)]
pub struct ActionContext {
    /// The submission's working directory, an absolute path.
    pub submission_root: String,
}

} // verus!
