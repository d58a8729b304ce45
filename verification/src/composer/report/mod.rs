//! Reports that a script makes of a submission.
pub mod javascript;
pub mod utils;
