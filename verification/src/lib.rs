//! The decisions of a judge service that runs submitted programs in
//! sandboxes: how the process's cgroup is laid out and its threads are
//! pinned, how the steps of a submission are ordered and skipped, how a
//! sandbox run is described to the container runner, which artifacts on disk
//! are deleted and when, and what an exchange answers. Everything here works
//! on plain values and is proved against the contracts that stand beside it;
//! reading files, running tools and serving requests is left to the program
//! around it.
pub mod cgroup;
pub mod composer;
pub mod conf;
pub mod entities;
pub mod exchange;
pub mod shared;
pub mod worker;
