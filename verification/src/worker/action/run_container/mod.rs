//! Sandbox runs: what a step asks for and what the process knows.
use vstd::prelude::*;
use crate::conf::{IdRange, SeeleWorkMode};
use crate::shared::oci_image::OciImage;

pub mod idmap;
pub mod image;
pub mod runj;
pub mod utils;

verus! {

/// What a step asks of a sandbox run. `limits` is handed on to the runner as
/// it is.
#[derive(Debug)]
pub struct Config<L> {
    pub image: OciImage,
    pub cwd: String,
    pub command: Vec<String>,
    pub fd: Option<runj::FdConfig>,
    pub paths: Vec<String>,
    pub mounts: Vec<runj::MountConfig>,
    pub limits: L,
}

/// What the process found out at startup and every sandbox run needs.
#[derive(Debug)]
pub struct RunContainerEnv {
    pub work_mode: SeeleWorkMode,
    /// The user and group that root inside a sandbox is mapped to.
    pub userns_uid: u32,
    pub userns_gid: u32,
    pub subuids: IdRange,
    pub subgids: IdRange,
    /// The cgroup under which the runner makes the sandboxes' cgroups.
    pub container_slice_path: String,
    /// The directory under which images are kept.
    pub images_root: String,
}

} // verus!
