//! The document that the container runner takes.
use vstd::prelude::*;

verus! {

/// The user namespace of a sandbox: who root inside is outside, and the
/// ranges of subordinate ids mapped in.
#[derive(Debug, Clone, Copy, PartialEq, Eq, Structural)]
pub struct UserNamespaceConfig {
    pub enabled: bool,
    pub root_uid: u32,
    pub uid_map_begin: u32,
    pub uid_map_count: u32,
    pub root_gid: u32,
    pub gid_map_begin: u32,
    pub gid_map_count: u32,
}

/// The layers of a sandbox's root file system.
#[derive(Debug)]
pub struct OverlayfsConfig {
    pub lower_dir: String,
    pub upper_dir: String,
    pub work_dir: String,
    pub merged_dir: String,
}

/// The files that stand in for a sandbox's standard streams.
#[derive(Debug)]
pub struct FdConfig {
    pub stdin: Option<String>,
    pub stdout: Option<String>,
    pub stderr: Option<String>,
}

#[derive(Debug, Clone, Copy, PartialEq, Eq, Structural)]
pub enum MountKind {
    /// A directory or file of the host, seen inside the sandbox.
    Bind,
    /// A file system in memory.
    Tmpfs,
}

#[derive(Debug)]
pub struct MountConfig {
    pub kind: MountKind,
    pub from: String,
    pub to: String,
    pub options: Vec<String>,
}

/// The document that the container runner takes.
#[derive(Debug)]
pub struct RunjConfig<L> {
    pub user_namespace: Option<UserNamespaceConfig>,
    pub overlayfs: OverlayfsConfig,
    pub cgroup_path: String,
    pub cwd: String,
    pub command: Vec<String>,
    pub paths: Vec<String>,
    pub fd: Option<FdConfig>,
    pub mounts: Vec<MountConfig>,
    pub limits: L,
}

} // verus!
