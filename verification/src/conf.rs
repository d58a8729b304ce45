//! What the process is configured with and checks before it starts.
use vstd::prelude::*;
use crate::shared::path::{join_path, joined_path};
use crate::shared::text::concat2;

verus! {

/// How the process is hosted, which decides where its cgroup comes from and
/// whether sandboxes get a user namespace of their own.
#[derive(Debug, Clone, Copy, PartialEq, Eq, Structural)]
pub enum SeeleWorkMode {
    /// On a bare host: a transient scope is created and entered at startup.
    Bare,
    /// On a bare host, inside a scope that systemd has already made.
    BareSystemd,
    /// Inside a container that runs as root.
    Containerized,
    /// Inside a rootless container: sandboxes inherit its user namespace.
    RootlessContainerized,
}

/// The directories that the service keeps under its root.
#[derive(Debug)]
pub struct Paths {
    pub root: String,
    /// Images, as they were pulled and unpacked.
    pub images: String,
    /// The working directories of the submissions.
    pub submissions: String,
    /// Where artifacts wait to be deleted.
    pub evicted: String,
    pub temp: String,
    /// The states that outlive the process.
    pub states: String,
}

/// `made` holds the directories under `root`.
pub open spec fn is_layout_of(made: Paths, root: Seq<char>) -> bool {
    &&& made.root@ == root
    &&& made.images@ == joined_path(root, "images"@)
    &&& made.submissions@ == joined_path(root, "submissions"@)
    &&& made.evicted@ == joined_path(root, "evicted"@)
    &&& made.temp@ == joined_path(root, "temp"@)
    &&& made.states@ == joined_path(root, "states"@)
}

/// The directories under the root `root`.
pub fn layout(root: &str) -> (made: Paths)
    ensures
        is_layout_of(made, root@),
{
    Paths {
        root: root.to_owned(),
        images: join_path(root, "images"),
        submissions: join_path(root, "submissions"),
        evicted: join_path(root, "evicted"),
        temp: join_path(root, "temp"),
        states: join_path(root, "states"),
    }
}

/// The working directory of the submission `id`.
pub fn submission_root(paths: &Paths, id: &str) -> (path: String)
    ensures
        path@ == joined_path(paths.submissions@, id@),
{
    join_path(paths.submissions.as_str(), id)
}

/// The file in which the eviction manager `name` keeps its state.
pub fn eviction_state_file(paths: &Paths, name: &str) -> (path: String)
    ensures
        path@ == joined_path(paths.states@, name@ + "_eviction.yaml"@),
{
    join_path(paths.states.as_str(), concat2(name, "_eviction.yaml").as_str())
}

/// The mode of the directories of a sandbox's overlay: open to every user.
pub const OVERLAY_DIRECTORY_MODE: u32 = 0o777;

/// How many submissions may wait between the exchange and the composer.
pub const COMPOSER_QUEUE_SIZE: usize = 16;

/// How many tasks may wait between the composer and the workers.
pub const WORKER_QUEUE_SIZE: usize = 16;

/// The seconds that the subsystems get to end after shutdown was asked for.
pub const SHUTDOWN_GRACE_SECOND: u64 = 10;

/// The smallest range of subordinate ids that a sandbox needs.
pub const MIN_ID_MAP_COUNT: u32 = 65536;

/// A range of subordinate user or group ids of the host.
#[derive(Debug, Clone, Copy, PartialEq, Eq, Structural)]
pub struct IdRange {
    pub begin: u32,
    pub count: u32,
}

#[derive(Debug, Clone, Copy, PartialEq, Eq, Structural)]
pub enum StartupError {
    /// The configured user has fewer than `MIN_ID_MAP_COUNT` subordinate
    /// user ids.
    SubuidRangeTooSmall,
    /// The configured group has fewer than `MIN_ID_MAP_COUNT` subordinate
    /// group ids.
    SubgidRangeTooSmall,
}

impl SeeleWorkMode {
    /// Sandboxes get a user namespace of their own in this mode.
    pub open spec fn spec_maps_ids(self) -> bool {
        self != SeeleWorkMode::RootlessContainerized
    }

    #[verifier::when_used_as_spec(spec_maps_ids)]
    pub fn maps_ids(self) -> (maps: bool)
        ensures
            maps == self.spec_maps_ids(),
    {
        match self {
            SeeleWorkMode::RootlessContainerized => false,
            _ => true,
        }
    }
}

/// Whether the process may start with these subordinate id ranges: outside a
/// rootless container both must hold at least `MIN_ID_MAP_COUNT` ids, the
/// user ids being looked at first.
pub fn check_id_maps(work_mode: SeeleWorkMode, subuids: IdRange, subgids: IdRange) -> (checked:
    Result<(), StartupError>)
    ensures
        checked == if !work_mode.maps_ids() {
            Ok::<(), StartupError>(())
        } else if subuids.count < MIN_ID_MAP_COUNT {
            Err(StartupError::SubuidRangeTooSmall)
        } else if subgids.count < MIN_ID_MAP_COUNT {
            Err(StartupError::SubgidRangeTooSmall)
        } else {
            Ok(())
        },
{
    if work_mode.maps_ids() {
        if subuids.count < MIN_ID_MAP_COUNT {
            return Err(StartupError::SubuidRangeTooSmall);
        }
        if subgids.count < MIN_ID_MAP_COUNT {
            return Err(StartupError::SubgidRangeTooSmall);
        }
    }
    Ok(())
}

/// Whether simultaneous multithreading looks switched on: fewer physical
/// than logical processors. The process starts all the same, with a warning.
pub fn smt_enabled(logical_cpu_count: usize, physical_cpu_count: usize) -> (enabled: bool)
    ensures
        enabled == (physical_cpu_count < logical_cpu_count),
{
    physical_cpu_count < logical_cpu_count
}

} // verus!
