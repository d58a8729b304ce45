//! How the runner's document is put together from a step.
use vstd::prelude::*;
use crate::shared::path::{is_absolute, join_path, joined_path};
use crate::shared::random::{is_random_id, random_id};
use crate::shared::text::concat2;
use crate::worker::action::run_container::image::{get_rootfs_path, rootfs_path};
use crate::worker::action::run_container::runj::{
    FdConfig, MountConfig, MountKind, OverlayfsConfig, RunjConfig, UserNamespaceConfig,
};
use crate::worker::action::run_container::{Config, RunContainerEnv};
use crate::worker::action::ActionContext;

verus! {

/// The user namespace that sandboxes get: none inside a rootless container,
/// else one that maps root to the configured user and group and brings the
/// host's subordinate ids in.
pub open spec fn user_namespace_of(env: RunContainerEnv) -> Option<UserNamespaceConfig> {
    if env.work_mode.maps_ids() {
        Some(
            UserNamespaceConfig {
                enabled: true,
                root_uid: env.userns_uid,
                uid_map_begin: env.subuids.begin,
                uid_map_count: env.subuids.count,
                root_gid: env.userns_gid,
                gid_map_begin: env.subgids.begin,
                gid_map_count: env.subgids.count,
            },
        )
    } else {
        None
    }
}

/// `path`, where there is one, taken from `root`.
pub open spec fn rebased(root: Seq<char>, path: Option<String>) -> Option<Seq<char>> {
    match path {
        Some(p) => Some(joined_path(root, p@)),
        None => None,
    }
}

pub open spec fn option_text(path: Option<String>) -> Option<Seq<char>> {
    match path {
        Some(p) => Some(p@),
        None => None,
    }
}

/// `made` names the streams of `asked`, each taken from `root`.
pub open spec fn is_fd_of(made: Option<FdConfig>, root: Seq<char>, asked: Option<FdConfig>) -> bool {
    match asked {
        None => made.is_none(),
        Some(fd) => {
            &&& made.is_some()
            &&& option_text(made.unwrap().stdin) == rebased(root, fd.stdin)
            &&& option_text(made.unwrap().stdout) == rebased(root, fd.stdout)
            &&& option_text(made.unwrap().stderr) == rebased(root, fd.stderr)
        },
    }
}

/// `made` is the mount `asked` as the runner wants it: the source of a bind
/// mount is taken from `root`, all else is as asked.
pub open spec fn is_mount_of(made: MountConfig, root: Seq<char>, asked: MountConfig) -> bool {
    &&& made.kind == asked.kind
    &&& made.from@ == if asked.kind == MountKind::Bind {
        joined_path(root, asked.from@)
    } else {
        asked.from@
    }
    &&& made.to@ == asked.to@
    &&& made.options@ == asked.options@
}

/// The three directories of one sandbox's overlay, named after `id` under
/// `root`, above the root file system of `image`.
pub open spec fn is_overlayfs_of(
    made: OverlayfsConfig,
    root: Seq<char>,
    lower_dir: Seq<char>,
    id: Seq<char>,
) -> bool {
    &&& made.lower_dir@ == lower_dir
    &&& made.upper_dir@ == joined_path(root, "__run_container_upper_"@ + id)
    &&& made.work_dir@ == joined_path(root, "__run_container_work_"@ + id)
    &&& made.merged_dir@ == joined_path(root, "__run_container_merged_"@ + id)
}

/// `made` is the runner's document for `config`, run in `ctx` with the
/// overlay directories named after `id`.
pub open spec fn is_runj_config_of<L>(
    made: RunjConfig<L>,
    ctx: ActionContext,
    config: Config<L>,
    env: RunContainerEnv,
    id: Seq<char>,
) -> bool {
    let root = ctx.submission_root@;
    &&& made.user_namespace == user_namespace_of(env)
    &&& is_overlayfs_of(made.overlayfs, root, rootfs_path(env.images_root@, config.image), id)
    &&& made.cgroup_path@ == env.container_slice_path@
    &&& made.cwd == config.cwd
    &&& made.command == config.command
    &&& made.paths == config.paths
    &&& is_fd_of(made.fd, root, config.fd)
    &&& made.mounts@.len() == config.mounts@.len()
    &&& forall|i: int|
        0 <= i < config.mounts@.len() ==> is_mount_of(
            #[trigger] made.mounts@[i],
            root,
            config.mounts@[i],
        )
    &&& made.limits == config.limits
}

fn rebase(root: &str, path: &Option<String>) -> (made: Option<String>)
    ensures
        option_text(made) == rebased(root@, *path),
{
    match path {
        Some(p) => Some(join_path(root, p.as_str())),
        None => None,
    }
}

fn copy_texts(texts: &Vec<String>) -> (copy: Vec<String>)
    ensures
        copy@ == texts@,
{
    let n = texts.len();
    let mut copy: Vec<String> = Vec::new();
    let mut i: usize = 0;
    while i < n
        invariant
            n == texts@.len(),
            i <= n,
            copy@ == texts@.subrange(0, i as int),
        decreases n - i,
    {
        copy.push(texts[i].clone());
        assert(copy@ =~= texts@.subrange(0, i + 1));
        i += 1;
    }
    assert(texts@.subrange(0, n as int) =~= texts@);
    copy
}

/// The user namespace that sandboxes get in this environment.
pub fn make_user_namespace(env: &RunContainerEnv) -> (made: Option<UserNamespaceConfig>)
    ensures
        made == user_namespace_of(*env),
{
    if env.work_mode.maps_ids() {
        Some(
            UserNamespaceConfig {
                enabled: true,
                root_uid: env.userns_uid,
                uid_map_begin: env.subuids.begin,
                uid_map_count: env.subuids.count,
                root_gid: env.userns_gid,
                gid_map_begin: env.subgids.begin,
                gid_map_count: env.subgids.count,
            },
        )
    } else {
        None
    }
}

/// The mounts of a step as the runner wants them. A source that begins at
/// the root stays as it is.
pub fn make_runj_mounts(root: &str, mounts: &Vec<MountConfig>) -> (made: Vec<MountConfig>)
    ensures
        made@.len() == mounts@.len(),
        forall|i: int| 0 <= i < mounts@.len() ==> is_mount_of(#[trigger] made@[i], root@, mounts@[i]),
        forall|i: int|
            0 <= i < mounts@.len() && is_absolute(mounts@[i].from@) ==> (#[trigger] made@[i]).from@
                == mounts@[i].from@,
{
    let n = mounts.len();
    let mut made: Vec<MountConfig> = Vec::new();
    let mut i: usize = 0;
    while i < n
        invariant
            n == mounts@.len(),
            i <= n,
            made@.len() == i,
            forall|j: int| 0 <= j < i ==> is_mount_of(#[trigger] made@[j], root@, mounts@[j]),
            forall|j: int|
                0 <= j < i && is_absolute(mounts@[j].from@) ==> (#[trigger] made@[j]).from@
                    == mounts@[j].from@,
        decreases n - i,
    {
        let mount = &mounts[i];
        let from = match mount.kind {
            MountKind::Bind => join_path(root, mount.from.as_str()),
            MountKind::Tmpfs => mount.from.clone(),
        };
        made.push(
            MountConfig {
                kind: mount.kind,
                from,
                to: mount.to.clone(),
                options: copy_texts(&mount.options),
            },
        );
        i += 1;
    }
    made
}

/// The runner's document for `config`, with the overlay directories named
/// after `id`. The directories are not made here.
pub fn assemble_runj_config<L>(
    ctx: &ActionContext,
    config: Config<L>,
    env: &RunContainerEnv,
    id: &str,
) -> (made: RunjConfig<L>)
    ensures
        is_runj_config_of(made, *ctx, config, *env, id@),
{
    let root = ctx.submission_root.as_str();
    let overlayfs = OverlayfsConfig {
        lower_dir: get_rootfs_path(env.images_root.as_str(), &config.image),
        upper_dir: join_path(root, concat2("__run_container_upper_", id).as_str()),
        work_dir: join_path(root, concat2("__run_container_work_", id).as_str()),
        merged_dir: join_path(root, concat2("__run_container_merged_", id).as_str()),
    };
    let fd = match &config.fd {
        Some(fd) => Some(
            FdConfig {
                stdin: rebase(root, &fd.stdin),
                stdout: rebase(root, &fd.stdout),
                stderr: rebase(root, &fd.stderr),
            },
        ),
        None => None,
    };
    let mounts = make_runj_mounts(root, &config.mounts);
    RunjConfig {
        user_namespace: make_user_namespace(env),
        overlayfs,
        cgroup_path: env.container_slice_path.clone(),
        cwd: config.cwd,
        command: config.command,
        paths: config.paths,
        fd,
        mounts,
        limits: config.limits,
    }
}

/// The runner's document for `config`, with overlay directories named after
/// a fresh random text. The directories are not made here.
pub fn make_runj_config<L>(ctx: &ActionContext, config: Config<L>, env: &RunContainerEnv) -> (made:
    RunjConfig<L>)
    ensures
        exists|id: Seq<char>| is_random_id(id) && is_runj_config_of(made, *ctx, config, *env, id),
{
    let id = random_id();
    let made = assemble_runj_config(ctx, config, env, id.as_str());
    assert(is_random_id(id@) && is_runj_config_of(made, *ctx, config, *env, id@));
    made
}

/// The directories to make, and to open to every user, before the runner
/// starts: upper, work and merged, in this order.
pub fn overlay_directories<L>(config: &RunjConfig<L>) -> (dirs: Vec<String>)
    ensures
        dirs@.len() == 3,
        dirs@[0]@ == config.overlayfs.upper_dir@,
        dirs@[1]@ == config.overlayfs.work_dir@,
        dirs@[2]@ == config.overlayfs.merged_dir@,
{
    let mut dirs: Vec<String> = Vec::new();
    dirs.push(config.overlayfs.upper_dir.clone());
    dirs.push(config.overlayfs.work_dir.clone());
    dirs.push(config.overlayfs.merged_dir.clone());
    dirs
}

/// The stream files that `fd` names, in the order input, output, error.
pub open spec fn stream_files(fd: Option<FdConfig>) -> Seq<Seq<char>> {
    match fd {
        None => Seq::empty(),
        Some(fd) => {
            let stdin = match fd.stdin {
                Some(p) => seq![p@],
                None => Seq::empty(),
            };
            let stdout = match fd.stdout {
                Some(p) => seq![p@],
                None => Seq::empty(),
            };
            let stderr = match fd.stderr {
                Some(p) => seq![p@],
                None => Seq::empty(),
            };
            stdin + stdout + stderr
        },
    }
}

/// The files whose parent directories have to exist before the runner
/// starts: those of the standard streams, in the order input, output, error.
pub fn check_and_create_directories<L>(config: &RunjConfig<L>) -> (files: Vec<String>)
    ensures
        files@.map_values(|p: String| p@) == stream_files(config.fd),
{
    let mut files: Vec<String> = Vec::new();
    if let Some(fd) = &config.fd {
        if let Some(path) = &fd.stdin {
            files.push(path.clone());
        }
        if let Some(path) = &fd.stdout {
            files.push(path.clone());
        }
        if let Some(path) = &fd.stderr {
            files.push(path.clone());
        }
    }
    assert(files@.map_values(|p: String| p@) =~= stream_files(config.fd));
    files
}

} // verus!
