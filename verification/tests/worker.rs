use seele::conf::{IdRange, SeeleWorkMode};
use seele::entities::{ActionFailedReport, ActionKind, ActionReport, ActionSuccessReport};
use seele::shared::cond_group::{CondGroup, Role};
use seele::shared::oci_image::OciImage;
use seele::shared::text::{concat2, concat3, decimal_string};
use seele::worker::action::run_container::image::{
    begin_prepare_image, escape_image_name, get_image_path, get_oci_image_path, get_rootfs_path,
    get_unpacked_image_path, prepare_image, prepare_image_impl, pull_image, unpack_image,
    ImageTool, PrepareAction, PrepareEntry, PrepareEvent, PrepareState,
};
use seele::worker::action::run_container::runj::{
    FdConfig, MountConfig, MountKind, RunjConfig, UserNamespaceConfig,
};
use seele::worker::action::run_container::utils::{
    assemble_runj_config, check_and_create_directories, make_runj_config, make_runj_mounts,
    make_user_namespace, overlay_directories,
};
use seele::worker::action::run_container::{Config, RunContainerEnv};
use seele::worker::action::ActionContext;
use seele::worker::eviction::EvictionManager;
use seele::worker::{
    add_file_target, enter_action, execute_action, executor_of, leave_action, note_image_use,
    worker_main, ActionErrorWithReport, ActionFailure, Executor, WorkerEvent, WorkerStep,
};

fn image() -> OciImage {
    OciImage {
        registry: "docker.io".to_string(),
        name: "library/gcc".to_string(),
        tag: "12".to_string(),
    }
}

fn env(work_mode: SeeleWorkMode) -> RunContainerEnv {
    RunContainerEnv {
        work_mode,
        userns_uid: 1000,
        userns_gid: 1001,
        subuids: IdRange { begin: 100000, count: 65536 },
        subgids: IdRange { begin: 200000, count: 70000 },
        container_slice_path: "/sys/fs/cgroup/seele/container.slice".to_string(),
        images_root: "/data/images".to_string(),
    }
}

fn config() -> Config<u32> {
    Config {
        image: image(),
        cwd: "/work".to_string(),
        command: vec!["gcc".to_string(), "main.c".to_string()],
        fd: Some(FdConfig {
            stdin: Some("in/1.txt".to_string()),
            stdout: None,
            stderr: Some("/tmp/err.txt".to_string()),
        }),
        paths: vec!["/usr/bin".to_string()],
        mounts: vec![
            MountConfig {
                kind: MountKind::Bind,
                from: "src".to_string(),
                to: "/work/src".to_string(),
                options: vec!["ro".to_string()],
            },
            MountConfig {
                kind: MountKind::Bind,
                from: "/opt/tools".to_string(),
                to: "/tools".to_string(),
                options: vec![],
            },
            MountConfig {
                kind: MountKind::Tmpfs,
                from: "tmpfs".to_string(),
                to: "/tmp".to_string(),
                options: vec!["size=16m".to_string(), "noexec".to_string()],
            },
        ],
        limits: 77,
    }
}

fn ctx() -> ActionContext {
    ActionContext { submission_root: "/data/submissions/abc".to_string() }
}

fn strings(values: &[&str]) -> Vec<String> {
    values.iter().map(|v| v.to_string()).collect()
}

#[test]
fn image_paths() {
    assert_eq!(escape_image_name("library/gcc"), "library_gcc");
    assert_eq!(escape_image_name("a/b/c"), "a_b_c");
    assert_eq!(escape_image_name("plain"), "plain");
    assert_eq!(escape_image_name(""), "");
    assert_eq!(escape_image_name("/héllo/"), "_héllo_");
    assert_eq!(get_image_path("/data/images", &image()), "/data/images/docker.io/library_gcc");
    assert_eq!(
        get_oci_image_path("/data/images", &image()),
        "/data/images/docker.io/library_gcc/oci"
    );
    assert_eq!(
        get_unpacked_image_path("/data/images", &image()),
        "/data/images/docker.io/library_gcc/unpacked"
    );
    assert_eq!(
        get_rootfs_path("/data/images/", &image()),
        "/data/images/docker.io/library_gcc/unpacked/rootfs"
    );
}

#[test]
fn absolute_registry_takes_the_place_of_the_root() {
    let image = OciImage {
        registry: "/elsewhere".to_string(),
        name: "x".to_string(),
        tag: "1".to_string(),
    };
    assert_eq!(get_image_path("/data/images", &image), "/elsewhere/x");
}

#[test]
fn pull_and_unpack_commands() {
    let pull = pull_image("/data/images", &image());
    assert_eq!(pull.tool, ImageTool::Skopeo);
    assert_eq!(pull.timeout_second, 183);
    assert_eq!(
        pull.args,
        strings(&[
            "copy",
            "docker://docker.io/library/gcc:12",
            "oci:/data/images/docker.io/library_gcc/oci:12",
            "--command-timeout",
            "180s",
            "--retry-times",
            "3",
            "--quiet",
        ])
    );
    let unpack = unpack_image("/data/images", &image());
    assert_eq!(unpack.tool, ImageTool::Umoci);
    assert_eq!(unpack.timeout_second, 120);
    assert_eq!(
        unpack.args,
        strings(&[
            "--log",
            "error",
            "unpack",
            "--rootless",
            "--image",
            "/data/images/docker.io/library_gcc/oci:12",
            "/data/images/docker.io/library_gcc/unpacked",
        ])
    );
}

fn probe_path(action: &PrepareAction) -> &str {
    match action {
        PrepareAction::Probe { path } => path,
        other => panic!("unexpected action {:?}", other),
    }
}

fn create_path(action: &PrepareAction) -> &str {
    match action {
        PrepareAction::CreateDir { path } => path,
        other => panic!("unexpected action {:?}", other),
    }
}

fn finished(action: &PrepareAction) -> Result<String, String> {
    match action {
        PrepareAction::Finish(result) => result.clone(),
        other => panic!("unexpected action {:?}", other),
    }
}

#[test]
fn preparation_pulls_then_unpacks() {
    let root = "/data/images";
    let image = image();
    let step = begin_prepare_image(root, &image);
    assert_eq!(step.state, PrepareState::ProbingImage);
    assert_eq!(probe_path(&step.action), "/data/images/docker.io/library_gcc/oci");

    let step = prepare_image_impl(root, &image, step.state, &PrepareEvent::Probed { exists: false });
    assert_eq!(step.state, PrepareState::CreatingImageDir);
    assert_eq!(create_path(&step.action), "/data/images/docker.io/library_gcc/oci");

    let step = prepare_image_impl(root, &image, step.state, &PrepareEvent::DirCreated);
    assert_eq!(step.state, PrepareState::Pulling);
    match &step.action {
        PrepareAction::Run(command) => {
            assert_eq!(command.tool, ImageTool::Skopeo);
            assert_eq!(command.args, pull_image(root, &image).args);
        }
        other => panic!("unexpected action {:?}", other),
    }

    let step = prepare_image_impl(root, &image, step.state, &PrepareEvent::ToolSucceeded);
    assert_eq!(step.state, PrepareState::ProbingUnpacked);
    assert_eq!(probe_path(&step.action), "/data/images/docker.io/library_gcc/unpacked");

    let step = prepare_image_impl(root, &image, step.state, &PrepareEvent::Probed { exists: false });
    assert_eq!(step.state, PrepareState::CreatingUnpackedDir);
    assert_eq!(create_path(&step.action), "/data/images/docker.io/library_gcc/unpacked");

    let step = prepare_image_impl(root, &image, step.state, &PrepareEvent::DirCreated);
    assert_eq!(step.state, PrepareState::Unpacking);
    match &step.action {
        PrepareAction::Run(command) => {
            assert_eq!(command.tool, ImageTool::Umoci);
            assert_eq!(command.timeout_second, 120);
        }
        other => panic!("unexpected action {:?}", other),
    }

    let step = prepare_image_impl(root, &image, step.state, &PrepareEvent::ToolSucceeded);
    assert_eq!(step.state, PrepareState::Finished);
    assert_eq!(
        finished(&step.action),
        Ok("/data/images/docker.io/library_gcc/unpacked/rootfs".to_string())
    );
}

#[test]
fn preparation_skips_what_is_there() {
    let root = "/data/images";
    let image = image();
    let step = prepare_image_impl(
        root,
        &image,
        PrepareState::ProbingImage,
        &PrepareEvent::Probed { exists: true },
    );
    assert_eq!(step.state, PrepareState::ProbingUnpacked);
    let step = prepare_image_impl(root, &image, step.state, &PrepareEvent::Probed { exists: true });
    assert_eq!(step.state, PrepareState::Finished);
    assert_eq!(
        finished(&step.action),
        Ok("/data/images/docker.io/library_gcc/unpacked/rootfs".to_string())
    );
}

#[test]
fn preparation_failures() {
    let root = "/data/images";
    let image = image();
    let fail = |state: PrepareState, event: PrepareEvent| {
        let step = prepare_image_impl(root, &image, state, &event);
        assert_eq!(step.state, PrepareState::Finished);
        finished(&step.action).unwrap_err()
    };
    assert_eq!(
        fail(PrepareState::CreatingImageDir, PrepareEvent::DirFailed { detail: "denied".to_string() }),
        "Error pulling the image: Error creating the image directory: denied"
    );
    assert_eq!(
        fail(PrepareState::Pulling, PrepareEvent::ToolFailed { output: "no such image".to_string() }),
        "Error pulling the image: The skopeo process failed with the following output: no such image"
    );
    assert_eq!(
        fail(PrepareState::Pulling, PrepareEvent::ToolTimedOut { detail: "elapsed".to_string() }),
        "Error pulling the image: The skopeo process took too long to finish: elapsed"
    );
    assert_eq!(
        fail(PrepareState::Pulling, PrepareEvent::ToolNotStarted { detail: "not found".to_string() }),
        "Error pulling the image: Error executing the skopeo process: not found"
    );
    assert_eq!(
        fail(
            PrepareState::CreatingUnpackedDir,
            PrepareEvent::DirFailed { detail: "denied".to_string() }
        ),
        "Error unpacking the image: Error creating the unpacked image directory: denied"
    );
    assert_eq!(
        fail(PrepareState::Unpacking, PrepareEvent::ToolFailed { output: "bad layer".to_string() }),
        "Error unpacking the image: The umoci process failed with the following output: bad layer"
    );
    assert_eq!(
        fail(PrepareState::Unpacking, PrepareEvent::Probed { exists: true }),
        "Error unpacking the image: Unexpected event"
    );
    assert_eq!(
        fail(PrepareState::ProbingImage, PrepareEvent::DirCreated),
        "Error pulling the image: Unexpected event"
    );
    assert_eq!(
        fail(PrepareState::ProbingUnpacked, PrepareEvent::ToolSucceeded),
        "Error unpacking the image: Unexpected event"
    );
    assert_eq!(
        fail(PrepareState::CreatingImageDir, PrepareEvent::ToolSucceeded),
        "Error pulling the image: Unexpected event"
    );
    assert_eq!(fail(PrepareState::Finished, PrepareEvent::ToolSucceeded), "Unexpected event");
}

#[test]
fn callers_for_one_image_share_one_preparation() {
    let mut group = CondGroup::new();
    let image = image();
    let other = OciImage { tag: "13".to_string(), ..image.clone() };

    let mut leads = 0;
    for _ in 0..5 {
        match prepare_image(&mut group, "/data/images", &image) {
            PrepareEntry::Lead(step) => {
                leads += 1;
                assert_eq!(step.state, PrepareState::ProbingImage);
            }
            PrepareEntry::Follow => {}
        }
    }
    assert_eq!(leads, 1);
    assert!(group.is_in_flight(&image));
    assert!(!group.is_in_flight(&other));
    assert_eq!(group.join(&other), Role::Leader);
    assert_eq!(group.join(&other), Role::Follower);

    group.finish(&image);
    assert!(!group.is_in_flight(&image));
    assert!(group.is_in_flight(&other));
    assert_eq!(group.join(&image), Role::Leader);
    assert_eq!(group.join(&image), Role::Follower);
    group.finish(&image);
    group.finish(&image);
    group.finish(&other);
    assert_eq!(group.join(&other), Role::Leader);
}

#[test]
fn image_identity_is_registry_name_and_tag() {
    let a = image();
    assert!(a.same_as(&a.copy()));
    assert!(!a.same_as(&OciImage { registry: "ghcr.io".to_string(), ..a.clone() }));
    assert!(!a.same_as(&OciImage { name: "library/gcc2".to_string(), ..a.clone() }));
    assert!(!a.same_as(&OciImage { tag: "13".to_string(), ..a.clone() }));
    assert_eq!(a.copy(), a);
}

fn check_assembled(made: &RunjConfig<u32>, id: &str) {
    assert_eq!(
        made.user_namespace,
        Some(UserNamespaceConfig {
            enabled: true,
            root_uid: 1000,
            uid_map_begin: 100000,
            uid_map_count: 65536,
            root_gid: 1001,
            gid_map_begin: 200000,
            gid_map_count: 70000,
        })
    );
    assert_eq!(made.overlayfs.lower_dir, "/data/images/docker.io/library_gcc/unpacked/rootfs");
    assert_eq!(
        made.overlayfs.upper_dir,
        format!("/data/submissions/abc/__run_container_upper_{}", id)
    );
    assert_eq!(
        made.overlayfs.work_dir,
        format!("/data/submissions/abc/__run_container_work_{}", id)
    );
    assert_eq!(
        made.overlayfs.merged_dir,
        format!("/data/submissions/abc/__run_container_merged_{}", id)
    );
    assert_eq!(made.cgroup_path, "/sys/fs/cgroup/seele/container.slice");
    assert_eq!(made.cwd, "/work");
    assert_eq!(made.command, strings(&["gcc", "main.c"]));
    assert_eq!(made.paths, strings(&["/usr/bin"]));
    let fd = made.fd.as_ref().unwrap();
    assert_eq!(fd.stdin, Some("/data/submissions/abc/in/1.txt".to_string()));
    assert_eq!(fd.stdout, None);
    assert_eq!(fd.stderr, Some("/tmp/err.txt".to_string()));
    assert_eq!(made.mounts.len(), 3);
    assert_eq!(made.mounts[0].kind, MountKind::Bind);
    assert_eq!(made.mounts[0].from, "/data/submissions/abc/src");
    assert_eq!(made.mounts[0].to, "/work/src");
    assert_eq!(made.mounts[0].options, strings(&["ro"]));
    assert_eq!(made.mounts[1].from, "/opt/tools");
    assert_eq!(made.mounts[1].to, "/tools");
    assert_eq!(made.mounts[2].kind, MountKind::Tmpfs);
    assert_eq!(made.mounts[2].from, "tmpfs");
    assert_eq!(made.mounts[2].options, strings(&["size=16m", "noexec"]));
    assert_eq!(made.limits, 77);
}

#[test]
fn runj_config_is_assembled_from_the_step() {
    let made = assemble_runj_config(&ctx(), config(), &env(SeeleWorkMode::Bare), "Ab3dE6gH");
    check_assembled(&made, "Ab3dE6gH");
    assert_eq!(
        overlay_directories(&made),
        strings(&[
            "/data/submissions/abc/__run_container_upper_Ab3dE6gH",
            "/data/submissions/abc/__run_container_work_Ab3dE6gH",
            "/data/submissions/abc/__run_container_merged_Ab3dE6gH",
        ])
    );
    assert_eq!(
        check_and_create_directories(&made),
        strings(&["/data/submissions/abc/in/1.txt", "/tmp/err.txt"])
    );
}

#[test]
fn runj_config_gets_a_fresh_random_id() {
    let made = make_runj_config(&ctx(), config(), &env(SeeleWorkMode::Containerized));
    let id = made
        .overlayfs
        .upper_dir
        .strip_prefix("/data/submissions/abc/__run_container_upper_")
        .unwrap()
        .to_string();
    assert_eq!(id.chars().count(), 8);
    assert!(id.chars().all(|c| c.is_ascii_alphanumeric()));
    check_assembled(&made, &id);
    let again = make_runj_config(&ctx(), config(), &env(SeeleWorkMode::Containerized));
    assert_ne!(again.overlayfs.upper_dir, made.overlayfs.upper_dir);
}

#[test]
fn rootless_container_inherits_the_user_namespace() {
    assert_eq!(make_user_namespace(&env(SeeleWorkMode::RootlessContainerized)), None);
    assert!(make_user_namespace(&env(SeeleWorkMode::BareSystemd)).is_some());
    let mut without_fd = config();
    without_fd.fd = None;
    let made = assemble_runj_config(
        &ctx(),
        without_fd,
        &env(SeeleWorkMode::RootlessContainerized),
        "00000000",
    );
    assert_eq!(made.user_namespace, None);
    assert!(made.fd.is_none());
    assert_eq!(check_and_create_directories(&made), Vec::<String>::new());
    assert_eq!(make_runj_mounts("/r", &vec![]).len(), 0);
}

#[test]
fn action_report_of_success_and_failure() {
    let made: ActionReport<u8, String> = execute_action(17, 250, Ok(9));
    match made {
        ActionReport::Success(ActionSuccessReport { run_at, time_elapsed_ms, ext }) => {
            assert_eq!((run_at, time_elapsed_ms, ext), (17, 250, 9));
        }
        other => panic!("unexpected report {:?}", other),
    }

    let made: ActionReport<u8, String> = execute_action(
        17,
        250,
        Err(ActionFailure {
            message: "Error running: exited with 1".to_string(),
            cause: Some(ActionErrorWithReport::new("stderr: boom".to_string())),
        }),
    );
    match made {
        ActionReport::Failed(ActionFailedReport { run_at, time_elapsed_ms, error, ext }) => {
            assert_eq!(run_at, Some(17));
            assert_eq!(time_elapsed_ms, Some(250));
            assert_eq!(error, "Error executing the action: Error running: exited with 1");
            assert_eq!(ext, Some("stderr: boom".to_string()));
        }
        other => panic!("unexpected report {:?}", other),
    }

    let made: ActionReport<u8, String> =
        execute_action(1, 2, Err(ActionFailure { message: "io".to_string(), cause: None }));
    match made {
        ActionReport::Failed(report) => {
            assert_eq!(report.error, "Error executing the action: io");
            assert_eq!(report.ext, None);
        }
        other => panic!("unexpected report {:?}", other),
    }
}

#[test]
fn action_error_carries_its_report() {
    let error = ActionErrorWithReport::new(5u8);
    assert_eq!(*error.report(), 5);
    assert_eq!(error.message(), "Action execution failed with a report");
    assert_eq!(error.clone().into_report(), 5);
}

#[test]
fn worker_loop_and_dispatch() {
    assert_eq!(worker_main(WorkerEvent::TaskReceived), WorkerStep::RunTask);
    assert_eq!(worker_main(WorkerEvent::ShutdownRequested), WorkerStep::Stop);
    assert_eq!(worker_main(WorkerEvent::QueueClosed), WorkerStep::Stop);
    assert_eq!(executor_of(ActionKind::Noop), Executor::Noop);
    assert_eq!(executor_of(ActionKind::AddFile), Executor::AddFile);
    assert_eq!(executor_of(ActionKind::RunContainer), Executor::RunContainer);
    assert_eq!(executor_of(ActionKind::RunJudgeCompile), Executor::RunContainer);
    assert_eq!(executor_of(ActionKind::RunJudgeRun), Executor::RunContainer);
    assert_eq!(add_file_target(&ctx(), "src/main.c"), "/data/submissions/abc/src/main.c");
}

#[test]
fn actions_pin_their_submission_while_they_run() {
    let mut submissions = EvictionManager::new("submissions".to_string(), 1, 0, 0).unwrap();
    let ctx = ctx();
    let at = enter_action(&mut submissions, &ctx).unwrap();
    assert!(submissions.is_preserved("/data/submissions/abc"));
    assert_eq!(submissions.clean_at(at + 1), Vec::<String>::new());
    leave_action(&mut submissions, &ctx);
    assert!(!submissions.is_preserved("/data/submissions/abc"));
    assert_eq!(submissions.clean_at(at + 1), vec!["/data/submissions/abc".to_string()]);

    let mut images = EvictionManager::new("images".to_string(), 1, 0, 0).unwrap();
    let at = note_image_use(&mut images, "/data/images/docker.io/library_gcc/unpacked").unwrap();
    assert_eq!(images.item_count(), 1);
    assert_eq!(
        images.clean_at(at),
        vec!["/data/images/docker.io/library_gcc/unpacked".to_string()]
    );
}

#[test]
fn numbers_and_texts() {
    assert_eq!(decimal_string(0), "0");
    assert_eq!(decimal_string(7), "7");
    assert_eq!(decimal_string(10), "10");
    assert_eq!(decimal_string(1234567890), "1234567890");
    assert_eq!(decimal_string(u64::MAX), "18446744073709551615");
    assert_eq!(concat2("ab", "cd"), "abcd");
    assert_eq!(concat3("a", "", "c"), "ac");
}
