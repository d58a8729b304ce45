use seele::cgroup::cpuset::{parse_cpuset, parse_thread_ids, sort_cpus, ListError};
use seele::cgroup::{
    bind_application_threads, check_cgroup_setup, initialize_cgroup_subtrees,
    plan_thread_bindings, thread_binding_ops, CgroupError, CgroupOp, CgroupSetup, ThreadBinding,
};
use seele::cgroup::utils::check_and_get_self_cgroup;
use seele::conf::{
    check_id_maps, eviction_state_file, layout, smt_enabled, submission_root, IdRange,
    SeeleWorkMode, StartupError, OVERLAY_DIRECTORY_MODE,
};
use seele::shared::bytes::{copy_bytes, same_bytes};
use seele::worker::action::run_container::idmap::{find_id_range, subordinate_ids};

fn dir(path: &str) -> CgroupOp {
    CgroupOp::CreateDir { path: path.to_string() }
}

fn write(path: &str, content: &str) -> CgroupOp {
    CgroupOp::Write { path: path.to_string(), content: content.to_string() }
}

#[test]
fn cpuset_single_numbers_and_ranges() {
    assert_eq!(parse_cpuset("0-3,5,7-8\n"), Ok(vec![0, 1, 2, 3, 5, 7, 8]));
    assert_eq!(parse_cpuset("4"), Ok(vec![4]));
    assert_eq!(parse_cpuset("  0-1 \t\r\n"), Ok(vec![0, 1]));
    assert_eq!(parse_cpuset("3,1,2"), Ok(vec![1, 2, 3]));
    assert_eq!(parse_cpuset("4-5,0-1"), Ok(vec![0, 1, 4, 5]));
    assert_eq!(parse_cpuset("0-2,1-3,2"), Ok(vec![0, 1, 2, 3]));
    assert_eq!(parse_cpuset("7,7,7"), Ok(vec![7]));
    assert_eq!(sort_cpus(&vec![5, 1, 5, 0, 9, 1]), vec![0, 1, 5, 9]);
    assert_eq!(sort_cpus(&vec![]), Vec::<u32>::new());
    assert_eq!(parse_cpuset("2-2"), Ok(vec![2]));
    assert_eq!(parse_cpuset("+1-+2,007"), Ok(vec![1, 2, 7]));
}

#[test]
fn cpuset_round_trip_of_ranges() {
    let ranges = [(0u32, 0u32), (2, 5), (9, 10), (64, 64), (100, 103)];
    let text = ranges
        .iter()
        .map(|(a, b)| if a == b { format!("{}", a) } else { format!("{}-{}", a, b) })
        .collect::<Vec<_>>()
        .join(",");
    assert_eq!(text, "0,2-5,9-10,64,100-103");
    let expected = ranges.iter().flat_map(|(a, b)| *a..=*b).collect::<Vec<_>>();
    assert_eq!(parse_cpuset(&text), Ok(expected));
}

#[test]
fn cpuset_largest_number() {
    assert_eq!(parse_cpuset("4294967295"), Ok(vec![4294967295]));
    assert_eq!(parse_cpuset("4294967294-4294967295"), Ok(vec![4294967294, 4294967295]));
    assert_eq!(parse_cpuset("4294967296"), Err(ListError::InvalidNumber));
    assert_eq!(parse_cpuset("99999999999999999999999"), Err(ListError::InvalidNumber));
}

#[test]
fn cpuset_errors() {
    assert_eq!(parse_cpuset(""), Err(ListError::InvalidNumber));
    assert_eq!(parse_cpuset("\n"), Err(ListError::InvalidNumber));
    assert_eq!(parse_cpuset("a"), Err(ListError::InvalidNumber));
    assert_eq!(parse_cpuset("1,"), Err(ListError::InvalidNumber));
    assert_eq!(parse_cpuset("1, 2"), Err(ListError::InvalidNumber));
    assert_eq!(parse_cpuset("1-"), Err(ListError::InvalidNumber));
    assert_eq!(parse_cpuset("-1"), Err(ListError::InvalidNumber));
    assert_eq!(parse_cpuset("+"), Err(ListError::InvalidNumber));
    assert_eq!(parse_cpuset("++1"), Err(ListError::InvalidNumber));
    assert_eq!(parse_cpuset("1-2-3"), Err(ListError::UnexpectedItem));
    assert_eq!(parse_cpuset("a-b-c"), Err(ListError::UnexpectedItem));
    assert_eq!(parse_cpuset("x,1-2-3"), Err(ListError::InvalidNumber));
    assert_eq!(parse_cpuset("1-2-3,x"), Err(ListError::UnexpectedItem));
    assert_eq!(parse_cpuset("5-3"), Err(ListError::Empty));
    assert_eq!(parse_cpuset("5-3,1"), Ok(vec![1]));
}

#[test]
fn thread_ids_one_in_each_line() {
    assert_eq!(parse_thread_ids("12\n34\n"), Ok(vec![12, 34]));
    assert_eq!(parse_thread_ids("12\n34"), Ok(vec![12, 34]));
    assert_eq!(parse_thread_ids(" 12 \r\n\t34\r\n"), Ok(vec![12, 34]));
    assert_eq!(parse_thread_ids("7"), Ok(vec![7]));
}

#[test]
fn thread_ids_errors() {
    assert_eq!(parse_thread_ids(""), Err(ListError::Empty));
    assert_eq!(parse_thread_ids("\n"), Err(ListError::InvalidNumber));
    assert_eq!(parse_thread_ids("12\n\n34\n"), Err(ListError::InvalidNumber));
    assert_eq!(parse_thread_ids("12 34\n"), Err(ListError::InvalidNumber));
    assert_eq!(parse_thread_ids("x\n"), Err(ListError::InvalidNumber));
}

#[test]
fn threads_are_zipped_with_processors() {
    assert_eq!(
        plan_thread_bindings(&vec![4, 5, 6], &vec![100, 101]),
        Ok(vec![ThreadBinding { tid: 100, cpu: 4 }, ThreadBinding { tid: 101, cpu: 5 }])
    );
    assert_eq!(plan_thread_bindings(&vec![4], &vec![]), Ok(vec![]));
    assert_eq!(
        plan_thread_bindings(&vec![4], &vec![100, 101]),
        Err(CgroupError::InsufficientCpus { available: 1, want: 2 })
    );
}

#[test]
fn binding_steps_for_each_thread() {
    let ops = thread_binding_ops(
        "/sys/fs/cgroup/seele/main.scope",
        &vec![ThreadBinding { tid: 321, cpu: 0 }, ThreadBinding { tid: 322, cpu: 17 }],
    );
    assert_eq!(
        ops,
        vec![
            dir("/sys/fs/cgroup/seele/main.scope/thread-321"),
            write("/sys/fs/cgroup/seele/main.scope/thread-321/cgroup.type", "threaded"),
            write("/sys/fs/cgroup/seele/main.scope/thread-321/cgroup.threads", "321"),
            write("/sys/fs/cgroup/seele/main.scope/thread-321/cpuset.cpus", "0"),
            dir("/sys/fs/cgroup/seele/main.scope/thread-322"),
            write("/sys/fs/cgroup/seele/main.scope/thread-322/cgroup.type", "threaded"),
            write("/sys/fs/cgroup/seele/main.scope/thread-322/cgroup.threads", "322"),
            write("/sys/fs/cgroup/seele/main.scope/thread-322/cpuset.cpus", "17"),
        ]
    );
}

#[test]
fn bind_application_threads_reads_both_files() {
    let ops = bind_application_threads("/cg/main.scope", "2-3\n", "41\n42\n").unwrap();
    assert_eq!(
        ops,
        vec![
            dir("/cg/main.scope/thread-41"),
            write("/cg/main.scope/thread-41/cgroup.type", "threaded"),
            write("/cg/main.scope/thread-41/cgroup.threads", "41"),
            write("/cg/main.scope/thread-41/cpuset.cpus", "2"),
            dir("/cg/main.scope/thread-42"),
            write("/cg/main.scope/thread-42/cgroup.type", "threaded"),
            write("/cg/main.scope/thread-42/cgroup.threads", "42"),
            write("/cg/main.scope/thread-42/cpuset.cpus", "3"),
        ]
    );
}

#[test]
fn threads_get_the_lowest_processors() {
    let ops = bind_application_threads("/cg/main.scope", "4-5,0-1", "7\n8\n").unwrap();
    assert_eq!(
        ops,
        vec![
            dir("/cg/main.scope/thread-7"),
            write("/cg/main.scope/thread-7/cgroup.type", "threaded"),
            write("/cg/main.scope/thread-7/cgroup.threads", "7"),
            write("/cg/main.scope/thread-7/cpuset.cpus", "0"),
            dir("/cg/main.scope/thread-8"),
            write("/cg/main.scope/thread-8/cgroup.type", "threaded"),
            write("/cg/main.scope/thread-8/cgroup.threads", "8"),
            write("/cg/main.scope/thread-8/cpuset.cpus", "1"),
        ]
    );
    assert_eq!(
        bind_application_threads("/cg/main.scope", "1,1,1", "7\n8\n"),
        Err(CgroupError::InsufficientCpus { available: 1, want: 2 })
    );
}

#[test]
fn bind_application_threads_errors_in_order() {
    assert_eq!(
        bind_application_threads("/cg/main.scope", "x", "y"),
        Err(CgroupError::Cpuset(ListError::InvalidNumber))
    );
    assert_eq!(
        bind_application_threads("/cg/main.scope", "1-2-3", ""),
        Err(CgroupError::Cpuset(ListError::UnexpectedItem))
    );
    assert_eq!(
        bind_application_threads("/cg/main.scope", "3-1", "1"),
        Err(CgroupError::Cpuset(ListError::Empty))
    );
    assert_eq!(
        bind_application_threads("/cg/main.scope", "0", "y"),
        Err(CgroupError::Threads(ListError::InvalidNumber))
    );
    assert_eq!(
        bind_application_threads("/cg/main.scope", "0", ""),
        Err(CgroupError::Threads(ListError::Empty))
    );
    assert_eq!(
        bind_application_threads("/cg/main.scope", "0-1", "1\n2\n3\n"),
        Err(CgroupError::InsufficientCpus { available: 2, want: 3 })
    );
}

#[test]
fn cgroup_errors_in_words() {
    assert_eq!(CgroupError::UnsupportedSetup.message(), "Seele only supports cgroup v2");
    assert_eq!(
        CgroupError::InsufficientCpus { available: 2, want: 13 }.message(),
        "Insufficient available cpus, available: 2, want: 13"
    );
    assert_eq!(
        CgroupError::Cpuset(ListError::Empty).message(),
        "Unexpected empty cpuset.cpu.effective"
    );
    assert_eq!(
        CgroupError::Cpuset(ListError::UnexpectedItem).message(),
        "Unexpected cpuset.cpus.effective item"
    );
    assert_eq!(
        CgroupError::Cpuset(ListError::InvalidNumber).message(),
        "Unexpected cpuset.cpus.effective number"
    );
    assert_eq!(
        CgroupError::Threads(ListError::Empty).message(),
        "No pids found in the cgroup.threads"
    );
    assert_eq!(
        CgroupError::Threads(ListError::InvalidNumber).message(),
        "Error parsing a line of cgroup.threads"
    );
}

#[test]
fn only_the_unified_hierarchy_will_do() {
    assert_eq!(check_cgroup_setup(CgroupSetup::Unified), Ok(()));
    assert_eq!(check_cgroup_setup(CgroupSetup::Hybrid), Err(CgroupError::UnsupportedSetup));
    assert_eq!(check_cgroup_setup(CgroupSetup::Legacy), Err(CgroupError::UnsupportedSetup));
}

#[test]
fn container_slice_is_the_child_of_the_root() {
    let ops = initialize_cgroup_subtrees("cg", 1);
    assert_eq!(ops[0], dir("cg/main.scope"));
    assert_eq!(ops[1], dir("cg/container.slice"));
    assert_eq!(ops[5], write("cg/container.slice/cgroup.subtree_control", "+cpu +cpuset +memory +io +pids"));
}

#[test]
fn subtrees_are_set_up_in_order() {
    let ops = initialize_cgroup_subtrees("/sys/fs/cgroup/seele", 4242);
    assert_eq!(
        ops,
        vec![
            dir("/sys/fs/cgroup/seele/main.scope"),
            dir("/sys/fs/cgroup/seele/container.slice"),
            write("/sys/fs/cgroup/seele/main.scope/cgroup.procs", "4242"),
            write("/sys/fs/cgroup/seele/cgroup.subtree_control", "+cpu +cpuset +memory +io +pids"),
            write("/sys/fs/cgroup/seele/main.scope/cgroup.subtree_control", "+cpuset"),
            write(
                "/sys/fs/cgroup/seele/container.slice/cgroup.subtree_control",
                "+cpu +cpuset +memory +io +pids"
            ),
        ]
    );
}

#[test]
fn id_maps_are_checked_outside_rootless_containers() {
    let enough = IdRange { begin: 100000, count: 65536 };
    let short = IdRange { begin: 100000, count: 65535 };
    assert_eq!(check_id_maps(SeeleWorkMode::Bare, enough, enough), Ok(()));
    assert_eq!(
        check_id_maps(SeeleWorkMode::Bare, short, short),
        Err(StartupError::SubuidRangeTooSmall)
    );
    assert_eq!(
        check_id_maps(SeeleWorkMode::BareSystemd, enough, short),
        Err(StartupError::SubgidRangeTooSmall)
    );
    assert_eq!(
        check_id_maps(SeeleWorkMode::Containerized, short, enough),
        Err(StartupError::SubuidRangeTooSmall)
    );
    assert_eq!(check_id_maps(SeeleWorkMode::RootlessContainerized, short, short), Ok(()));
    assert!(SeeleWorkMode::Bare.maps_ids());
    assert!(!SeeleWorkMode::RootlessContainerized.maps_ids());
}

#[test]
fn smt_shows_in_the_processor_counts() {
    assert!(smt_enabled(8, 4));
    assert!(!smt_enabled(4, 4));
    assert!(!smt_enabled(2, 4));
}

#[test]
fn own_cgroup_is_read_from_the_membership_list() {
    assert_eq!(
        check_and_get_self_cgroup("0::/user.slice/user-1000.slice/session-3.scope\n"),
        Some(b"user.slice/user-1000.slice/session-3.scope".to_vec())
    );
    assert_eq!(
        check_and_get_self_cgroup("12:pids:/a\n1:name=systemd:/b\n0::/c\n0::/d\n"),
        Some(b"c".to_vec())
    );
    assert_eq!(check_and_get_self_cgroup("0::/last"), Some(b"last".to_vec()));
    assert_eq!(check_and_get_self_cgroup("0::///a//b/"), Some(b"a//b/".to_vec()));
    assert_eq!(check_and_get_self_cgroup("0::relative"), Some(b"relative".to_vec()));
    assert_eq!(check_and_get_self_cgroup("0::/"), Some(vec![]));
    assert_eq!(check_and_get_self_cgroup("0::"), Some(vec![]));
    assert_eq!(check_and_get_self_cgroup(""), None);
    assert_eq!(check_and_get_self_cgroup("\n"), None);
    assert_eq!(check_and_get_self_cgroup("1:cpu:/a\n0:x:/b\n"), None);
    assert_eq!(check_and_get_self_cgroup(" 0::/a\n"), None);
    assert_eq!(check_and_get_self_cgroup("0:"), None);
}

#[test]
fn id_ranges_are_read_from_the_records() {
    let content = "root:100000:65536\n# comment\nseele:165536:65536\nseele:1:2\n";
    assert_eq!(find_id_range(content, "seele"), Some(IdRange { begin: 165536, count: 65536 }));
    assert_eq!(find_id_range(content, "root"), Some(IdRange { begin: 100000, count: 65536 }));
    assert_eq!(find_id_range(content, "nobody"), None);
    assert_eq!(find_id_range(content, "seel"), None);
    assert_eq!(find_id_range("", "seele"), None);
    assert_eq!(find_id_range("seele:1:2", "seele"), Some(IdRange { begin: 1, count: 2 }));
    assert_eq!(find_id_range("  seele:1:2 \r\n", "seele"), Some(IdRange { begin: 1, count: 2 }));
    assert_eq!(find_id_range("seele:1\nseele:3:4\n", "seele"), Some(IdRange { begin: 3, count: 4 }));
    assert_eq!(find_id_range("seele:1:2:3\n", "seele"), None);
    assert_eq!(find_id_range("seele:x:2\nseele:5:6", "seele"), Some(IdRange { begin: 5, count: 6 }));
    assert_eq!(find_id_range("seele:1:4294967296\n", "seele"), None);
    assert_eq!(find_id_range(":1:2\n", ""), Some(IdRange { begin: 1, count: 2 }));
}

#[test]
fn directories_under_the_root() {
    let paths = layout("/var/lib/seele");
    assert_eq!(paths.root, "/var/lib/seele");
    assert_eq!(paths.images, "/var/lib/seele/images");
    assert_eq!(paths.submissions, "/var/lib/seele/submissions");
    assert_eq!(paths.evicted, "/var/lib/seele/evicted");
    assert_eq!(paths.temp, "/var/lib/seele/temp");
    assert_eq!(paths.states, "/var/lib/seele/states");
    assert_eq!(submission_root(&paths, "abc"), "/var/lib/seele/submissions/abc");
    assert_eq!(
        eviction_state_file(&paths, "submission"),
        "/var/lib/seele/states/submission_eviction.yaml"
    );
    assert_eq!(eviction_state_file(&paths, "image"), "/var/lib/seele/states/image_eviction.yaml");
    assert_eq!(OVERLAY_DIRECTORY_MODE, 0o777);
}

#[test]
fn missing_record_gives_the_empty_range() {
    assert_eq!(subordinate_ids("seele:7:9\n", "seele"), IdRange { begin: 7, count: 9 });
    assert_eq!(subordinate_ids("seele:7:9\n", "other"), IdRange { begin: 0, count: 0 });
    assert_eq!(subordinate_ids("", "seele"), IdRange { begin: 0, count: 0 });
}

#[test]
fn runs_of_bytes() {
    assert!(same_bytes(b"hello", 1, 4, b"ell"));
    assert!(!same_bytes(b"hello", 1, 4, b"elx"));
    assert!(!same_bytes(b"hello", 1, 4, b"el"));
    assert!(same_bytes(b"hello", 2, 2, b""));
    assert_eq!(copy_bytes(b"hello", 1, 4), b"ell".to_vec());
    assert_eq!(copy_bytes(b"hello", 5, 5), Vec::<u8>::new());
}
