//! The layout of the process's own cgroup: a main scope that holds its
//! threads, each pinned to one processor, and a container slice under which
//! the sandboxes' cgroups are made.
use vstd::prelude::*;
use vstd::string::*;
use crate::cgroup::cpuset::{cpuset_of, parse_cpuset, parse_thread_ids, thread_ids_of, ListError};
use crate::shared::path::{join_path, joined_path};
use crate::shared::text::{concat2, decimal_chars, decimal_string};

pub mod cpuset;
pub mod laws;
pub mod utils;

verus! {

/// Which cgroup hierarchies the host has mounted.
#[derive(Debug, Clone, Copy, PartialEq, Eq, Structural)]
pub enum CgroupSetup {
    /// Version 1 only.
    Legacy,
    /// Versions 1 and 2 side by side.
    Hybrid,
    /// Version 2 only.
    Unified,
}

#[derive(Debug, Clone, Copy, PartialEq, Eq, Structural)]
pub enum CgroupError {
    /// The host does not offer the unified hierarchy alone.
    UnsupportedSetup,
    /// The processors of the main scope cannot be read.
    Cpuset(ListError),
    /// The threads of the main scope cannot be read.
    Threads(ListError),
    /// There are more threads than processors to pin them to.
    InsufficientCpus { available: usize, want: usize },
}

/// One step of setting a cgroup tree up.
#[derive(Debug, PartialEq, Eq)]
pub enum CgroupOp {
    /// Make the directory `path`.
    CreateDir { path: String },
    /// Write `content` to the control file `path`.
    Write { path: String, content: String },
}

pub enum CgroupOpView {
    CreateDir { path: Seq<char> },
    Write { path: Seq<char>, content: Seq<char> },
}

impl View for CgroupOp {
    type V = CgroupOpView;

    open spec fn view(&self) -> CgroupOpView {
        match self {
            CgroupOp::CreateDir { path } => CgroupOpView::CreateDir { path: path@ },
            CgroupOp::Write { path, content } => CgroupOpView::Write {
                path: path@,
                content: content@,
            },
        }
    }
}

/// One thread and the processor it is pinned to.
#[derive(Debug, Clone, Copy, PartialEq, Eq, Structural)]
pub struct ThreadBinding {
    pub tid: u32,
    pub cpu: u32,
}

pub open spec fn ops_view(ops: Seq<CgroupOp>) -> Seq<CgroupOpView> {
    ops.map_values(|op: CgroupOp| op@)
}

/// The controllers that the root and the container slice hand down.
pub open spec fn mandatory_controllers() -> Seq<char> {
    "+cpu +cpuset +memory +io +pids"@
}

/// The scope that holds the threads of the process.
pub open spec fn main_scope_path(root: Seq<char>) -> Seq<char> {
    joined_path(root, "main.scope"@)
}

/// The slice under which the sandboxes' cgroups are made.
pub open spec fn container_slice_path(root: Seq<char>) -> Seq<char> {
    joined_path(root, "container.slice"@)
}

/// What sets up the two subtrees under the process's own cgroup `root`: both
/// directories are made, the process moves into the main scope, then the
/// root hands down all controllers, the main scope the cpuset controller,
/// and the container slice all controllers.
pub open spec fn subtree_ops(root: Seq<char>, process_id: u32) -> Seq<CgroupOpView> {
    let main = main_scope_path(root);
    let slice = container_slice_path(root);
    seq![
        CgroupOpView::CreateDir { path: main },
        CgroupOpView::CreateDir { path: slice },
        CgroupOpView::Write {
            path: joined_path(main, "cgroup.procs"@),
            content: decimal_chars(process_id as nat),
        },
        CgroupOpView::Write {
            path: joined_path(root, "cgroup.subtree_control"@),
            content: mandatory_controllers(),
        },
        CgroupOpView::Write {
            path: joined_path(main, "cgroup.subtree_control"@),
            content: "+cpuset"@,
        },
        CgroupOpView::Write {
            path: joined_path(slice, "cgroup.subtree_control"@),
            content: mandatory_controllers(),
        },
    ]
}

/// What pins one thread: a threaded leaf named after the thread is made
/// under the main scope, the thread moves into it, and the leaf is given the
/// one processor.
pub open spec fn thread_ops(main: Seq<char>, binding: ThreadBinding) -> Seq<CgroupOpView> {
    let leaf = joined_path(main, "thread-"@ + decimal_chars(binding.tid as nat));
    seq![
        CgroupOpView::CreateDir { path: leaf },
        CgroupOpView::Write { path: joined_path(leaf, "cgroup.type"@), content: "threaded"@ },
        CgroupOpView::Write {
            path: joined_path(leaf, "cgroup.threads"@),
            content: decimal_chars(binding.tid as nat),
        },
        CgroupOpView::Write {
            path: joined_path(leaf, "cpuset.cpus"@),
            content: decimal_chars(binding.cpu as nat),
        },
    ]
}

/// What pins each thread of `bindings` in turn.
pub open spec fn binding_ops(main: Seq<char>, bindings: Seq<ThreadBinding>) -> Seq<CgroupOpView>
    decreases bindings.len(),
{
    if bindings.len() == 0 {
        Seq::empty()
    } else {
        binding_ops(main, bindings.drop_last()) + thread_ops(main, bindings.last())
    }
}

/// Each thread with the processor at its place in the list: the first
/// thread with the first processor, and so on. Processors beyond the number
/// of threads stay free. With the processors in ascending order the threads
/// get the lowest ones.
pub open spec fn bindings_of(cpus: Seq<u32>, tids: Seq<u32>) -> Seq<ThreadBinding> {
    Seq::new(tids.len(), |i: int| ThreadBinding { tid: tids[i], cpu: cpus[i] })
}

/// Which thread goes to which processor, or why the threads cannot be
/// pinned: the processors are read first, then the threads, then they are
/// counted.
pub open spec fn binding_plan(cpuset: Seq<u8>, threads: Seq<u8>) -> Result<
    Seq<ThreadBinding>,
    CgroupError,
> {
    match cpuset_of(cpuset) {
        Err(e) => Err(CgroupError::Cpuset(e)),
        Ok(cpus) => match thread_ids_of(threads) {
            Err(e) => Err(CgroupError::Threads(e)),
            Ok(tids) => if cpus.len() < tids.len() {
                Err(
                    CgroupError::InsufficientCpus {
                        available: cpus.len() as usize,
                        want: tids.len() as usize,
                    },
                )
            } else {
                Ok(bindings_of(cpus, tids))
            },
        },
    }
}

impl CgroupError {
    pub open spec fn spec_message(self) -> Seq<char> {
        match self {
            CgroupError::UnsupportedSetup => "Seele only supports cgroup v2"@,
            CgroupError::Cpuset(ListError::InvalidNumber) => "Unexpected cpuset.cpus.effective number"@,
            CgroupError::Cpuset(ListError::UnexpectedItem) => "Unexpected cpuset.cpus.effective item"@,
            CgroupError::Cpuset(ListError::Empty) => "Unexpected empty cpuset.cpu.effective"@,
            CgroupError::Threads(ListError::Empty) => "No pids found in the cgroup.threads"@,
            CgroupError::Threads(_) => "Error parsing a line of cgroup.threads"@,
            CgroupError::InsufficientCpus { available, want } => {
                "Insufficient available cpus, available: "@ + decimal_chars(available as nat)
                    + ", want: "@ + decimal_chars(want as nat)
            },
        }
    }

    /// The error in words.
    pub fn message(&self) -> (text: String)
        ensures
            text@ == self.spec_message(),
    {
        match self {
            CgroupError::UnsupportedSetup => String::from_str("Seele only supports cgroup v2"),
            CgroupError::Cpuset(ListError::InvalidNumber) => String::from_str(
                "Unexpected cpuset.cpus.effective number",
            ),
            CgroupError::Cpuset(ListError::UnexpectedItem) => String::from_str(
                "Unexpected cpuset.cpus.effective item",
            ),
            CgroupError::Cpuset(ListError::Empty) => String::from_str(
                "Unexpected empty cpuset.cpu.effective",
            ),
            CgroupError::Threads(ListError::Empty) => String::from_str(
                "No pids found in the cgroup.threads",
            ),
            CgroupError::Threads(_) => String::from_str("Error parsing a line of cgroup.threads"),
            CgroupError::InsufficientCpus { available, want } => {
                let mut text = String::from_str("Insufficient available cpus, available: ");
                text.append(decimal_string(*available as u64).as_str());
                text.append(", want: ");
                text.append(decimal_string(*want as u64).as_str());
                text
            },
        }
    }
}

/// Only a host with the unified hierarchy alone will do.
pub fn check_cgroup_setup(setup: CgroupSetup) -> (checked: Result<(), CgroupError>)
    ensures
        checked == if setup == CgroupSetup::Unified {
            Ok::<(), CgroupError>(())
        } else {
            Err(CgroupError::UnsupportedSetup)
        },
{
    match setup {
        CgroupSetup::Unified => Ok(()),
        _ => Err(CgroupError::UnsupportedSetup),
    }
}

/// The steps that set up the main scope and the container slice under the
/// process's own cgroup, in the order in which they are to be done.
pub fn initialize_cgroup_subtrees(cgroup_path: &str, process_id: u32) -> (ops: Vec<CgroupOp>)
    ensures
        ops_view(ops@) == subtree_ops(cgroup_path@, process_id),
{
    let main = join_path(cgroup_path, "main.scope");
    let slice = join_path(cgroup_path, "container.slice");
    let mut ops: Vec<CgroupOp> = Vec::new();
    ops.push(CgroupOp::CreateDir { path: main.clone() });
    ops.push(CgroupOp::CreateDir { path: slice.clone() });
    ops.push(
        CgroupOp::Write {
            path: join_path(main.as_str(), "cgroup.procs"),
            content: decimal_string(process_id as u64),
        },
    );
    ops.push(
        CgroupOp::Write {
            path: join_path(cgroup_path, "cgroup.subtree_control"),
            content: String::from_str("+cpu +cpuset +memory +io +pids"),
        },
    );
    ops.push(
        CgroupOp::Write {
            path: join_path(main.as_str(), "cgroup.subtree_control"),
            content: String::from_str("+cpuset"),
        },
    );
    ops.push(
        CgroupOp::Write {
            path: join_path(slice.as_str(), "cgroup.subtree_control"),
            content: String::from_str("+cpu +cpuset +memory +io +pids"),
        },
    );
    assert(ops_view(ops@) =~= subtree_ops(cgroup_path@, process_id));
    ops
}

/// Which thread goes to which processor.
pub fn plan_thread_bindings(cpus: &Vec<u32>, tids: &Vec<u32>) -> (plan: Result<
    Vec<ThreadBinding>,
    CgroupError,
>)
    ensures
        match plan {
            Ok(bindings) => cpus@.len() >= tids@.len() && bindings@ == bindings_of(cpus@, tids@),
            Err(e) => cpus@.len() < tids@.len() && e == (CgroupError::InsufficientCpus {
                available: cpus@.len() as usize,
                want: tids@.len() as usize,
            }),
        },
{
    if cpus.len() < tids.len() {
        return Err(CgroupError::InsufficientCpus { available: cpus.len(), want: tids.len() });
    }
    let n = tids.len();
    let mut bindings: Vec<ThreadBinding> = Vec::new();
    let mut i: usize = 0;
    while i < n
        invariant
            n == tids@.len(),
            n <= cpus@.len(),
            i <= n,
            bindings@.len() == i,
            forall|j: int|
                0 <= j < i ==> bindings@[j] == (ThreadBinding { tid: tids@[j], cpu: cpus@[j] }),
        decreases n - i,
    {
        bindings.push(ThreadBinding { tid: tids[i], cpu: cpus[i] });
        i += 1;
    }
    assert(bindings@ =~= bindings_of(cpus@, tids@));
    Ok(bindings)
}

/// Puts the steps that pin one thread at the end of `ops`.
fn push_thread_ops(ops: &mut Vec<CgroupOp>, main_scope: &str, binding: ThreadBinding)
    ensures
        ops_view(final(ops)@) == ops_view(old(ops)@) + thread_ops(main_scope@, binding),
{
    let leaf = join_path(
        main_scope,
        concat2("thread-", decimal_string(binding.tid as u64).as_str()).as_str(),
    );
    ops.push(CgroupOp::CreateDir { path: leaf.clone() });
    ops.push(
        CgroupOp::Write {
            path: join_path(leaf.as_str(), "cgroup.type"),
            content: String::from_str("threaded"),
        },
    );
    ops.push(
        CgroupOp::Write {
            path: join_path(leaf.as_str(), "cgroup.threads"),
            content: decimal_string(binding.tid as u64),
        },
    );
    ops.push(
        CgroupOp::Write {
            path: join_path(leaf.as_str(), "cpuset.cpus"),
            content: decimal_string(binding.cpu as u64),
        },
    );
    assert(ops_view(ops@) =~= ops_view(old(ops)@) + thread_ops(main_scope@, binding));
}

/// The steps that pin each thread to its processor, in the order of the
/// threads.
pub fn thread_binding_ops(main_scope: &str, bindings: &Vec<ThreadBinding>) -> (ops: Vec<CgroupOp>)
    ensures
        ops_view(ops@) == binding_ops(main_scope@, bindings@),
{
    let n = bindings.len();
    let mut ops: Vec<CgroupOp> = Vec::new();
    let mut i: usize = 0;
    assert(ops_view(ops@) =~= binding_ops(main_scope@, bindings@.subrange(0, 0)));
    while i < n
        invariant
            n == bindings@.len(),
            i <= n,
            ops_view(ops@) == binding_ops(main_scope@, bindings@.subrange(0, i as int)),
        decreases n - i,
    {
        proof {
            assert(bindings@.subrange(0, i + 1).drop_last() =~= bindings@.subrange(0, i as int));
        }
        push_thread_ops(&mut ops, main_scope, bindings[i]);
        i += 1;
    }
    assert(bindings@.subrange(0, n as int) =~= bindings@);
    ops
}

/// Reads the processors that the main scope may use and the threads that
/// are in it, and gives each thread a processor of its own; then the steps
/// that pin them, in the order of the threads. `cpuset_content` is the text
/// of the scope's effective cpuset, `threads_content` that of its thread
/// list.
pub fn bind_application_threads(main_scope: &str, cpuset_content: &str, threads_content: &str) -> (ops:
    Result<Vec<CgroupOp>, CgroupError>)
    ensures
        match binding_plan(cpuset_content.spec_bytes(), threads_content.spec_bytes()) {
            Ok(bindings) => ops.is_ok() && ops_view(ops.unwrap()@) == binding_ops(
                main_scope@,
                bindings,
            ),
            Err(e) => ops == Err::<Vec<CgroupOp>, CgroupError>(e),
        },
{
    let cpus = match parse_cpuset(cpuset_content) {
        Ok(cpus) => cpus,
        Err(e) => {
            return Err(CgroupError::Cpuset(e));
        },
    };
    let tids = match parse_thread_ids(threads_content) {
        Ok(tids) => tids,
        Err(e) => {
            return Err(CgroupError::Threads(e));
        },
    };
    let bindings = match plan_thread_bindings(&cpus, &tids) {
        Ok(bindings) => bindings,
        Err(e) => {
            return Err(e);
        },
    };
    Ok(thread_binding_ops(main_scope, &bindings))
}

} // verus!
