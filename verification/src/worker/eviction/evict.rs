//! How an artifact that a sweep gave up leaves the disk.
use vstd::prelude::*;
use vstd::string::*;
use crate::shared::path::{file_name_of, join_path, joined_path, path_file_name};
use crate::shared::random::{is_random_id, random_id};

verus! {

#[derive(Debug, Clone, Copy, PartialEq, Eq, Structural)]
pub enum EvictError {
    /// The path to delete has no last component to name it by.
    MissingFileName,
}

/// How what was moved out of the way is deleted.
#[derive(Debug, Clone, Copy, PartialEq, Eq, Structural)]
pub enum Removal {
    /// One file is unlinked.
    File,
    /// A directory is deleted with all that is in it.
    Tree,
}

/// The two ends of the move that takes an artifact out of sight before it
/// is deleted.
#[derive(Debug)]
pub struct EvictionMove {
    pub from: String,
    pub to: String,
}

/// The name under which an artifact waits to be deleted: a random text, an
/// underscore, and the name it had.
pub open spec fn staging_name(random: Seq<char>, file_name: Seq<char>) -> Seq<char> {
    random + "_"@ + file_name
}

/// The lines, each after the other, with a line feed between two.
pub open spec fn joined_lines(lines: Seq<String>) -> Seq<char>
    decreases lines.len(),
{
    if lines.len() == 0 {
        Seq::empty()
    } else if lines.len() == 1 {
        lines[0]@
    } else {
        joined_lines(lines.drop_last()) + "\n"@ + lines.last()@
    }
}

/// What a sweep fails with: nothing where every deletion went well, else
/// what each deletion that went wrong said, be it nothing at all.
pub open spec fn failure_of(errors: Seq<String>) -> Option<Seq<char>> {
    if errors.len() == 0 {
        None
    } else {
        Some("Error doing cleaning for following paths:\n"@ + joined_lines(errors))
    }
}

impl EvictError {
    /// The error in words.
    pub fn message(&self) -> (text: String)
        ensures
            text@ == "Invalid file, expected file name"@,
    {
        String::from_str("Invalid file, expected file name")
    }
}

/// Where the artifact named `file_name` waits under `evicted_dir`, with
/// `random` in front of its name.
pub fn staging_target(evicted_dir: &str, random: &str, file_name: Option<&str>) -> (target: Result<
    String,
    EvictError,
>)
    ensures
        match file_name {
            None => target == Err::<String, EvictError>(EvictError::MissingFileName),
            Some(name) => target.is_ok() && target.unwrap()@ == joined_path(
                evicted_dir@,
                staging_name(random@, name@),
            ),
        },
{
    match file_name {
        None => Err(EvictError::MissingFileName),
        Some(name) => {
            let mut staged = String::from_str(random);
            staged.append("_");
            staged.append(name);
            Ok(join_path(evicted_dir, staged.as_str()))
        },
    }
}

/// The move that takes the artifact `path`, counted from `root_path`, out
/// of sight: into `evicted_dir`, under a fresh random text and its own name.
/// A move within one file system is atomic, so that nobody sees the
/// artifact half deleted where it was.
pub fn do_evict(root_path: &str, evicted_dir: &str, path: &str) -> (planned: Result<
    EvictionMove,
    EvictError,
>)
    ensures
        match path_file_name(joined_path(root_path@, path@)) {
            None => planned == Err::<EvictionMove, EvictError>(EvictError::MissingFileName),
            Some(name) => {
                &&& planned.is_ok()
                &&& planned.unwrap().from@ == joined_path(root_path@, path@)
                &&& exists|id: Seq<char>|
                    is_random_id(id) && planned.unwrap().to@ == joined_path(
                        evicted_dir@,
                        staging_name(id, name),
                    )
            },
        },
{
    let from = join_path(root_path, path);
    let name = file_name_of(from.as_str());
    let id = random_id();
    let to = match &name {
        Some(name) => staging_target(evicted_dir, id.as_str(), Some(name.as_str())),
        None => staging_target(evicted_dir, id.as_str(), None),
    };
    match to {
        Err(e) => Err(e),
        Ok(to) => {
            assert(is_random_id(id@) && to@ == joined_path(
                evicted_dir@,
                staging_name(id@, name.unwrap()@),
            ));
            Ok(EvictionMove { from, to })
        },
    }
}

/// How what was moved is deleted, by what it is.
pub fn removal_of(is_file: bool) -> (removal: Removal)
    ensures
        removal == if is_file {
            Removal::File
        } else {
            Removal::Tree
        },
{
    if is_file {
        Removal::File
    } else {
        Removal::Tree
    }
}

/// What the sweep fails with after the deletions that went wrong said
/// `errors`, one text for each of them: any such deletion makes the sweep
/// fail.
pub fn summarize_errors(errors: &Vec<String>) -> (failure: Option<String>)
    ensures
        failure.is_some() == (errors@.len() > 0),
        match failure {
            Some(text) => failure_of(errors@) == Some(text@),
            None => failure_of(errors@).is_none(),
        },
{
    let n = errors.len();
    let mut joined = String::new();
    let mut i: usize = 0;
    assert(errors@.subrange(0, 0) =~= Seq::<String>::empty());
    while i < n
        invariant
            n == errors@.len(),
            i <= n,
            joined@ == joined_lines(errors@.subrange(0, i as int)),
        decreases n - i,
    {
        let ghost done = errors@.subrange(0, i as int);
        let ghost next = errors@.subrange(0, i + 1);
        proof {
            assert(next.drop_last() =~= done);
            assert(next.last() == errors@[i as int]);
        }
        if i > 0 {
            joined.append("\n");
        } else {
            assert(joined@ + errors@[0]@ =~= errors@[0]@);
        }
        joined.append(errors[i].as_str());
        i += 1;
    }
    assert(errors@.subrange(0, n as int) =~= errors@);
    if n == 0 {
        None
    } else {
        let mut text = String::from_str("Error doing cleaning for following paths:\n");
        text.append(joined.as_str());
        Some(text)
    }
}

} // verus!
