//! What the exchange decides about a request, and how signals are framed
//! in its answer.
use vstd::prelude::*;
use vstd::string::*;
use crate::shared::text::{decimal_chars, decimal_string};

verus! {

pub const STATUS_INTERNAL_SERVER_ERROR: u16 = 500;

/// The seconds that responses under way get to end after shutdown was asked
/// for.
pub const SHUTDOWN_DELAY_SECOND: u64 = 5;

#[derive(Debug, Clone, Copy, PartialEq, Eq, Structural)]
pub enum ExchangeError {
    /// The body of the request may be `size` bytes long, which is more than
    /// is taken.
    BodyTooLarge { size: u64 },
}

/// The size that a body counts as having: the upper bound it announces, or
/// one more than the limit where it announces none.
pub open spec fn counted_size(upper: Option<u64>, limit: u64) -> u64 {
    match upper {
        Some(size) => size,
        None => if limit == u64::MAX {
            u64::MAX
        } else {
            (limit + 1) as u64
        },
    }
}

/// `needle` stands somewhere in `haystack`.
pub open spec fn has_subslice(haystack: Seq<u8>, needle: Seq<u8>) -> bool {
    exists|i: int|
        0 <= i <= haystack.len() - needle.len() && #[trigger] haystack.subrange(
            i,
            i + needle.len(),
        ) == needle
}

/// The word that asks for the progress of every step.
pub open spec fn progress_flag() -> Seq<u8> {
    "progress".spec_bytes()
}

/// Whether a request with this query string wants to be told of the
/// progress of every step: it does where the word stands anywhere in it.
pub open spec fn wants_progress(query: Option<&str>) -> bool {
    match query {
        Some(q) => has_subslice(q.spec_bytes(), progress_flag()),
        None => false,
    }
}

/// One document of the stream of signals.
pub open spec fn framed(document: Seq<char>) -> Seq<char> {
    "\n---\n"@ + document + "\n...\n"@
}

/// What is sent for a signal: nothing for a progress signal that was not
/// asked for, nothing where the signal could not be put into words, else
/// the framed document.
pub open spec fn frame_of(show_progress: bool, is_progress: bool, document: Option<&str>) -> Seq<
    char,
> {
    if !show_progress && is_progress {
        Seq::empty()
    } else {
        match document {
            Some(text) => framed(text@),
            None => Seq::empty(),
        }
    }
}

impl ExchangeError {
    pub open spec fn spec_message(self) -> Seq<char> {
        match self {
            ExchangeError::BodyTooLarge { size } => {
                "The size of the request body exceeds the limit: "@ + decimal_chars(size as nat)
            },
        }
    }

    /// The error in words.
    pub fn message(&self) -> (text: String)
        ensures
            text@ == self.spec_message(),
    {
        match self {
            ExchangeError::BodyTooLarge { size } => {
                let mut text = String::from_str("The size of the request body exceeds the limit: ");
                text.append(decimal_string(*size).as_str());
                text
            },
        }
    }
}

/// Whether a body that announces the upper bound `upper` of its size is
/// taken under the limit `limit`.
pub fn check_body_size(upper: Option<u64>, limit: u64) -> (checked: Result<(), ExchangeError>)
    ensures
        checked == if counted_size(upper, limit) > limit {
            Err::<(), ExchangeError>(
                ExchangeError::BodyTooLarge { size: counted_size(upper, limit) },
            )
        } else {
            Ok(())
        },
{
    let size = match upper {
        Some(size) => size,
        None => if limit == u64::MAX {
            u64::MAX
        } else {
            limit + 1
        },
    };
    if size > limit {
        Err(ExchangeError::BodyTooLarge { size })
    } else {
        Ok(())
    }
}

fn matches_at(haystack: &[u8], needle: &[u8], at: usize) -> (same: bool)
    requires
        at + needle@.len() <= haystack@.len(),
    ensures
        same == (haystack@.subrange(at as int, at + needle@.len()) == needle@),
{
    let n = needle.len();
    let h = haystack.len();
    let mut i: usize = 0;
    while i < n
        invariant
            n == needle@.len(),
            h == haystack@.len(),
            at + n <= h,
            i <= n,
            forall|j: int| 0 <= j < i ==> haystack@[at + j] == needle@[j],
        decreases n - i,
    {
        if haystack[at + i] != needle[i] {
            proof {
                let part = haystack@.subrange(at as int, at + n);
                assert(part[i as int] != needle@[i as int]);
            }
            return false;
        }
        i += 1;
    }
    assert(haystack@.subrange(at as int, at + n) =~= needle@);
    true
}

/// Whether `needle` stands somewhere in `haystack`.
pub fn contains_bytes(haystack: &[u8], needle: &[u8]) -> (found: bool)
    ensures
        found == has_subslice(haystack@, needle@),
{
    let h = haystack.len();
    let n = needle.len();
    if n > h {
        return false;
    }
    let last = h - n;
    let mut at: usize = 0;
    loop
        invariant_except_break
            h == haystack@.len(),
            n == needle@.len(),
            n <= h,
            last == h - n,
            at <= last,
            forall|i: int| 0 <= i < at ==> #[trigger] haystack@.subrange(i, i + n) != needle@,
        ensures
            !has_subslice(haystack@, needle@),
        decreases last - at,
    {
        if matches_at(haystack, needle, at) {
            return true;
        }
        if at == last {
            break ;
        }
        at += 1;
    }
    false
}

/// Whether a request with this query string wants to be told of the
/// progress of every step.
pub fn shows_progress(query: Option<&str>) -> (show: bool)
    ensures
        show == wants_progress(query),
{
    match query {
        Some(q) => contains_bytes(q.as_bytes(), "progress".as_bytes()),
        None => false,
    }
}

/// Looks at a request before its body is read: a body that may be longer
/// than `limit` is refused; else it says whether the request wants to be
/// told of the progress of every step.
pub fn handle_submission_request(size_upper: Option<u64>, query: Option<&str>, limit: u64) -> (taken:
    Result<bool, ExchangeError>)
    ensures
        taken == if counted_size(size_upper, limit) > limit {
            Err::<bool, ExchangeError>(
                ExchangeError::BodyTooLarge { size: counted_size(size_upper, limit) },
            )
        } else {
            Ok(wants_progress(query))
        },
{
    match check_body_size(size_upper, limit) {
        Err(e) => Err(e),
        Ok(()) => Ok(shows_progress(query)),
    }
}

/// The body of the response to a request that failed with `error`, which is
/// sent with `STATUS_INTERNAL_SERVER_ERROR`.
pub fn error_response_body(error: &str) -> (body: String)
    ensures
        body@ == "Internal error: "@ + error@,
{
    let mut body = String::from_str("Internal error: ");
    body.append(error);
    body
}

/// What is sent for one signal. `document` is the signal put into words,
/// where that could be done.
pub fn frame_signal(show_progress: bool, is_progress: bool, document: Option<&str>) -> (frame: String)
    ensures
        frame@ == frame_of(show_progress, is_progress, document),
{
    if !show_progress && is_progress {
        return String::new();
    }
    match document {
        None => String::new(),
        Some(text) => {
            let mut frame = String::from_str("\n---\n");
            frame.append(text);
            frame.append("\n...\n");
            frame
        },
    }
}

} // verus!
