//! Random parts of names.
use vstd::prelude::*;

verus! {

/// The length of the random part of a name.
pub const RANDOM_ID_LENGTH: usize = 8;

/// An ASCII letter or digit.
pub open spec fn is_alphanumeric(c: char) -> bool {
    let code = c as u32;
    (48 <= code <= 57) || (65 <= code <= 90) || (97 <= code <= 122)
}

/// A text that can be the random part of a name: `RANDOM_ID_LENGTH` ASCII
/// letters and digits.
pub open spec fn is_random_id(id: Seq<char>) -> bool {
    id.len() == RANDOM_ID_LENGTH && forall|i: int| 0 <= i < id.len() ==> is_alphanumeric(#[trigger] id[i])
}

/// `nano_id::base62` for eight characters: a fresh random text, each of its
/// characters taken from an alphabet of 62 ASCII letters and digits. Which
/// text comes out is left open. The call panics where the system hands out
/// no random bytes.
#[verifier::external_body]
pub(crate) fn random_id() -> (id: String)
    ensures
        is_random_id(id@),
{
    nano_id::base62::<8>()
}

} // verus!
