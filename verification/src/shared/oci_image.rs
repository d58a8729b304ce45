//! The identity of a container image.
use vstd::prelude::*;

verus! {

/// Which container image is meant: where it is kept, its name there, and the
/// tag of the wanted revision.
#[derive(Debug, Clone, PartialEq, Eq, Hash)]
pub struct OciImage {
    pub registry: String,
    pub name: String,
    pub tag: String,
}

impl View for OciImage {
    type V = (Seq<char>, Seq<char>, Seq<char>);

    /// Registry, name and tag.
    open spec fn view(&self) -> (Seq<char>, Seq<char>, Seq<char>) {
        (self.registry@, self.name@, self.tag@)
    }
}

impl OciImage {
    /// Whether the two mean the same image.
    pub fn same_as(&self, other: &OciImage) -> (same: bool)
        ensures
            same == (self@ == other@),
    {
        self.registry == other.registry && self.name == other.name && self.tag == other.tag
    }

    pub fn copy(&self) -> (image: OciImage)
        ensures
            image@ == self@,
    {
        OciImage {
            registry: self.registry.clone(),
            name: self.name.clone(),
            tag: self.tag.clone(),
        }
    }
}

} // verus!
