//! Callers that want the same thing at the same time share one effort.
use vstd::prelude::*;
use crate::shared::oci_image::OciImage;

verus! {

pub type ImageKey = (Seq<char>, Seq<char>, Seq<char>);

/// The part that a caller plays in the preparation of an image.
#[derive(Debug, Clone, Copy, PartialEq, Eq, Structural)]
pub enum Role {
    /// Nobody is preparing the image: the caller does it, and tells the
    /// others how it ended.
    Leader,
    /// Somebody is at it: the caller waits for that outcome.
    Follower,
}

pub open spec fn image_keys(images: Seq<OciImage>) -> Set<ImageKey> {
    Set::new(|k: ImageKey| exists|i: int| 0 <= i < images.len() && images[i]@ == k)
}

/// The images whose preparation is under way. An image is in it from the
/// moment its first caller comes to the moment that caller is done, so that
/// all who come in between share the one preparation.
pub struct CondGroup {
    in_flight: Vec<OciImage>,
}

impl View for CondGroup {
    type V = Set<ImageKey>;

    closed spec fn view(&self) -> Set<ImageKey> {
        image_keys(self.in_flight@)
    }
}

/// The group after a caller came for `key`.
pub open spec fn after_join(group: Set<ImageKey>, key: ImageKey) -> Set<ImageKey> {
    group.insert(key)
}

/// The part of a caller who comes for `key`.
pub open spec fn role_of(group: Set<ImageKey>, key: ImageKey) -> Role {
    if group.contains(key) {
        Role::Follower
    } else {
        Role::Leader
    }
}

/// How many of the callers `keys`, who come one after the other while
/// nobody is done, have to prepare an image themselves.
pub open spec fn leaders(group: Set<ImageKey>, keys: Seq<ImageKey>) -> nat
    decreases keys.len(),
{
    if keys.len() == 0 {
        0
    } else {
        let first: nat = if role_of(group, keys[0]) == Role::Leader {
            1
        } else {
            0
        };
        first + leaders(after_join(group, keys[0]), keys.drop_first())
    }
}

/// All callers come for the image `key`.
pub open spec fn all_for(keys: Seq<ImageKey>, key: ImageKey) -> bool {
    forall|i: int| 0 <= i < keys.len() ==> keys[i] == key
}

proof fn lemma_followers_only(group: Set<ImageKey>, keys: Seq<ImageKey>, key: ImageKey)
    requires
        all_for(keys, key),
        group.contains(key),
    ensures
        leaders(group, keys) == 0,
    decreases keys.len(),
{
    if keys.len() > 0 {
        assert(keys[0] == key);
        assert forall|i: int| 0 <= i < keys.drop_first().len() implies keys.drop_first()[i]
            == key by {
            assert(keys.drop_first()[i] == keys[i + 1]);
        }
        lemma_followers_only(after_join(group, key), keys.drop_first(), key);
    }
}

/// However many callers come for one image while its preparation is under
/// way, at most one of them prepares it: exactly one where nobody was at it
/// before and somebody comes, none else.
pub proof fn lemma_single_flight(group: Set<ImageKey>, keys: Seq<ImageKey>, key: ImageKey)
    requires
        all_for(keys, key),
    ensures
        leaders(group, keys) <= 1,
        leaders(group, keys) == 1 <==> keys.len() > 0 && !group.contains(key),
{
    if keys.len() > 0 {
        assert(keys[0] == key);
        assert forall|i: int| 0 <= i < keys.drop_first().len() implies keys.drop_first()[i]
            == key by {
            assert(keys.drop_first()[i] == keys[i + 1]);
        }
        lemma_followers_only(after_join(group, key), keys.drop_first(), key);
    }
}

impl CondGroup {
    pub closed spec fn wf(&self) -> bool {
        forall|i: int, j: int|
            0 <= i < j < self.in_flight@.len() ==> self.in_flight@[i]@ != self.in_flight@[j]@
    }

    pub fn new() -> (group: Self)
        ensures
            group.wf(),
            group@ == Set::<ImageKey>::empty(),
    {
        let group = CondGroup { in_flight: Vec::new() };
        assert(group@ =~= Set::<ImageKey>::empty());
        group
    }

    fn position(&self, image: &OciImage) -> (found: Option<usize>)
        ensures
            match found {
                Some(i) => i < self.in_flight@.len() && self.in_flight@[i as int]@ == image@,
                None => !self@.contains(image@),
            },
    {
        let n = self.in_flight.len();
        let mut i: usize = 0;
        while i < n
            invariant
                n == self.in_flight@.len(),
                i <= n,
                forall|j: int| 0 <= j < i ==> self.in_flight@[j]@ != image@,
            decreases n - i,
        {
            if self.in_flight[i].same_as(image) {
                return Some(i);
            }
            i += 1;
        }
        None
    }

    /// A caller comes for `image`: it leads where nobody is preparing the
    /// image, and follows where somebody is.
    pub fn join(&mut self, image: &OciImage) -> (role: Role)
        requires
            old(self).wf(),
        ensures
            final(self).wf(),
            role == role_of(old(self)@, image@),
            final(self)@ == after_join(old(self)@, image@),
    {
        match self.position(image) {
            Some(_) => {
                assert(self@ =~= after_join(self@, image@));
                Role::Follower
            },
            None => {
                let ghost before = self.in_flight@;
                let copy = image.copy();
                self.in_flight.push(copy);
                proof {
                    let after = self.in_flight@;
                    assert forall|k: ImageKey| image_keys(after).contains(k) <==> after_join(
                        image_keys(before),
                        image@,
                    ).contains(k) by {
                        if image_keys(after).contains(k) {
                            let i = choose|i: int| 0 <= i < after.len() && after[i]@ == k;
                            if i < before.len() {
                                assert(before[i]@ == k);
                            }
                        }
                        if image_keys(before).contains(k) {
                            let i = choose|i: int| 0 <= i < before.len() && before[i]@ == k;
                            assert(after[i]@ == k);
                        }
                        if k == image@ {
                            assert(after[before.len() as int]@ == k);
                        }
                    }
                    assert forall|i: int, j: int| 0 <= i < j < after.len() implies after[i]@
                        != after[j]@ by {
                        if j == before.len() {
                            assert(before[i]@ == after[i]@);
                            assert(image_keys(before).contains(before[i]@));
                        } else {
                            assert(before[i]@ != before[j]@);
                        }
                    }
                }
                Role::Leader
            },
        }
    }

    /// The preparation of `image` is over: who comes next looks at the disk
    /// again.
    pub fn finish(&mut self, image: &OciImage)
        requires
            old(self).wf(),
        ensures
            final(self).wf(),
            final(self)@ == old(self)@.remove(image@),
    {
        match self.position(image) {
            None => {
                assert(self@ =~= self@.remove(image@));
            },
            Some(at) => {
                let ghost before = self.in_flight@;
                let _ = self.in_flight.remove(at);
                proof {
                    let after = self.in_flight@;
                    assert forall|i: int, j: int| 0 <= i < j < after.len() implies after[i]@
                        != after[j]@ by {
                        let bi = if i < at { i } else { i + 1 };
                        let bj = if j < at { j } else { j + 1 };
                        assert(after[i] == before[bi] && after[j] == before[bj]);
                    }
                    assert forall|k: ImageKey| image_keys(after).contains(k) <==> image_keys(
                        before,
                    ).remove(image@).contains(k) by {
                        if image_keys(after).contains(k) {
                            let i = choose|i: int| 0 <= i < after.len() && after[i]@ == k;
                            let bi = if i < at { i } else { i + 1 };
                            assert(before[bi] == after[i]);
                            if bi < at {
                                assert(before[bi]@ != before[at as int]@);
                            } else {
                                assert(before[at as int]@ != before[bi]@);
                            }
                        }
                        if image_keys(before).contains(k) && k != image@ {
                            let i = choose|i: int| 0 <= i < before.len() && before[i]@ == k;
                            let shifted = if i < at { i } else { i - 1 };
                            assert(after[shifted] == before[i]);
                        }
                    }
                }
            },
        }
    }

    /// Whether somebody is preparing `image`.
    pub fn is_in_flight(&self, image: &OciImage) -> (held: bool)
        ensures
            held == self@.contains(image@),
    {
        self.position(image).is_some()
    }
}

} // verus!
