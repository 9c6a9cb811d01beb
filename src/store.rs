//! The content-addressed object store: blobs keyed by the hash of their
//! uncompressed content, written once per hash. On disk each blob lives at
//! `.gud/objects/<first two digits>/<all 32 digits>`.

use vstd::prelude::*;
use std::collections::HashMap;
use crate::error::GudError;
use crate::hash::{ContentHash, hex_of, SHARD_LEN};

verus! {

broadcast use vstd::std_specs::hash::group_hash_axioms;

/// The repository's metadata directory, relative to its root.
pub const METADATA_DIR: &'static str = ".gud";

/// The object store's directory, relative to the repository root.
pub const OBJECTS_DIR: &'static str = ".gud/objects";

/// The manifest document, relative to the repository root.
pub const MANIFEST_FILE: &'static str = ".gud/info";

/// The store after a `put`: an existing entry is left alone.
pub open spec fn put_spec(m: Map<u128, Seq<u8>>, key: u128, bytes: Seq<u8>) -> Map<u128, Seq<u8>> {
    if m.contains_key(key) {
        m
    } else {
        m.insert(key, bytes)
    }
}

/// Storing a blob twice leaves the store as storing it once does.
pub proof fn lemma_put_idempotent(m: Map<u128, Seq<u8>>, key: u128, bytes: Seq<u8>)
    ensures
        put_spec(put_spec(m, key, bytes), key, bytes) == put_spec(m, key, bytes),
        put_spec(m, key, bytes).contains_key(key),
{
}

/// The shard directory of an object, relative to the repository root.
pub open spec fn shard_dir_spec(h: ContentHash) -> Seq<char> {
    OBJECTS_DIR@ + seq!['/'] + hex_of(h).subrange(0, SHARD_LEN as int)
}

/// The file of an object, relative to the repository root.
pub open spec fn object_path_spec(h: ContentHash) -> Seq<char> {
    shard_dir_spec(h) + seq!['/'] + hex_of(h)
}

/// The shard directory of an object, relative to the repository root.
pub fn shard_dir(h: &ContentHash) -> (r: String)
    ensures
        r@ == shard_dir_spec(*h),
{
    let mut r = String::from_str(OBJECTS_DIR);
    r.append("/");
    proof {
        reveal_strlit("/");
    }
    r.append(h.shard_name().as_str());
    assert(r@ =~= shard_dir_spec(*h));
    r
}

/// The file of an object, relative to the repository root.
pub fn object_path(h: &ContentHash) -> (r: String)
    ensures
        r@ == object_path_spec(*h),
{
    let mut r = shard_dir(h);
    r.append("/");
    proof {
        reveal_strlit("/");
    }
    r.append(h.to_hex().as_str());
    assert(r@ =~= object_path_spec(*h));
    r
}

/// What writing one object to disk takes.
#[derive(Clone, Copy, Debug, PartialEq, Eq, Structural)]
pub enum PutStep {
    /// The object is there already: content addressing makes it identical.
    Skip,
    /// Write the object file, creating its shard directory first if asked.
    Write { create_shard: bool },
}

/// Decides a `put` on disk from what is there: an existing object is never
/// rewritten, and a shard directory is created only on its first use.
pub fn plan_put(object_exists: bool, shard_exists: bool) -> (r: PutStep)
    ensures
        object_exists ==> r == PutStep::Skip,
        !object_exists ==> r == (PutStep::Write { create_shard: !shard_exists }),
{
    if object_exists {
        PutStep::Skip
    } else {
        PutStep::Write { create_shard: !shard_exists }
    }
}

/// An object store held in memory: compressed blobs by content hash, with
/// the hashes in the order in which they were first stored.
pub struct ObjectStore {
    objects: HashMap<u128, Vec<u8>>,
    order: Vec<u128>,
}

impl View for ObjectStore {
    type V = Map<u128, Seq<u8>>;

    closed spec fn view(&self) -> Map<u128, Seq<u8>> {
        self.objects@.map_values(|v: Vec<u8>| v@)
    }
}

impl ObjectStore {
    /// The stored hashes in the order in which they were first stored.
    pub closed spec fn storing_order(&self) -> Seq<u128> {
        self.order@
    }

    /// The order of hashes lists each stored hash once.
    pub closed spec fn wf(&self) -> bool {
        &&& self.order@.no_duplicates()
        &&& forall|i: int| 0 <= i < self.order@.len() ==> self.objects@.contains_key(
            #[trigger] self.order@[i],
        )
        &&& forall|k: u128| #[trigger] self.objects@.contains_key(k) ==> self.order@.contains(k)
    }

    /// An empty store.
    pub fn new() -> (r: ObjectStore)
        ensures
            r.wf(),
            r@ == Map::<u128, Seq<u8>>::empty(),
            r.storing_order() == Seq::<u128>::empty(),
    {
        let r = ObjectStore { objects: HashMap::new(), order: Vec::new() };
        assert(r@ =~= Map::<u128, Seq<u8>>::empty());
        r
    }

    /// Whether a blob is stored under the hash.
    pub fn contains(&self, h: &ContentHash) -> (r: bool)
        ensures
            r == self@.contains_key(h.value),
    {
        self.objects.contains_key(&h.value)
    }

    /// Stores a blob under its hash unless one is there already; returns
    /// whether it was written.
    pub fn put(&mut self, h: ContentHash, bytes: Vec<u8>) -> (r: bool)
        requires
            old(self).wf(),
        ensures
            final(self).wf(),
            final(self)@ == put_spec(old(self)@, h.value, bytes@),
            r == !old(self)@.contains_key(h.value),
            final(self).storing_order() == if r {
                old(self).storing_order().push(h.value)
            } else {
                old(self).storing_order()
            },
    {
        if self.objects.contains_key(&h.value) {
            return false;
        }
        let ghost b = bytes@;
        self.objects.insert(h.value, bytes);
        self.order.push(h.value);
        proof {
            assert(self@ =~= old(self)@.insert(h.value, b));
            assert forall|k: u128| #[trigger] self.objects@.contains_key(k) implies self.order@.contains(k) by {
                if k != h.value {
                    assert(old(self).objects@.contains_key(k));
                    let i = choose|i: int| 0 <= i < old(self).order@.len() && old(self).order@[i] == k;
                    assert(self.order@[i] == k);
                } else {
                    assert(self.order@[self.order@.len() - 1] == k);
                }
            }
            assert forall|i: int| 0 <= i < self.order@.len() implies self.objects@.contains_key(
                #[trigger] self.order@[i],
            ) by {
                if i < old(self).order@.len() {
                    assert(self.order@[i] == old(self).order@[i]);
                }
            }
            assert forall|i: int, j: int| 0 <= i < j < self.order@.len() implies self.order@[i]
                != self.order@[j] by {
                if j == self.order@.len() - 1 {
                    assert(old(self).objects@.contains_key(old(self).order@[i]));
                } else {
                    assert(self.order@[i] == old(self).order@[i]);
                    assert(self.order@[j] == old(self).order@[j]);
                }
            }
        }
        true
    }

    /// The blob stored under the hash, or `ObjectNotFound`.
    pub fn get(&self, h: &ContentHash) -> (r: Result<Vec<u8>, GudError>)
        ensures
            match r {
                Ok(v) => self@.contains_key(h.value) && self@[h.value] == v@,
                Err(e) => !self@.contains_key(h.value) && e == GudError::ObjectNotFound,
            },
    {
        match self.objects.get(&h.value) {
            Some(v) => Ok(v.clone()),
            None => Err(GudError::ObjectNotFound),
        }
    }

    /// Every stored hash once, in the order of first storing.
    pub fn hashes(&self) -> (r: Vec<ContentHash>)
        requires
            self.wf(),
        ensures
            r@.len() == self.storing_order().len(),
            forall|i: int| 0 <= i < r@.len() ==> (#[trigger] r@[i]).value == self.storing_order()[i],
            forall|i: int| 0 <= i < r@.len() ==> self@.contains_key(#[trigger] r@[i].value),
            forall|k: u128| #[trigger] self@.contains_key(k) ==> exists|i: int|
                0 <= i < r@.len() && r@[i].value == k,
            forall|i: int, j: int| 0 <= i < j < r@.len() ==> r@[i] != r@[j],
    {
        let mut r: Vec<ContentHash> = Vec::new();
        let mut i: usize = 0;
        while i < self.order.len()
            invariant
                self.wf(),
                i <= self.order@.len(),
                r@.len() == i,
                forall|j: int| 0 <= j < i ==> (#[trigger] r@[j]).value == self.order@[j],
            decreases self.order@.len() - i,
        {
            r.push(ContentHash { value: self.order[i] });
            i = i + 1;
        }
        proof {
            assert forall|k: u128| #[trigger] self@.contains_key(k) implies exists|i: int|
                0 <= i < r@.len() && r@[i].value == k by {
                assert(self.objects@.contains_key(k));
                let i = choose|i: int| 0 <= i < self.order@.len() && self.order@[i] == k;
                assert(r@[i].value == k);
            }
            assert forall|i: int| 0 <= i < r@.len() implies self@.contains_key(#[trigger] r@[i].value) by {
                assert(self.objects@.contains_key(self.order@[i]));
            }
            assert forall|i: int, j: int| 0 <= i < j < r@.len() implies r@[i] != r@[j] by {
                assert(r@[i].value == self.order@[i]);
                assert(r@[j].value == self.order@[j]);
            }
        }
        r
    }
}

} // verus!
