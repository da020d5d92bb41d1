use vstd::prelude::*;

use crate::byteops::copy_bytes;
use crate::digest::digest_of;
use crate::errors::{NotFound, StoreError};

verus! {

/// One committed object: an immutable blob, its digest, and the number of
/// aliases currently pointing at it.
pub struct StoredObject {
    pub digest: u64,
    pub bytes: Vec<u8>,
    pub refs: usize,
}

/// The committed-object area: at most one object per digest, and every
/// object's bytes hash to the digest it is filed under.
pub struct ObjectStore {
    pub objects: Vec<StoredObject>,
}

impl ObjectStore {
    /// Digests are unique, and each object's content hashes to its digest.
    pub open spec fn wf(&self) -> bool {
        &&& forall|i: int, j: int|
            0 <= i < j < self.objects@.len() ==> self.objects@[i].digest != self.objects@[j].digest
        &&& forall|i: int|
            0 <= i < self.objects@.len() ==> digest_of(#[trigger] self.objects@[i].bytes@)
                == self.objects@[i].digest
    }

    /// Whether an object is committed under this digest.
    pub open spec fn contains_digest(&self, d: u64) -> bool {
        exists|i: int| 0 <= i < self.objects@.len() && self.objects@[i].digest == d
    }

    /// The position of the object committed under this digest.
    pub open spec fn index_of(&self, d: u64) -> int {
        choose|i: int| 0 <= i < self.objects@.len() && self.objects@[i].digest == d
    }

    /// The bytes committed under this digest.
    pub open spec fn content_of(&self, d: u64) -> Seq<u8> {
        self.objects@[self.index_of(d)].bytes@
    }

    /// The reference count of the object committed under this digest.
    pub open spec fn refs_of(&self, d: u64) -> nat {
        self.objects@[self.index_of(d)].refs as nat
    }

    /// How many distinct objects are committed.
    pub open spec fn object_count(&self) -> nat {
        self.objects@.len()
    }

    /// With unique digests, any position holding `d` is the position the
    /// spec functions speak of.
    pub proof fn lemma_index_unique(&self, i: int, d: u64)
        requires
            self.wf(),
            0 <= i < self.objects@.len(),
            self.objects@[i].digest == d,
        ensures
            self.contains_digest(d),
            self.index_of(d) == i,
    {
        assert(self.contains_digest(d));
        let j = self.index_of(d);
        if i != j {
            if i < j {
                assert(self.objects@[i].digest != self.objects@[j].digest);
            } else {
                assert(self.objects@[j].digest != self.objects@[i].digest);
            }
        }
    }

    /// An empty store.
    pub fn new() -> (r: ObjectStore)
        ensures
            r.wf(),
            r.object_count() == 0,
            forall|d: u64| !r.contains_digest(d),
    {
        ObjectStore { objects: Vec::new() }
    }

    /// Finds the position of the object committed under `d`, if any.
    fn find(&self, d: u64) -> (r: Option<usize>)
        requires
            self.wf(),
        ensures
            match r {
                Some(i) => {
                    &&& i < self.objects@.len()
                    &&& self.objects@[i as int].digest == d
                    &&& self.contains_digest(d)
                    &&& self.index_of(d) == i
                },
                None => !self.contains_digest(d),
            },
    {
        let mut i: usize = 0;
        while i < self.objects.len()
            invariant
                0 <= i <= self.objects@.len(),
                self.wf(),
                forall|j: int| 0 <= j < i ==> self.objects@[j].digest != d,
            decreases self.objects@.len() - i,
        {
            if self.objects[i].digest == d {
                proof {
                    self.lemma_index_unique(i as int, d);
                }
                return Some(i);
            }
            i += 1;
        }
        None
    }

    /// Whether an object is committed under `d`.
    pub fn contains(&self, d: u64) -> (r: bool)
        requires
            self.wf(),
        ensures
            r == self.contains_digest(d),
    {
        self.find(d).is_some()
    }

    /// Commits `bytes` under their digest. Idempotent under an equal
    /// digest: a second commit changes nothing and discards its input.
    pub fn put(&mut self, d: u64, bytes: Vec<u8>) -> (r: Result<(), StoreError>)
        requires
            old(self).wf(),
            digest_of(bytes@) == d,
        ensures
            r is Ok,
            final(self).wf(),
            final(self).contains_digest(d),
            final(self).content_of(d) == if old(self).contains_digest(d) {
                old(self).content_of(d)
            } else {
                bytes@
            },
            final(self).refs_of(d) == if old(self).contains_digest(d) {
                old(self).refs_of(d)
            } else {
                0nat
            },
            final(self).object_count() == old(self).object_count() + if old(
                self,
            ).contains_digest(d) {
                0nat
            } else {
                1nat
            },
            forall|d2: u64|
                d2 != d ==> final(self).contains_digest(d2) == old(self).contains_digest(d2),
            forall|d2: u64|
                d2 != d && old(self).contains_digest(d2) ==> final(self).content_of(d2) == old(
                    self,
                ).content_of(d2) && final(self).refs_of(d2) == old(self).refs_of(d2),
    {
        match self.find(d) {
            Some(_) => Ok(()),
            None => {
                let ghost pre = self.objects@;
                self.objects.push(StoredObject { digest: d, bytes, refs: 0 });
                proof {
                    let n = pre.len() as int;
                    assert(self.objects@[n].digest == d);
                    assert(forall|i: int| 0 <= i < n ==> self.objects@[i] == pre[i]);
                    self.lemma_index_unique(n, d);
                    assert forall|d2: u64| d2 != d implies self.contains_digest(d2) == old(
                        self,
                    ).contains_digest(d2) by {
                        if self.contains_digest(d2) {
                            let i = choose|i: int|
                                0 <= i < self.objects@.len() && self.objects@[i].digest == d2;
                            assert(i < n);
                            assert(old(self).objects@[i].digest == d2);
                        }
                        if old(self).contains_digest(d2) {
                            let i = choose|i: int| 0 <= i < pre.len() && pre[i].digest == d2;
                            assert(self.objects@[i].digest == d2);
                        }
                    }
                    assert forall|d2: u64|
                        d2 != d && old(self).contains_digest(d2) implies self.content_of(d2) == old(
                        self,
                    ).content_of(d2) && self.refs_of(d2) == old(self).refs_of(d2) by {
                        let i = old(self).index_of(d2);
                        assert(pre[i].digest == d2);
                        assert(self.objects@[i].digest == d2);
                        self.lemma_index_unique(i, d2);
                    }
                }
                Ok(())
            },
        }
    }

    /// Retrieves a copy of the bytes committed under `d`, failing exactly
    /// when no object answers to `d`.
    pub fn get(&self, d: u64) -> (r: Result<Vec<u8>, NotFound>)
        requires
            self.wf(),
        ensures
            self.contains_digest(d) ==> (r matches Ok(b) && b@ == self.content_of(d)),
            !self.contains_digest(d) ==> r is Err,
    {
        match self.find(d) {
            Some(i) => Ok(copy_bytes(&self.objects[i].bytes)),
            None => Err(NotFound),
        }
    }

    /// Notes one more alias pointing at the object under `d`.
    pub fn increment_ref(&mut self, d: u64)
        requires
            old(self).wf(),
            old(self).contains_digest(d),
            old(self).refs_of(d) < usize::MAX,
        ensures
            final(self).wf(),
            final(self).contains_digest(d),
            final(self).content_of(d) == old(self).content_of(d),
            final(self).refs_of(d) == old(self).refs_of(d) + 1,
            final(self).object_count() == old(self).object_count(),
            forall|d2: u64|
                d2 != d ==> final(self).contains_digest(d2) == old(self).contains_digest(d2),
            forall|d2: u64|
                d2 != d && old(self).contains_digest(d2) ==> final(self).content_of(d2) == old(
                    self,
                ).content_of(d2) && final(self).refs_of(d2) == old(self).refs_of(d2),
    {
        let i = self.find(d).unwrap();
        let obj = &mut self.objects[i];
        obj.refs = obj.refs + 1;
        proof {
            self.lemma_refs_update(*old(self), i as int, d);
        }
    }

    /// Notes one alias no longer pointing at the object under `d`; yields
    /// the remaining count.
    pub fn decrement_ref(&mut self, d: u64) -> (r: usize)
        requires
            old(self).wf(),
            old(self).contains_digest(d),
            old(self).refs_of(d) > 0,
        ensures
            final(self).wf(),
            final(self).contains_digest(d),
            final(self).content_of(d) == old(self).content_of(d),
            final(self).refs_of(d) == old(self).refs_of(d) - 1,
            r as nat == final(self).refs_of(d),
            final(self).object_count() == old(self).object_count(),
            forall|d2: u64|
                d2 != d ==> final(self).contains_digest(d2) == old(self).contains_digest(d2),
            forall|d2: u64|
                d2 != d && old(self).contains_digest(d2) ==> final(self).content_of(d2) == old(
                    self,
                ).content_of(d2) && final(self).refs_of(d2) == old(self).refs_of(d2),
    {
        let i = self.find(d).unwrap();
        let obj = &mut self.objects[i];
        obj.refs = obj.refs - 1;
        let r = self.objects[i].refs;
        proof {
            self.lemma_refs_update(*old(self), i as int, d);
        }
        r
    }

    /// After replacing the object at `i` by one with the same digest and
    /// bytes, every spec observation changes only in that object's count.
    proof fn lemma_refs_update(&self, pre: ObjectStore, i: int, d: u64)
        requires
            pre.wf(),
            0 <= i < pre.objects@.len(),
            pre.objects@[i].digest == d,
            self.objects@ == pre.objects@.update(i, self.objects@[i]),
            self.objects@[i].digest == d,
            self.objects@[i].bytes == pre.objects@[i].bytes,
        ensures
            self.wf(),
            self.contains_digest(d),
            self.index_of(d) == i,
            self.content_of(d) == pre.content_of(d),
            forall|d2: u64| d2 != d ==> self.contains_digest(d2) == pre.contains_digest(d2),
            forall|d2: u64|
                d2 != d && pre.contains_digest(d2) ==> self.content_of(d2) == pre.content_of(d2)
                    && self.refs_of(d2) == pre.refs_of(d2),
            pre.index_of(d) == i,
    {
        assert(forall|j: int|
            0 <= j < self.objects@.len() && j != i ==> self.objects@[j] == pre.objects@[j]);
        assert(self.wf());
        self.lemma_index_unique(i, d);
        pre.lemma_index_unique(i, d);
        assert forall|d2: u64| d2 != d implies self.contains_digest(d2) == pre.contains_digest(
            d2,
        ) by {
            if self.contains_digest(d2) {
                let j = choose|j: int|
                    0 <= j < self.objects@.len() && self.objects@[j].digest == d2;
                assert(pre.objects@[j].digest == d2);
            }
            if pre.contains_digest(d2) {
                let j = choose|j: int| 0 <= j < pre.objects@.len() && pre.objects@[j].digest == d2;
                assert(self.objects@[j].digest == d2);
            }
        }
        assert forall|d2: u64| d2 != d && pre.contains_digest(d2) implies self.content_of(d2)
            == pre.content_of(d2) && self.refs_of(d2) == pre.refs_of(d2) by {
            let j = pre.index_of(d2);
            assert(pre.objects@[j].digest == d2);
            assert(j != i);
            assert(self.objects@[j].digest == d2);
            self.lemma_index_unique(j, d2);
        }
    }

    /// Reports the reference count of the object under `d`, if one is
    /// committed.
    pub fn ref_count(&self, d: u64) -> (r: Option<usize>)
        requires
            self.wf(),
        ensures
            self.contains_digest(d) ==> (r matches Some(c) && c as nat == self.refs_of(d)),
            !self.contains_digest(d) ==> r is None,
    {
        match self.find(d) {
            Some(i) => Some(self.objects[i].refs),
            None => None,
        }
    }

    /// Removes the object under `d` only if nothing points at it; reports
    /// whether a removal happened.
    pub fn delete_if_unreferenced(&mut self, d: u64) -> (r: bool)
        requires
            old(self).wf(),
        ensures
            final(self).wf(),
            r == (old(self).contains_digest(d) && old(self).refs_of(d) == 0),
            r ==> !final(self).contains_digest(d) && final(self).object_count() == old(
                self,
            ).object_count() - 1,
            !r ==> *final(self) == *old(self),
            forall|d2: u64|
                d2 != d ==> final(self).contains_digest(d2) == old(self).contains_digest(d2),
            forall|d2: u64|
                d2 != d && old(self).contains_digest(d2) ==> final(self).content_of(d2) == old(
                    self,
                ).content_of(d2) && final(self).refs_of(d2) == old(self).refs_of(d2),
    {
        match self.find(d) {
            None => false,
            Some(i) => {
                if self.objects[i].refs != 0 {
                    return false;
                }
                let ghost pre = self.objects@;
                self.objects.remove(i);
                proof {
                    let n = pre.len() as int;
                    let k = i as int;
                    assert(self.objects@ =~= pre.subrange(0, k) + pre.subrange(k + 1, n));
                    assert(forall|j: int| 0 <= j < k ==> self.objects@[j] == pre[j]);
                    assert(forall|j: int| k <= j < n - 1 ==> self.objects@[j] == pre[j + 1]);
                    assert(self.wf());
                    assert forall|d2: u64| self.contains_digest(d2) implies old(
                        self,
                    ).contains_digest(d2) && d2 != d by {
                        let j = choose|j: int|
                            0 <= j < self.objects@.len() && self.objects@[j].digest == d2;
                        if j < k {
                            assert(pre[j].digest == d2);
                            old(self).lemma_index_unique(j, d2);
                        } else {
                            assert(pre[j + 1].digest == d2);
                            old(self).lemma_index_unique(j + 1, d2);
                        }
                        if d2 == d {
                            old(self).lemma_index_unique(k, d);
                        }
                    }
                    assert forall|d2: u64| d2 != d && old(self).contains_digest(d2) implies self
                        .contains_digest(d2) && self.content_of(d2) == old(self).content_of(d2)
                        && self.refs_of(d2) == old(self).refs_of(d2) by {
                        let j = old(self).index_of(d2);
                        assert(pre[j].digest == d2);
                        assert(j != k) by {
                            old(self).lemma_index_unique(k, d);
                        }
                        if j < k {
                            assert(self.objects@[j].digest == d2);
                            self.lemma_index_unique(j, d2);
                        } else {
                            assert(self.objects@[j - 1].digest == d2);
                            self.lemma_index_unique(j - 1, d2);
                        }
                    }
                }
                true
            },
        }
    }
}

} // verus!
