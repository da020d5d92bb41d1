use vstd::prelude::*;

use crate::byteops::bytes_eq;
use crate::errors::{NotFound, StoreError};
use crate::name::{valid_name, ValidatedName};
use crate::store::ObjectStore;

verus! {

/// One alias: a validated name bound to the digest it currently denotes.
pub struct AliasEntry {
    pub name: Vec<u8>,
    pub digest: u64,
}

/// The name-to-digest table: each name appears at most once and is valid.
pub struct AliasIndex {
    pub entries: Vec<AliasEntry>,
}

/// How many of the given aliases point at the digest `d`.
pub open spec fn count_matching(s: Seq<AliasEntry>, d: u64) -> nat
    decreases s.len(),
{
    if s.len() == 0 {
        0
    } else {
        count_matching(s.drop_last(), d) + if s.last().digest == d {
            1nat
        } else {
            0nat
        }
    }
}

/// Appending an alias raises exactly the count of the digest it points at.
pub proof fn lemma_count_push(s: Seq<AliasEntry>, e: AliasEntry, d: u64)
    ensures
        count_matching(s.push(e), d) == count_matching(s, d) + if e.digest == d {
            1nat
        } else {
            0nat
        },
{
    assert(s.push(e).drop_last() =~= s);
    assert(s.push(e).last() == e);
}

/// Replacing one alias adjusts the counts by what left and what arrived.
pub proof fn lemma_count_update(s: Seq<AliasEntry>, i: int, e: AliasEntry, d: u64)
    requires
        0 <= i < s.len(),
    ensures
        count_matching(s.update(i, e), d) == count_matching(s, d) - (if s[i].digest == d {
            1nat
        } else {
            0nat
        }) + (if e.digest == d {
            1nat
        } else {
            0nat
        }),
    decreases s.len(),
{
    if i == s.len() - 1 {
        assert(s.update(i, e).drop_last() =~= s.drop_last());
        assert(s.update(i, e).last() == e);
    } else {
        assert(s.update(i, e).drop_last() =~= s.drop_last().update(i, e));
        assert(s.update(i, e).last() == s.last());
        lemma_count_update(s.drop_last(), i, e, d);
    }
}

/// Removing one alias lowers exactly the count of the digest it pointed at.
pub proof fn lemma_count_remove(s: Seq<AliasEntry>, i: int, d: u64)
    requires
        0 <= i < s.len(),
    ensures
        count_matching(s.remove(i), d) == count_matching(s, d) - if s[i].digest == d {
            1nat
        } else {
            0nat
        },
    decreases s.len(),
{
    if i == s.len() - 1 {
        assert(s.remove(i) =~= s.drop_last());
    } else {
        assert(s.remove(i).drop_last() =~= s.drop_last().remove(i));
        assert(s.remove(i).last() == s.last());
        lemma_count_remove(s.drop_last(), i, d);
    }
}

/// A digest's count never exceeds the number of aliases.
pub proof fn lemma_count_le_len(s: Seq<AliasEntry>, d: u64)
    ensures
        count_matching(s, d) <= s.len(),
    decreases s.len(),
{
    if s.len() > 0 {
        lemma_count_le_len(s.drop_last(), d);
    }
}

/// An alias pointing at `d` makes the count of `d` positive.
pub proof fn lemma_count_pos(s: Seq<AliasEntry>, i: int, d: u64)
    requires
        0 <= i < s.len(),
        s[i].digest == d,
    ensures
        count_matching(s, d) >= 1,
    decreases s.len(),
{
    if i < s.len() - 1 {
        assert(s.drop_last()[i] == s[i]);
        lemma_count_pos(s.drop_last(), i, d);
    }
}

impl AliasIndex {
    /// Names are unique and valid.
    pub open spec fn wf(&self) -> bool {
        &&& forall|i: int, j: int|
            0 <= i < j < self.entries@.len() ==> self.entries@[i].name@ != self.entries@[j].name@
        &&& forall|i: int| 0 <= i < self.entries@.len() ==> valid_name(
            #[trigger] self.entries@[i].name@,
        )
    }

    /// Whether some alias carries this name.
    pub open spec fn contains_name(&self, n: Seq<u8>) -> bool {
        exists|i: int| 0 <= i < self.entries@.len() && self.entries@[i].name@ == n
    }

    /// The position of the alias carrying this name.
    pub open spec fn index_of_name(&self, n: Seq<u8>) -> int {
        choose|i: int| 0 <= i < self.entries@.len() && self.entries@[i].name@ == n
    }

    /// The digest this name currently denotes.
    pub open spec fn digest_for(&self, n: Seq<u8>) -> u64 {
        self.entries@[self.index_of_name(n)].digest
    }

    /// How many aliases exist.
    pub open spec fn alias_count(&self) -> nat {
        self.entries@.len()
    }

    /// How many aliases point at the digest `d`.
    pub open spec fn count_for(&self, d: u64) -> nat {
        count_matching(self.entries@, d)
    }

    /// With unique names, any position carrying `n` is the position the
    /// spec functions speak of.
    pub proof fn lemma_name_index_unique(&self, i: int, n: Seq<u8>)
        requires
            self.wf(),
            0 <= i < self.entries@.len(),
            self.entries@[i].name@ == n,
        ensures
            self.contains_name(n),
            self.index_of_name(n) == i,
    {
        assert(self.contains_name(n));
        let j = self.index_of_name(n);
        if i != j {
            if i < j {
                assert(self.entries@[i].name@ != self.entries@[j].name@);
            } else {
                assert(self.entries@[j].name@ != self.entries@[i].name@);
            }
        }
    }

    /// An empty index.
    pub fn new() -> (r: AliasIndex)
        ensures
            r.wf(),
            r.alias_count() == 0,
            forall|n: Seq<u8>| !r.contains_name(n),
            forall|d: u64| r.count_for(d) == 0,
    {
        AliasIndex { entries: Vec::new() }
    }

    /// Finds the position of the alias carrying `name`, if any.
    fn find_name(&self, name: &Vec<u8>) -> (r: Option<usize>)
        requires
            self.wf(),
        ensures
            match r {
                Some(i) => {
                    &&& i < self.entries@.len()
                    &&& self.entries@[i as int].name@ == name@
                    &&& self.contains_name(name@)
                    &&& self.index_of_name(name@) == i
                },
                None => !self.contains_name(name@),
            },
    {
        let mut i: usize = 0;
        while i < self.entries.len()
            invariant
                0 <= i <= self.entries@.len(),
                self.wf(),
                forall|j: int| 0 <= j < i ==> self.entries@[j].name@ != name@,
            decreases self.entries@.len() - i,
        {
            if bytes_eq(&self.entries[i].name, name) {
                proof {
                    self.lemma_name_index_unique(i as int, name@);
                }
                return Some(i);
            }
            i += 1;
        }
        None
    }

    /// Resolves a name to the digest it denotes, failing exactly when no
    /// alias carries the name.
    pub fn resolve(&self, name: &Vec<u8>) -> (r: Result<u64, NotFound>)
        requires
            self.wf(),
        ensures
            self.contains_name(name@) ==> r == Ok::<u64, NotFound>(self.digest_for(name@)),
            !self.contains_name(name@) ==> r is Err,
    {
        match self.find_name(name) {
            Some(i) => Ok(self.entries[i].digest),
            None => Err(NotFound),
        }
    }

    /// After replacing the alias at `i` by one carrying the same name,
    /// every other name resolves as before.
    proof fn lemma_alias_update(&self, pre: AliasIndex, i: int, n: Seq<u8>)
        requires
            pre.wf(),
            0 <= i < pre.entries@.len(),
            pre.entries@[i].name@ == n,
            self.entries@ == pre.entries@.update(i, self.entries@[i]),
            self.entries@[i].name@ == n,
        ensures
            self.wf(),
            self.contains_name(n),
            self.index_of_name(n) == i,
            pre.index_of_name(n) == i,
            self.alias_count() == pre.alias_count(),
            forall|n2: Seq<u8>| n2 != n ==> self.contains_name(n2) == pre.contains_name(n2),
            forall|n2: Seq<u8>|
                n2 != n && pre.contains_name(n2) ==> self.digest_for(n2) == pre.digest_for(n2),
    {
        assert(forall|j: int|
            0 <= j < self.entries@.len() && j != i ==> self.entries@[j] == pre.entries@[j]);
        assert(self.wf());
        self.lemma_name_index_unique(i, n);
        pre.lemma_name_index_unique(i, n);
        assert forall|n2: Seq<u8>| n2 != n implies self.contains_name(n2) == pre.contains_name(
            n2,
        ) by {
            if self.contains_name(n2) {
                let j = choose|j: int|
                    0 <= j < self.entries@.len() && self.entries@[j].name@ == n2;
                assert(pre.entries@[j].name@ == n2);
            }
            if pre.contains_name(n2) {
                let j = choose|j: int|
                    0 <= j < pre.entries@.len() && pre.entries@[j].name@ == n2;
                assert(self.entries@[j].name@ == n2);
            }
        }
        assert forall|n2: Seq<u8>| n2 != n && pre.contains_name(n2) implies self.digest_for(n2)
            == pre.digest_for(n2) by {
            let j = pre.index_of_name(n2);
            assert(pre.entries@[j].name@ == n2);
            assert(j != i);
            assert(self.entries@[j].name@ == n2);
            self.lemma_name_index_unique(j, n2);
        }
    }

    /// Binds `name` to `digest`. A fresh name adds an alias and raises the
    /// digest's reference count; a name already bound to `digest` changes
    /// nothing; a name bound elsewhere is repointed, lowering the old
    /// digest's count and raising the new one's.
    pub fn set(&mut self, store: &mut ObjectStore, name: ValidatedName, digest: u64) -> (r: Result<
        (),
        StoreError,
    >)
        requires
            old(self).wf(),
            old(store).wf(),
            name.wf(),
            old(store).contains_digest(digest),
            old(store).refs_of(digest) < usize::MAX,
            (old(self).contains_name(name.bytes@) && old(self).digest_for(name.bytes@) != digest)
                ==> {
                &&& old(store).contains_digest(old(self).digest_for(name.bytes@))
                &&& old(store).refs_of(old(self).digest_for(name.bytes@)) > 0
            },
        ensures
            r is Ok,
            final(self).wf(),
            final(store).wf(),
            final(self).contains_name(name.bytes@),
            final(self).digest_for(name.bytes@) == digest,
            forall|n2: Seq<u8>|
                n2 != name.bytes@ ==> final(self).contains_name(n2) == old(self).contains_name(n2),
            forall|n2: Seq<u8>|
                n2 != name.bytes@ && old(self).contains_name(n2) ==> final(self).digest_for(n2)
                    == old(self).digest_for(n2),
            forall|d2: u64| final(store).contains_digest(d2) == old(store).contains_digest(d2),
            forall|d2: u64|
                old(store).contains_digest(d2) ==> final(store).content_of(d2) == old(
                    store,
                ).content_of(d2),
            final(store).object_count() == old(store).object_count(),
            !old(self).contains_name(name.bytes@) ==> {
                &&& final(self).alias_count() == old(self).alias_count() + 1
                &&& final(self).count_for(digest) == old(self).count_for(digest) + 1
                &&& final(store).refs_of(digest) == old(store).refs_of(digest) + 1
                &&& forall|d2: u64|
                    d2 != digest ==> final(self).count_for(d2) == old(self).count_for(d2)
                &&& forall|d2: u64|
                    d2 != digest && old(store).contains_digest(d2) ==> final(store).refs_of(d2)
                        == old(store).refs_of(d2)
            },
            (old(self).contains_name(name.bytes@) && old(self).digest_for(name.bytes@) == digest)
                ==> {
                &&& *final(self) == *old(self)
                &&& *final(store) == *old(store)
            },
            (old(self).contains_name(name.bytes@) && old(self).digest_for(name.bytes@) != digest)
                ==> {
                &&& final(self).alias_count() == old(self).alias_count()
                &&& final(self).count_for(digest) == old(self).count_for(digest) + 1
                &&& final(self).count_for(old(self).digest_for(name.bytes@)) == old(
                    self,
                ).count_for(old(self).digest_for(name.bytes@)) - 1
                &&& final(store).refs_of(digest) == old(store).refs_of(digest) + 1
                &&& final(store).refs_of(old(self).digest_for(name.bytes@)) == old(store).refs_of(
                    old(self).digest_for(name.bytes@),
                ) - 1
                &&& forall|d2: u64|
                    d2 != digest && d2 != old(self).digest_for(name.bytes@)
                        ==> final(self).count_for(d2) == old(self).count_for(d2)
                &&& forall|d2: u64|
                    d2 != digest && d2 != old(self).digest_for(name.bytes@) && old(
                        store,
                    ).contains_digest(d2) ==> final(store).refs_of(d2) == old(store).refs_of(d2)
            },
    {
        match self.find_name(&name.bytes) {
            None => {
                let ghost pre = self.entries@;
                let e = AliasEntry { name: name.bytes, digest };
                proof {
                    lemma_count_push(pre, e, digest);
                }
                self.entries.push(e);
                store.increment_ref(digest);
                proof {
                    let n = pre.len() as int;
                    assert(forall|j: int| 0 <= j < n ==> self.entries@[j] == pre[j]);
                    assert(self.wf());
                    self.lemma_name_index_unique(n, name.bytes@);
                    assert forall|n2: Seq<u8>| n2 != name.bytes@ implies self.contains_name(n2)
                        == old(self).contains_name(n2) by {
                        if self.contains_name(n2) {
                            let j = choose|j: int|
                                0 <= j < self.entries@.len() && self.entries@[j].name@ == n2;
                            assert(j < n);
                            assert(pre[j].name@ == n2);
                        }
                        if old(self).contains_name(n2) {
                            let j = choose|j: int| 0 <= j < pre.len() && pre[j].name@ == n2;
                            assert(self.entries@[j].name@ == n2);
                        }
                    }
                    assert forall|n2: Seq<u8>|
                        n2 != name.bytes@ && old(self).contains_name(n2) implies self.digest_for(
                        n2,
                    ) == old(self).digest_for(n2) by {
                        let j = old(self).index_of_name(n2);
                        assert(pre[j].name@ == n2);
                        assert(self.entries@[j].name@ == n2);
                        self.lemma_name_index_unique(j, n2);
                    }
                    assert forall|d2: u64| d2 != digest implies self.count_for(d2) == old(
                        self,
                    ).count_for(d2) by {
                        lemma_count_push(pre, e, d2);
                    }
                }
                Ok(())
            },
            Some(i) => {
                let d1 = self.entries[i].digest;
                proof {
                    self.lemma_name_index_unique(i as int, name.bytes@);
                }
                if d1 == digest {
                    return Ok(());
                }
                store.decrement_ref(d1);
                store.increment_ref(digest);
                let ghost pre = self.entries@;
                let e = AliasEntry { name: name.bytes, digest };
                self.entries[i] = e;
                proof {
                    self.lemma_alias_update(*old(self), i as int, name.bytes@);
                    lemma_count_update(pre, i as int, e, digest);
                    lemma_count_update(pre, i as int, e, d1);
                    assert forall|d2: u64| d2 != digest && d2 != d1 implies self.count_for(d2)
                        == old(self).count_for(d2) by {
                        lemma_count_update(pre, i as int, e, d2);
                    }
                }
                Ok(())
            },
        }
    }

    /// Unbinds `name` and lowers the reference count of the digest it
    /// denoted; fails without effect when no alias carries the name.
    pub fn remove(&mut self, store: &mut ObjectStore, name: &Vec<u8>) -> (r: Result<(), NotFound>)
        requires
            old(self).wf(),
            old(store).wf(),
            old(self).contains_name(name@) ==> {
                &&& old(store).contains_digest(old(self).digest_for(name@))
                &&& old(store).refs_of(old(self).digest_for(name@)) > 0
            },
        ensures
            final(self).wf(),
            final(store).wf(),
            !old(self).contains_name(name@) ==> {
                &&& r is Err
                &&& *final(self) == *old(self)
                &&& *final(store) == *old(store)
            },
            old(self).contains_name(name@) ==> {
                &&& r is Ok
                &&& !final(self).contains_name(name@)
                &&& final(self).alias_count() == old(self).alias_count() - 1
                &&& final(self).count_for(old(self).digest_for(name@)) == old(self).count_for(
                    old(self).digest_for(name@),
                ) - 1
                &&& forall|d2: u64|
                    d2 != old(self).digest_for(name@) ==> final(self).count_for(d2) == old(
                        self,
                    ).count_for(d2)
                &&& final(store).refs_of(old(self).digest_for(name@)) == old(store).refs_of(
                    old(self).digest_for(name@),
                ) - 1
                &&& forall|d2: u64|
                    final(store).contains_digest(d2) == old(store).contains_digest(d2)
                &&& forall|d2: u64|
                    old(store).contains_digest(d2) ==> final(store).content_of(d2) == old(
                        store,
                    ).content_of(d2)
                &&& forall|d2: u64|
                    d2 != old(self).digest_for(name@) && old(store).contains_digest(d2)
                        ==> final(store).refs_of(d2) == old(store).refs_of(d2)
                &&& forall|n2: Seq<u8>|
                    n2 != name@ ==> final(self).contains_name(n2) == old(self).contains_name(n2)
                &&& forall|n2: Seq<u8>|
                    n2 != name@ && old(self).contains_name(n2) ==> final(self).digest_for(n2)
                        == old(self).digest_for(n2)
            },
    {
        match self.find_name(name) {
            None => Err(NotFound),
            Some(i) => {
                let d1 = self.entries[i].digest;
                proof {
                    self.lemma_name_index_unique(i as int, name@);
                }
                let ghost pre = self.entries@;
                self.entries.remove(i);
                store.decrement_ref(d1);
                proof {
                    let n = pre.len() as int;
                    let k = i as int;
                    assert(self.entries@ =~= pre.subrange(0, k) + pre.subrange(k + 1, n));
                    assert(forall|j: int| 0 <= j < k ==> self.entries@[j] == pre[j]);
                    assert(forall|j: int| k <= j < n - 1 ==> self.entries@[j] == pre[j + 1]);
                    assert(self.wf());
                    lemma_count_remove(pre, k, d1);
                    assert forall|d2: u64| d2 != d1 implies self.count_for(d2) == old(
                        self,
                    ).count_for(d2) by {
                        lemma_count_remove(pre, k, d2);
                    }
                    assert forall|n2: Seq<u8>| self.contains_name(n2) implies old(
                        self,
                    ).contains_name(n2) && n2 != name@ by {
                        let j = choose|j: int|
                            0 <= j < self.entries@.len() && self.entries@[j].name@ == n2;
                        if j < k {
                            assert(pre[j].name@ == n2);
                            old(self).lemma_name_index_unique(j, n2);
                        } else {
                            assert(pre[j + 1].name@ == n2);
                            old(self).lemma_name_index_unique(j + 1, n2);
                        }
                        if n2 == name@ {
                            old(self).lemma_name_index_unique(k, name@);
                        }
                    }
                    assert forall|n2: Seq<u8>| n2 != name@ && old(self).contains_name(n2) implies
                        self.contains_name(n2) && self.digest_for(n2) == old(self).digest_for(
                        n2,
                    ) by {
                        let j = old(self).index_of_name(n2);
                        assert(pre[j].name@ == n2);
                        assert(j != k) by {
                            old(self).lemma_name_index_unique(k, name@);
                        }
                        if j < k {
                            assert(self.entries@[j].name@ == n2);
                            self.lemma_name_index_unique(j, n2);
                        } else {
                            assert(self.entries@[j - 1].name@ == n2);
                            self.lemma_name_index_unique(j - 1, n2);
                        }
                    }
                }
                Ok(())
            },
        }
    }
}

} // verus!
