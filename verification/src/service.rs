use vstd::prelude::*;

use crate::alias::{lemma_count_le_len, lemma_count_pos, AliasIndex};
use crate::digest::digest_of;
use crate::errors::{NotFound, UploadError};
use crate::hex::{hex_of, lemma_hex_round_trip, lemma_pow16_16, locator_digest, parse_locator};
use crate::name::{valid_name, validate};
use crate::staging::{concat_of, StagingHandle};
use crate::store::ObjectStore;

verus! {

/// The bytes a chunked upload carries, joined in arrival order.
pub open spec fn chunks_bytes(chunks: Seq<Vec<u8>>) -> Seq<u8> {
    concat_of(chunks.map_values(|c: Vec<u8>| c@))
}

/// How committing an upload of bytes `b` changes the object area: `b` ends
/// up committed under its digest; if an object already sat under that
/// digest it stands untouched (deduplication), otherwise `b` itself is the
/// one new object; every other digest is untouched.
pub open spec fn upload_stored(pre: Service, post: Service, b: Seq<u8>) -> bool {
    let d = digest_of(b);
    &&& post.store.contains_digest(d)
    &&& pre.store.contains_digest(d) ==> {
        &&& post.store.content_of(d) == pre.store.content_of(d)
        &&& post.store.object_count() == pre.store.object_count()
    }
    &&& !pre.store.contains_digest(d) ==> {
        &&& post.store.content_of(d) == b
        &&& post.store.object_count() == pre.store.object_count() + 1
    }
    &&& forall|d2: u64|
        d2 != d ==> post.store.contains_digest(d2) == pre.store.contains_digest(d2)
    &&& forall|d2: u64|
        d2 != d && pre.store.contains_digest(d2) ==> post.store.content_of(d2)
            == pre.store.content_of(d2)
}

/// How binding name `n` to digest `d` changes the alias table: `n` now
/// denotes `d` and every other name is untouched. A fresh name adds one
/// alias pointing at `d`; a name that denoted another digest is repointed,
/// moving one count from the old digest to `d`; a name that already
/// denoted `d` changes nothing.
pub open spec fn alias_bound(pre: Service, post: Service, n: Seq<u8>, d: u64) -> bool {
    &&& post.aliases.contains_name(n)
    &&& post.aliases.digest_for(n) == d
    &&& forall|n2: Seq<u8>|
        n2 != n ==> post.aliases.contains_name(n2) == pre.aliases.contains_name(n2)
    &&& forall|n2: Seq<u8>|
        n2 != n && pre.aliases.contains_name(n2) ==> post.aliases.digest_for(n2)
            == pre.aliases.digest_for(n2)
    &&& !pre.aliases.contains_name(n) ==> {
        &&& post.aliases.alias_count() == pre.aliases.alias_count() + 1
        &&& post.aliases.count_for(d) == pre.aliases.count_for(d) + 1
        &&& forall|d2: u64| d2 != d ==> post.aliases.count_for(d2) == pre.aliases.count_for(d2)
    }
    &&& (pre.aliases.contains_name(n) && pre.aliases.digest_for(n) != d) ==> {
        &&& post.aliases.alias_count() == pre.aliases.alias_count()
        &&& post.aliases.count_for(d) == pre.aliases.count_for(d) + 1
        &&& post.aliases.count_for(pre.aliases.digest_for(n)) == pre.aliases.count_for(
            pre.aliases.digest_for(n),
        ) - 1
        &&& forall|d2: u64|
            d2 != d && d2 != pre.aliases.digest_for(n) ==> post.aliases.count_for(d2)
                == pre.aliases.count_for(d2)
    }
    &&& (pre.aliases.contains_name(n) && pre.aliases.digest_for(n) == d) ==> post.aliases
        == pre.aliases
}

/// The whole effect of an upload that carries a name: a valid name stores
/// the bytes and binds the name to their digest; an invalid one fails with
/// `InvalidName` and changes nothing.
pub open spec fn named_upload_effect(
    pre: Service,
    post: Service,
    n: Seq<u8>,
    b: Seq<u8>,
    r: Result<u64, UploadError>,
) -> bool {
    if valid_name(n) {
        &&& r == Ok::<u64, UploadError>(digest_of(b))
        &&& upload_stored(pre, post, b)
        &&& alias_bound(pre, post, n, digest_of(b))
    } else {
        &&& r == Err::<u64, UploadError>(UploadError::InvalidName)
        &&& post == pre
    }
}

/// The whole paste store: the committed-object area and the alias table,
/// kept consistent with each other.
pub struct Service {
    pub store: ObjectStore,
    pub aliases: AliasIndex,
}

impl Service {
    /// Both tables are well formed, every digest some alias points at is
    /// committed, and each committed object's reference count equals the
    /// number of aliases pointing at it.
    pub open spec fn wf(&self) -> bool {
        &&& self.store.wf()
        &&& self.aliases.wf()
        &&& forall|d: u64|
            self.aliases.count_for(d) > 0 ==> #[trigger] self.store.contains_digest(d)
        &&& forall|d: u64|
            #[trigger] self.store.contains_digest(d) ==> self.store.refs_of(d)
                == self.aliases.count_for(d)
    }

    /// What a locator denotes: sixteen hexadecimal digits are read as a
    /// digest and looked up directly; anything else is read as an alias
    /// name and resolved through the alias table.
    pub open spec fn lookup(&self, loc: Seq<u8>) -> Option<Seq<u8>> {
        match locator_digest(loc) {
            Some(d) => if self.store.contains_digest(d) {
                Some(self.store.content_of(d))
            } else {
                None
            },
            None => if self.aliases.contains_name(loc) && self.store.contains_digest(
                self.aliases.digest_for(loc),
            ) {
                Some(self.store.content_of(self.aliases.digest_for(loc)))
            } else {
                None
            },
        }
    }

    /// The digest an existing alias denotes is committed, with at least
    /// one reference.
    pub proof fn lemma_alias_target(&self, n: Seq<u8>)
        requires
            self.wf(),
            self.aliases.contains_name(n),
        ensures
            self.store.contains_digest(self.aliases.digest_for(n)),
            self.store.refs_of(self.aliases.digest_for(n)) >= 1,
            self.aliases.count_for(self.aliases.digest_for(n)) >= 1,
    {
        let i = self.aliases.index_of_name(n);
        assert(0 <= i < self.aliases.entries@.len() && self.aliases.entries@[i].name@ == n);
        lemma_count_pos(self.aliases.entries@, i, self.aliases.entries@[i].digest);
    }

    /// An empty service: no objects, no aliases.
    pub fn new() -> (r: Service)
        ensures
            r.wf(),
            r.store.object_count() == 0,
            r.aliases.alias_count() == 0,
            forall|d: u64| !r.store.contains_digest(d),
            forall|n: Seq<u8>| !r.aliases.contains_name(n),
    {
        let r = Service { store: ObjectStore::new(), aliases: AliasIndex::new() };
        r
    }

    /// Ingests one upload: validates the optional name, stages the chunks
    /// in arrival order while digesting them, commits the staged bytes
    /// under their digest (deduplicating against an equal object), and
    /// finally binds the name to the digest. A rejected name leaves the
    /// service untouched; an accepted upload yields the digest.
    pub fn put_stream(&mut self, name: Option<&Vec<u8>>, chunks: &Vec<Vec<u8>>) -> (r: Result<
        u64,
        UploadError,
    >)
        requires
            old(self).wf(),
            old(self).aliases.alias_count() < usize::MAX,
        ensures
            final(self).wf(),
            name is None ==> {
                &&& r == Ok::<u64, UploadError>(digest_of(chunks_bytes(chunks@)))
                &&& upload_stored(*old(self), *final(self), chunks_bytes(chunks@))
                &&& final(self).aliases == old(self).aliases
            },
            name matches Some(n) ==> named_upload_effect(
                *old(self),
                *final(self),
                n@,
                chunks_bytes(chunks@),
                r,
            ),
    {
        let vname = match name {
            None => None,
            Some(n) => match validate(n) {
                Ok(v) => Some(v),
                Err(_) => {
                    return Err(UploadError::InvalidName);
                },
            },
        };
        let ghost m = chunks@.map_values(|c: Vec<u8>| c@);
        let mut handle = StagingHandle::begin();
        let mut i: usize = 0;
        proof {
            assert(m.take(0) =~= Seq::<Seq<u8>>::empty());
        }
        while i < chunks.len()
            invariant
                0 <= i <= chunks@.len(),
                m == chunks@.map_values(|c: Vec<u8>| c@),
                handle.wf(),
                handle.staged() == concat_of(m.take(i as int)),
            decreases chunks@.len() - i,
        {
            let wrote = handle.write_chunk(&chunks[i]);
            if wrote.is_err() {
                return Err(UploadError::Io);
            }
            proof {
                assert(m.take(i + 1 as int).drop_last() =~= m.take(i as int));
                assert(m.take(i + 1 as int).last() == m[i as int]);
                assert(m[i as int] == chunks@[i as int]@);
            }
            i += 1;
        }
        proof {
            assert(m.take(m.len() as int) =~= m);
        }
        let ghost b = chunks_bytes(chunks@);
        let ghost mid_aliases = self.aliases;
        let digest = match handle.commit(&mut self.store) {
            Ok(d) => d,
            Err(_) => {
                return Err(UploadError::Commit);
            },
        };
        proof {
            assert(self.aliases == mid_aliases);
            assert forall|d2: u64| self.aliases.count_for(d2) > 0 implies #[trigger] self
                .store.contains_digest(d2) by {
                assert(old(self).store.contains_digest(d2) || d2 == digest || !old(self).store.contains_digest(d2));
                if d2 != digest {
                    assert(old(self).store.contains_digest(d2));
                }
            }
            assert forall|d2: u64| #[trigger]
                self.store.contains_digest(d2) implies self.store.refs_of(d2)
                == self.aliases.count_for(d2) by {
                if d2 == digest && !old(self).store.contains_digest(digest) {
                    if self.aliases.count_for(digest) > 0 {
                        assert(old(self).store.contains_digest(digest));
                    }
                }
            }
            assert(self.wf());
        }
        match vname {
            None => Ok(digest),
            Some(v) => {
                proof {
                    lemma_count_le_len(self.aliases.entries@, digest);
                    if self.aliases.contains_name(v.bytes@) {
                        self.lemma_alias_target(v.bytes@);
                    }
                }
                let ghost pre_set_store = self.store;
                let ghost pre_set_aliases = self.aliases;
                let bound = self.aliases.set(&mut self.store, v, digest);
                proof {
                    assert(bound is Ok);
                    assert forall|d2: u64| self.aliases.count_for(d2) > 0 implies #[trigger] self
                        .store.contains_digest(d2) by {
                        if d2 != digest && pre_set_aliases.count_for(d2) == 0 {
                            assert(self.aliases.count_for(d2) == pre_set_aliases.count_for(d2));
                        }
                        if pre_set_aliases.count_for(d2) > 0 {
                            assert(pre_set_store.contains_digest(d2));
                        }
                    }
                    assert forall|d2: u64| #[trigger]
                        self.store.contains_digest(d2) implies self.store.refs_of(d2)
                        == self.aliases.count_for(d2) by {
                        assert(pre_set_store.contains_digest(d2));
                    }
                    assert(self.wf());
                }
                Ok(digest)
            },
        }
    }

    /// Serves a locator: a digest locator streams the committed object's
    /// bytes; any other locator is resolved as an alias first. Fails with
    /// `NotFound` exactly when the locator denotes nothing.
    pub fn get_stream(&self, locator: &Vec<u8>) -> (r: Result<Vec<u8>, NotFound>)
        requires
            self.wf(),
        ensures
            self.lookup(locator@) matches Some(b) ==> (r matches Ok(v) && v@ == b),
            self.lookup(locator@) is None ==> r is Err,
    {
        match parse_locator(locator) {
            Some(d) => self.store.get(d),
            None => match self.aliases.resolve(locator) {
                Ok(d) => {
                    proof {
                        self.lemma_alias_target(locator@);
                    }
                    self.store.get(d)
                },
                Err(e) => Err(e),
            },
        }
    }

    /// Resolves an alias name to the digest it denotes.
    pub fn resolve(&self, name: &Vec<u8>) -> (r: Result<u64, NotFound>)
        requires
            self.wf(),
        ensures
            self.aliases.contains_name(name@) ==> r == Ok::<u64, NotFound>(
                self.aliases.digest_for(name@),
            ),
            !self.aliases.contains_name(name@) ==> r is Err,
    {
        self.aliases.resolve(name)
    }

    /// Reports the reference count of the object under `d`, if one is
    /// committed.
    pub fn ref_count(&self, d: u64) -> (r: Option<usize>)
        requires
            self.wf(),
        ensures
            self.store.contains_digest(d) ==> (r matches Some(c) && c as nat
                == self.store.refs_of(d)),
            !self.store.contains_digest(d) ==> r is None,
    {
        self.store.ref_count(d)
    }

    /// How many distinct objects are committed.
    pub fn object_count(&self) -> (r: usize)
        ensures
            r as nat == self.store.object_count(),
    {
        self.store.objects.len()
    }

    /// How many aliases exist.
    pub fn alias_count(&self) -> (r: usize)
        ensures
            r as nat == self.aliases.alias_count(),
    {
        self.aliases.entries.len()
    }

    /// Unbinds an alias, lowering the reference count of the digest it
    /// denoted; the object itself stays committed.
    pub fn remove_alias(&mut self, name: &Vec<u8>) -> (r: Result<(), NotFound>)
        requires
            old(self).wf(),
        ensures
            final(self).wf(),
            !old(self).aliases.contains_name(name@) ==> {
                &&& r is Err
                &&& *final(self) == *old(self)
            },
            old(self).aliases.contains_name(name@) ==> {
                &&& r is Ok
                &&& !final(self).aliases.contains_name(name@)
                &&& final(self).aliases.alias_count() == old(self).aliases.alias_count() - 1
                &&& forall|d2: u64|
                    final(self).store.contains_digest(d2) == old(self).store.contains_digest(d2)
                &&& forall|d2: u64|
                    old(self).store.contains_digest(d2) ==> final(self).store.content_of(d2)
                        == old(self).store.content_of(d2)
                &&& final(self).store.refs_of(old(self).aliases.digest_for(name@)) == old(self).store.refs_of(old(self).aliases.digest_for(name@)) - 1
            },
    {
        proof {
            if self.aliases.contains_name(name@) {
                self.lemma_alias_target(name@);
            }
        }
        let ghost pre_store = self.store;
        let ghost pre_aliases = self.aliases;
        let r = self.aliases.remove(&mut self.store, name);
        proof {
            if pre_aliases.contains_name(name@) {
                assert forall|d2: u64| self.aliases.count_for(d2) > 0 implies #[trigger] self
                    .store.contains_digest(d2) by {
                    if pre_aliases.count_for(d2) > 0 {
                        assert(pre_store.contains_digest(d2));
                    }
                }
                assert forall|d2: u64| #[trigger]
                    self.store.contains_digest(d2) implies self.store.refs_of(d2)
                    == self.aliases.count_for(d2) by {
                    assert(pre_store.contains_digest(d2));
                }
                assert(self.wf());
            }
        }
        r
    }

    /// Reclaims the object under `d` if no alias points at it; reports
    /// whether a removal happened.
    pub fn delete_if_unreferenced(&mut self, d: u64) -> (r: bool)
        requires
            old(self).wf(),
        ensures
            final(self).wf(),
            r == (old(self).store.contains_digest(d) && old(self).store.refs_of(d) == 0),
            r ==> !final(self).store.contains_digest(d) && final(self).store.object_count() == old(self).store.object_count() - 1,
            !r ==> *final(self) == *old(self),
            forall|d2: u64|
                d2 != d ==> final(self).store.contains_digest(d2) == old(self).store.contains_digest(d2),
            forall|d2: u64|
                d2 != d && old(self).store.contains_digest(d2) ==> final(self).store.content_of(d2)
                    == old(self).store.content_of(d2),
            final(self).aliases == old(self).aliases,
    {
        let r = self.store.delete_if_unreferenced(d);
        proof {
            if r {
                assert(old(self).store.refs_of(d) == 0);
                assert forall|d2: u64| self.aliases.count_for(d2) > 0 implies #[trigger] self
                    .store.contains_digest(d2) by {
                    assert(old(self).store.contains_digest(d2));
                    if d2 == d {
                        assert(old(self).store.refs_of(d) == self.aliases.count_for(d));
                    }
                }
                assert forall|d2: u64| #[trigger]
                    self.store.contains_digest(d2) implies self.store.refs_of(d2)
                    == self.aliases.count_for(d2) by {
                    assert(old(self).store.contains_digest(d2));
                }
                assert(self.wf());
            }
        }
        r
    }
}

/// Round trip: an object committed under its digest is retrievable by the
/// digest's sixteen-digit locator, yielding exactly the committed bytes.
/// Together with `put_stream`'s contract this says that uploading a byte
/// stream and fetching its digest's locator reproduces the stream, as long
/// as no differently-written object already sat under the same digest.
pub proof fn lemma_round_trip(s: Service, b: Seq<u8>)
    requires
        s.wf(),
        s.store.contains_digest(digest_of(b)),
        s.store.content_of(digest_of(b)) == b,
    ensures
        s.lookup(hex_of(digest_of(b))) == Some(b),
{
    let d = digest_of(b);
    lemma_pow16_16();
    lemma_hex_round_trip(d as nat, 16);
    assert(locator_digest(hex_of(d)) == Some(d));
}

/// An upload that never committed left nothing behind: the locator of any
/// digest that is not committed denotes nothing. In particular, aborting
/// an upload mid-stream leaves every digest its partial content would have
/// produced unresolvable.
pub proof fn lemma_uncommitted_not_found(s: Service, d: u64)
    requires
        s.wf(),
        !s.store.contains_digest(d),
    ensures
        s.lookup(hex_of(d)) is None,
{
    lemma_pow16_16();
    lemma_hex_round_trip(d as nat, 16);
    assert(locator_digest(hex_of(d)) == Some(d));
}

} // verus!
