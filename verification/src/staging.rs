use vstd::prelude::*;

use crate::digest::{digest_of, ContentAddresser};
use crate::errors::{CommitError, IoError};
use crate::store::ObjectStore;

verus! {

/// The bytes of a chunked stream, joined in arrival order.
pub open spec fn concat_of(chunks: Seq<Seq<u8>>) -> Seq<u8>
    decreases chunks.len(),
{
    if chunks.len() == 0 {
        Seq::empty()
    } else {
        concat_of(chunks.drop_last()) + chunks.last()
    }
}

/// A private, not-yet-visible staging area for one upload in progress,
/// with the digest of the staged bytes computed as they arrive.
pub struct StagingHandle {
    pub buf: Vec<u8>,
    pub addresser: ContentAddresser,
}

impl StagingHandle {
    /// The accumulator is open and has seen exactly the staged bytes.
    pub open spec fn wf(&self) -> bool {
        &&& self.addresser.wf()
        &&& !self.addresser.is_closed()
        &&& self.addresser.bytes_seen() == self.buf@
    }

    /// The bytes staged so far, in arrival order.
    pub open spec fn staged(&self) -> Seq<u8> {
        self.buf@
    }

    /// Opens a fresh staging area that holds no bytes and is visible to
    /// no reader.
    pub fn begin() -> (r: StagingHandle)
        ensures
            r.wf(),
            r.staged() == Seq::<u8>::empty(),
    {
        StagingHandle { buf: Vec::new(), addresser: ContentAddresser::new() }
    }

    /// Appends a chunk to the staging area and feeds the same bytes to the
    /// digest accumulator; the in-memory staging area never fails.
    pub fn write_chunk(&mut self, chunk: &Vec<u8>) -> (r: Result<(), IoError>)
        requires
            old(self).wf(),
        ensures
            r is Ok,
            final(self).wf(),
            final(self).staged() == old(self).staged() + chunk@,
    {
        let mut i: usize = 0;
        while i < chunk.len()
            invariant
                0 <= i <= chunk@.len(),
                self.buf@ == old(self).buf@ + chunk@.take(i as int),
                self.addresser == old(self).addresser,
            decreases chunk@.len() - i,
        {
            self.buf.push(chunk[i]);
            proof {
                assert((old(self).buf@ + chunk@.take(i as int)).push(chunk@[i as int]) =~= old(
                    self,
                ).buf@ + chunk@.take(i + 1 as int));
            }
            i += 1;
        }
        proof {
            assert(old(self).buf@ + chunk@.take(chunk@.len() as int) =~= old(self).buf@ + chunk@);
        }
        let fed = self.addresser.update(chunk);
        proof {
            assert(fed is Ok);
        }
        Ok(())
    }

    /// Atomically promotes the staged bytes into the store under their
    /// digest. If an object with that digest is already committed, the
    /// staged bytes are discarded and the committed object stands.
    pub fn commit(self, store: &mut ObjectStore) -> (r: Result<u64, CommitError>)
        requires
            self.wf(),
            old(store).wf(),
        ensures
            r == Ok::<u64, CommitError>(digest_of(self.staged())),
            final(store).wf(),
            final(store).contains_digest(digest_of(self.staged())),
            old(store).contains_digest(digest_of(self.staged())) ==> {
                &&& final(store).content_of(digest_of(self.staged()))
                    == old(store).content_of(digest_of(self.staged()))
                &&& final(store).refs_of(digest_of(self.staged()))
                    == old(store).refs_of(digest_of(self.staged()))
                &&& final(store).object_count() == old(store).object_count()
            },
            !old(store).contains_digest(digest_of(self.staged())) ==> {
                &&& final(store).content_of(digest_of(self.staged())) == self.staged()
                &&& final(store).refs_of(digest_of(self.staged())) == 0
                &&& final(store).object_count() == old(store).object_count() + 1
            },
            forall|d2: u64|
                d2 != digest_of(self.staged()) ==> final(store).contains_digest(d2)
                    == old(store).contains_digest(d2),
            forall|d2: u64|
                d2 != digest_of(self.staged()) && old(store).contains_digest(d2) ==> {
                    &&& final(store).content_of(d2) == old(store).content_of(d2)
                    &&& final(store).refs_of(d2) == old(store).refs_of(d2)
                },
    {
        let StagingHandle { buf, mut addresser } = self;
        let digest = match addresser.finalize() {
            Ok(d) => d,
            Err(_) => {
                return Err(CommitError);
            },
        };
        let stored = store.put(digest, buf);
        proof {
            assert(stored is Ok);
        }
        Ok(digest)
    }

    /// Discards the staging area unconditionally; nothing the upload wrote
    /// ever becomes visible.
    pub fn abort(self) {
        let StagingHandle { buf: _, addresser: _ } = self;
    }
}

} // verus!
