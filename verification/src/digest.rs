use vstd::prelude::*;

use crate::errors::ClosedAccumulator;

verus! {

/// The accumulator state before any byte has been seen.
pub open spec fn digest_seed() -> u64 {
    0xcbf29ce484222325u64
}

/// One step of the digest: fold the next byte into the running state by an
/// xor followed by a multiplication, taken modulo 2^64.
pub open spec fn digest_step(h: u64, b: u8) -> u64 {
    ((((h ^ (b as u64)) as int) * 0x100000001b3) % 0x1_0000_0000_0000_0000) as u64
}

/// The digest of a byte sequence: the fold of `digest_step` over the bytes
/// in order, starting from `digest_seed`. Two objects are treated as the
/// same content exactly when their digests agree.
pub open spec fn digest_of(bytes: Seq<u8>) -> u64
    decreases bytes.len(),
{
    if bytes.len() == 0 {
        digest_seed()
    } else {
        digest_step(digest_of(bytes.drop_last()), bytes.last())
    }
}

/// Appending one byte advances the digest by exactly one step.
pub proof fn lemma_digest_push(s: Seq<u8>, b: u8)
    ensures
        digest_of(s.push(b)) == digest_step(digest_of(s), b),
{
    assert(s.push(b).drop_last() =~= s);
    assert(s.push(b).last() == b);
}

/// Computes one digest step on machine integers.
fn digest_step_exec(h: u64, b: u8) -> (r: u64)
    ensures
        r == digest_step(h, b),
{
    let x: u64 = h ^ (b as u64);
    let p: u128 = (x as u128) * 0x100000001b3u128;
    (p % 0x1_0000_0000_0000_0000u128) as u64
}

/// Incremental digest accumulator: feed chunks in arrival order, then
/// finalize once to obtain the digest of everything seen.
pub struct ContentAddresser {
    pub state: u64,
    pub closed: bool,
    pub seen: Ghost<Seq<u8>>,
}

impl ContentAddresser {
    /// The running state is always the digest of the bytes seen so far.
    pub open spec fn wf(&self) -> bool {
        self.state == digest_of(self.seen@)
    }

    /// The bytes consumed so far, in arrival order.
    pub open spec fn bytes_seen(&self) -> Seq<u8> {
        self.seen@
    }

    /// Whether `finalize` has already been called.
    pub open spec fn is_closed(&self) -> bool {
        self.closed
    }

    /// A fresh accumulator that has seen no bytes.
    pub fn new() -> (r: ContentAddresser)
        ensures
            r.wf(),
            !r.is_closed(),
            r.bytes_seen() == Seq::<u8>::empty(),
    {
        ContentAddresser { state: 0xcbf29ce484222325u64, closed: false, seen: Ghost(Seq::empty()) }
    }

    /// Consumes the next chunk, in order; fails without effect once the
    /// accumulator is finalized.
    pub fn update(&mut self, chunk: &Vec<u8>) -> (r: Result<(), ClosedAccumulator>)
        requires
            old(self).wf(),
        ensures
            final(self).wf(),
            old(self).is_closed() ==> r is Err && *final(self) == *old(self),
            !old(self).is_closed() ==> {
                &&& r is Ok
                &&& !final(self).is_closed()
                &&& final(self).bytes_seen() == old(self).bytes_seen() + chunk@
            },
    {
        if self.closed {
            return Err(ClosedAccumulator);
        }
        let ghost start = self.seen@;
        let mut i: usize = 0;
        while i < chunk.len()
            invariant
                0 <= i <= chunk@.len(),
                self.seen@ == start + chunk@.take(i as int),
                self.wf(),
                !self.closed,
            decreases chunk@.len() - i,
        {
            let b = chunk[i];
            proof {
                lemma_digest_push(self.seen@, chunk@[i as int]);
                assert((start + chunk@.take(i as int)).push(chunk@[i as int]) =~= start
                    + chunk@.take(i + 1 as int));
            }
            self.state = digest_step_exec(self.state, b);
            self.seen = Ghost(self.seen@.push(b));
            i += 1;
        }
        proof {
            assert(start + chunk@.take(chunk@.len() as int) =~= start + chunk@);
        }
        Ok(())
    }

    /// Closes the accumulator and yields the digest of all bytes seen; a
    /// second call fails without effect.
    pub fn finalize(&mut self) -> (r: Result<u64, ClosedAccumulator>)
        requires
            old(self).wf(),
        ensures
            final(self).wf(),
            final(self).is_closed(),
            final(self).bytes_seen() == old(self).bytes_seen(),
            old(self).is_closed() ==> r is Err && *final(self) == *old(self),
            !old(self).is_closed() ==> r == Ok::<u64, ClosedAccumulator>(
                digest_of(old(self).bytes_seen()),
            ),
    {
        if self.closed {
            return Err(ClosedAccumulator);
        }
        self.closed = true;
        Ok(self.state)
    }
}

} // verus!
