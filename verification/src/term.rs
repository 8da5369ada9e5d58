//! Console terminals: the output cache, prompt detection, scripted and
//! interactive sessions.

pub mod buffer;
pub mod common;
pub mod script;
pub mod ssh;
pub mod tty;

use vstd::prelude::*;
use crate::term::buffer::{ChunkBuffer, update_chunkbuf, spec_update};

verus! {

/// A rotating byte cache, that hands out references to a sequenced view of
/// the buffer; these references are invalidated once the buffer is updated.
pub struct KeyedCache {
    cache: ChunkBuffer,
    seq: usize,
}

impl KeyedCache {
    pub closed spec fn contents(&self) -> Seq<u8> {
        self.cache.contents()
    }

    pub closed spec fn cap(&self) -> nat {
        self.cache.cap()
    }

    /// The number of updates so far.
    pub closed spec fn sequence(&self) -> nat {
        self.seq as nat
    }

    pub closed spec fn wf(&self) -> bool {
        self.cache.wf()
    }

    pub fn with_capacity(capacity: usize) -> (r: KeyedCache)
        ensures
            r.wf(),
            r.contents() == Seq::<u8>::empty(),
            r.cap() == capacity,
            r.sequence() == 0,
    {
        KeyedCache { cache: ChunkBuffer::with_capacity(capacity), seq: 0 }
    }

    /// Adds a chunk to the cache, and returns a reference to the new contents.
    pub fn try_update(&mut self, chunk: &[u8]) -> (r: KeyedCacheRef)
        requires
            old(self).wf(),
            old(self).sequence() < usize::MAX,
        ensures
            final(self).wf(),
            (final(self).contents(), final(self).cap()) == spec_update(
                old(self).contents(),
                old(self).cap(),
                chunk@,
            ),
            final(self).sequence() == old(self).sequence() + 1,
            r.key() == final(self).sequence(),
    {
        update_chunkbuf(&mut self.cache, chunk);
        self.seq = self.seq + 1;
        KeyedCacheRef { seq: self.seq }
    }
}

#[derive(Debug, Clone, Copy, PartialEq, Eq)]
pub enum KeyedCacheError {
    /// The cache was being updated.
    AlreadyBorrowed,
    /// The reference is outdated: the cache has been updated since.
    BadSequence { expected: usize, current: usize },
}

/// A reference to the contents of a `KeyedCache` after one of its updates.
#[derive(Debug, Clone, Copy)]
pub struct KeyedCacheRef {
    seq: usize,
}

impl KeyedCacheRef {
    pub closed spec fn key(&self) -> nat {
        self.seq as nat
    }

    /// Whether the cache has not been updated since this reference was taken.
    pub open spec fn readable(&self, cache: &KeyedCache) -> bool {
        self.key() == cache.sequence()
    }

    /// The contents of the cache, if it has not been updated since this
    /// reference was taken.
    pub fn try_borrow<'a>(&self, cache: &'a KeyedCache) -> (r: Result<&'a [u8], KeyedCacheError>)
        ensures
            self.readable(cache) ==> (r matches Ok(s) && s@ == cache.contents()),
            !self.readable(cache) ==> r == Err::<&[u8], KeyedCacheError>(
                KeyedCacheError::BadSequence { expected: self.key() as usize, current: cache.sequence() as usize },
            ),
    {
        if cache.seq != self.seq {
            return Err(KeyedCacheError::BadSequence { expected: self.seq, current: cache.seq });
        }
        Ok(cache.cache.as_slice())
    }
}

/// What a reference reads is what the update that gave it wrote, until the
/// next update, after which it reads nothing.
pub proof fn law_cache_read_after_update(before: KeyedCache, after: KeyedCache, r: KeyedCacheRef, later: KeyedCache)
    requires
        after.sequence() == before.sequence() + 1,
        r.key() == after.sequence(),
        later.sequence() == after.sequence() + 1,
    ensures
        r.readable(&after),
        !r.readable(&later),
{
}

} // verus!
