//! Process-wide unique id generation.
//!
//! Ids are 64-bit, strictly increasing and roughly time-ordered: the caller
//! hands in a millisecond clock reading, and the id carries that timestamp in
//! its upper bits with a sequence number below (a timestamp-reseeded counter,
//! so no global lock is required beyond exclusive access to the generator).

use vstd::prelude::*;

verus! {

/// Number of ids available per millisecond tick: ids are laid out as
/// `timestamp * ID_SEQ_SPAN + sequence`.
pub const ID_SEQ_SPAN: u64 = 4194304;

/// Millisecond clock readings must stay below this bound (41 bits) so that an
/// id always fits in an `i64`.
pub const ID_TS_LIMIT: u64 = 0x200_0000_0000;

/// Generator of process-wide unique, strictly increasing 64-bit ids.
pub struct IdGenerator {
    last: i64,
}

impl IdGenerator {
    /// The most recently issued id (zero before the first call).
    pub closed spec fn last_id(&self) -> i64 {
        self.last
    }

    /// A fresh generator whose ids will all be positive.
    pub fn new() -> (r: IdGenerator)
        ensures
            r.last_id() == 0,
    {
        IdGenerator { last: 0 }
    }

    /// Exposes the most recently issued id.
    pub fn last(&self) -> (r: i64)
        ensures
            r == self.last_id(),
    {
        self.last
    }

    /// Issue the next id: strictly greater than every id issued before, and
    /// at least `now_ms * ID_SEQ_SPAN`, so ids are roughly ordered by the
    /// clock readings handed in. Never returns a duplicate for the lifetime
    /// of the generator.
    pub fn next_id(&mut self, now_ms: u64) -> (r: i64)
        requires
            now_ms < ID_TS_LIMIT,
            old(self).last_id() < i64::MAX,
        ensures
            r == final(self).last_id(),
            r > old(self).last_id(),
            r >= now_ms as int * ID_SEQ_SPAN as int,
            old(self).last_id() < i64::MAX - 1 ==> r < i64::MAX,
    {
        let candidate_u: u64 = now_ms * ID_SEQ_SPAN;
        let candidate: i64 = candidate_u as i64;
        let id: i64 = if candidate > self.last {
            candidate
        } else {
            self.last + 1
        };
        self.last = id;
        id
    }
}

/// Uniqueness law for id generation: a run of ids in which each id is
/// strictly greater than the one before it (as `next_id` guarantees of every
/// run drawn from one generator) contains no duplicate, so the set of ids
/// returned across all callers has exactly one element per call.
pub proof fn lemma_increasing_ids_unique(ids: Seq<i64>)
    requires
        forall|i: int, j: int| 0 <= i < j < ids.len() ==> ids[i] < ids[j],
    ensures
        forall|i: int, j: int|
            0 <= i < ids.len() && 0 <= j < ids.len() && i != j ==> ids[i] != ids[j],
        ids.to_set().len() == ids.len(),
{
    assert(ids.no_duplicates());
    ids.unique_seq_to_set();
}

} // verus!
