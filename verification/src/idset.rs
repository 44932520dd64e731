//! An ordered set of 64-bit ids: a duplicate-free vector that keeps insertion
//! order. Member sets, admin sets, channel lists and the per-user membership
//! indices are all of this shape, and every mutation has set semantics
//! (inserting a present id and removing an absent id are no-ops), which is
//! what makes each cascade step idempotent and individually retryable.

use vstd::prelude::*;

verus! {

/// A duplicate-free, insertion-ordered set of ids.
#[derive(Debug)]
pub struct IdSet {
    ids: Vec<i64>,
}

impl View for IdSet {
    type V = Seq<i64>;

    closed spec fn view(&self) -> Seq<i64> {
        self.ids@
    }
}

impl IdSet {
    /// The set holds no duplicate id.
    pub open spec fn inv(&self) -> bool {
        self@.no_duplicates()
    }

    /// The empty set.
    pub fn new() -> (r: IdSet)
        ensures
            r@ == Seq::<i64>::empty(),
            r.inv(),
    {
        IdSet { ids: Vec::new() }
    }

    /// How many ids the set holds.
    pub fn len(&self) -> (r: usize)
        ensures
            r == self@.len(),
    {
        self.ids.len()
    }

    /// The id at position `i` (insertion order).
    pub fn get(&self, i: usize) -> (r: i64)
        requires
            i < self@.len(),
        ensures
            r == self@[i as int],
    {
        self.ids[i]
    }

    /// Whether `x` is in the set.
    pub fn contains(&self, x: i64) -> (r: bool)
        ensures
            r == self@.contains(x),
    {
        for i in 0..self.ids.len()
            invariant
                forall|j: int| 0 <= j < i ==> self@[j] != x,
        {
            if self.ids[i] == x {
                return true;
            }
        }
        false
    }

    /// A copy of the set.
    pub fn duplicate(&self) -> (r: IdSet)
        ensures
            r@ == self@,
            r.inv() == self.inv(),
    {
        let mut v: Vec<i64> = Vec::new();
        for i in 0..self.ids.len()
            invariant
                v@ =~= self@.take(i as int),
        {
            v.push(self.ids[i]);
            assert(v@ =~= self@.take(i as int + 1));
        }
        assert(v@ =~= self@);
        IdSet { ids: v }
    }

    /// The ids as a vector, in insertion order.
    pub fn to_vec(&self) -> (r: Vec<i64>)
        ensures
            r@ == self@,
    {
        let s = self.duplicate();
        s.ids
    }

    /// Adds `x`; a no-op if it is already present.
    pub fn insert(&mut self, x: i64)
        requires
            old(self).inv(),
        ensures
            final(self).inv(),
            final(self)@ == if old(self)@.contains(x) {
                old(self)@
            } else {
                old(self)@.push(x)
            },
            final(self)@.contains(x),
            forall|y: i64| final(self)@.contains(y) == (old(self)@.contains(y) || y == x),
    {
        if !self.contains(x) {
            self.ids.push(x);
            assert(self@.drop_last() == old(self)@);
            assert(self@.last() == x);
            assert(forall|y: i64| old(self)@.contains(y) ==> self@.contains(y)) by {
                assert(forall|j: int|
                    0 <= j < old(self)@.len() ==> self@[j] == old(self)@[j]);
            }
        }
    }

    /// Removes `x`; a no-op if it is absent. Keeps the order of the rest.
    pub fn remove(&mut self, x: i64)
        requires
            old(self).inv(),
        ensures
            final(self).inv(),
            !final(self)@.contains(x),
            forall|y: i64|
                y != x ==> final(self)@.contains(y) == old(self)@.contains(y),
            old(self)@.contains(x) ==> final(self)@.len() == old(self)@.len() - 1,
            !old(self)@.contains(x) ==> final(self)@ == old(self)@,
    {
        let n = self.ids.len();
        for i in 0..n
            invariant
                n == self@.len(),
                self@ == old(self)@,
                old(self)@.no_duplicates(),
                forall|j: int| 0 <= j < i ==> self@[j] != x,
        {
            if self.ids[i] == x {
                self.ids.remove(i);
                proof {
                    let s = old(self)@;
                    s.remove_ensures(i as int);
                    assert(!self@.contains(x)) by {
                        assert forall|j: int| 0 <= j < self@.len() implies self@[j] != x by {
                            if j < i {
                                assert(self@[j] == s[j]);
                            } else {
                                assert(self@[j] == s[j + 1]);
                                assert(s[i as int] == x);
                                assert(s.no_duplicates());
                            }
                        }
                    }
                    assert forall|y: i64| y != x implies self@.contains(y) == s.contains(
                        y,
                    ) by {
                        if self@.contains(y) {
                            let j = choose|j: int| 0 <= j < self@.len() && self@[j] == y;
                            if j < i {
                                assert(s[j] == y);
                            } else {
                                assert(s[j + 1] == y);
                            }
                        }
                        if s.contains(y) {
                            let j = choose|j: int| 0 <= j < s.len() && s[j] == y;
                            if j < i {
                                assert(self@[j] == y);
                            } else if j > i {
                                assert(self@[j - 1] == y);
                            }
                        }
                    }
                    assert(self@.no_duplicates()) by {
                        assert forall|j1: int, j2: int|
                            0 <= j1 < j2 < self@.len() implies self@[j1] != self@[j2] by {
                            let a1 = if j1 < i { j1 } else { j1 + 1 };
                            let a2 = if j2 < i { j2 } else { j2 + 1 };
                            assert(self@[j1] == s[a1]);
                            assert(self@[j2] == s[a2]);
                            assert(a1 < a2);
                            assert(s[a1] != s[a2]);
                        }
                    }
                }
                return ;
            }
        }
    }
}

} // verus!
