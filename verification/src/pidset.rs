//! A small finite set of process (or process-group) identifiers, kept as a
//! duplicate-free vector. Its mathematical view is a `Set<i32>`.

use vstd::prelude::*;

verus! {

pub struct PidSet {
    items: Vec<i32>,
}

impl View for PidSet {
    type V = Set<i32>;

    closed spec fn view(&self) -> Set<i32> {
        self.items@.to_set()
    }
}

impl PidSet {
    /// Well-formedness: the backing vector holds no duplicates. Constructors
    /// establish it and every mutating method preserves it.
    pub closed spec fn wf(&self) -> bool {
        self.items@.no_duplicates()
    }

    /// The members in their insertion order, duplicate-free.
    pub closed spec fn seq(&self) -> Seq<i32> {
        self.items@
    }

    /// The representation is a duplicate-free sequence of exactly the members.
    pub proof fn seq_props(&self)
        requires
            self.wf(),
        ensures
            self.seq().no_duplicates(),
            self.seq().to_set() == self@,
            self.seq().len() == self@.len(),
            self@.finite(),
    {
        self.seq().unique_seq_to_set();
        broadcast use vstd::seq_lib::seq_to_set_is_finite;

    }

    pub fn new() -> (r: Self)
        ensures
            r.wf(),
            r@ == Set::<i32>::empty(),
            r.seq() == Seq::<i32>::empty(),
    {
        let r = PidSet { items: Vec::new() };
        proof {
            assert(r.items@.to_set() =~= Set::<i32>::empty());
        }
        r
    }

    pub fn singleton(value: i32) -> (r: Self)
        ensures
            r.wf(),
            r@ == Set::<i32>::empty().insert(value),
    {
        let mut s = Self::new();
        s.insert(value);
        s
    }

    pub fn len(&self) -> (n: usize)
        requires
            self.wf(),
        ensures
            n == self@.len(),
    {
        proof {
            self.seq_props();
        }
        self.items.len()
    }

    pub fn is_empty(&self) -> (r: bool)
        requires
            self.wf(),
        ensures
            r == (self@.len() == 0),
    {
        self.len() == 0
    }

    pub fn contains(&self, value: i32) -> (r: bool)
        ensures
            r == self@.contains(value),
    {
        let n = self.items.len();
        let mut i: usize = 0;
        while i < n
            invariant
                n == self.items@.len(),
                0 <= i <= n,
                forall|k: int| 0 <= k < i ==> self.items@[k] != value,
            decreases n - i,
        {
            if self.items[i] == value {
                proof {
                    assert(self.items@.contains(value));
                }
                return true;
            }
            i += 1;
        }
        proof {
            assert(!self.items@.contains(value));
        }
        false
    }

    /// Member access by position, for loops that walk the set.
    pub fn get(&self, i: usize) -> (r: i32)
        requires
            self.wf(),
            i < self.seq().len(),
        ensures
            r == self.seq()[i as int],
            self@.contains(r),
    {
        proof {
            self.seq_props();
            assert(self.seq().contains(self.seq()[i as int]));
        }
        self.items[i]
    }

    pub fn insert(&mut self, value: i32)
        requires
            old(self).wf(),
        ensures
            final(self).wf(),
            final(self)@ == old(self)@.insert(value),
            old(self)@.contains(value) ==> final(self).seq() == old(self).seq(),
            !old(self)@.contains(value) ==> final(self).seq() == old(self).seq().push(value),
    {
        if !self.contains(value) {
            self.items.push(value);
            proof {
                assert(self.items@ == old(self).items@.push(value));
                old(self).items@.lemma_push_to_set_commute(value);
                assert(self.items@.to_set() =~= old(self).items@.to_set().insert(value));
            }
        } else {
            proof {
                assert(self.items@.to_set() =~= old(self).items@.to_set().insert(value));
            }
        }
    }

    /// Adds every member of `other`.
    pub fn extend(&mut self, other: &PidSet)
        requires
            old(self).wf(),
            other.wf(),
        ensures
            final(self).wf(),
            final(self)@ == old(self)@.union(other@),
    {
        proof {
            other.seq_props();
        }
        let n = other.items.len();
        let mut i: usize = 0;
        while i < n
            invariant
                self.wf(),
                other.wf(),
                n == other.seq().len(),
                0 <= i <= n,
                other.seq().to_set() == other@,
                self@ == old(self)@.union(other.seq().subrange(0, i as int).to_set()),
            decreases n - i,
        {
            let v = other.get(i);
            self.insert(v);
            proof {
                assert(other.seq().subrange(0, i + 1 as int)
                    == other.seq().subrange(0, i as int).push(v));
                other.seq().subrange(0, i as int).lemma_push_to_set_commute(v);
                assert(other.seq().subrange(0, i + 1 as int).to_set()
                    =~= other.seq().subrange(0, i as int).to_set().insert(v));
                assert(self@ =~= old(self)@.union(
                    other.seq().subrange(0, i + 1 as int).to_set(),
                ));
            }
            i += 1;
        }
        proof {
            assert(other.seq().subrange(0, n as int) == other.seq());
            assert(self@ =~= old(self)@.union(other@));
        }
    }

    /// The members as a plain vector, duplicate-free.
    pub fn to_vec(&self) -> (r: Vec<i32>)
        requires
            self.wf(),
        ensures
            r@ == self.seq(),
            r@.to_set() == self@,
            r@.no_duplicates(),
    {
        proof {
            self.seq_props();
        }
        let n = self.items.len();
        let mut out: Vec<i32> = Vec::new();
        let mut i: usize = 0;
        while i < n
            invariant
                n == self.items@.len(),
                0 <= i <= n,
                out@ == self.items@.subrange(0, i as int),
            decreases n - i,
        {
            out.push(self.items[i]);
            proof {
                assert(out@ =~= self.items@.subrange(0, i + 1 as int));
            }
            i += 1;
        }
        proof {
            assert(out@ == self.items@.subrange(0, n as int));
            assert(self.items@.subrange(0, n as int) == self.items@);
        }
        out
    }
}

} // verus!
