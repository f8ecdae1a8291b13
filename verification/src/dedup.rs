//! The reusable insertion-order-preserving deduplicating set.
//!
//! Owned by one driver run and cleared, not reallocated, between rows; when
//! one side is the broadcast side its set is filled once and reused across
//! every row.

use vstd::prelude::*;
use crate::elem::{Elem, ElemV};
use crate::model::{elem_views, extend_unique, no_dups, push_unique, row_elems};

verus! {

/// A set of element values that remembers insertion order and holds each
/// value at most once.
pub struct DedupSet {
    items: Vec<Elem>,
}

impl View for DedupSet {
    type V = Seq<ElemV>;

    closed spec fn view(&self) -> Seq<ElemV> {
        elem_views(self.items@)
    }
}

impl DedupSet {
    /// The set holds no value twice.
    pub open spec fn wf(&self) -> bool {
        no_dups(self@)
    }

    /// An empty set.
    pub fn new() -> (r: DedupSet)
        ensures
            r@ == Seq::<ElemV>::empty(),
            r.wf(),
    {
        let r = DedupSet { items: Vec::new() };
        proof {
            assert(r@ =~= Seq::<ElemV>::empty());
        }
        r
    }

    /// Empties the set, keeping its allocation.
    pub fn clear(&mut self)
        ensures
            final(self)@ == Seq::<ElemV>::empty(),
            final(self).wf(),
    {
        self.items.clear();
        proof {
            assert(self@ =~= Seq::<ElemV>::empty());
        }
    }

    /// How many distinct values the set holds.
    pub fn len(&self) -> (r: usize)
        ensures
            r == self@.len(),
    {
        self.items.len()
    }

    /// The value at insertion position `i`.
    pub fn get(&self, i: usize) -> (r: &Elem)
        requires
            i < self@.len(),
        ensures
            r@ == self@[i as int],
    {
        &self.items[i]
    }

    /// Whether the set holds the value of `e`.
    pub fn contains(&self, e: &Elem) -> (r: bool)
        ensures
            r == self@.contains(e@),
    {
        let mut j: usize = 0;
        while j < self.items.len()
            invariant
                j <= self.items@.len(),
                forall|k: int| 0 <= k < j ==> self@[k] != e@,
            decreases self.items@.len() - j,
        {
            if self.items[j].eq_elem(e) {
                proof {
                    assert(self@[j as int] == e@);
                }
                return true;
            }
            j += 1;
        }
        false
    }

    /// Adds the value of `e` unless it is already present.
    pub fn insert(&mut self, e: &Elem)
        requires
            old(self).wf(),
        ensures
            final(self)@ == push_unique(old(self)@, e@),
            final(self).wf(),
    {
        if !self.contains(e) {
            let ghost before = self@;
            self.items.push(e.dup());
            proof {
                assert(self@ =~= before.push(e@));
                assert forall|i: int, j: int|
                    0 <= i < j < self@.len() implies self@[i] != self@[j] by {
                    if j < before.len() {
                    } else {
                        if before[i] == e@ {
                            assert(before.contains(e@));
                        }
                    }
                }
            }
        }
    }

    /// Adds each element of `values[start..end]` in order.
    pub fn extend_range(&mut self, values: &Vec<Elem>, start: usize, end: usize)
        requires
            old(self).wf(),
            start <= end <= values@.len(),
        ensures
            final(self)@ == extend_unique(
                old(self)@,
                row_elems(values@, start as int, end as int),
            ),
            final(self).wf(),
    {
        let ghost s0 = self@;
        let mut k: usize = start;
        proof {
            assert(row_elems(values@, start as int, start as int) =~= Seq::<ElemV>::empty());
        }
        while k < end
            invariant
                start <= k <= end <= values@.len(),
                self.wf(),
                self@ == extend_unique(s0, row_elems(values@, start as int, k as int)),
            decreases end - k,
        {
            self.insert(&values[k]);
            proof {
                let r1 = row_elems(values@, start as int, k + 1 as int);
                let r0 = row_elems(values@, start as int, k as int);
                assert(r1.drop_last() =~= r0);
                assert(r1.last() == values@[k as int]@);
            }
            k += 1;
        }
    }
}

} // verus!
