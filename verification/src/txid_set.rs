use vstd::prelude::*;
use crate::types::{lemma_txid_view_injective, Txid};

verus! {

/// Pushing an element onto a sequence adds it to the sequence's set.
pub proof fn lemma_push_to_set<A>(s: Seq<A>, x: A)
    ensures
        s.push(x).to_set() == s.to_set().insert(x),
{
    s.lemma_push_to_set_commute(x);
}

/// A finite set of transaction ids, kept as a list without repetitions.
#[derive(Debug)]
pub struct TxidSet {
    items: Vec<Txid>,
}

impl View for TxidSet {
    type V = Set<Txid>;

    closed spec fn view(&self) -> Set<Txid> {
        self.items@.to_set()
    }
}

impl TxidSet {
    #[verifier::type_invariant]
    closed spec fn inv(self) -> bool {
        self.items@.no_duplicates()
    }

    /// The empty set.
    pub fn new() -> (s: TxidSet)
        ensures
            s@ == Set::<Txid>::empty(),
    {
        let s = TxidSet { items: Vec::new() };
        assert(s.items@.to_set() =~= Set::<Txid>::empty());
        s
    }

    /// The set is finite.
    pub proof fn lemma_finite(&self)
        ensures
            self@.finite(),
    {
        vstd::seq_lib::seq_to_set_is_finite(self.items@);
    }

    /// The number of ids in the set.
    pub fn len(&self) -> (n: usize)
        ensures
            n == self@.len(),
    {
        proof {
            use_type_invariant(self);
            self.items@.unique_seq_to_set();
        }
        self.items.len()
    }

    /// Whether the set holds no id.
    pub fn is_empty(&self) -> (b: bool)
        ensures
            b == (self@ == Set::<Txid>::empty()),
    {
        proof {
            use_type_invariant(self);
            self.items@.unique_seq_to_set();
            if self.items@.len() > 0 {
                assert(self@.contains(self.items@[0]));
            }
        }
        let b = self.items.len() == 0;
        if b {
            assert(self@ =~= Set::<Txid>::empty());
        }
        b
    }

    /// Whether `txid` is in the set.
    pub fn contains(&self, txid: &Txid) -> (b: bool)
        ensures
            b == self@.contains(*txid),
    {
        let mut i: usize = 0;
        while i < self.items.len()
            invariant
                i <= self.items@.len(),
                forall|j: int| 0 <= j < i ==> self.items@[j] != *txid,
            decreases self.items@.len() - i,
        {
            if self.items[i].same(txid) {
                assert(self.items@.contains(*txid));
                return true;
            }
            i = i + 1;
        }
        assert(!self.items@.contains(*txid));
        false
    }

    /// Adds `txid` to the set.
    pub fn insert(&mut self, txid: Txid)
        ensures
            final(self)@ == old(self)@.insert(txid),
    {
        proof {
            use_type_invariant(&*self);
        }
        if !self.contains(&txid) {
            let ghost old_items = self.items@;
            let mut items = Vec::new();
            std::mem::swap(&mut items, &mut self.items);
            items.push(txid);
            proof {
                assert(items@ == old_items.push(txid));
                lemma_push_to_set(old_items, txid);
                assert forall|a: int, b: int| 0 <= a < b < items@.len() implies items@[a]
                    != items@[b] by {
                    if b == items@.len() - 1 {
                        assert(old_items.contains(items@[a]));
                    }
                }
                assert(items@.to_set() =~= old_items.to_set().insert(txid));
            }
            self.items = items;
        } else {
            assert(self@.insert(txid) =~= self@);
        }
    }

    /// Removes `txid` from the set.
    pub fn remove(&mut self, txid: &Txid)
        ensures
            final(self)@ == old(self)@.remove(*txid),
    {
        proof {
            use_type_invariant(&*self);
        }
        let ghost old_items = self.items@;
        let mut kept: Vec<Txid> = Vec::new();
        let mut i: usize = 0;
        while i < self.items.len()
            invariant
                old_items == self.items@,
                old_items.no_duplicates(),
                i <= old_items.len(),
                kept@.no_duplicates(),
                kept@.to_set() == old_items.subrange(0, i as int).to_set().remove(*txid),
                forall|k: Txid| kept@.contains(k) ==> old_items.subrange(0, i as int).contains(k),
            decreases old_items.len() - i,
        {
            let t = self.items[i];
            proof {
                assert(old_items.subrange(0, i + 1) =~= old_items.subrange(0, i as int).push(t));
                lemma_push_to_set(old_items.subrange(0, i as int), t);
            }
            if !t.same(txid) {
                proof {
                    assert(!old_items.subrange(0, i as int).contains(t)) by {
                        if old_items.subrange(0, i as int).contains(t) {
                            let j = choose|j: int|
                                0 <= j < i && old_items.subrange(0, i as int)[j] == t;
                            assert(old_items[j] == old_items[i as int]);
                        }
                    }
                }
                let ghost before = kept@;
                kept.push(t);
                proof {
                    lemma_push_to_set(before, t);
                    assert forall|a: int, b: int| 0 <= a < b < kept@.len() implies kept@[a]
                        != kept@[b] by {
                        if b == kept@.len() - 1 {
                            assert(before.contains(kept@[a]));
                        }
                    }
                    assert(kept@.to_set() =~= old_items.subrange(0, i + 1).to_set().remove(
                        *txid,
                    ));
                    assert forall|k: Txid| kept@.contains(k) implies old_items.subrange(
                        0,
                        i + 1,
                    ).contains(k) by {
                        if k != t {
                            assert(before.contains(k));
                            assert(old_items.subrange(0, i as int).contains(k));
                            let j = choose|j: int|
                                0 <= j < i && old_items.subrange(0, i as int)[j] == k;
                            assert(old_items.subrange(0, i + 1)[j] == k);
                        } else {
                            assert(old_items.subrange(0, i + 1)[i as int] == k);
                        }
                    }
                }
            } else {
                assert(kept@.to_set() =~= old_items.subrange(0, i + 1).to_set().remove(*txid));
                assert forall|k: Txid| kept@.contains(k) implies old_items.subrange(
                    0,
                    i + 1,
                ).contains(k) by {
                    let j = choose|j: int| 0 <= j < i && old_items.subrange(0, i as int)[j] == k;
                    assert(old_items.subrange(0, i + 1)[j] == k);
                }
            }
            i = i + 1;
        }
        assert(old_items.subrange(0, old_items.len() as int) =~= old_items);
        self.items = kept;
    }

    /// The ids of the set, each once.
    pub fn to_vec(&self) -> (v: Vec<Txid>)
        ensures
            v@.to_set() == self@,
            v@.no_duplicates(),
    {
        proof {
            use_type_invariant(self);
        }
        let mut v: Vec<Txid> = Vec::new();
        let mut i: usize = 0;
        while i < self.items.len()
            invariant
                i <= self.items@.len(),
                v@ == self.items@.subrange(0, i as int),
            decreases self.items@.len() - i,
        {
            v.push(self.items[i]);
            i = i + 1;
            assert(v@ =~= self.items@.subrange(0, i as int));
        }
        assert(self.items@.subrange(0, self.items@.len() as int) =~= self.items@);
        v
    }

    /// A fresh set with the same ids.
    pub fn copy(&self) -> (s: TxidSet)
        ensures
            s@ == self@,
    {
        let v = self.to_vec();
        TxidSet::from_vec(&v)
    }

    /// The set of the ids in `v`.
    pub fn from_vec(v: &Vec<Txid>) -> (s: TxidSet)
        ensures
            s@ == v@.to_set(),
    {
        let mut s = TxidSet::new();
        let mut i: usize = 0;
        while i < v.len()
            invariant
                i <= v@.len(),
                s@ == v@.subrange(0, i as int).to_set(),
            decreases v@.len() - i,
        {
            s.insert(v[i]);
            proof {
                assert(v@.subrange(0, i + 1) =~= v@.subrange(0, i as int).push(v@[i as int]));
                lemma_push_to_set(v@.subrange(0, i as int), v@[i as int]);
            }
            i = i + 1;
        }
        assert(v@.subrange(0, v@.len() as int) =~= v@);
        s
    }

    /// The ids in this set that satisfy a membership test against `other`: those also in
    /// `other` when `keep_common`, those not in `other` otherwise.
    fn filter_by(&self, other: &TxidSet, keep_common: bool) -> (s: TxidSet)
        ensures
            keep_common ==> s@ == self@.intersect(other@),
            !keep_common ==> s@ == self@.difference(other@),
    {
        proof {
            use_type_invariant(self);
        }
        let mut s = TxidSet::new();
        let mut i: usize = 0;
        while i < self.items.len()
            invariant
                i <= self.items@.len(),
                keep_common ==> s@ == self.items@.subrange(0, i as int).to_set().intersect(other@),
                !keep_common ==> s@ == self.items@.subrange(0, i as int).to_set().difference(
                    other@,
                ),
            decreases self.items@.len() - i,
        {
            let t = self.items[i];
            let inside = other.contains(&t);
            if inside == keep_common {
                s.insert(t);
            }
            proof {
                assert(self.items@.subrange(0, i + 1) =~= self.items@.subrange(0, i as int).push(
                    t,
                ));
                lemma_push_to_set(self.items@.subrange(0, i as int), t);
                if keep_common {
                    assert(s@ =~= self.items@.subrange(0, i + 1).to_set().intersect(other@));
                } else {
                    assert(s@ =~= self.items@.subrange(0, i + 1).to_set().difference(other@));
                }
            }
            i = i + 1;
        }
        assert(self.items@.subrange(0, self.items@.len() as int) =~= self.items@);
        s
    }

    /// The ids in both sets.
    pub fn intersection(&self, other: &TxidSet) -> (s: TxidSet)
        ensures
            s@ == self@.intersect(other@),
    {
        self.filter_by(other, true)
    }

    /// The ids in this set and not in `other`.
    pub fn difference(&self, other: &TxidSet) -> (s: TxidSet)
        ensures
            s@ == self@.difference(other@),
    {
        self.filter_by(other, false)
    }

    /// The ids in either set.
    pub fn union(&self, other: &TxidSet) -> (s: TxidSet)
        ensures
            s@ == self@.union(other@),
    {
        proof {
            use_type_invariant(other);
        }
        let mut s = self.copy();
        let mut i: usize = 0;
        while i < other.items.len()
            invariant
                i <= other.items@.len(),
                s@ == self@.union(other.items@.subrange(0, i as int).to_set()),
            decreases other.items@.len() - i,
        {
            s.insert(other.items[i]);
            proof {
                assert(other.items@.subrange(0, i + 1) =~= other.items@.subrange(0, i as int).push(
                    other.items@[i as int],
                ));
                lemma_push_to_set(other.items@.subrange(0, i as int), other.items@[i as int]);
                assert(s@ =~= self@.union(other.items@.subrange(0, i + 1).to_set()));
            }
            i = i + 1;
        }
        assert(other.items@.subrange(0, other.items@.len() as int) =~= other.items@);
        s
    }
}

impl Clone for TxidSet {
    fn clone(&self) -> (s: TxidSet)
        ensures
            s@ == self@,
    {
        self.copy()
    }
}

} // verus!
