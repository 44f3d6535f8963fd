use vstd::prelude::*;
use crate::mempool_timing::{elapsed, TxTimes};
use crate::types::Txid;

verus! {

/// Holds back mempool additions and removals until they have been stable for a while, so that a
/// transaction that flickers in and out of the mempool is reported once.
pub struct MempoolDebouncer {
    removed_at: TxTimes,
    added_at: TxTimes,
    debounce_ms: u64,
}

/// The state of a debouncer: when each pending removal and addition was first seen, and the
/// debounce window.
pub struct MempoolDebouncerView {
    pub removed_at: Map<Txid, u64>,
    pub added_at: Map<Txid, u64>,
    pub debounce_ms: u64,
}

impl View for MempoolDebouncer {
    type V = MempoolDebouncerView;

    closed spec fn view(&self) -> MempoolDebouncerView {
        MempoolDebouncerView {
            removed_at: self.removed_at@,
            added_at: self.added_at@,
            debounce_ms: self.debounce_ms,
        }
    }
}

/// Whether a change first seen at `at` is ready to be reported at `now`.
pub open spec fn is_due(at: u64, now: u64, debounce_ms: u64, skip_debounce: bool) -> bool {
    skip_debounce || elapsed(at, now) >= debounce_ms
}

impl MempoolDebouncer {
    #[verifier::type_invariant]
    closed spec fn inv(self) -> bool {
        self.removed_at@.dom().disjoint(self.added_at@.dom())
    }

    /// A debouncer with nothing pending and the given window, in milliseconds.
    pub fn new(debounce_ms: u64) -> (d: MempoolDebouncer)
        ensures
            d@.removed_at == Map::<Txid, u64>::empty(),
            d@.added_at == Map::<Txid, u64>::empty(),
            d@.debounce_ms == debounce_ms,
            d@.removed_at.dom().disjoint(d@.added_at.dom()),
    {
        MempoolDebouncer { removed_at: TxTimes::new(), added_at: TxTimes::new(), debounce_ms }
    }

    /// Records that `txid` left the mempool at `now`. A pending addition of it is dropped; an
    /// earlier pending removal keeps its time.
    pub fn handle_removed(&mut self, txid: Txid, now: u64)
        ensures
            final(self)@.added_at == old(self)@.added_at.remove(txid),
            final(self)@.removed_at == if old(self)@.removed_at.contains_key(txid) {
                old(self)@.removed_at
            } else {
                old(self)@.removed_at.insert(txid, now)
            },
            final(self)@.debounce_ms == old(self)@.debounce_ms,
            final(self)@.removed_at.dom().disjoint(final(self)@.added_at.dom()),
    {
        proof {
            use_type_invariant(&*self);
        }
        let mut added = TxTimes::new();
        let mut removed = TxTimes::new();
        std::mem::swap(&mut added, &mut self.added_at);
        std::mem::swap(&mut removed, &mut self.removed_at);
        added.remove(&txid);
        if !removed.contains_key(&txid) {
            removed.insert(txid, now);
        }
        self.added_at = added;
        self.removed_at = removed;
        proof {
            use_type_invariant(&*self);
        }
    }

    /// Records that `txid` entered the mempool at `now`. A pending removal of it is dropped; an
    /// earlier pending addition keeps its time.
    pub fn handle_added(&mut self, txid: Txid, now: u64)
        ensures
            final(self)@.removed_at == old(self)@.removed_at.remove(txid),
            final(self)@.added_at == if old(self)@.added_at.contains_key(txid) {
                old(self)@.added_at
            } else {
                old(self)@.added_at.insert(txid, now)
            },
            final(self)@.debounce_ms == old(self)@.debounce_ms,
            final(self)@.removed_at.dom().disjoint(final(self)@.added_at.dom()),
    {
        proof {
            use_type_invariant(&*self);
        }
        let mut added = TxTimes::new();
        let mut removed = TxTimes::new();
        std::mem::swap(&mut added, &mut self.added_at);
        std::mem::swap(&mut removed, &mut self.removed_at);
        removed.remove(&txid);
        if !added.contains_key(&txid) {
            added.insert(txid, now);
        }
        self.added_at = added;
        self.removed_at = removed;
        proof {
            use_type_invariant(&*self);
        }
    }

    /// Forgets any pending change of `txid`: it has been indexed.
    pub fn handle_indexed(&mut self, txid: Txid)
        ensures
            final(self)@.removed_at == old(self)@.removed_at.remove(txid),
            final(self)@.added_at == old(self)@.added_at.remove(txid),
            final(self)@.debounce_ms == old(self)@.debounce_ms,
            final(self)@.removed_at.dom().disjoint(final(self)@.added_at.dom()),
    {
        proof {
            use_type_invariant(&*self);
        }
        let mut added = TxTimes::new();
        let mut removed = TxTimes::new();
        std::mem::swap(&mut added, &mut self.added_at);
        std::mem::swap(&mut removed, &mut self.removed_at);
        removed.remove(&txid);
        added.remove(&txid);
        self.added_at = added;
        self.removed_at = removed;
        proof {
            use_type_invariant(&*self);
        }
    }

    /// Returns the removals and the additions that are due at `now` (all of them when
    /// `skip_debounce`) and forgets them; the others stay pending with their times.
    pub fn get_tx_to_update(&mut self, skip_debounce: bool, now: u64) -> (r: (Vec<Txid>, Vec<Txid>))
        ensures
            forall|t: Txid| #[trigger]
                r.0@.contains(t) <==> old(self)@.removed_at.contains_key(t) && is_due(
                    old(self)@.removed_at[t],
                    now,
                    old(self)@.debounce_ms,
                    skip_debounce,
                ),
            forall|t: Txid| #[trigger]
                r.1@.contains(t) <==> old(self)@.added_at.contains_key(t) && is_due(
                    old(self)@.added_at[t],
                    now,
                    old(self)@.debounce_ms,
                    skip_debounce,
                ),
            r.0@.no_duplicates(),
            r.1@.no_duplicates(),
            forall|t: Txid| #[trigger]
                final(self)@.removed_at.contains_key(t) <==> old(self)@.removed_at.contains_key(t)
                    && !r.0@.contains(t),
            forall|t: Txid| #[trigger]
                final(self)@.added_at.contains_key(t) <==> old(self)@.added_at.contains_key(t)
                    && !r.1@.contains(t),
            forall|t: Txid| #[trigger]
                final(self)@.removed_at.contains_key(t) ==> final(self)@.removed_at[t] == old(
                    self,
                )@.removed_at[t],
            forall|t: Txid| #[trigger]
                final(self)@.added_at.contains_key(t) ==> final(self)@.added_at[t] == old(
                    self,
                )@.added_at[t],
            final(self)@.debounce_ms == old(self)@.debounce_ms,
            final(self)@.removed_at.dom().disjoint(final(self)@.added_at.dom()),
    {
        proof {
            use_type_invariant(&*self);
        }
        let min = if skip_debounce {
            0
        } else {
            self.debounce_ms
        };
        let mut added = TxTimes::new();
        let mut removed = TxTimes::new();
        std::mem::swap(&mut added, &mut self.added_at);
        std::mem::swap(&mut removed, &mut self.removed_at);
        let expired = removed.take_aged(now, min);
        let added_txids = added.take_aged(now, min);
        self.added_at = added;
        self.removed_at = removed;
        proof {
            use_type_invariant(&*self);
        }
        (expired, added_txids)
    }
}

/// Gives recently added transactions a grace period during which they are not removed, because
/// the node's mempool listing can lag behind the notifications of new transactions.
pub struct MempoolRemovalGrace {
    added_at: TxTimes,
    debounce_ms: u64,
}

impl MempoolRemovalGrace {
    /// When each protected transaction was marked as added.
    pub closed spec fn added(&self) -> Map<Txid, u64> {
        self.added_at@
    }

    /// The length of the grace period, in milliseconds.
    pub closed spec fn window(&self) -> u64 {
        self.debounce_ms
    }

    /// A grace-period keeper with no protected transaction.
    pub fn new(debounce_ms: u64) -> (g: MempoolRemovalGrace)
        ensures
            g.added() == Map::<Txid, u64>::empty(),
            g.window() == debounce_ms,
    {
        MempoolRemovalGrace { added_at: TxTimes::new(), debounce_ms }
    }

    /// Marks `txid` as added at `now`, replacing any earlier mark.
    pub fn mark_as_added(&mut self, txid: Txid, now: u64)
        ensures
            final(self).added() == old(self).added().insert(txid, now),
            final(self).window() == old(self).window(),
    {
        self.added_at.insert(txid, now);
    }

    /// Drops the marks that are at least a grace period old at `now`.
    pub fn expire_old_entries(&mut self, now: u64)
        ensures
            forall|t: Txid| #[trigger]
                final(self).added().contains_key(t) <==> old(self).added().contains_key(t)
                    && elapsed(old(self).added()[t], now) < old(self).window(),
            forall|t: Txid| #[trigger]
                final(self).added().contains_key(t) ==> final(self).added()[t] == old(
                    self,
                ).added()[t],
            final(self).window() == old(self).window(),
    {
        let _ = self.added_at.take_aged(now, self.debounce_ms);
    }

    /// The transactions of `to_remove`, in order, that are not protected by a mark.
    pub fn filter_removable_txs(&self, to_remove: &[Txid]) -> (r: Vec<Txid>)
        ensures
            r@ == to_remove@.filter(|t: Txid| !self.added().contains_key(t)),
    {
        let ghost pred = |t: Txid| !self.added().contains_key(t);
        let mut r: Vec<Txid> = Vec::new();
        let mut i: usize = 0;
        while i < to_remove.len()
            invariant
                i <= to_remove@.len(),
                pred == (|t: Txid| !self.added().contains_key(t)),
                r@ == to_remove@.subrange(0, i as int).filter(pred),
            decreases to_remove@.len() - i,
        {
            let t = to_remove[i];
            proof {
                reveal(Seq::filter);
                assert(to_remove@.subrange(0, i + 1).drop_last() =~= to_remove@.subrange(
                    0,
                    i as int,
                ));
            }
            if !self.added_at.contains_key(&t) {
                r.push(t);
            }
            i = i + 1;
        }
        assert(to_remove@.subrange(0, to_remove@.len() as int) =~= to_remove@);
        r
    }
}

} // verus!
