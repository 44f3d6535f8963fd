use vstd::prelude::*;
use crate::txid_set::TxidSet;
use crate::types::Txid;

verus! {

/// A pair of transaction sets: those that left and those that entered.
pub struct TransactionChangeSet {
    pub removed: TxidSet,
    pub added: TxidSet,
}

/// What happened to transactions across one mempool poll and the blocks indexed meanwhile.
pub struct TransactionUpdate {
    /// Transactions that entered the mempool.
    mempool_added: TxidSet,
    /// Transactions that left the mempool.
    mempool_removed: TxidSet,
    /// Transactions mined in the best chain.
    block_added: TxidSet,
    /// Transactions removed from the best chain by a reorg.
    block_removed: TxidSet,
}

/// The four sets of a transaction update, as mathematical sets.
pub struct TransactionUpdateView {
    pub mempool_added: Set<Txid>,
    pub mempool_removed: Set<Txid>,
    pub block_added: Set<Txid>,
    pub block_removed: Set<Txid>,
}

/// The buckets into which `categorize` sorts transactions.
pub struct CategorizedTxs {
    /// In both mempool_removed and block_added.
    pub mined_from_mempool: TxidSet,
    /// In both block_removed and mempool_added.
    pub reorged_back_to_mempool: TxidSet,
    /// In mempool_added and not in block_removed.
    pub new_in_mempool_only: TxidSet,
    /// In block_added and not in mempool_removed.
    pub new_block_only: TxidSet,
    /// In block_removed and in neither mempool_added nor block_added.
    pub reorged_out_entirely: TxidSet,
    /// In mempool_removed and not in block_added.
    pub mempool_rbf_or_evicted: TxidSet,
    /// In both block_removed and block_added.
    pub reorged_out_and_remined: TxidSet,
}

impl View for TransactionUpdate {
    type V = TransactionUpdateView;

    closed spec fn view(&self) -> TransactionUpdateView {
        TransactionUpdateView {
            mempool_added: self.mempool_added@,
            mempool_removed: self.mempool_removed@,
            block_added: self.block_added@,
            block_removed: self.block_removed@,
        }
    }
}

/// Transactions that are in the system after the update and were not before it.
pub open spec fn newly_added(u: TransactionUpdateView) -> Set<Txid> {
    u.mempool_added.union(u.block_added).difference(u.mempool_removed.union(u.block_removed))
}

/// Transactions that were in the system before the update and are in neither place after it.
pub open spec fn fully_removed(u: TransactionUpdateView) -> Set<Txid> {
    u.mempool_removed.union(u.block_removed).difference(u.mempool_added.union(u.block_added))
}

impl TransactionUpdate {
    /// An update in which nothing happened.
    pub fn empty() -> (u: TransactionUpdate)
        ensures
            u@.mempool_added == Set::<Txid>::empty(),
            u@.mempool_removed == Set::<Txid>::empty(),
            u@.block_added == Set::<Txid>::empty(),
            u@.block_removed == Set::<Txid>::empty(),
    {
        TransactionUpdate {
            mempool_added: TxidSet::new(),
            mempool_removed: TxidSet::new(),
            block_added: TxidSet::new(),
            block_removed: TxidSet::new(),
        }
    }

    /// An update built from a mempool change set and a block change set.
    pub fn new(mempool: TransactionChangeSet, block: TransactionChangeSet) -> (u: TransactionUpdate)
        ensures
            u@.mempool_added == mempool.added@,
            u@.mempool_removed == mempool.removed@,
            u@.block_added == block.added@,
            u@.block_removed == block.removed@,
    {
        TransactionUpdate {
            mempool_added: mempool.added,
            mempool_removed: mempool.removed,
            block_added: block.added,
            block_removed: block.removed,
        }
    }

    /// Records a transaction mined in a new block.
    pub fn add_block_tx(&mut self, txid: Txid)
        ensures
            final(self)@.block_added == old(self)@.block_added.insert(txid),
            final(self)@.block_removed == old(self)@.block_removed,
            final(self)@.mempool_added == old(self)@.mempool_added,
            final(self)@.mempool_removed == old(self)@.mempool_removed,
    {
        self.block_added.insert(txid);
    }

    /// Records a transaction removed from the chain by a reorg.
    pub fn remove_block_tx(&mut self, txid: Txid)
        ensures
            final(self)@.block_removed == old(self)@.block_removed.insert(txid),
            final(self)@.block_added == old(self)@.block_added,
            final(self)@.mempool_added == old(self)@.mempool_added,
            final(self)@.mempool_removed == old(self)@.mempool_removed,
    {
        self.block_removed.insert(txid);
    }

    /// Replaces the mempool sets with those of a new poll.
    pub fn update_mempool(&mut self, mempool: TransactionChangeSet)
        ensures
            final(self)@.mempool_added == mempool.added@,
            final(self)@.mempool_removed == mempool.removed@,
            final(self)@.block_added == old(self)@.block_added,
            final(self)@.block_removed == old(self)@.block_removed,
    {
        self.mempool_added = mempool.added;
        self.mempool_removed = mempool.removed;
    }

    /// Forgets everything recorded.
    pub fn reset(&mut self)
        ensures
            final(self)@.mempool_added == Set::<Txid>::empty(),
            final(self)@.mempool_removed == Set::<Txid>::empty(),
            final(self)@.block_added == Set::<Txid>::empty(),
            final(self)@.block_removed == Set::<Txid>::empty(),
    {
        self.mempool_added = TxidSet::new();
        self.mempool_removed = TxidSet::new();
        self.block_added = TxidSet::new();
        self.block_removed = TxidSet::new();
    }

    /// Sorts the transactions into the buckets that describe what happened to them.
    pub fn categorize(&self) -> (c: CategorizedTxs)
        ensures
            c.mined_from_mempool@ == self@.mempool_removed.intersect(self@.block_added),
            c.reorged_back_to_mempool@ == self@.block_removed.intersect(self@.mempool_added),
            c.new_in_mempool_only@ == self@.mempool_added.difference(self@.block_removed),
            c.new_block_only@ == self@.block_added.difference(self@.mempool_removed),
            c.reorged_out_entirely@ == self@.block_removed.difference(
                self@.mempool_added.union(self@.block_added),
            ),
            c.mempool_rbf_or_evicted@ == self@.mempool_removed.difference(self@.block_added),
            c.reorged_out_and_remined@ == self@.block_removed.intersect(self@.block_added),
    {
        let back_or_remined = self.mempool_added.union(&self.block_added);
        CategorizedTxs {
            mined_from_mempool: self.mempool_removed.intersection(&self.block_added),
            reorged_back_to_mempool: self.block_removed.intersection(&self.mempool_added),
            new_in_mempool_only: self.mempool_added.difference(&self.block_removed),
            new_block_only: self.block_added.difference(&self.mempool_removed),
            reorged_out_entirely: self.block_removed.difference(&back_or_remined),
            mempool_rbf_or_evicted: self.mempool_removed.difference(&self.block_added),
            reorged_out_and_remined: self.block_removed.intersection(&self.block_added),
        }
    }

    /// Splits the transactions into those that newly entered the system (mempool or chain)
    /// and those that fully left it.
    pub fn categorize_to_change_set(&self) -> (c: TransactionChangeSet)
        ensures
            c.added@ == newly_added(self@),
            c.removed@ == fully_removed(self@),
    {
        let in_added = self.mempool_added.union(&self.block_added);
        let in_removed = self.mempool_removed.union(&self.block_removed);
        TransactionChangeSet {
            removed: in_removed.difference(&in_added),
            added: in_added.difference(&in_removed),
        }
    }
}

/// No transaction is both newly added and fully removed.
pub proof fn lemma_change_set_disjoint(u: TransactionUpdateView)
    ensures
        newly_added(u).disjoint(fully_removed(u)),
{
}

/// Every mempool removal is either mined or replaced/evicted, never both.
pub proof fn lemma_mempool_removals_partitioned(u: TransactionUpdateView)
    ensures
        u.mempool_removed.intersect(u.block_added).union(u.mempool_removed.difference(
            u.block_added,
        )) == u.mempool_removed,
        u.mempool_removed.intersect(u.block_added).disjoint(
            u.mempool_removed.difference(u.block_added),
        ),
{
    assert(u.mempool_removed.intersect(u.block_added).union(
        u.mempool_removed.difference(u.block_added),
    ) =~= u.mempool_removed);
}

/// Every transaction removed from the chain is reorged back to the mempool, re-mined, or
/// gone entirely.
pub proof fn lemma_block_removals_covered(u: TransactionUpdateView)
    ensures
        u.block_removed.intersect(u.mempool_added).union(
            u.block_removed.intersect(u.block_added),
        ).union(u.block_removed.difference(u.mempool_added.union(u.block_added)))
            == u.block_removed,
        u.block_removed.difference(u.mempool_added.union(u.block_added)).disjoint(
            u.block_removed.intersect(u.mempool_added),
        ),
        u.block_removed.difference(u.mempool_added.union(u.block_added)).disjoint(
            u.block_removed.intersect(u.block_added),
        ),
{
    assert(u.block_removed.intersect(u.mempool_added).union(
        u.block_removed.intersect(u.block_added),
    ).union(u.block_removed.difference(u.mempool_added.union(u.block_added)))
        =~= u.block_removed);
}

/// Every mined transaction either came from the mempool or was seen only in a block.
pub proof fn lemma_block_additions_partitioned(u: TransactionUpdateView)
    ensures
        u.mempool_removed.intersect(u.block_added).union(u.block_added.difference(
            u.mempool_removed,
        )) == u.block_added,
        u.mempool_removed.intersect(u.block_added).disjoint(
            u.block_added.difference(u.mempool_removed),
        ),
{
    assert(u.mempool_removed.intersect(u.block_added).union(
        u.block_added.difference(u.mempool_removed),
    ) =~= u.block_added);
}

} // verus!
