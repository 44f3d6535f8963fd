use vstd::prelude::*;
use crate::chain::Chain;
use crate::index_state::{empty_batch, BlockId, Event, IndexState, IndexView};
use crate::lookups::entry_view_opt;
use crate::read_cache::ReadCache;
use crate::settings::UpdaterCacheSettings;
use crate::parser::{TransactionData, TransactionView};
use crate::rune_entry::RuneEntry;
use crate::state_change::{TransactionStateChange, TransactionStateChangeView, TxOutEntry, TxOutEntryView};
use crate::store::{in_mempool, read_tx_out, Store};
use crate::tx_updater::StoreError;
use crate::types::{RuneId, SerializedOutPoint, Txid};

verus! {

/// The views of batches, oldest first.
pub open spec fn batch_views(v: Seq<IndexState>) -> Seq<IndexView> {
    Seq::new(v.len(), |i: int| v[i]@)
}

/// The value of `k` in the table `table` picks out, taken from the newest of `batches` that
/// holds one.
pub open spec fn pending_lookup<K, V>(
    batches: Seq<IndexView>,
    table: spec_fn(IndexView) -> Map<K, V>,
    k: K,
) -> Option<V>
    decreases batches.len(),
{
    if batches.len() == 0 {
        None
    } else if table(batches.last()).contains_key(k) {
        Some(table(batches.last())[k])
    } else {
        pending_lookup(batches.drop_last(), table, k)
    }
}

/// The value of `k` in a map, when it has one.
pub open spec fn lookup<K, V>(m: Map<K, V>, k: K) -> Option<V> {
    if m.contains_key(k) {
        Some(m[k])
    } else {
        None
    }
}

/// The first of the layers that holds a value: the current update, the pending batches, the
/// read cache, the store.
pub open spec fn layered<V>(update: Option<V>, pending: Option<V>, cached: Option<V>, stored: Option<V>) -> Option<V> {
    if update is Some {
        update
    } else if pending is Some {
        pending
    } else if cached is Some {
        cached
    } else {
        stored
    }
}

/// The output entries of a batch.
pub open spec fn tx_outs_of(s: IndexView) -> Map<SerializedOutPoint, TxOutEntryView> {
    s.tx_outs
}

/// The rune entries of a batch.
pub open spec fn runes_of(s: IndexView) -> Map<RuneId, RuneEntry> {
    s.runes
}

/// The rune ids by name of a batch.
pub open spec fn rune_ids_of(s: IndexView) -> Map<u128, RuneId> {
    s.rune_ids
}

/// The transactions of a batch.
pub open spec fn transactions_of(s: IndexView) -> Map<Seq<u8>, TransactionView> {
    s.transactions
}

/// The confirming blocks of a batch.
pub open spec fn confirming_blocks_of(s: IndexView) -> Map<Seq<u8>, BlockId> {
    s.confirming_blocks
}

/// The state changes of a batch.
pub open spec fn state_changes_of(s: IndexView) -> Map<Seq<u8>, TransactionStateChangeView> {
    s.tx_state_changes
}

/// The view of a state change that may be missing.
pub open spec fn change_view_opt(c: Option<TransactionStateChange>) -> Option<TransactionStateChangeView> {
    match c {
        Some(x) => Some(x@),
        None => None,
    }
}

/// The view of a transaction that may be missing.
pub open spec fn tx_view_opt(t: Option<TransactionData>) -> Option<TransactionView> {
    match t {
        Some(x) => Some(x@),
        None => None,
    }
}

/// The transaction `txid` in the store: on the chain, else in the mempool.
pub open spec fn stored_transaction(db_chain: IndexView, db_mempool: IndexView, txid: Txid) -> Option<TransactionView> {
    if db_chain.transactions.contains_key(txid@) {
        Some(db_chain.transactions[txid@])
    } else {
        lookup(db_mempool.transactions, txid@)
    }
}

/// The number of inputs of `txs` together.
pub open spec fn inputs_count(txs: Seq<TransactionData>) -> nat
    decreases txs.len(),
{
    if txs.len() == 0 {
        0
    } else {
        inputs_count(txs.drop_last()) + txs.last().input@.len()
    }
}

/// Whether precaching should leave the entry of output `o` in the read cache: it is no null
/// outpoint, the current update does not hold it, and the store does.
pub open spec fn precached(update: IndexView, db_chain: IndexView, db_mempool: IndexView, o: SerializedOutPoint) -> bool {
    &&& o.vout != u32::MAX
    &&& !update.tx_outs.contains_key(o)
    &&& read_tx_out(db_chain, db_mempool, o, None) is Some
}

proof fn lemma_inputs_count_step(txs: Seq<TransactionData>, t: int)
    requires
        0 <= t < txs.len(),
    ensures
        inputs_count(txs.take(t + 1)) == inputs_count(txs.take(t)) + txs[t].input@.len(),
{
    assert(txs.take(t + 1).drop_last() =~= txs.take(t));
    assert(txs.take(t + 1).last() == txs[t]);
}

proof fn lemma_inputs_count_prefix(txs: Seq<TransactionData>, t: int)
    requires
        0 <= t <= txs.len(),
    ensures
        inputs_count(txs.take(t)) <= inputs_count(txs),
    decreases txs.len() - t,
{
    if t < txs.len() {
        lemma_inputs_count_step(txs, t);
        lemma_inputs_count_prefix(txs, t + 1);
    } else {
        assert(txs.take(t) =~= txs);
    }
}

/// A cache of the index while it is updated: the current update, the batches handed to the
/// writer but not yet written (oldest first), a read cache of the store, and the heights of the
/// blocks added since the last flush. The current update carries the counts.
pub struct UpdaterCache {
    pub update: IndexState,
    pub pending: Vec<IndexState>,
    pub read_cache: ReadCache,
    pub first_block_height: u64,
    pub last_block_height: Option<u64>,
    pub settings: UpdaterCacheSettings,
}

/// Looking `k` up in the batches up to `i` finds what looking it up in all of them finds, when
/// none of the batches from `i` on holds it.
proof fn lemma_pending_lookup_step<K, V>(
    batches: Seq<IndexView>,
    table: spec_fn(IndexView) -> Map<K, V>,
    k: K,
    i: int,
)
    requires
        0 < i <= batches.len(),
    ensures
        pending_lookup(batches.take(i), table, k) == (if table(batches[i - 1]).contains_key(k) {
            Some(table(batches[i - 1])[k])
        } else {
            pending_lookup(batches.take(i - 1), table, k)
        }),
{
    assert(batches.take(i).drop_last() =~= batches.take(i - 1));
    assert(batches.take(i).last() == batches[i - 1]);
}

/// A value set in the current update is what a read through the layers gives, whatever the
/// pending batches, the read cache and the store hold.
pub proof fn lemma_reads_see_the_update<K, V>(
    m: Map<K, V>,
    k: K,
    v: V,
    pending: Option<V>,
    cached: Option<V>,
    stored: Option<V>,
)
    ensures
        layered(lookup(m.insert(k, v), k), pending, cached, stored) == Some(v),
{
}

/// Handing the current update to the writer changes no read through the layers: what the
/// update held, the newest pending batch now holds, and the fresh update holds nothing.
pub proof fn lemma_handing_over_keeps_reads<K, V>(
    update: IndexView,
    fresh: IndexView,
    batch: IndexView,
    batches: Seq<IndexView>,
    table: spec_fn(IndexView) -> Map<K, V>,
    k: K,
    cached: Option<V>,
    stored: Option<V>,
)
    requires
        table(fresh) == Map::<K, V>::empty(),
        table(batch) == table(update),
    ensures
        layered(lookup(table(fresh), k), pending_lookup(batches.push(batch), table, k), cached, stored)
            == layered(lookup(table(update), k), pending_lookup(batches, table, k), cached, stored),
{
    assert(batches.push(batch).drop_last() =~= batches);
    assert(batches.push(batch).last() == batch);
}

impl UpdaterCache {
    /// A cache over a store holding `runes_count` runes, `block_count` blocks of which
    /// `purged_blocks_count` are purged. On regtest an empty chain counts one block, whose
    /// genesis block the node does not serve.
    pub fn new(
        runes_count: u64,
        block_count: u64,
        purged_blocks_count: u64,
        settings: UpdaterCacheSettings,
    ) -> (c: UpdaterCache)
        ensures
            c.update@ == empty_batch(
                runes_count,
                if block_count == 0 && settings.chain == Chain::Regtest {
                    1
                } else {
                    block_count
                },
                purged_blocks_count,
            ),
            c.pending@.len() == 0,
            c.first_block_height == c.update@.block_count,
            c.last_block_height is None,
            c.settings == settings,
            c.read_cache.tx_outs() == Map::<SerializedOutPoint, TxOutEntryView>::empty(),
    {
        let block_count = if block_count == 0 && settings.chain == Chain::Regtest {
            1
        } else {
            block_count
        };
        UpdaterCache {
            update: IndexState::with_counts(runes_count, block_count, purged_blocks_count),
            pending: Vec::new(),
            read_cache: ReadCache::with_settings(settings.read_cache),
            first_block_height: block_count,
            last_block_height: None,
            settings,
        }
    }

    /// The number of runes counted so far.
    pub fn get_runes_count(&self) -> (n: u64)
        ensures
            n == self.update@.runes_count,
    {
        self.update.runes_count
    }

    /// The height of the tip: one below the block count, zero for none.
    pub fn get_block_height_tip(&self) -> (h: u64)
        ensures
            h == (if self.update@.block_count == 0 {
                0
            } else {
                self.update@.block_count - 1
            }),
    {
        self.update.block_count.saturating_sub(1)
    }

    /// The number of blocks indexed so far.
    pub fn get_block_count(&self) -> (n: u64)
        ensures
            n == self.update@.block_count,
    {
        self.update.block_count
    }

    /// The number of blocks purged so far.
    pub fn get_purged_blocks_count(&self) -> (n: u64)
        ensures
            n == self.update@.purged_blocks_count,
    {
        self.update.purged_blocks_count
    }

    /// Counts one more rune.
    pub fn increment_runes_count(&mut self)
        requires
            old(self).update@.runes_count < u64::MAX,
        ensures
            final(self).update@ == (IndexView { runes_count: (old(self).update@.runes_count + 1) as u64, ..old(self).update@ }),
            final(self).pending == old(self).pending,
    {
        self.update.runes_count = self.update.runes_count + 1;
    }

    /// Counts one rune fewer.
    pub fn decrement_runes_count(&mut self)
        requires
            old(self).update@.runes_count > 0,
        ensures
            final(self).update@ == (IndexView { runes_count: (old(self).update@.runes_count - 1) as u64, ..old(self).update@ }),
            final(self).pending == old(self).pending,
    {
        self.update.runes_count = self.update.runes_count - 1;
    }

    /// Counts one more block, remembering the height of the one just added.
    pub fn increment_block_count(&mut self)
        requires
            old(self).update@.block_count < u64::MAX,
        ensures
            final(self).update@ == (IndexView { block_count: (old(self).update@.block_count + 1) as u64, ..old(self).update@ }),
            final(self).last_block_height == Some(old(self).update@.block_count),
            final(self).pending == old(self).pending,
            final(self).first_block_height == old(self).first_block_height,
    {
        self.last_block_height = Some(self.update.block_count);
        self.update.block_count = self.update.block_count + 1;
        assert(self.update@ =~= (IndexView { block_count: (old(self).update@.block_count + 1) as u64, ..old(self).update@ }));
    }

    /// The entry of output `o` in the newest pending batch that holds one.
    fn find_pending_tx_out(&self, o: &SerializedOutPoint) -> (r: Option<TxOutEntry>)
        ensures
            entry_view_opt(r) == pending_lookup(batch_views(self.pending@), |s: IndexView| tx_outs_of(s), *o),
    {
        let ghost views = batch_views(self.pending@);
        let ghost table = |s: IndexView| tx_outs_of(s);
        let mut i = self.pending.len();
        assert(views.take(i as int) =~= views);
        while i > 0
            invariant
                i <= self.pending@.len(),
                views == batch_views(self.pending@),
                table == (|s: IndexView| tx_outs_of(s)),
                pending_lookup(views, table, *o) == pending_lookup(views.take(i as int), table, *o),
            decreases i,
        {
            proof {
                lemma_pending_lookup_step(views, table, *o, i as int);
            }
            match self.pending[i - 1].tx_outs.get(o) {
                Some(e) => {
                    return Some(e.duplicate());
                },
                None => {},
            }
            i = i - 1;
        }
        assert(views.take(0) =~= Seq::<IndexView>::empty());
        None
    }

    /// The entry of output `o`: from the current update, else the newest pending batch
    /// holding it, else the read cache, else the store (chain, then mempool), in which case
    /// the read cache keeps it.
    pub fn get_tx_out(&mut self, db: &Store, o: &SerializedOutPoint) -> (r: Result<TxOutEntry, StoreError>)
        ensures
            match layered(
                lookup(old(self).update@.tx_outs, *o),
                pending_lookup(batch_views(old(self).pending@), |s: IndexView| tx_outs_of(s), *o),
                lookup(old(self).read_cache.tx_outs(), *o),
                read_tx_out(db.chain@, db.mempool@, *o, None),
            ) {
                Some(v) => r matches Ok(e) && e@ == v,
                None => r == Err::<TxOutEntry, StoreError>(StoreError::OutputNotFound(*o)),
            },
            final(self).update == old(self).update,
            final(self).pending == old(self).pending,
            r matches Ok(e) ==> final(self).read_cache.tx_outs().contains_key(*o)
                || old(self).update@.tx_outs.contains_key(*o)
                || pending_lookup(batch_views(old(self).pending@), |s: IndexView| tx_outs_of(s), *o) is Some,
    {
        match self.update.tx_outs.get(o) {
            Some(e) => {
                return Ok(e.duplicate());
            },
            None => {},
        }
        match self.find_pending_tx_out(o) {
            Some(e) => {
                return Ok(e);
            },
            None => {},
        }
        match self.read_cache.get_tx_out(o) {
            Some(e) => {
                return Ok(e);
            },
            None => {},
        }
        match db.get_tx_out(o, None) {
            Ok(e) => {
                self.read_cache.insert_tx_out(*o, e.duplicate());
                Ok(e)
            },
            Err(e) => Err(e),
        }
    }

    /// Sets the entry of output `o` in the current update, and keeps it in the read cache.
    pub fn set_tx_out(&mut self, o: SerializedOutPoint, e: TxOutEntry)
        ensures
            final(self).update@ == (IndexView {
                tx_outs: old(self).update@.tx_outs.insert(o, e@),
                ..old(self).update@
            }),
            final(self).pending == old(self).pending,
            final(self).read_cache.tx_outs().contains_key(o),
            final(self).read_cache.tx_outs()[o] == e@,
    {
        let copy = e.duplicate();
        self.update.tx_outs.insert(o, e);
        self.read_cache.insert_tx_out(o, copy);
        assert(self.update@ =~= (IndexView {
            tx_outs: old(self).update@.tx_outs.insert(o, e@),
            ..old(self).update@
        }));
    }

    /// The entry of rune `id` in the newest pending batch that holds one.
    fn find_pending_rune(&self, id: &RuneId) -> (r: Option<RuneEntry>)
        ensures
            r == pending_lookup(batch_views(self.pending@), |s: IndexView| runes_of(s), *id),
    {
        let ghost views = batch_views(self.pending@);
        let ghost table = |s: IndexView| runes_of(s);
        let mut i = self.pending.len();
        assert(views.take(i as int) =~= views);
        while i > 0
            invariant
                i <= self.pending@.len(),
                views == batch_views(self.pending@),
                table == (|s: IndexView| runes_of(s)),
                pending_lookup(views, table, *id) == pending_lookup(views.take(i as int), table, *id),
            decreases i,
        {
            proof {
                lemma_pending_lookup_step(views, table, *id, i as int);
            }
            match self.pending[i - 1].runes.get(id) {
                Some(e) => {
                    return Some(*e);
                },
                None => {},
            }
            i = i - 1;
        }
        assert(views.take(0) =~= Seq::<IndexView>::empty());
        None
    }

    /// The id of rune `name` in the newest pending batch that holds one.
    fn find_pending_rune_id(&self, name: u128) -> (r: Option<RuneId>)
        ensures
            r == pending_lookup(batch_views(self.pending@), |s: IndexView| rune_ids_of(s), name),
    {
        let ghost views = batch_views(self.pending@);
        let ghost table = |s: IndexView| rune_ids_of(s);
        let mut i = self.pending.len();
        assert(views.take(i as int) =~= views);
        while i > 0
            invariant
                i <= self.pending@.len(),
                views == batch_views(self.pending@),
                table == (|s: IndexView| rune_ids_of(s)),
                pending_lookup(views, table, name) == pending_lookup(views.take(i as int), table, name),
            decreases i,
        {
            proof {
                lemma_pending_lookup_step(views, table, name, i as int);
            }
            match self.pending[i - 1].rune_ids.get(&name) {
                Some(e) => {
                    return Some(*e);
                },
                None => {},
            }
            i = i - 1;
        }
        assert(views.take(0) =~= Seq::<IndexView>::empty());
        None
    }

    /// Transaction `txid` in the newest pending batch that holds it.
    fn find_pending_transaction(&self, txid: &Txid) -> (r: Option<TransactionData>)
        ensures
            tx_view_opt(r) == pending_lookup(batch_views(self.pending@), |s: IndexView| transactions_of(s), txid@),
    {
        let ghost views = batch_views(self.pending@);
        let ghost table = |s: IndexView| transactions_of(s);
        let mut i = self.pending.len();
        assert(views.take(i as int) =~= views);
        while i > 0
            invariant
                i <= self.pending@.len(),
                views == batch_views(self.pending@),
                table == (|s: IndexView| transactions_of(s)),
                pending_lookup(views, table, txid@) == pending_lookup(views.take(i as int), table, txid@),
            decreases i,
        {
            proof {
                lemma_pending_lookup_step(views, table, txid@, i as int);
            }
            match self.pending[i - 1].transactions.get(txid) {
                Some(t) => {
                    return Some(t.duplicate());
                },
                None => {},
            }
            i = i - 1;
        }
        assert(views.take(0) =~= Seq::<IndexView>::empty());
        None
    }

    /// The block confirming `txid` in the newest pending batch that holds one.
    fn find_pending_confirming_block(&self, txid: &Txid) -> (r: Option<BlockId>)
        ensures
            r == pending_lookup(batch_views(self.pending@), |s: IndexView| confirming_blocks_of(s), txid@),
    {
        let ghost views = batch_views(self.pending@);
        let ghost table = |s: IndexView| confirming_blocks_of(s);
        let mut i = self.pending.len();
        assert(views.take(i as int) =~= views);
        while i > 0
            invariant
                i <= self.pending@.len(),
                views == batch_views(self.pending@),
                table == (|s: IndexView| confirming_blocks_of(s)),
                pending_lookup(views, table, txid@) == pending_lookup(views.take(i as int), table, txid@),
            decreases i,
        {
            proof {
                lemma_pending_lookup_step(views, table, txid@, i as int);
            }
            match self.pending[i - 1].confirming_blocks.get(txid) {
                Some(b) => {
                    return Some(*b);
                },
                None => {},
            }
            i = i - 1;
        }
        assert(views.take(0) =~= Seq::<IndexView>::empty());
        None
    }

    /// The state change of `txid` in the newest pending batch that holds one.
    fn find_pending_state_change(&self, txid: &Txid) -> (r: Option<TransactionStateChange>)
        ensures
            change_view_opt(r) == pending_lookup(batch_views(self.pending@), |s: IndexView| state_changes_of(s), txid@),
    {
        let ghost views = batch_views(self.pending@);
        let ghost table = |s: IndexView| state_changes_of(s);
        let mut i = self.pending.len();
        assert(views.take(i as int) =~= views);
        while i > 0
            invariant
                i <= self.pending@.len(),
                views == batch_views(self.pending@),
                table == (|s: IndexView| state_changes_of(s)),
                pending_lookup(views, table, txid@) == pending_lookup(views.take(i as int), table, txid@),
            decreases i,
        {
            proof {
                lemma_pending_lookup_step(views, table, txid@, i as int);
            }
            match self.pending[i - 1].tx_state_changes.get(txid) {
                Some(c) => {
                    return Some(c.duplicate());
                },
                None => {},
            }
            i = i - 1;
        }
        assert(views.take(0) =~= Seq::<IndexView>::empty());
        None
    }

    /// The entry of rune `id`: from the current update, else the newest pending batch holding
    /// it, else the read cache, else the chain's table in the store, in which case the read
    /// cache keeps it.
    pub fn get_rune(&mut self, db: &Store, id: &RuneId) -> (r: Result<RuneEntry, StoreError>)
        ensures
            match layered(
                lookup(old(self).update@.runes, *id),
                pending_lookup(batch_views(old(self).pending@), |s: IndexView| runes_of(s), *id),
                lookup(old(self).read_cache.runes(), *id),
                lookup(db.chain@.runes, *id),
            ) {
                Some(v) => r == Ok::<RuneEntry, StoreError>(v),
                None => r == Err::<RuneEntry, StoreError>(StoreError::RuneNotFound(*id)),
            },
            final(self).update == old(self).update,
            final(self).pending == old(self).pending,
    {
        match self.update.runes.get(id) {
            Some(e) => {
                return Ok(*e);
            },
            None => {},
        }
        match self.find_pending_rune(id) {
            Some(e) => {
                return Ok(e);
            },
            None => {},
        }
        match self.read_cache.get_rune(id) {
            Some(e) => {
                return Ok(e);
            },
            None => {},
        }
        match db.chain.runes.get(id) {
            Some(e) => {
                self.read_cache.insert_rune(*id, *e);
                Ok(*e)
            },
            None => Err(StoreError::RuneNotFound(*id)),
        }
    }

    /// Sets the entry of rune `id` in the current update, and keeps it in the read cache.
    pub fn set_rune(&mut self, id: RuneId, rune: RuneEntry)
        ensures
            final(self).update@ == (IndexView { runes: old(self).update@.runes.insert(id, rune), ..old(self).update@ }),
            final(self).pending == old(self).pending,
            final(self).read_cache.runes().contains_key(id),
            final(self).read_cache.runes()[id] == rune,
    {
        self.update.runes.insert(id, rune);
        self.read_cache.insert_rune(id, rune);
        assert(self.update@ =~= (IndexView { runes: old(self).update@.runes.insert(id, rune), ..old(self).update@ }));
    }

    /// The id of the rune named `name`: from the current update, else the newest pending batch
    /// holding it, else the read cache, else the chain's table in the store, in which case the
    /// read cache keeps it.
    pub fn get_rune_id(&mut self, db: &Store, name: u128) -> (r: Result<RuneId, StoreError>)
        ensures
            match layered(
                lookup(old(self).update@.rune_ids, name),
                pending_lookup(batch_views(old(self).pending@), |s: IndexView| rune_ids_of(s), name),
                lookup(old(self).read_cache.rune_ids(), name),
                lookup(db.chain@.rune_ids, name),
            ) {
                Some(v) => r == Ok::<RuneId, StoreError>(v),
                None => r == Err::<RuneId, StoreError>(StoreError::RuneNameNotFound(name)),
            },
            final(self).update == old(self).update,
            final(self).pending == old(self).pending,
    {
        match self.update.rune_ids.get(&name) {
            Some(e) => {
                return Ok(*e);
            },
            None => {},
        }
        match self.find_pending_rune_id(name) {
            Some(e) => {
                return Ok(e);
            },
            None => {},
        }
        match self.read_cache.get_rune_id(&name) {
            Some(e) => {
                return Ok(e);
            },
            None => {},
        }
        match db.chain.rune_ids.get(&name) {
            Some(e) => {
                self.read_cache.insert_rune_id(name, *e);
                Ok(*e)
            },
            None => Err(StoreError::RuneNameNotFound(name)),
        }
    }

    /// Sets the id of the rune named `name` in the current update, and keeps it in the read
    /// cache.
    pub fn set_rune_id(&mut self, name: u128, id: RuneId)
        ensures
            final(self).update@ == (IndexView { rune_ids: old(self).update@.rune_ids.insert(name, id), ..old(self).update@ }),
            final(self).pending == old(self).pending,
            final(self).read_cache.rune_ids().contains_key(name),
            final(self).read_cache.rune_ids()[name] == id,
    {
        self.update.rune_ids.insert(name, id);
        self.read_cache.insert_rune_id(name, id);
        assert(self.update@ =~= (IndexView { rune_ids: old(self).update@.rune_ids.insert(name, id), ..old(self).update@ }));
    }

    /// Sets the id of rune number `number` in the current update.
    pub fn set_rune_id_number(&mut self, number: u64, id: RuneId)
        ensures
            final(self).update@ == (IndexView { rune_numbers: old(self).update@.rune_numbers.insert(number, id), ..old(self).update@ }),
            final(self).pending == old(self).pending,
            final(self).read_cache == old(self).read_cache,
    {
        self.update.rune_numbers.insert(number, id);
        assert(self.update@ =~= (IndexView { rune_numbers: old(self).update@.rune_numbers.insert(number, id), ..old(self).update@ }));
    }

    /// Transaction `txid`: from the current update, else the newest pending batch holding it,
    /// else the read cache, else the store (chain, then mempool), in which case the read cache
    /// keeps it.
    pub fn get_transaction(&mut self, db: &Store, txid: &Txid) -> (r: Result<TransactionData, StoreError>)
        ensures
            match layered(
                lookup(old(self).update@.transactions, txid@),
                pending_lookup(batch_views(old(self).pending@), |s: IndexView| transactions_of(s), txid@),
                lookup(old(self).read_cache.transactions(), *txid),
                stored_transaction(db.chain@, db.mempool@, *txid),
            ) {
                Some(v) => r matches Ok(t) && t@ == v,
                None => r == Err::<TransactionData, StoreError>(StoreError::TransactionNotFound(*txid)),
            },
            final(self).update == old(self).update,
            final(self).pending == old(self).pending,
    {
        match self.update.transactions.get(txid) {
            Some(t) => {
                return Ok(t.duplicate());
            },
            None => {},
        }
        match self.find_pending_transaction(txid) {
            Some(t) => {
                return Ok(t);
            },
            None => {},
        }
        match self.read_cache.get_transaction(txid) {
            Some(t) => {
                return Ok(t);
            },
            None => {},
        }
        let found = match db.chain.transactions.get(txid) {
            Some(t) => Some(t),
            None => db.mempool.transactions.get(txid),
        };
        match found {
            Some(t) => {
                self.read_cache.insert_transaction(*txid, t.duplicate());
                Ok(t.duplicate())
            },
            None => Err(StoreError::TransactionNotFound(*txid)),
        }
    }

    /// Sets transaction `txid` in the current update.
    pub fn set_transaction(&mut self, txid: Txid, tx: TransactionData)
        ensures
            final(self).update@ == (IndexView { transactions: old(self).update@.transactions.insert(txid@, tx@), ..old(self).update@ }),
            final(self).pending == old(self).pending,
            final(self).read_cache == old(self).read_cache,
    {
        self.update.transactions.insert(txid, tx);
        assert(self.update@ =~= (IndexView { transactions: old(self).update@.transactions.insert(txid@, tx@), ..old(self).update@ }));
    }

    /// The block confirming `txid`: from the current update, else the newest pending batch
    /// holding one, else the chain's table in the store.
    pub fn get_transaction_confirming_block(&self, db: &Store, txid: &Txid) -> (r: Result<BlockId, StoreError>)
        ensures
            match layered(
                lookup(self.update@.confirming_blocks, txid@),
                pending_lookup(batch_views(self.pending@), |s: IndexView| confirming_blocks_of(s), txid@),
                None,
                lookup(db.chain@.confirming_blocks, txid@),
            ) {
                Some(v) => r == Ok::<BlockId, StoreError>(v),
                None => r == Err::<BlockId, StoreError>(StoreError::ConfirmingBlockNotFound(*txid)),
            },
    {
        match self.update.confirming_blocks.get(txid) {
            Some(b) => {
                return Ok(*b);
            },
            None => {},
        }
        match self.find_pending_confirming_block(txid) {
            Some(b) => {
                return Ok(b);
            },
            None => {},
        }
        match db.chain.confirming_blocks.get(txid) {
            Some(b) => Ok(*b),
            None => Err(StoreError::ConfirmingBlockNotFound(*txid)),
        }
    }

    /// Sets the block confirming `txid` in the current update.
    pub fn set_transaction_confirming_block(&mut self, txid: Txid, block: BlockId)
        ensures
            final(self).update@ == (IndexView { confirming_blocks: old(self).update@.confirming_blocks.insert(txid@, block), ..old(self).update@ }),
            final(self).pending == old(self).pending,
            final(self).read_cache == old(self).read_cache,
    {
        self.update.confirming_blocks.insert(txid, block);
        assert(self.update@ =~= (IndexView { confirming_blocks: old(self).update@.confirming_blocks.insert(txid@, block), ..old(self).update@ }));
    }

    /// Sets the state change of `txid` in the current update.
    pub fn set_tx_state_changes(&mut self, txid: Txid, change: TransactionStateChange)
        ensures
            final(self).update@ == (IndexView { tx_state_changes: old(self).update@.tx_state_changes.insert(txid@, change@), ..old(self).update@ }),
            final(self).pending == old(self).pending,
            final(self).read_cache == old(self).read_cache,
    {
        self.update.tx_state_changes.insert(txid, change);
        assert(self.update@ =~= (IndexView { tx_state_changes: old(self).update@.tx_state_changes.insert(txid@, change@), ..old(self).update@ }));
    }

    /// Whether transaction `txid` is known: its state change is in the current update or a
    /// pending batch, or else, for the mempool, the store records it as in the mempool, and
    /// for blocks, the chain's side records its state change.
    pub fn does_tx_exist(&self, db: &Store, txid: &Txid) -> (b: bool)
        ensures
            b == (self.update@.tx_state_changes.contains_key(txid@)
                || pending_lookup(batch_views(self.pending@), |s: IndexView| state_changes_of(s), txid@) is Some
                || (if self.settings.mempool {
                    in_mempool(db.chain@, db.mempool@, *txid)
                } else {
                    db.chain@.tx_state_changes.contains_key(txid@)
                })),
    {
        if self.update.tx_state_changes.contains(txid) {
            return true;
        }
        if self.find_pending_state_change(txid).is_some() {
            return true;
        }
        if self.settings.mempool {
            db.is_tx_in_mempool(txid)
        } else {
            db.chain.tx_state_changes.contains(txid)
        }
    }

    /// The state changes of `txids`, in order: each from the current update, else the newest
    /// pending batch holding it, else the store's side this cache indexes; `None` where none
    /// has it.
    pub fn get_txs_state_changes(&self, db: &Store, txids: &Vec<Txid>) -> (r: Vec<Option<TransactionStateChange>>)
        ensures
            r@.len() == txids@.len(),
            forall|i: int|
                0 <= i < txids@.len() ==> change_view_opt(#[trigger] r@[i]) == layered(
                    lookup(self.update@.tx_state_changes, txids@[i]@),
                    pending_lookup(batch_views(self.pending@), |s: IndexView| state_changes_of(s), txids@[i]@),
                    None,
                    lookup(
                        if self.settings.mempool {
                            db.mempool@.tx_state_changes
                        } else {
                            db.chain@.tx_state_changes
                        },
                        txids@[i]@,
                    ),
                ),
    {
        let mut r: Vec<Option<TransactionStateChange>> = Vec::new();
        let mut i: usize = 0;
        while i < txids.len()
            invariant
                i <= txids@.len(),
                r@.len() == i,
                forall|k: int|
                    0 <= k < i ==> change_view_opt(#[trigger] r@[k]) == layered(
                        lookup(self.update@.tx_state_changes, txids@[k]@),
                        pending_lookup(batch_views(self.pending@), |s: IndexView| state_changes_of(s), txids@[k]@),
                        None,
                        lookup(
                            if self.settings.mempool {
                                db.mempool@.tx_state_changes
                            } else {
                                db.chain@.tx_state_changes
                            },
                            txids@[k]@,
                        ),
                    ),
            decreases txids@.len() - i,
        {
            let t = &txids[i];
            let c = match self.update.tx_state_changes.get(t) {
                Some(c) => Some(c.duplicate()),
                None => match self.find_pending_state_change(t) {
                    Some(c) => Some(c),
                    None => {
                        let side = if self.settings.mempool {
                            &db.mempool
                        } else {
                            &db.chain
                        };
                        match side.tx_state_changes.get(t) {
                            Some(c) => Some(c.duplicate()),
                            None => None,
                        }
                    },
                },
            };
            r.push(c);
            i = i + 1;
        }
        r
    }

    /// Appends `txid` to the transactions of rune `id` in the current update.
    pub fn add_rune_transaction(&mut self, id: RuneId, txid: Txid)
        ensures
            final(self).update@ == (IndexView {
                rune_transactions: old(self).update@.rune_transactions.insert(
                    id,
                    crate::index_state::rune_txs(old(self).update@, id).push(txid),
                ),
                ..old(self).update@
            }),
            final(self).update@ == crate::index_state::after_adds(old(self).update@, id, seq![txid]),
            final(self).pending == old(self).pending,
            final(self).read_cache == old(self).read_cache,
    {
        let mut list = match self.update.rune_transactions.remove(&id) {
            Some(l) => l,
            None => Vec::new(),
        };
        proof {
            assert(seq![txid].drop_last() =~= Seq::<Txid>::empty());
            assert(crate::index_state::after_adds(old(self).update@, id, seq![txid].drop_last()) == old(self).update@);
            assert(seq![txid].last() == txid);
        }
        list.push(txid);
        self.update.rune_transactions.insert(id, list);
        assert(self.update@ =~= (IndexView {
            rune_transactions: old(self).update@.rune_transactions.insert(
                id,
                crate::index_state::rune_txs(old(self).update@, id).push(txid),
            ),
            ..old(self).update@
        }));
    }

    /// Records transaction `txid` as in the mempool, in the current update.
    pub fn set_mempool_tx(&mut self, txid: Txid)
        ensures
            final(self).update@ == (IndexView { mempool_txs: old(self).update@.mempool_txs.insert(txid), ..old(self).update@ }),
            final(self).pending == old(self).pending,
            final(self).read_cache == old(self).read_cache,
    {
        self.update.mempool_txs.insert(txid);
        assert(self.update@ =~= (IndexView { mempool_txs: old(self).update@.mempool_txs.insert(txid), ..old(self).update@ }));
    }

    /// Records an event for subscribers.
    pub fn add_event(&mut self, event: Event)
        ensures
            final(self).update@ == (IndexView { events: old(self).update@.events.push(event), ..old(self).update@ }),
            final(self).pending == old(self).pending,
            final(self).read_cache == old(self).read_cache,
    {
        self.update.events.push(event);
        assert(self.update@ =~= (IndexView { events: old(self).update@.events.push(event), ..old(self).update@ }));
    }

    /// The heights to purge at a final flush, `[from, to)`: from the blocks purged so far up to
    /// `max_recoverable_reorg_depth` below the last block added since the last flush; none
    /// when no block was added or the chain is not that deep.
    pub fn purge_range(&self, max_recoverable_reorg_depth: u64) -> (r: Option<(u64, u64)>)
        ensures
            r == (match self.last_block_height {
                Some(h) => if h >= max_recoverable_reorg_depth {
                    Some((self.update@.purged_blocks_count, (h - max_recoverable_reorg_depth) as u64))
                } else {
                    None
                },
                None => None,
            }),
    {
        match crate::settings::get_purge_info(
            self.last_block_height,
            self.update.purged_blocks_count,
            max_recoverable_reorg_depth,
        ) {
            Some(info) => Some((info.from_block_height_to_purge, info.to_block_height_to_purge)),
            None => None,
        }
    }

    /// The entries of `outpoints`, in order, each as `get_tx_out` reads it from the layers as
    /// they were on entry; `None` where no layer holds it. Those read from the store are kept
    /// in the read cache.
    pub fn get_tx_outs(&mut self, db: &Store, outpoints: &Vec<SerializedOutPoint>) -> (r: Vec<Option<TxOutEntry>>)
        ensures
            r@.len() == outpoints@.len(),
            forall|i: int|
                0 <= i < outpoints@.len() ==> entry_view_opt(#[trigger] r@[i]) == layered(
                    lookup(old(self).update@.tx_outs, outpoints@[i]),
                    pending_lookup(batch_views(old(self).pending@), |s: IndexView| tx_outs_of(s), outpoints@[i]),
                    lookup(old(self).read_cache.tx_outs(), outpoints@[i]),
                    read_tx_out(db.chain@, db.mempool@, outpoints@[i], None),
                ),
            final(self).update == old(self).update,
            final(self).pending == old(self).pending,
    {
        let ghost cache0 = self.read_cache.tx_outs();
        let mut early: Vec<Option<TxOutEntry>> = Vec::new();
        let mut i: usize = 0;
        while i < outpoints.len()
            invariant
                i <= outpoints@.len(),
                early@.len() == i,
                self.update == old(self).update,
                self.pending == old(self).pending,
                self.read_cache.tx_outs() == cache0,
                cache0 == old(self).read_cache.tx_outs(),
                forall|k: int|
                    0 <= k < i ==> entry_view_opt(#[trigger] early@[k]) == layered(
                        lookup(self.update@.tx_outs, outpoints@[k]),
                        pending_lookup(batch_views(self.pending@), |s: IndexView| tx_outs_of(s), outpoints@[k]),
                        lookup(cache0, outpoints@[k]),
                        None,
                    ),
            decreases outpoints@.len() - i,
        {
            let o = &outpoints[i];
            let e = match self.update.tx_outs.get(o) {
                Some(e) => Some(e.duplicate()),
                None => match self.find_pending_tx_out(o) {
                    Some(e) => Some(e),
                    None => self.read_cache.get_tx_out(o),
                },
            };
            early.push(e);
            i = i + 1;
        }
        let mut r: Vec<Option<TxOutEntry>> = Vec::new();
        let mut j: usize = 0;
        while j < outpoints.len()
            invariant
                j <= outpoints@.len(),
                early@.len() == outpoints@.len(),
                r@.len() == j,
                self.update == old(self).update,
                self.pending == old(self).pending,
                forall|k: int|
                    0 <= k < outpoints@.len() ==> entry_view_opt(#[trigger] early@[k]) == layered(
                        lookup(self.update@.tx_outs, outpoints@[k]),
                        pending_lookup(batch_views(self.pending@), |s: IndexView| tx_outs_of(s), outpoints@[k]),
                        lookup(cache0, outpoints@[k]),
                        None,
                    ),
                forall|k: int|
                    0 <= k < j ==> entry_view_opt(#[trigger] r@[k]) == layered(
                        lookup(self.update@.tx_outs, outpoints@[k]),
                        pending_lookup(batch_views(self.pending@), |s: IndexView| tx_outs_of(s), outpoints@[k]),
                        lookup(cache0, outpoints@[k]),
                        read_tx_out(db.chain@, db.mempool@, outpoints@[k], None),
                    ),
            decreases outpoints@.len() - j,
        {
            let e = match &early[j] {
                Some(e) => Some(e.duplicate()),
                None => match db.get_tx_out(&outpoints[j], None) {
                    Ok(e) => {
                        self.read_cache.insert_tx_out(outpoints[j], e.duplicate());
                        Some(e)
                    },
                    Err(_) => None,
                },
            };
            r.push(e);
            j = j + 1;
        }
        r
    }

    /// Reads into the read cache, from the store, the entries of the outputs that `txs` spend
    /// (but for null outpoints) which neither the current update nor the read cache holds.
    /// Every entry the read cache then holds it held before, or is the store's. When the read
    /// cache has room for one more entry per input, it drops none of its entries and then
    /// holds the entry of every output spent that is no null outpoint, that the update does
    /// not hold and that the store does.
    pub fn precache_tx_outs(&mut self, db: &Store, txs: &Vec<TransactionData>)
        ensures
            final(self).update == old(self).update,
            final(self).pending == old(self).pending,
            final(self).read_cache.capacities() == old(self).read_cache.capacities(),
            forall|o: SerializedOutPoint|
                #[trigger] final(self).read_cache.tx_outs().contains_key(o) ==> (old(
                    self,
                ).read_cache.tx_outs().contains_key(o) && final(self).read_cache.tx_outs()[o]
                    == old(self).read_cache.tx_outs()[o]) || read_tx_out(db.chain@, db.mempool@, o, None)
                    == Some(final(self).read_cache.tx_outs()[o]),
            old(self).read_cache.tx_out_count() + inputs_count(txs@) <= old(self).read_cache.capacities().1
                ==> (forall|o: SerializedOutPoint|
                #[trigger] old(self).read_cache.tx_outs().contains_key(o)
                    ==> final(self).read_cache.tx_outs().contains_key(o)
                    && final(self).read_cache.tx_outs()[o] == old(self).read_cache.tx_outs()[o]),
            old(self).read_cache.tx_out_count() + inputs_count(txs@) <= old(self).read_cache.capacities().1
                ==> (forall|t: int, i: int|
                0 <= t < txs@.len() && 0 <= i < txs@[t].input@.len() && precached(
                    old(self).update@,
                    db.chain@,
                    db.mempool@,
                    #[trigger] txs@[t].input@[i].previous_output,
                ) ==> final(self).read_cache.tx_outs().contains_key(txs@[t].input@[i].previous_output)),
    {
        let ghost n0 = self.read_cache.tx_out_count();
        let ghost cap = self.read_cache.capacities().1;
        let ghost c0 = self.read_cache.tx_outs();
        let ghost room = n0 + inputs_count(txs@) <= cap;
        let mut t: usize = 0;
        while t < txs.len()
            invariant
                t <= txs@.len(),
                self.update == old(self).update,
                self.pending == old(self).pending,
                self.read_cache.capacities() == old(self).read_cache.capacities(),
                cap == old(self).read_cache.capacities().1,
                c0 == old(self).read_cache.tx_outs(),
                n0 == old(self).read_cache.tx_out_count(),
                room == (n0 + inputs_count(txs@) <= cap),
                self.read_cache.tx_out_count() <= n0 + inputs_count(txs@.take(t as int)),
                forall|o: SerializedOutPoint|
                    #[trigger] self.read_cache.tx_outs().contains_key(o) ==> (old(
                        self,
                    ).read_cache.tx_outs().contains_key(o) && self.read_cache.tx_outs()[o]
                        == old(self).read_cache.tx_outs()[o]) || read_tx_out(db.chain@, db.mempool@, o, None)
                        == Some(self.read_cache.tx_outs()[o]),
                room ==> forall|o: SerializedOutPoint|
                    #[trigger] c0.contains_key(o) ==> self.read_cache.tx_outs().contains_key(o)
                        && self.read_cache.tx_outs()[o] == c0[o],
                room ==> forall|t2: int, i2: int|
                    0 <= t2 < t && 0 <= i2 < txs@[t2].input@.len() && precached(
                        old(self).update@,
                        db.chain@,
                        db.mempool@,
                        #[trigger] txs@[t2].input@[i2].previous_output,
                    ) ==> self.read_cache.tx_outs().contains_key(txs@[t2].input@[i2].previous_output),
            decreases txs@.len() - t,
        {
            let tx = &txs[t];
            proof {
                lemma_inputs_count_step(txs@, t as int);
                lemma_inputs_count_prefix(txs@, t + 1);
            }
            let mut i: usize = 0;
            while i < tx.input.len()
                invariant
                    i <= tx.input@.len(),
                    t < txs@.len(),
                    *tx == txs@[t as int],
                    self.update == old(self).update,
                    self.pending == old(self).pending,
                    self.read_cache.capacities() == old(self).read_cache.capacities(),
                    cap == old(self).read_cache.capacities().1,
                    c0 == old(self).read_cache.tx_outs(),
                    n0 == old(self).read_cache.tx_out_count(),
                    room == (n0 + inputs_count(txs@) <= cap),
                    inputs_count(txs@.take(t + 1)) == inputs_count(txs@.take(t as int)) + tx.input@.len(),
                    inputs_count(txs@.take(t + 1)) <= inputs_count(txs@),
                    self.read_cache.tx_out_count() <= n0 + inputs_count(txs@.take(t as int)) + i,
                    forall|o: SerializedOutPoint|
                        #[trigger] self.read_cache.tx_outs().contains_key(o) ==> (old(
                            self,
                        ).read_cache.tx_outs().contains_key(o) && self.read_cache.tx_outs()[o]
                            == old(self).read_cache.tx_outs()[o]) || read_tx_out(db.chain@, db.mempool@, o, None)
                            == Some(self.read_cache.tx_outs()[o]),
                    room ==> forall|o: SerializedOutPoint|
                        #[trigger] c0.contains_key(o) ==> self.read_cache.tx_outs().contains_key(o)
                            && self.read_cache.tx_outs()[o] == c0[o],
                    room ==> forall|t2: int, i2: int|
                        0 <= t2 < txs@.len() && (t2 < t || (t2 == t && i2 < i)) && 0 <= i2
                            < txs@[t2].input@.len() && precached(
                            old(self).update@,
                            db.chain@,
                            db.mempool@,
                            #[trigger] txs@[t2].input@[i2].previous_output,
                        ) ==> self.read_cache.tx_outs().contains_key(txs@[t2].input@[i2].previous_output),
                decreases tx.input@.len() - i,
            {
                let o = tx.input[i].previous_output;
                let ghost before = self.read_cache.tx_outs();
                if o.vout != u32::MAX && !self.update.tx_outs.contains(&o) && !self.read_cache.contains_tx_out(&o) {
                    match db.get_tx_out(&o, None) {
                        Ok(e) => {
                            self.read_cache.insert_tx_out(o, e);
                            proof {
                                if room {
                                    assert(self.read_cache.tx_outs() == before.insert(o, e@));
                                }
                            }
                        },
                        Err(_) => {},
                    }
                }
                proof {
                    if room {
                        assert forall|t2: int, i2: int|
                            0 <= t2 < txs@.len() && (t2 < t || (t2 == t && i2 < i + 1)) && 0 <= i2
                                < txs@[t2].input@.len() && precached(
                                old(self).update@,
                                db.chain@,
                                db.mempool@,
                                #[trigger] txs@[t2].input@[i2].previous_output,
                            ) implies self.read_cache.tx_outs().contains_key(
                            txs@[t2].input@[i2].previous_output,
                        ) by {
                            if t2 == t && i2 == i {
                                assert(txs@[t2].input@[i2].previous_output == o);
                            } else {
                                assert(before.contains_key(txs@[t2].input@[i2].previous_output));
                            }
                        }
                    }
                }
                i = i + 1;
            }
            t = t + 1;
        }
    }

    /// Hands the current update to the writer: it becomes the newest pending batch, and a
    /// fresh update with the same counts, and the events recorded so far, takes its place.
    pub fn hand_to_writer(&mut self)
        ensures
            final(self).pending@.len() == old(self).pending@.len() + 1,
            final(self).pending@.drop_last() == old(self).pending@,
            final(self).pending@.last()@ == (IndexView { events: Seq::empty(), ..old(self).update@ }),
            final(self).update@ == (IndexView {
                events: old(self).update@.events,
                ..empty_batch(
                    old(self).update@.runes_count,
                    old(self).update@.block_count,
                    old(self).update@.purged_blocks_count,
                )
            }),
            final(self).read_cache == old(self).read_cache,
    {
        let mut events: Vec<Event> = Vec::new();
        std::mem::swap(&mut events, &mut self.update.events);
        let mut batch = IndexState::with_counts(
            self.update.runes_count,
            self.update.block_count,
            self.update.purged_blocks_count,
        );
        std::mem::swap(&mut batch, &mut self.update);
        self.pending.push(batch);
        self.update.events = events;
        assert(self.pending@.drop_last() =~= old(self).pending@);
        assert(self.pending@.last()@ =~= (IndexView { events: Seq::empty(), ..old(self).update@ }));
        assert(self.update@ =~= (IndexView {
            events: old(self).update@.events,
            ..empty_batch(
                old(self).update@.runes_count,
                old(self).update@.block_count,
                old(self).update@.purged_blocks_count,
            )
        }));
    }

    /// Forgets the `written` oldest pending batches, which the writer has written.
    pub fn forget_written(&mut self, written: usize)
        requires
            written <= old(self).pending@.len(),
        ensures
            final(self).pending@ == old(self).pending@.subrange(written as int, old(self).pending@.len() as int),
            final(self).update == old(self).update,
            final(self).read_cache == old(self).read_cache,
    {
        let kept = self.pending.split_off(written);
        self.pending = kept;
    }

    /// The events recorded so far, which are then forgotten.
    pub fn take_events(&mut self) -> (v: Vec<Event>)
        ensures
            v@ == old(self).update@.events,
            final(self).update@ == (IndexView { events: Seq::empty(), ..old(self).update@ }),
            final(self).pending == old(self).pending,
            final(self).read_cache == old(self).read_cache,
    {
        let mut v: Vec<Event> = Vec::new();
        std::mem::swap(&mut v, &mut self.update.events);
        assert(self.update@ =~= (IndexView { events: Seq::empty(), ..old(self).update@ }));
        v
    }
}

} // verus!
