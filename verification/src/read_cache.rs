use vstd::prelude::*;
use clru::CLruCache;
use std::num::NonZeroUsize;
use crate::parser::{TransactionData, TransactionView};
use crate::rune_entry::RuneEntry;
use crate::settings::ReadCacheSettings;
use crate::state_change::{TxOutEntry, TxOutEntryView};
use crate::types::{BlockHash, RuneId, SerializedOutPoint, Txid};

verus! {

/// clru's `CLruCache` of rune entries keyed by rune id (block and transaction), kept out of
/// Verus's sight; what it holds is named by `cached_runes`.
#[verifier::external_body]
pub struct RuneCache {
    cache: CLruCache<(u64, u32), RuneEntry>,
}

/// The rune entries a cache holds, by rune id (block and transaction).
pub uninterp spec fn cached_runes(c: RuneCache) -> Map<(u64, u32), RuneEntry>;

/// The number of rune entries a cache was made to hold at most, clru's `CLruCache::capacity`.
pub uninterp spec fn rune_capacity(c: RuneCache) -> nat;

/// A cache of rune entries made with clru's `CLruCache::new`, holding nothing.
#[verifier::external_body]
fn new_rune_cache(capacity: usize) -> (c: RuneCache)
    requires
        capacity > 0,
    ensures
        rune_capacity(c) == capacity,
        (cached_runes(c) == Map::<(u64, u32), RuneEntry>::empty()),
{
    RuneCache { cache: CLruCache::new(NonZeroUsize::new(capacity).unwrap()) }
}

/// clru's `CLruCache::get`: the entry of `k` when the cache holds it, the contents unchanged
/// (only the order of use moves).
#[verifier::external_body]
fn rune_cache_get(c: &mut RuneCache, k: (u64, u32)) -> (r: Option<RuneEntry>)
    ensures
        rune_capacity(*final(c)) == rune_capacity(*old(c)),
        cached_runes(*final(c)) == cached_runes(*old(c)),
        r == (if cached_runes(*old(c)).contains_key(k) {
            Some(cached_runes(*old(c))[k])
        } else {
            None
        }),
{
    c.cache.get(&k).copied()
}

/// clru's `CLruCache::put`: afterwards the cache holds `v` for `k`; any other entry it holds
/// it held before, unchanged (the least recently used one may have been dropped).
#[verifier::external_body]
fn rune_cache_put(c: &mut RuneCache, k: (u64, u32), v: RuneEntry)
    ensures
        rune_capacity(*final(c)) == rune_capacity(*old(c)),
        cached_runes(*final(c)).contains_key(k),
        cached_runes(*final(c))[k] == v,
        forall|x: (u64, u32)|
            #[trigger] cached_runes(*final(c)).contains_key(x) && x != k ==> cached_runes(
                *old(c),
            ).contains_key(x) && cached_runes(*final(c))[x] == cached_runes(*old(c))[x],
{
    c.cache.put(k, v);
}

/// clru's `CLruCache` of block hashes keyed by height, kept out of Verus's sight; what it
/// holds is named by `cached_block_hashes`.
#[verifier::external_body]
pub struct BlockHashCache {
    cache: CLruCache<u64, BlockHash>,
}

/// The block hashes a cache holds, by height.
pub uninterp spec fn cached_block_hashes(c: BlockHashCache) -> Map<u64, BlockHash>;

/// The number of block hashes a cache was made to hold at most, clru's `CLruCache::capacity`.
pub uninterp spec fn block_hash_capacity(c: BlockHashCache) -> nat;

/// A cache of block hashes made with clru's `CLruCache::new`, holding nothing.
#[verifier::external_body]
fn new_block_hash_cache(capacity: usize) -> (c: BlockHashCache)
    requires
        capacity > 0,
    ensures
        block_hash_capacity(c) == capacity,
        (cached_block_hashes(c) == Map::<u64, BlockHash>::empty()),
{
    BlockHashCache { cache: CLruCache::new(NonZeroUsize::new(capacity).unwrap()) }
}

/// clru's `CLruCache::get`: the hash at height `k` when the cache holds it, the contents
/// unchanged (only the order of use moves).
#[verifier::external_body]
fn block_hash_cache_get(c: &mut BlockHashCache, k: u64) -> (r: Option<BlockHash>)
    ensures
        block_hash_capacity(*final(c)) == block_hash_capacity(*old(c)),
        cached_block_hashes(*final(c)) == cached_block_hashes(*old(c)),
        r == (if cached_block_hashes(*old(c)).contains_key(k) {
            Some(cached_block_hashes(*old(c))[k])
        } else {
            None
        }),
{
    c.cache.get(&k).copied()
}

/// clru's `CLruCache::put`: afterwards the cache holds `v` for `k`; any other entry it holds
/// it held before, unchanged (the least recently used one may have been dropped).
#[verifier::external_body]
fn block_hash_cache_put(c: &mut BlockHashCache, k: u64, v: BlockHash)
    ensures
        block_hash_capacity(*final(c)) == block_hash_capacity(*old(c)),
        cached_block_hashes(*final(c)).contains_key(k),
        cached_block_hashes(*final(c))[k] == v,
        forall|x: u64|
            #[trigger] cached_block_hashes(*final(c)).contains_key(x) && x != k ==> cached_block_hashes(
                *old(c),
            ).contains_key(x) && cached_block_hashes(*final(c))[x] == cached_block_hashes(*old(c))[x],
{
    c.cache.put(k, v);
}

/// clru's `CLruCache` of rune ids keyed by rune name, kept out of Verus's sight; what it holds
/// is named by `cached_rune_ids`.
#[verifier::external_body]
pub struct RuneIdCache {
    cache: CLruCache<u128, RuneId>,
}

/// The rune ids a cache holds, by rune name.
pub uninterp spec fn cached_rune_ids(c: RuneIdCache) -> Map<u128, RuneId>;

/// The number of rune ids a cache was made to hold at most, clru's `CLruCache::capacity`.
pub uninterp spec fn rune_id_capacity(c: RuneIdCache) -> nat;

/// A cache of rune ids made with clru's `CLruCache::new`, holding nothing.
#[verifier::external_body]
fn new_rune_id_cache(capacity: usize) -> (c: RuneIdCache)
    requires
        capacity > 0,
    ensures
        rune_id_capacity(c) == capacity,
        (cached_rune_ids(c) == Map::<u128, RuneId>::empty()),
{
    RuneIdCache { cache: CLruCache::new(NonZeroUsize::new(capacity).unwrap()) }
}

/// clru's `CLruCache::get`: the id of rune `k` when the cache holds it, the contents
/// unchanged (only the order of use moves).
#[verifier::external_body]
fn rune_id_cache_get(c: &mut RuneIdCache, k: u128) -> (r: Option<RuneId>)
    ensures
        rune_id_capacity(*final(c)) == rune_id_capacity(*old(c)),
        cached_rune_ids(*final(c)) == cached_rune_ids(*old(c)),
        r == (if cached_rune_ids(*old(c)).contains_key(k) {
            Some(cached_rune_ids(*old(c))[k])
        } else {
            None
        }),
{
    c.cache.get(&k).copied()
}

/// clru's `CLruCache::put`: afterwards the cache holds `v` for `k`; any other entry it holds
/// it held before, unchanged (the least recently used one may have been dropped).
#[verifier::external_body]
fn rune_id_cache_put(c: &mut RuneIdCache, k: u128, v: RuneId)
    ensures
        rune_id_capacity(*final(c)) == rune_id_capacity(*old(c)),
        cached_rune_ids(*final(c)).contains_key(k),
        cached_rune_ids(*final(c))[k] == v,
        forall|x: u128|
            #[trigger] cached_rune_ids(*final(c)).contains_key(x) && x != k ==> cached_rune_ids(
                *old(c),
            ).contains_key(x) && cached_rune_ids(*final(c))[x] == cached_rune_ids(*old(c))[x],
{
    c.cache.put(k, v);
}

/// clru's `CLruCache` of output entries keyed by outpoint (transaction id bytes and output
/// index), kept out of Verus's sight; what it holds is named by `cached_tx_outs`.
#[verifier::external_body]
pub struct TxOutCache {
    cache: CLruCache<([u8; 32], u32), TxOutEntry>,
}

/// The output entries a cache holds, by outpoint.
pub uninterp spec fn cached_tx_outs(c: TxOutCache) -> Map<([u8; 32], u32), TxOutEntryView>;

/// The number of output entries a cache was made to hold at most, clru's `CLruCache::capacity`.
pub uninterp spec fn tx_out_capacity(c: TxOutCache) -> nat;

/// A cache of output entries made with clru's `CLruCache::new`, holding nothing.
#[verifier::external_body]
fn new_tx_out_cache(capacity: usize) -> (c: TxOutCache)
    requires
        capacity > 0,
    ensures
        tx_out_capacity(c) == capacity,
        (cached_tx_outs(c) == Map::<([u8; 32], u32), TxOutEntryView>::empty()),
{
    TxOutCache { cache: CLruCache::new(NonZeroUsize::new(capacity).unwrap()) }
}

/// clru's `CLruCache::get`, the entry copied: the entry of `k` when the cache holds it, the
/// contents unchanged (only the order of use moves).
#[verifier::external_body]
fn tx_out_cache_get(c: &mut TxOutCache, k: ([u8; 32], u32)) -> (r: Option<TxOutEntry>)
    ensures
        tx_out_capacity(*final(c)) == tx_out_capacity(*old(c)),
        cached_tx_outs(*final(c)) == cached_tx_outs(*old(c)),
        r is Some == cached_tx_outs(*old(c)).contains_key(k),
        r matches Some(e) ==> e@ == cached_tx_outs(*old(c))[k],
{
    c.cache.get(&k).map(|e| e.duplicate())
}

/// clru's `CLruCache::contains`: whether the cache holds an entry for `k`; the order of use
/// does not move.
#[verifier::external_body]
fn tx_out_cache_contains(c: &TxOutCache, k: ([u8; 32], u32)) -> (b: bool)
    ensures
        b == cached_tx_outs(*c).contains_key(k),
{
    c.cache.contains(&k)
}

/// clru's `CLruCache::put`: afterwards the cache holds `v` for `k`; any other entry it holds
/// it held before, unchanged. Only when `k` is new and the cache is full is an entry (the
/// least recently used one) dropped, so the number of entries grows by one at most.
#[verifier::external_body]
fn tx_out_cache_put(c: &mut TxOutCache, k: ([u8; 32], u32), v: TxOutEntry)
    ensures
        cached_tx_outs(*final(c)).dom().len() <= cached_tx_outs(*old(c)).dom().len() + 1,
        (cached_tx_outs(*old(c)).contains_key(k) || cached_tx_outs(*old(c)).dom().len()
            < tx_out_capacity(*old(c))) ==> (cached_tx_outs(*final(c)) == cached_tx_outs(
            *old(c),
        ).insert(k, v@)),
        tx_out_capacity(*final(c)) == tx_out_capacity(*old(c)),
        cached_tx_outs(*final(c)).contains_key(k),
        cached_tx_outs(*final(c))[k] == v@,
        forall|x: ([u8; 32], u32)|
            #[trigger] cached_tx_outs(*final(c)).contains_key(x) && x != k ==> cached_tx_outs(
                *old(c),
            ).contains_key(x) && cached_tx_outs(*final(c))[x] == cached_tx_outs(*old(c))[x],
{
    c.cache.put(k, v);
}

/// clru's `CLruCache` of transactions keyed by transaction id bytes, kept out of Verus's
/// sight; what it holds is named by `cached_transactions`.
#[verifier::external_body]
pub struct TransactionCache {
    cache: CLruCache<[u8; 32], TransactionData>,
}

/// The transactions a cache holds, by id.
pub uninterp spec fn cached_transactions(c: TransactionCache) -> Map<[u8; 32], TransactionView>;

/// The number of transactions a cache was made to hold at most, clru's `CLruCache::capacity`.
pub uninterp spec fn transaction_capacity(c: TransactionCache) -> nat;

/// A cache of transactions made with clru's `CLruCache::new`, holding nothing.
#[verifier::external_body]
fn new_transaction_cache(capacity: usize) -> (c: TransactionCache)
    requires
        capacity > 0,
    ensures
        transaction_capacity(c) == capacity,
        (cached_transactions(c) == Map::<[u8; 32], TransactionView>::empty()),
{
    TransactionCache { cache: CLruCache::new(NonZeroUsize::new(capacity).unwrap()) }
}

/// clru's `CLruCache::get`, the transaction copied: the transaction `k` when the cache holds
/// it, the contents unchanged (only the order of use moves).
#[verifier::external_body]
fn transaction_cache_get(c: &mut TransactionCache, k: [u8; 32]) -> (r: Option<TransactionData>)
    ensures
        transaction_capacity(*final(c)) == transaction_capacity(*old(c)),
        cached_transactions(*final(c)) == cached_transactions(*old(c)),
        r is Some == cached_transactions(*old(c)).contains_key(k),
        r matches Some(t) ==> t@ == cached_transactions(*old(c))[k],
{
    c.cache.get(&k).map(|t| t.duplicate())
}

/// clru's `CLruCache::put`: afterwards the cache holds `v` for `k`; any other entry it holds
/// it held before, unchanged (the least recently used one may have been dropped).
#[verifier::external_body]
fn transaction_cache_put(c: &mut TransactionCache, k: [u8; 32], v: TransactionData)
    ensures
        transaction_capacity(*final(c)) == transaction_capacity(*old(c)),
        cached_transactions(*final(c)).contains_key(k),
        cached_transactions(*final(c))[k] == v@,
        forall|x: [u8; 32]|
            #[trigger] cached_transactions(*final(c)).contains_key(x) && x != k ==> cached_transactions(
                *old(c),
            ).contains_key(x) && cached_transactions(*final(c))[x] == cached_transactions(*old(c))[x],
{
    c.cache.put(k, v);
}

/// `n`, or one for zero: the capacity a segment gets from a setting.
pub open spec fn at_least_one(n: usize) -> nat {
    if n == 0 {
        1
    } else {
        n as nat
    }
}

/// Recently read values of the index, each segment holding at most as many entries as its
/// capacity.
pub struct ReadCache {
    block_hashes: BlockHashCache,
    txouts: TxOutCache,
    transactions: TransactionCache,
    runes: RuneCache,
    rune_ids: RuneIdCache,
}

impl ReadCache {
    /// A cache holding nothing, each segment with the capacity of the settings (one for
    /// zero). Blocks are not cached here.
    pub fn with_settings(settings: ReadCacheSettings) -> (c: ReadCache)
        ensures
            c.block_hashes() == Map::<u64, BlockHash>::empty(),
            c.tx_outs() == Map::<SerializedOutPoint, TxOutEntryView>::empty(),
            c.transactions() == Map::<Txid, TransactionView>::empty(),
            c.runes() == Map::<RuneId, RuneEntry>::empty(),
            c.rune_ids() == Map::<u128, RuneId>::empty(),
            c.capacities() == (
                at_least_one(settings.block_hashes),
                at_least_one(settings.txouts),
                at_least_one(settings.transactions),
                at_least_one(settings.runes),
                at_least_one(settings.rune_ids),
            ),
            c.tx_out_count() == 0,
    {
        let block_hashes = if settings.block_hashes == 0 { 1 } else { settings.block_hashes };
        let txouts = if settings.txouts == 0 { 1 } else { settings.txouts };
        let transactions = if settings.transactions == 0 { 1 } else { settings.transactions };
        let runes = if settings.runes == 0 { 1 } else { settings.runes };
        let rune_ids = if settings.rune_ids == 0 { 1 } else { settings.rune_ids };
        let c = ReadCache {
            block_hashes: new_block_hash_cache(block_hashes),
            txouts: new_tx_out_cache(txouts),
            transactions: new_transaction_cache(transactions),
            runes: new_rune_cache(runes),
            rune_ids: new_rune_id_cache(rune_ids),
        };
        assert(c.block_hashes() =~= Map::<u64, BlockHash>::empty());
        assert(c.tx_outs() =~= Map::<SerializedOutPoint, TxOutEntryView>::empty());
        assert(c.transactions() =~= Map::<Txid, TransactionView>::empty());
        assert(c.runes() =~= Map::<RuneId, RuneEntry>::empty());
        assert(c.rune_ids() =~= Map::<u128, RuneId>::empty());
        c
    }

    /// A cache holding nothing, with the default capacities.
    pub fn new() -> (c: ReadCache)
        ensures
            c.block_hashes() == Map::<u64, BlockHash>::empty(),
            c.tx_outs() == Map::<SerializedOutPoint, TxOutEntryView>::empty(),
            c.transactions() == Map::<Txid, TransactionView>::empty(),
            c.runes() == Map::<RuneId, RuneEntry>::empty(),
            c.rune_ids() == Map::<u128, RuneId>::empty(),
    {
        ReadCache::with_settings(ReadCacheSettings::default())
    }

    /// The block hashes the cache holds, by height.
    pub closed spec fn block_hashes(&self) -> Map<u64, BlockHash> {
        cached_block_hashes(self.block_hashes)
    }

    /// The output entries the cache holds, by outpoint.
    pub closed spec fn tx_outs(&self) -> Map<SerializedOutPoint, TxOutEntryView> {
        Map::new(
            |o: SerializedOutPoint| cached_tx_outs(self.txouts).contains_key((o.txid.bytes, o.vout)),
            |o: SerializedOutPoint| cached_tx_outs(self.txouts)[(o.txid.bytes, o.vout)],
        )
    }

    /// The transactions the cache holds, by id.
    pub closed spec fn transactions(&self) -> Map<Txid, TransactionView> {
        Map::new(
            |t: Txid| cached_transactions(self.transactions).contains_key(t.bytes),
            |t: Txid| cached_transactions(self.transactions)[t.bytes],
        )
    }

    /// The rune ids the cache holds, by rune name.
    pub closed spec fn rune_ids(&self) -> Map<u128, RuneId> {
        cached_rune_ids(self.rune_ids)
    }

    /// The entry of output `outpoint`, when the cache holds it.
    pub fn get_tx_out(&mut self, outpoint: &SerializedOutPoint) -> (r: Option<TxOutEntry>)
        ensures
            final(self).capacities() == old(self).capacities(),
            final(self).tx_out_count() == old(self).tx_out_count(),
            final(self).segments() == old(self).segments(),
            r is Some == old(self).tx_outs().contains_key(*outpoint),
            r matches Some(e) ==> e@ == old(self).tx_outs()[*outpoint],
    {
        let r = tx_out_cache_get(&mut self.txouts, (outpoint.txid.bytes, outpoint.vout));
        assert(self.tx_outs() =~= old(self).tx_outs());
        r
    }

    /// Keeps `tx_out` as the entry of `outpoint`; another entry may make room for it.
    pub fn insert_tx_out(&mut self, outpoint: SerializedOutPoint, tx_out: TxOutEntry)
        ensures
            final(self).capacities() == old(self).capacities(),
            final(self).tx_out_count() <= old(self).tx_out_count() + 1,
            (old(self).tx_outs().contains_key(outpoint) || old(self).tx_out_count()
                < old(self).capacities().1) ==> final(self).tx_outs() == old(self).tx_outs().insert(
                outpoint,
                tx_out@,
            ),
            final(self).block_hashes() == old(self).block_hashes(),
            final(self).transactions() == old(self).transactions(),
            final(self).runes() == old(self).runes(),
            final(self).rune_ids() == old(self).rune_ids(),
            final(self).tx_outs().contains_key(outpoint),
            final(self).tx_outs()[outpoint] == tx_out@,
            forall|o: SerializedOutPoint|
                #[trigger] final(self).tx_outs().contains_key(o) && o != outpoint ==> old(
                    self,
                ).tx_outs().contains_key(o) && final(self).tx_outs()[o] == old(self).tx_outs()[o],
    {
        let ghost v = tx_out@;
        tx_out_cache_put(&mut self.txouts, (outpoint.txid.bytes, outpoint.vout), tx_out);
        proof {
            if old(self).tx_outs().contains_key(outpoint) || old(self).tx_out_count() < old(self).capacities().1 {
            assert forall|o: SerializedOutPoint| #[trigger] self.tx_outs().contains_key(o)
                == old(self).tx_outs().insert(outpoint, v).contains_key(o) by {
                if (o.txid.bytes, o.vout) == (outpoint.txid.bytes, outpoint.vout) {
                    crate::types::lemma_txid_view_injective(o.txid, outpoint.txid);
                }
            }
            assert(self.tx_outs() =~= old(self).tx_outs().insert(outpoint, v));
            }
        }
        assert forall|o: SerializedOutPoint|
            #[trigger] self.tx_outs().contains_key(o) && o != outpoint implies old(
                self,
            ).tx_outs().contains_key(o) && self.tx_outs()[o] == old(self).tx_outs()[o] by {
            if (o.txid.bytes, o.vout) == (outpoint.txid.bytes, outpoint.vout) {
                crate::types::lemma_txid_view_injective(o.txid, outpoint.txid);
            }
        }
    }

    /// Whether the cache holds an entry for `outpoint`.
    pub fn contains_tx_out(&self, outpoint: &SerializedOutPoint) -> (b: bool)
        ensures
            b == self.tx_outs().contains_key(*outpoint),
    {
        tx_out_cache_contains(&self.txouts, (outpoint.txid.bytes, outpoint.vout))
    }

    /// The hash of the block at `height`, when the cache holds it.
    pub fn get_block_hash(&mut self, height: &u64) -> (r: Option<BlockHash>)
        ensures
            final(self).capacities() == old(self).capacities(),
            final(self).tx_out_count() == old(self).tx_out_count(),
            final(self).segments() == old(self).segments(),
            r == (if old(self).block_hashes().contains_key(*height) {
                Some(old(self).block_hashes()[*height])
            } else {
                None
            }),
    {
        block_hash_cache_get(&mut self.block_hashes, *height)
    }

    /// Keeps `hash` as the hash of the block at `height`; another entry may make room for it.
    pub fn insert_block_hash(&mut self, height: u64, hash: BlockHash)
        ensures
            final(self).capacities() == old(self).capacities(),
            final(self).tx_out_count() == old(self).tx_out_count(),
            final(self).tx_outs() == old(self).tx_outs(),
            final(self).transactions() == old(self).transactions(),
            final(self).runes() == old(self).runes(),
            final(self).rune_ids() == old(self).rune_ids(),
            final(self).block_hashes().contains_key(height),
            final(self).block_hashes()[height] == hash,
            forall|h: u64|
                #[trigger] final(self).block_hashes().contains_key(h) && h != height ==> old(
                    self,
                ).block_hashes().contains_key(h) && final(self).block_hashes()[h] == old(
                    self,
                ).block_hashes()[h],
    {
        block_hash_cache_put(&mut self.block_hashes, height, hash);
    }

    /// The transaction `txid`, when the cache holds it.
    pub fn get_transaction(&mut self, txid: &Txid) -> (r: Option<TransactionData>)
        ensures
            final(self).capacities() == old(self).capacities(),
            final(self).tx_out_count() == old(self).tx_out_count(),
            final(self).segments() == old(self).segments(),
            r is Some == old(self).transactions().contains_key(*txid),
            r matches Some(t) ==> t@ == old(self).transactions()[*txid],
    {
        let r = transaction_cache_get(&mut self.transactions, txid.bytes);
        assert(self.transactions() =~= old(self).transactions());
        r
    }

    /// Keeps transaction `tx` under `txid`; another entry may make room for it.
    pub fn insert_transaction(&mut self, txid: Txid, tx: TransactionData)
        ensures
            final(self).capacities() == old(self).capacities(),
            final(self).tx_out_count() == old(self).tx_out_count(),
            final(self).block_hashes() == old(self).block_hashes(),
            final(self).tx_outs() == old(self).tx_outs(),
            final(self).runes() == old(self).runes(),
            final(self).rune_ids() == old(self).rune_ids(),
            final(self).transactions().contains_key(txid),
            final(self).transactions()[txid] == tx@,
            forall|t: Txid|
                #[trigger] final(self).transactions().contains_key(t) && t != txid ==> old(
                    self,
                ).transactions().contains_key(t) && final(self).transactions()[t] == old(
                    self,
                ).transactions()[t],
    {
        transaction_cache_put(&mut self.transactions, txid.bytes, tx);
        assert forall|t: Txid|
            #[trigger] self.transactions().contains_key(t) && t != txid implies old(
                self,
            ).transactions().contains_key(t) && self.transactions()[t] == old(self).transactions()[t] by {
            if t.bytes == txid.bytes {
                crate::types::lemma_txid_view_injective(t, txid);
            }
        }
    }

    /// The id of rune `raw`, when the cache holds it.
    pub fn get_rune_id(&mut self, raw: &u128) -> (r: Option<RuneId>)
        ensures
            final(self).capacities() == old(self).capacities(),
            final(self).tx_out_count() == old(self).tx_out_count(),
            final(self).segments() == old(self).segments(),
            r == (if old(self).rune_ids().contains_key(*raw) {
                Some(old(self).rune_ids()[*raw])
            } else {
                None
            }),
    {
        rune_id_cache_get(&mut self.rune_ids, *raw)
    }

    /// Keeps `rune_id` as the id of rune `raw`; another entry may make room for it.
    pub fn insert_rune_id(&mut self, raw: u128, rune_id: RuneId)
        ensures
            final(self).capacities() == old(self).capacities(),
            final(self).tx_out_count() == old(self).tx_out_count(),
            final(self).block_hashes() == old(self).block_hashes(),
            final(self).tx_outs() == old(self).tx_outs(),
            final(self).transactions() == old(self).transactions(),
            final(self).runes() == old(self).runes(),
            final(self).rune_ids().contains_key(raw),
            final(self).rune_ids()[raw] == rune_id,
            forall|r: u128|
                #[trigger] final(self).rune_ids().contains_key(r) && r != raw ==> old(
                    self,
                ).rune_ids().contains_key(r) && final(self).rune_ids()[r] == old(self).rune_ids()[r],
    {
        rune_id_cache_put(&mut self.rune_ids, raw, rune_id);
    }
    /// The rune entries the cache holds, by rune id.
    pub closed spec fn runes(&self) -> Map<RuneId, RuneEntry> {
        Map::new(
            |id: RuneId| cached_runes(self.runes).contains_key((id.block, id.tx)),
            |id: RuneId| cached_runes(self.runes)[(id.block, id.tx)],
        )
    }

    /// The number of entries each segment holds at most: block hashes, output entries,
    /// transactions, rune entries, rune ids.
    pub closed spec fn capacities(&self) -> (nat, nat, nat, nat, nat) {
        (
            block_hash_capacity(self.block_hashes),
            tx_out_capacity(self.txouts),
            transaction_capacity(self.transactions),
            rune_capacity(self.runes),
            rune_id_capacity(self.rune_ids),
        )
    }

    /// The number of output entries the cache holds.
    pub closed spec fn tx_out_count(&self) -> nat {
        cached_tx_outs(self.txouts).dom().len()
    }

    /// The five segments of the cache: block hashes, output entries, transactions, rune
    /// entries and rune ids.
    pub open spec fn segments(&self) -> (
        Map<u64, BlockHash>,
        Map<SerializedOutPoint, TxOutEntryView>,
        Map<Txid, TransactionView>,
        Map<RuneId, RuneEntry>,
        Map<u128, RuneId>,
    ) {
        (self.block_hashes(), self.tx_outs(), self.transactions(), self.runes(), self.rune_ids())
    }

    /// The entry of `rune_id`, when the cache holds it.
    pub fn get_rune(&mut self, rune_id: &RuneId) -> (r: Option<RuneEntry>)
        ensures
            final(self).capacities() == old(self).capacities(),
            final(self).tx_out_count() == old(self).tx_out_count(),
            final(self).segments() == old(self).segments(),
            r == (if old(self).runes().contains_key(*rune_id) {
                Some(old(self).runes()[*rune_id])
            } else {
                None
            }),
    {
        let r = rune_cache_get(&mut self.runes, (rune_id.block, rune_id.tx));
        assert(self.runes() =~= old(self).runes());
        r
    }

    /// Keeps `rune` as the entry of `rune_id`; another entry may make room for it.
    pub fn insert_rune(&mut self, rune_id: RuneId, rune: RuneEntry)
        ensures
            final(self).capacities() == old(self).capacities(),
            final(self).tx_out_count() == old(self).tx_out_count(),
            final(self).block_hashes() == old(self).block_hashes(),
            final(self).tx_outs() == old(self).tx_outs(),
            final(self).transactions() == old(self).transactions(),
            final(self).rune_ids() == old(self).rune_ids(),
            final(self).runes().contains_key(rune_id),
            final(self).runes()[rune_id] == rune,
            forall|id: RuneId|
                #[trigger] final(self).runes().contains_key(id) && id != rune_id ==> old(
                    self,
                ).runes().contains_key(id) && final(self).runes()[id] == old(self).runes()[id],
    {
        rune_cache_put(&mut self.runes, (rune_id.block, rune_id.tx), rune);
        assert forall|id: RuneId|
            #[trigger] self.runes().contains_key(id) && id != rune_id implies old(
                self,
            ).runes().contains_key(id) && self.runes()[id] == old(self).runes()[id] by {
            assert((id.block, id.tx) != (rune_id.block, rune_id.tx));
        }
    }
}

} // verus!
