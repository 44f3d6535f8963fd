use vstd::prelude::*;
use crate::address::SpenderReference;
use crate::parse::{is_coinbase, spec_is_coinbase};
use crate::parser::{TransactionData, TransactionView};
use crate::rune_entry::RuneEntry;
use crate::state_change::{
    TransactionStateChange, TransactionStateChangeView, TxOutEntry, TxOutEntryView,
};
use crate::table::Table;
use crate::txid_set::TxidSet;
use crate::tx_updater::StoreError;
use crate::types::{BlockHash, RuneId, SerializedOutPoint, Txid};

verus! {

impl View for RuneEntry {
    type V = RuneEntry;

    open spec fn view(&self) -> RuneEntry {
        *self
    }
}

/// A block by its hash and height.
#[derive(Clone, Copy, Debug)]
pub struct BlockId {
    pub hash: BlockHash,
    pub height: u64,
}

impl View for BlockId {
    type V = BlockId;

    open spec fn view(&self) -> BlockId {
        *self
    }
}

/// Whether a transaction is confirmed, and if so the height and hash of its block.
#[derive(Clone, Copy, Debug)]
pub struct TransactionStatus {
    pub confirmed: bool,
    pub block_height: Option<u64>,
    pub block_hash: Option<BlockHash>,
}

/// The status of a transaction confirmed in block `b`.
pub open spec fn confirmed_status(b: BlockId) -> TransactionStatus {
    TransactionStatus { confirmed: true, block_height: Some(b.height), block_hash: Some(b.hash) }
}

/// The status of a transaction that no block confirms.
pub open spec fn unconfirmed_status() -> TransactionStatus {
    TransactionStatus { confirmed: false, block_height: None, block_hash: None }
}

impl TransactionStatus {
    /// The status of a transaction that no block confirms.
    pub fn unconfirmed() -> (s: TransactionStatus)
        ensures
            s == unconfirmed_status(),
    {
        TransactionStatus { confirmed: false, block_height: None, block_hash: None }
    }
}

impl BlockId {
    /// The status of a transaction that this block confirms.
    pub fn into_transaction_status(self) -> (s: TransactionStatus)
        ensures
            s == confirmed_status(self),
    {
        TransactionStatus { confirmed: true, block_height: Some(self.height), block_hash: Some(self.hash) }
    }
}

/// The status of a transaction confirmed in the block given, or unconfirmed for none.
pub fn block_id_to_transaction_status(block_id: Option<&BlockId>) -> (s: Option<TransactionStatus>)
    ensures
        s == Some(
            match block_id {
                Some(b) => confirmed_status(*b),
                None => unconfirmed_status(),
            },
        ),
{
    match block_id {
        Some(b) => Some(b.into_transaction_status()),
        None => Some(TransactionStatus::unconfirmed()),
    }
}

/// Where something happened: in the mempool, or in the block at a height.
#[derive(Clone, Copy, Debug)]
pub enum Location {
    Mempool,
    Block(u64),
}

/// The location of a block height, the mempool for none.
pub open spec fn location_of(height: Option<u64>) -> Location {
    match height {
        Some(h) => Location::Block(h),
        None => Location::Mempool,
    }
}

impl Location {
    /// The location of a block height, the mempool for none.
    pub fn from_height(height: Option<u64>) -> (l: Location)
        ensures
            l == location_of(height),
    {
        match height {
            Some(h) => Location::Block(h),
            None => Location::Mempool,
        }
    }
}

/// What indexing a transaction tells subscribers.
#[derive(Clone, Copy, Debug)]
pub enum Event {
    RuneEtched { location: Location, txid: Txid, rune_id: RuneId },
    RuneBurned { location: Location, txid: Txid, amount: u128, rune_id: RuneId },
    RuneMinted { location: Location, txid: Txid, amount: u128, rune_id: RuneId },
    RuneTransferred {
        location: Location,
        txid: Txid,
        outpoint: SerializedOutPoint,
        rune_id: RuneId,
        amount: u128,
    },
}

/// The tables of the index that indexing a transaction reads and writes, on the side of the
/// chain or of the mempool, with the events it raised.
pub struct IndexState {
    pub runes: Table<RuneId, RuneEntry>,
    pub rune_ids: Table<u128, RuneId>,
    pub rune_numbers: Table<u64, RuneId>,
    pub runes_count: u64,
    pub tx_outs: Table<SerializedOutPoint, TxOutEntry>,
    pub tx_state_changes: Table<Txid, TransactionStateChange>,
    pub rune_transactions: Table<RuneId, Vec<Txid>>,
    pub confirming_blocks: Table<Txid, BlockId>,
    pub transactions: Table<Txid, TransactionData>,
    /// The locking script of each output, for the address index.
    pub outpoint_scripts: Table<SerializedOutPoint, Vec<u8>>,
    /// The unspent outputs of each locking script.
    pub script_utxos: Table<Vec<u8>, Vec<SerializedOutPoint>>,
    /// The outputs spent by transactions in the mempool, with what spends them.
    pub spent_in_mempool: Table<SerializedOutPoint, SpenderReference>,
    pub events: Vec<Event>,
    /// The number of blocks indexed.
    pub block_count: u64,
    /// The number of blocks whose records are purged.
    pub purged_blocks_count: u64,
    /// The hash of each indexed block, by height.
    pub block_hashes: Table<u64, BlockHash>,
    /// The transactions recorded as in the mempool.
    pub mempool_txs: TxidSet,
}

/// The tables of the index as maps: rune entries by id, rune ids by name and by number, the
/// number of runes, output entries by outpoint, state changes, rune transactions, confirming
/// blocks and transactions by transaction id, the events raised, the block and purged-block
/// counts, the block hashes by height, and the transactions in the mempool.
#[verifier::ext_equal]
pub struct IndexView {
    pub runes: Map<RuneId, RuneEntry>,
    pub rune_ids: Map<u128, RuneId>,
    pub rune_numbers: Map<u64, RuneId>,
    pub runes_count: u64,
    pub tx_outs: Map<SerializedOutPoint, TxOutEntryView>,
    pub tx_state_changes: Map<Seq<u8>, TransactionStateChangeView>,
    pub rune_transactions: Map<RuneId, Seq<Txid>>,
    pub confirming_blocks: Map<Seq<u8>, BlockId>,
    pub transactions: Map<Seq<u8>, TransactionView>,
    pub outpoint_scripts: Map<SerializedOutPoint, Seq<u8>>,
    pub script_utxos: Map<Seq<u8>, Seq<SerializedOutPoint>>,
    pub spent_in_mempool: Map<SerializedOutPoint, SpenderReference>,
    pub events: Seq<Event>,
    pub block_count: u64,
    pub purged_blocks_count: u64,
    pub block_hashes: Map<u64, Seq<u8>>,
    pub mempool_txs: Set<Txid>,
}

impl View for IndexState {
    type V = IndexView;

    open spec fn view(&self) -> IndexView {
        IndexView {
            runes: self.runes@,
            rune_ids: self.rune_ids@,
            rune_numbers: self.rune_numbers@,
            runes_count: self.runes_count,
            tx_outs: self.tx_outs@,
            tx_state_changes: self.tx_state_changes@,
            rune_transactions: self.rune_transactions@,
            confirming_blocks: self.confirming_blocks@,
            transactions: self.transactions@,
            outpoint_scripts: self.outpoint_scripts@,
            script_utxos: self.script_utxos@,
            spent_in_mempool: self.spent_in_mempool@,
            events: self.events@,
            block_count: self.block_count,
            purged_blocks_count: self.purged_blocks_count,
            block_hashes: self.block_hashes@,
            mempool_txs: self.mempool_txs@,
        }
    }
}

/// The rune transactions after the lists of `u` are appended to those of `m`, rune by rune.
pub open spec fn append_rune_transactions(
    m: Map<RuneId, Seq<Txid>>,
    u: Map<RuneId, Seq<Txid>>,
) -> Map<RuneId, Seq<Txid>> {
    Map::new(
        |id: RuneId| m.contains_key(id) || u.contains_key(id),
        |id: RuneId|
            if u.contains_key(id) {
                (if m.contains_key(id) {
                    m[id]
                } else {
                    Seq::empty()
                }) + u[id]
            } else {
                m[id]
            },
    )
}

/// What a batch of updates does to the tables: each entry of `u` replaces the one of the same
/// key, the rune transactions of `u` are appended, and outside the mempool the count of runes
/// becomes that of `u`. The events of the batch are not stored.
pub open spec fn updated(s: IndexView, u: IndexView, mempool: bool) -> IndexView {
    IndexView {
        runes: s.runes.union_prefer_right(u.runes),
        rune_ids: s.rune_ids.union_prefer_right(u.rune_ids),
        rune_numbers: s.rune_numbers.union_prefer_right(u.rune_numbers),
        runes_count: if mempool {
            s.runes_count
        } else {
            u.runes_count
        },
        tx_outs: s.tx_outs.union_prefer_right(u.tx_outs),
        tx_state_changes: s.tx_state_changes.union_prefer_right(u.tx_state_changes),
        rune_transactions: append_rune_transactions(s.rune_transactions, u.rune_transactions),
        confirming_blocks: s.confirming_blocks.union_prefer_right(u.confirming_blocks),
        transactions: s.transactions.union_prefer_right(u.transactions),
        outpoint_scripts: s.outpoint_scripts.union_prefer_right(u.outpoint_scripts),
        script_utxos: s.script_utxos.union_prefer_right(u.script_utxos),
        spent_in_mempool: s.spent_in_mempool.union_prefer_right(u.spent_in_mempool),
        events: s.events,
        block_count: if mempool {
            s.block_count
        } else {
            u.block_count
        },
        purged_blocks_count: if mempool {
            s.purged_blocks_count
        } else {
            u.purged_blocks_count
        },
        block_hashes: s.block_hashes.union_prefer_right(u.block_hashes),
        mempool_txs: s.mempool_txs.union(u.mempool_txs),
    }
}

/// Keys to delete from the tables.
pub struct BatchDelete {
    pub tx_outs: Vec<SerializedOutPoint>,
    pub tx_state_changes: Vec<Txid>,
    pub script_pubkeys_outpoints: Vec<SerializedOutPoint>,
    pub spent_outpoints_in_mempool: Vec<SerializedOutPoint>,
}

impl BatchDelete {
    /// Nothing to delete.
    pub fn new() -> (d: BatchDelete)
        ensures
            d.is_empty_spec(),
    {
        BatchDelete {
            tx_outs: Vec::new(),
            tx_state_changes: Vec::new(),
            script_pubkeys_outpoints: Vec::new(),
            spent_outpoints_in_mempool: Vec::new(),
        }
    }

    /// Whether nothing is to be deleted.
    pub open spec fn is_empty_spec(&self) -> bool {
        &&& self.tx_outs@.len() == 0
        &&& self.tx_state_changes@.len() == 0
        &&& self.script_pubkeys_outpoints@.len() == 0
        &&& self.spent_outpoints_in_mempool@.len() == 0
    }

    /// Whether nothing is to be deleted.
    pub fn is_empty(&self) -> (b: bool)
        ensures
            b == self.is_empty_spec(),
    {
        self.tx_outs.len() == 0 && self.tx_state_changes.len() == 0
            && self.script_pubkeys_outpoints.len() == 0 && self.spent_outpoints_in_mempool.len() == 0
    }

    /// Forgets everything to be deleted.
    pub fn clear(&mut self)
        ensures
            final(self).is_empty_spec(),
    {
        self.tx_outs.clear();
        self.tx_state_changes.clear();
        self.script_pubkeys_outpoints.clear();
        self.spent_outpoints_in_mempool.clear();
    }
}

/// Whether the tables hold nothing; the rune count and the events aside.
pub open spec fn holds_nothing(s: IndexView) -> bool {
    &&& s.runes == Map::<RuneId, RuneEntry>::empty()
    &&& s.rune_ids == Map::<u128, RuneId>::empty()
    &&& s.rune_numbers == Map::<u64, RuneId>::empty()
    &&& s.tx_outs == Map::<SerializedOutPoint, TxOutEntryView>::empty()
    &&& s.tx_state_changes == Map::<Seq<u8>, TransactionStateChangeView>::empty()
    &&& s.rune_transactions == Map::<RuneId, Seq<Txid>>::empty()
    &&& s.confirming_blocks == Map::<Seq<u8>, BlockId>::empty()
    &&& s.transactions == Map::<Seq<u8>, TransactionView>::empty()
    &&& s.outpoint_scripts == Map::<SerializedOutPoint, Seq<u8>>::empty()
    &&& s.script_utxos == Map::<Seq<u8>, Seq<SerializedOutPoint>>::empty()
    &&& s.spent_in_mempool == Map::<SerializedOutPoint, SpenderReference>::empty()
    &&& s.block_hashes == Map::<u64, Seq<u8>>::empty()
    &&& s.mempool_txs == Set::<Txid>::empty()
}

impl IndexState {
    /// Whether the tables hold nothing; the rune count and the events aside.
    pub fn is_empty(&self) -> (b: bool)
        ensures
            b == holds_nothing(self@),
    {
        self.runes.is_empty() && self.rune_ids.is_empty() && self.rune_numbers.is_empty()
            && self.tx_outs.is_empty() && self.tx_state_changes.is_empty()
            && self.rune_transactions.is_empty() && self.confirming_blocks.is_empty()
            && self.transactions.is_empty() && self.outpoint_scripts.is_empty()
            && self.script_utxos.is_empty() && self.spent_in_mempool.is_empty()
            && self.block_hashes.is_empty() && self.mempool_txs.is_empty()
    }

    /// Empties the tables, keeping the counts (of runes, blocks and purged blocks) and the
    /// events.
    pub fn clear(&mut self)
        ensures
            final(self)@ == (IndexView {
                events: old(self)@.events,
                ..empty_batch(old(self)@.runes_count, old(self)@.block_count, old(self)@.purged_blocks_count)
            }),
    {
        let mut events: Vec<Event> = Vec::new();
        std::mem::swap(&mut events, &mut self.events);
        *self = IndexState::with_counts(self.runes_count, self.block_count, self.purged_blocks_count);
        self.events = events;
        assert(self@ =~= (IndexView {
            events: old(self)@.events,
            ..empty_batch(old(self)@.runes_count, old(self)@.block_count, old(self)@.purged_blocks_count)
        }));
    }
}

/// The byte strings of transaction ids.
pub open spec fn txid_keys(v: Seq<Txid>) -> Set<Seq<u8>> {
    Set::new(|k: Seq<u8>| exists|i: int| 0 <= i < v.len() && #[trigger] v[i]@ == k)
}

proof fn lemma_append_step(
    m: Map<RuneId, Seq<Txid>>,
    es: Seq<(RuneId, Vec<Txid>)>,
    i: int,
)
    requires
        crate::table::keys_distinct(es),
        0 <= i < es.len(),
    ensures
        ({
            let before = append_rune_transactions(m, crate::table::table_map(es.take(i)));
            let id = es[i].0;
            append_rune_transactions(m, crate::table::table_map(es.take(i + 1))) == before.insert(
                id,
                (if before.contains_key(id) {
                    before[id]
                } else {
                    Seq::empty()
                }) + es[i].1@,
            )
        }),
{
    let p = es.take(i);
    let q = es.take(i + 1);
    assert(q.drop_last() =~= p);
    assert(q.last() == es[i]);
    crate::table::lemma_table_map_dom(p);
    let id = es[i].0;
    assert(!crate::table::table_map(p).contains_key(id)) by {
        if crate::table::table_map(p).contains_key(id) {
            let j = choose|j: int| 0 <= j < p.len() && p[j].0@ == id@;
            assert(es[j].0 == es[i].0);
        }
    }
    let before = append_rune_transactions(m, crate::table::table_map(p));
    assert(append_rune_transactions(m, crate::table::table_map(q)) =~= before.insert(
        id,
        (if before.contains_key(id) {
            before[id]
        } else {
            Seq::empty()
        }) + es[i].1@,
    ));
}

/// The transactions of the blocks, block after block.
pub open spec fn block_txids(blocks: Seq<Vec<Txid>>) -> Seq<Txid>
    decreases blocks.len(),
{
    if blocks.len() == 0 {
        Seq::empty()
    } else {
        block_txids(blocks.drop_last()) + blocks.last()@
    }
}

/// The outputs spent by transactions `txs`, by their recorded state changes, in order.
pub open spec fn spent_by(changes: Map<Seq<u8>, TransactionStateChangeView>, txs: Seq<Txid>) -> Seq<
    SerializedOutPoint,
>
    decreases txs.len(),
{
    if txs.len() == 0 {
        Seq::empty()
    } else {
        spent_by(changes, txs.drop_last()) + changes[txs.last()@].inputs
    }
}

/// The outputs a transaction spends, in the order of its inputs.
pub open spec fn spent_outpoints_of(tx: TransactionData) -> Seq<SerializedOutPoint> {
    Seq::new(tx.input@.len(), |i: int| tx.input@[i].previous_output)
}

/// The views of output entries.
pub open spec fn entry_views(v: Seq<TxOutEntry>) -> Seq<TxOutEntryView> {
    Seq::new(v.len(), |i: int| v[i]@)
}

/// The entries the index holds for the outputs `os`, in order, skipping those it does not
/// hold.
pub open spec fn held_entries(m: Map<SerializedOutPoint, TxOutEntryView>, os: Seq<SerializedOutPoint>) -> Seq<
    TxOutEntryView,
>
    decreases os.len(),
{
    if os.len() == 0 {
        Seq::empty()
    } else if m.contains_key(os.last()) {
        held_entries(m, os.drop_last()).push(m[os.last()])
    } else {
        held_entries(m, os.drop_last())
    }
}

proof fn lemma_take_to_set<A>(s: Seq<A>, i: int)
    requires
        0 <= i < s.len(),
    ensures
        s.take(i + 1).to_set() == s.take(i).to_set().insert(s[i]),
{
    assert(s.take(i + 1) =~= s.take(i).push(s[i]));
    s.take(i).lemma_push_to_set_commute(s[i]);
}

/// The transactions recorded for rune `id`, oldest first; none when it has no list.
pub open spec fn rune_txs(s: IndexView, id: RuneId) -> Seq<Txid> {
    if s.rune_transactions.contains_key(id) {
        s.rune_transactions[id]
    } else {
        Seq::empty()
    }
}

/// The hash recorded for the block at `height`, when there is one.
pub open spec fn lookup_hash(s: IndexView, height: u64) -> Option<Seq<u8>> {
    if s.block_hashes.contains_key(height) {
        Some(s.block_hashes[height])
    } else {
        None
    }
}

/// Tables holding nothing, with `runes_count` runes counted.
pub open spec fn empty_index(runes_count: u64) -> IndexView {
    IndexView {
        runes: Map::empty(),
        rune_ids: Map::empty(),
        rune_numbers: Map::empty(),
        runes_count,
        tx_outs: Map::empty(),
        tx_state_changes: Map::empty(),
        rune_transactions: Map::empty(),
        confirming_blocks: Map::empty(),
        transactions: Map::empty(),
        outpoint_scripts: Map::empty(),
        script_utxos: Map::empty(),
        spent_in_mempool: Map::empty(),
        events: Seq::empty(),
        block_count: 0,
        purged_blocks_count: 0,
        block_hashes: Map::empty(),
        mempool_txs: Set::empty(),
    }
}

/// Tables holding nothing, with `runes_count` runes, `block_count` blocks and
/// `purged_blocks_count` purged blocks counted.
pub open spec fn empty_batch(runes_count: u64, block_count: u64, purged_blocks_count: u64) -> IndexView {
    IndexView { block_count, purged_blocks_count, ..empty_index(runes_count) }
}

/// A page of results and the offset of the next page.
pub struct PaginationResponse<T> {
    pub items: Vec<T>,
    pub offset: u64,
}

/// The page of a rune's transactions, newest first: skipping the `skip` newest, at most
/// `limit` of them, with the offset of the next page. With no transaction the offset is zero;
/// when every transaction is skipped it is by how much `skip` went past them.
pub open spec fn last_page(list: Seq<Txid>, skip: u64, limit: u64) -> (Seq<Txid>, u64) {
    let last = list.len();
    if last == 0 {
        (Seq::empty(), 0)
    } else if skip >= last {
        (Seq::empty(), (skip - last) as u64)
    } else {
        let end = last - skip;
        let start = if end - (limit - 1) < 1 {
            1
        } else {
            end - (limit - 1)
        };
        let n = end - start + 1;
        (Seq::new(n as nat, |i: int| list[end - 1 - i]), (skip + n) as u64)
    }
}

/// The tables once the transactions `ts` are added, in order, to those of rune `id`.
pub open spec fn after_adds(s: IndexView, id: RuneId, ts: Seq<Txid>) -> IndexView
    decreases ts.len(),
{
    if ts.len() == 0 {
        s
    } else {
        let prev = after_adds(s, id, ts.drop_last());
        IndexView {
            rune_transactions: prev.rune_transactions.insert(id, rune_txs(prev, id).push(ts.last())),
            ..prev
        }
    }
}

/// Adding transactions to a rune appends them to its list.
pub proof fn lemma_adds_append(s: IndexView, id: RuneId, ts: Seq<Txid>)
    ensures
        rune_txs(after_adds(s, id, ts), id) == rune_txs(s, id) + ts,
    decreases ts.len(),
{
    if ts.len() > 0 {
        lemma_adds_append(s, id, ts.drop_last());
        assert(rune_txs(s, id) + ts =~= (rune_txs(s, id) + ts.drop_last()).push(ts.last()));
    }
}

/// Once transactions `ts` are added to a rune that had none, a page that skips `skip` of them
/// (fewer than there are) and holds at most `limit` (one at least) lists them newest first,
/// from the one `skip` below the newest, as many as `limit` allows and the oldest ends, with
/// the next page's offset `skip` plus its length; with none added, every page is empty at
/// offset zero.
pub proof fn lemma_page_after_adds(s: IndexView, id: RuneId, ts: Seq<Txid>, skip: u64, limit: u64)
    requires
        rune_txs(s, id).len() == 0,
    ensures
        ts.len() == 0 ==> last_page(rune_txs(after_adds(s, id, ts), id), skip, limit) == (
            Seq::<Txid>::empty(),
            0u64,
        ),
        limit >= 1 && skip < ts.len() ==> ({
            let page = last_page(rune_txs(after_adds(s, id, ts), id), skip, limit);
            let n = if limit <= ts.len() - skip {
                limit as int
            } else {
                ts.len() - skip
            };
            &&& page.0.len() == n
            &&& forall|i: int| 0 <= i < n ==> #[trigger] page.0[i] == ts[ts.len() - skip - 1 - i]
            &&& page.1 == (skip + n) as u64
        }),
{
    lemma_adds_append(s, id, ts);
    assert(rune_txs(s, id) + ts =~= ts);
}

impl IndexState {
    /// The entries of the outputs a transaction spends, in the order of its inputs; for a
    /// coinbase, of those the index holds. `None` when another transaction spends an output the
    /// index does not hold, or the same output twice.
    pub fn spent_entries(&self, tx: &TransactionData) -> (r: Option<Vec<TxOutEntry>>)
        ensures
            !spec_is_coinbase(*tx) ==> (r is Some <==> (spent_outpoints_of(*tx).no_duplicates()
                && forall|i: int|
                0 <= i < tx.input@.len() ==> self@.tx_outs.contains_key(
                    #[trigger] tx.input@[i].previous_output,
                ))),
            r matches Some(v) ==> entry_views(v@) == held_entries(self@.tx_outs, spent_outpoints_of(*tx)),
            spec_is_coinbase(*tx) ==> r is Some,
    {
        let coinbase = is_coinbase(tx);
        let mut v: Vec<TxOutEntry> = Vec::new();
        let mut i: usize = 0;
        while i < tx.input.len()
            invariant
                i <= tx.input@.len(),
                coinbase == spec_is_coinbase(*tx),
                entry_views(v@) == held_entries(self@.tx_outs, spent_outpoints_of(*tx).take(i as int)),
                !coinbase ==> spent_outpoints_of(*tx).take(i as int).no_duplicates(),
                !coinbase ==> forall|j: int| 0 <= j < i ==> self@.tx_outs.contains_key(
                    #[trigger] tx.input@[j].previous_output,
                ),
            decreases tx.input@.len() - i,
        {
            let o = tx.input[i].previous_output;
            let ghost ops = spent_outpoints_of(*tx);
            proof {
                assert(ops.take(i + 1).drop_last() =~= ops.take(i as int));
                assert(ops.take(i + 1).last() == o);
            }
            if !coinbase {
                let mut j: usize = 0;
                while j < i
                    invariant
                        j <= i < tx.input@.len(),
                        ops == spent_outpoints_of(*tx),
                        o == ops[i as int],
                        forall|q: int| 0 <= q < j ==> ops[q] != o,
                    decreases i - j,
                {
                    if tx.input[j].previous_output.same(&o) {
                        proof {
                            assert(ops[j as int] == ops[i as int]);
                        }
                        return None;
                    }
                    j = j + 1;
                }
                proof {
                    assert forall|a: int, b: int| 0 <= a < b < ops.take(i + 1).len() implies #[trigger] ops.take(i + 1)[a]
                        != #[trigger] ops.take(i + 1)[b] by {
                        if b == i {
                            assert(ops[a] != o);
                        } else {
                            assert(ops.take(i as int)[a] != ops.take(i as int)[b]);
                        }
                    }
                }
            }
            match self.tx_outs.get(&o) {
                Some(e) => {
                    let ghost vb = v@;
                    let d = e.duplicate();
                    v.push(d);
                    proof {
                        assert(entry_views(v@) =~= entry_views(vb).push(d@));
                    }
                },
                None => {
                    if !coinbase {
                        return None;
                    }
                },
            }
            i = i + 1;
        }
        assert(spent_outpoints_of(*tx).take(i as int) =~= spent_outpoints_of(*tx));
        Some(v)
    }

    /// Purges the blocks at heights `from` up to `to`, given the ids of their transactions
    /// block after block: nothing when the range is empty; otherwise the purged-block count
    /// becomes `to`, and what is to be deleted is the state changes of those transactions and
    /// the recorded scripts of the outputs they spent. Every such state change must be
    /// recorded.
    pub fn purge_block_range(&mut self, from: u64, to: u64, blocks: &Vec<Vec<Txid>>) -> (d: BatchDelete)
        requires
            from < to ==> blocks@.len() == to - from,
            from < to ==> forall|b: int, t: int|
                0 <= b < blocks@.len() && 0 <= t < blocks@[b]@.len() ==> old(self)@.tx_state_changes.contains_key(
                    (#[trigger] blocks@[b]@[t])@,
                ),
        ensures
            from >= to ==> d.is_empty_spec() && final(self)@ == old(self)@,
            from < to ==> final(self)@ == (IndexView { purged_blocks_count: to, ..old(self)@ }),
            from < to ==> d.tx_outs@.len() == 0,
            from < to ==> d.spent_outpoints_in_mempool@.len() == 0,
            from < to ==> d.tx_state_changes@ == block_txids(blocks@),
            from < to ==> d.script_pubkeys_outpoints@ == spent_by(old(self)@.tx_state_changes, block_txids(blocks@)),
    {
        if from >= to {
            return BatchDelete::new();
        }
        let d = self.purge_deletes(blocks);
        self.purged_blocks_count = to;
        assert(self@ =~= (IndexView { purged_blocks_count: to, ..old(self)@ }));
        d
    }

    /// What purging blocks deletes, from the ids of their transactions block after block: the
    /// state changes of those transactions, and the recorded scripts of the outputs they spent.
    fn purge_deletes(&self, blocks: &Vec<Vec<Txid>>) -> (d: BatchDelete)
        requires
            forall|b: int, t: int|
                0 <= b < blocks@.len() && 0 <= t < blocks@[b]@.len() ==> self@.tx_state_changes.contains_key(
                    (#[trigger] blocks@[b]@[t])@,
                ),
        ensures
            d.tx_outs@.len() == 0,
            d.spent_outpoints_in_mempool@.len() == 0,
            d.tx_state_changes@ == block_txids(blocks@),
            d.script_pubkeys_outpoints@ == spent_by(self@.tx_state_changes, block_txids(blocks@)),
    {
        let mut txids: Vec<Txid> = Vec::new();
        let mut spent: Vec<SerializedOutPoint> = Vec::new();
        let mut b: usize = 0;
        while b < blocks.len()
            invariant
                b <= blocks@.len(),
                forall|x: int, t: int|
                    0 <= x < blocks@.len() && 0 <= t < blocks@[x]@.len() ==> self@.tx_state_changes.contains_key(
                        (#[trigger] blocks@[x]@[t])@,
                    ),
                txids@ == block_txids(blocks@.take(b as int)),
                spent@ == spent_by(self@.tx_state_changes, txids@),
            decreases blocks@.len() - b,
        {
            let block = &blocks[b];
            let ghost before = txids@;
            let mut t: usize = 0;
            while t < block.len()
                invariant
                    b < blocks@.len(),
                    block@ == blocks@[b as int]@,
                    t <= block@.len(),
                    forall|q: int| 0 <= q < block@.len() ==> self@.tx_state_changes.contains_key(
                        (#[trigger] block@[q])@,
                    ),
                    txids@ == before + block@.take(t as int),
                    spent@ == spent_by(self@.tx_state_changes, txids@),
                decreases block@.len() - t,
            {
                assert(self@.tx_state_changes.contains_key(block@[t as int]@));
                let change = self.tx_state_changes.get(&block[t]).unwrap();
                let mut i: usize = 0;
                let ghost spent_before = spent@;
                while i < change.inputs.len()
                    invariant
                        i <= change.inputs@.len(),
                        spent@ == spent_before + change.inputs@.take(i as int),
                    decreases change.inputs@.len() - i,
                {
                    spent.push(change.inputs[i]);
                    i = i + 1;
                    assert(spent@ =~= spent_before + change.inputs@.take(i as int));
                }
                let ghost old_txids = txids@;
                txids.push(block[t]);
                proof {
                    assert(change.inputs@.take(i as int) =~= change.inputs@);
                    assert(txids@.drop_last() =~= old_txids);
                    assert(txids@ =~= before + block@.take(t + 1));
                }
                t = t + 1;
            }
            proof {
                assert(block@.take(t as int) =~= block@);
                assert(blocks@.take(b + 1).drop_last() =~= blocks@.take(b as int));
                assert(blocks@.take(b + 1).last() == blocks@[b as int]);
            }
            b = b + 1;
        }
        assert(blocks@.take(b as int) =~= blocks@);
        BatchDelete {
            tx_outs: Vec::new(),
            tx_state_changes: txids,
            script_pubkeys_outpoints: spent,
            spent_outpoints_in_mempool: Vec::new(),
        }
    }

    /// Writes a batch of updates into the tables: each entry of `update` replaces the one of
    /// the same key, the rune transactions of `update` are appended to those recorded, and
    /// outside the mempool the count of runes becomes that of `update`.
    pub fn batch_update(&mut self, update: IndexState, mempool: bool)
        ensures
            final(self)@ == updated(old(self)@, update@, mempool),
            !mempool ==> final(self)@.runes_count == update@.runes_count && final(self)@.block_count
                == update@.block_count && final(self)@.purged_blocks_count == update@.purged_blocks_count,
            forall|h: u64| #[trigger]
                update@.block_hashes.contains_key(h) ==> final(self)@.block_hashes.contains_key(h)
                    && final(self)@.block_hashes[h] == update@.block_hashes[h],
            forall|t: Txid| #[trigger]
                update@.mempool_txs.contains(t) ==> final(self)@.mempool_txs.contains(t),
    {
        let ghost u = update@;
        let IndexState {
            runes,
            rune_ids,
            rune_numbers,
            runes_count,
            tx_outs,
            tx_state_changes,
            rune_transactions,
            confirming_blocks,
            transactions,
            outpoint_scripts,
            script_utxos,
            spent_in_mempool,
            events: _,
            block_count,
            purged_blocks_count,
            block_hashes,
            mempool_txs,
        } = update;
        self.block_hashes.put_all(block_hashes);
        self.mempool_txs = self.mempool_txs.union(&mempool_txs);
        if !mempool {
            self.block_count = block_count;
            self.purged_blocks_count = purged_blocks_count;
        }
        self.runes.put_all(runes);
        self.rune_ids.put_all(rune_ids);
        self.rune_numbers.put_all(rune_numbers);
        if !mempool {
            self.runes_count = runes_count;
        }
        self.tx_outs.put_all(tx_outs);
        self.tx_state_changes.put_all(tx_state_changes);
        self.confirming_blocks.put_all(confirming_blocks);
        self.transactions.put_all(transactions);
        self.outpoint_scripts.put_all(outpoint_scripts);
        self.script_utxos.put_all(script_utxos);
        self.spent_in_mempool.put_all(spent_in_mempool);
        let ghost rt0 = self.rune_transactions@;
        let ghost mid = self@;
        let mut rest = rune_transactions.into_entries();
        let ghost es = rest@;
        let n = rest.len();
        proof {
            assert(es.skip(0) =~= es);
            assert(crate::table::table_map(es.take(0)) =~= Map::<RuneId, Seq<Txid>>::empty());
            assert(append_rune_transactions(rt0, Map::<RuneId, Seq<Txid>>::empty()) =~= rt0);
        }
        let mut i: usize = 0;
        while rest.len() > 0
            invariant
                i <= es.len(),
                n == es.len(),
                crate::table::keys_distinct(es),
                rest@ == es.skip(i as int),
                self@ == (IndexView { rune_transactions: self@.rune_transactions, ..mid }),
                self.rune_transactions@ == append_rune_transactions(
                    rt0,
                    crate::table::table_map(es.take(i as int)),
                ),
            decreases rest@.len(),
        {
            let (id, mut txids) = rest.remove(0);
            proof {
                assert((id, txids) == es[i as int]);
                assert(rest@ =~= es.skip(i + 1));
                lemma_append_step(rt0, es, i as int);
            }
            let mut list = match self.rune_transactions.remove(&id) {
                Some(l) => l,
                None => Vec::new(),
            };
            list.append(&mut txids);
            self.rune_transactions.insert(id, list);
            proof {
                assert(self.rune_transactions@ =~= append_rune_transactions(
                    rt0,
                    crate::table::table_map(es.take(i + 1)),
                ));
            }
            i = i + 1;
        }
        assert(es.take(i as int) =~= es);
        assert(self@ =~= updated(old(self)@, u, mempool));
    }

    /// Deletes the keys of a batch from the tables.
    pub fn batch_delete(&mut self, delete: &BatchDelete)
        ensures
            (final(self)@ == IndexView {
                tx_outs: old(self)@.tx_outs.remove_keys(delete.tx_outs@.to_set()),
                tx_state_changes: old(self)@.tx_state_changes.remove_keys(
                    txid_keys(delete.tx_state_changes@),
                ),
                outpoint_scripts: old(self)@.outpoint_scripts.remove_keys(
                    delete.script_pubkeys_outpoints@.to_set(),
                ),
                spent_in_mempool: old(self)@.spent_in_mempool.remove_keys(
                    delete.spent_outpoints_in_mempool@.to_set(),
                ),
                ..old(self)@
            }),
    {
        let ghost s0 = self@;
        let mut i: usize = 0;
        while i < delete.tx_outs.len()
            invariant
                i <= delete.tx_outs@.len(),
                self@ == (IndexView {
                    tx_outs: s0.tx_outs.remove_keys(delete.tx_outs@.take(i as int).to_set()),
                    ..s0
                }),
            decreases delete.tx_outs@.len() - i,
        {
            let _ = self.tx_outs.remove(&delete.tx_outs[i]);
            proof {
                lemma_take_to_set(delete.tx_outs@, i as int);
            }
            i = i + 1;
            assert(self@ =~= (IndexView {
                tx_outs: s0.tx_outs.remove_keys(delete.tx_outs@.take(i as int).to_set()),
                ..s0
            }));
        }
        assert(delete.tx_outs@.take(i as int) =~= delete.tx_outs@);
        let ghost s1 = self@;
        let mut j: usize = 0;
        while j < delete.tx_state_changes.len()
            invariant
                j <= delete.tx_state_changes@.len(),
                self@ == (IndexView {
                    tx_state_changes: s1.tx_state_changes.remove_keys(
                        txid_keys(delete.tx_state_changes@.take(j as int)),
                    ),
                    ..s1
                }),
            decreases delete.tx_state_changes@.len() - j,
        {
            let _ = self.tx_state_changes.remove(&delete.tx_state_changes[j]);
            proof {
                let t = delete.tx_state_changes@;
                assert(txid_keys(t.take(j + 1)) =~= txid_keys(t.take(j as int)).insert(t[j as int]@)) by {
                    assert forall|k: Seq<u8>| txid_keys(t.take(j + 1)).contains(k) implies txid_keys(
                        t.take(j as int),
                    ).insert(t[j as int]@).contains(k) by {
                        let q = choose|q: int| 0 <= q < t.take(j + 1).len() && #[trigger] t.take(j + 1)[q]@ == k;
                        if q < j {
                            assert(t.take(j as int)[q] == t.take(j + 1)[q]);
                        }
                    }
                    assert forall|k: Seq<u8>| txid_keys(t.take(j as int)).insert(t[j as int]@).contains(k) implies txid_keys(
                        t.take(j + 1),
                    ).contains(k) by {
                        if k == t[j as int]@ {
                            assert(t.take(j + 1)[j as int] == t[j as int]);
                        } else {
                            let q = choose|q: int| 0 <= q < t.take(j as int).len() && #[trigger] t.take(j as int)[q]@ == k;
                            assert(t.take(j + 1)[q] == t.take(j as int)[q]);
                        }
                    }
                }
            }
            j = j + 1;
            assert(self@ =~= (IndexView {
                tx_state_changes: s1.tx_state_changes.remove_keys(
                    txid_keys(delete.tx_state_changes@.take(j as int)),
                ),
                ..s1
            }));
        }
        assert(delete.tx_state_changes@.take(j as int) =~= delete.tx_state_changes@);
        let ghost s2 = self@;
        let mut k: usize = 0;
        while k < delete.script_pubkeys_outpoints.len()
            invariant
                k <= delete.script_pubkeys_outpoints@.len(),
                self@ == (IndexView {
                    outpoint_scripts: s2.outpoint_scripts.remove_keys(
                        delete.script_pubkeys_outpoints@.take(k as int).to_set(),
                    ),
                    ..s2
                }),
            decreases delete.script_pubkeys_outpoints@.len() - k,
        {
            let _ = self.outpoint_scripts.remove(&delete.script_pubkeys_outpoints[k]);
            proof {
                lemma_take_to_set(delete.script_pubkeys_outpoints@, k as int);
            }
            k = k + 1;
            assert(self@ =~= (IndexView {
                outpoint_scripts: s2.outpoint_scripts.remove_keys(
                    delete.script_pubkeys_outpoints@.take(k as int).to_set(),
                ),
                ..s2
            }));
        }
        assert(delete.script_pubkeys_outpoints@.take(k as int) =~= delete.script_pubkeys_outpoints@);
        let ghost s3 = self@;
        let mut m: usize = 0;
        while m < delete.spent_outpoints_in_mempool.len()
            invariant
                m <= delete.spent_outpoints_in_mempool@.len(),
                self@ == (IndexView {
                    spent_in_mempool: s3.spent_in_mempool.remove_keys(
                        delete.spent_outpoints_in_mempool@.take(m as int).to_set(),
                    ),
                    ..s3
                }),
            decreases delete.spent_outpoints_in_mempool@.len() - m,
        {
            let _ = self.spent_in_mempool.remove(&delete.spent_outpoints_in_mempool[m]);
            proof {
                lemma_take_to_set(delete.spent_outpoints_in_mempool@, m as int);
            }
            m = m + 1;
            assert(self@ =~= (IndexView {
                spent_in_mempool: s3.spent_in_mempool.remove_keys(
                    delete.spent_outpoints_in_mempool@.take(m as int).to_set(),
                ),
                ..s3
            }));
        }
        assert(delete.spent_outpoints_in_mempool@.take(m as int) =~= delete.spent_outpoints_in_mempool@);
    }

    /// The transactions of rune `rune_id`, newest first, a page at a time.
    pub fn get_last_rune_transactions(&self, rune_id: &RuneId, skip: u64, limit: u64) -> (r:
        PaginationResponse<Txid>)
        requires
            limit > 0 || skip >= rune_txs(self@, *rune_id).len(),
        ensures
            (r.items@, r.offset) == last_page(rune_txs(self@, *rune_id), skip, limit),
    {
        let empty: Vec<Txid> = Vec::new();
        let list = match self.rune_transactions.get(rune_id) {
            Some(l) => l,
            None => &empty,
        };
        let len: usize = list.len();
        let last = len as u64;
        if last == 0 {
            return PaginationResponse { items: Vec::new(), offset: 0 };
        }
        let end = last.saturating_sub(skip);
        if end == 0 {
            return PaginationResponse { items: Vec::new(), offset: skip - last };
        }
        let start = end.saturating_sub(limit - 1);
        let start = if start < 1 {
            1
        } else {
            start
        };
        let ghost page = last_page(list@, skip, limit).0;
        let mut items: Vec<Txid> = Vec::new();
        let mut idx = end;
        while idx >= start
            invariant
                1 <= start <= end,
                end <= last,
                last == list@.len(),
                len == list@.len(),
                start - 1 <= idx <= end,
                page == last_page(list@, skip, limit).0,
                page.len() == end - start + 1,
                forall|i: int| 0 <= i < page.len() ==> page[i] == list@[end - 1 - i],
                items@ == page.take(end - idx),
            decreases idx,
        {
            assert(idx - 1 < list@.len());
            let k = (idx - 1) as usize;
            assert(k == idx - 1);
            items.push(list[k]);
            proof {
                assert(page[end - idx] == list@[end - 1 - (end - idx)]);
                assert(items@ =~= page.take(end - idx + 1));
            }
            idx = idx - 1;
        }
        assert(items@ =~= page);
        let n = items.len() as u64;
        PaginationResponse { items, offset: skip + n }
    }

    /// Empty tables, with `runes_count` runes, `block_count` blocks and `purged_blocks_count`
    /// purged blocks counted.
    pub fn with_counts(runes_count: u64, block_count: u64, purged_blocks_count: u64) -> (s: IndexState)
        ensures
            s@ == empty_batch(runes_count, block_count, purged_blocks_count),
    {
        let mut s = IndexState::new(runes_count);
        s.block_count = block_count;
        s.purged_blocks_count = purged_blocks_count;
        assert(s@ =~= empty_batch(runes_count, block_count, purged_blocks_count));
        s
    }

    /// The number of runes counted.
    pub fn get_runes_count(&self) -> (n: u64)
        ensures
            n == self@.runes_count,
    {
        self.runes_count
    }

    /// The number of blocks indexed.
    pub fn get_block_count(&self) -> (n: u64)
        ensures
            n == self@.block_count,
    {
        self.block_count
    }

    /// The number of blocks whose records are purged.
    pub fn get_purged_blocks_count(&self) -> (n: u64)
        ensures
            n == self@.purged_blocks_count,
    {
        self.purged_blocks_count
    }

    /// The hash of the block at `height`.
    pub fn get_block_hash(&self, height: u64) -> (r: Result<BlockHash, StoreError>)
        ensures
            match lookup_hash(self@, height) {
                Some(h) => r matches Ok(x) && x@ == h,
                None => r == Err::<BlockHash, StoreError>(StoreError::BlockHashNotFound(height)),
            },
    {
        match self.block_hashes.get(&height) {
            Some(h) => Ok(*h),
            None => Err(StoreError::BlockHashNotFound(height)),
        }
    }

    /// Whether transaction `txid` is recorded as in the mempool.
    pub fn is_tx_in_mempool(&self, txid: &Txid) -> (b: bool)
        ensures
            b == self@.mempool_txs.contains(*txid),
    {
        self.mempool_txs.contains(txid)
    }

    /// Empty tables and `runes_count` runes counted so far.
    pub fn new(runes_count: u64) -> (s: IndexState)
        ensures
            s@.runes == Map::<RuneId, RuneEntry>::empty(),
            s@.rune_ids == Map::<u128, RuneId>::empty(),
            s@.rune_numbers == Map::<u64, RuneId>::empty(),
            s@.runes_count == runes_count,
            s@.tx_outs == Map::<SerializedOutPoint, TxOutEntryView>::empty(),
            s@.tx_state_changes == Map::<Seq<u8>, TransactionStateChangeView>::empty(),
            s@.rune_transactions == Map::<RuneId, Seq<Txid>>::empty(),
            s@.confirming_blocks == Map::<Seq<u8>, BlockId>::empty(),
            s@.transactions == Map::<Seq<u8>, TransactionView>::empty(),
            s@.outpoint_scripts == Map::<SerializedOutPoint, Seq<u8>>::empty(),
            s@.script_utxos == Map::<Seq<u8>, Seq<SerializedOutPoint>>::empty(),
            s@.spent_in_mempool == Map::<SerializedOutPoint, SpenderReference>::empty(),
            s@.events == Seq::<Event>::empty(),
            s@ == empty_index(runes_count),
    {
        IndexState {
            runes: Table::new(),
            rune_ids: Table::new(),
            rune_numbers: Table::new(),
            runes_count,
            tx_outs: Table::new(),
            tx_state_changes: Table::new(),
            rune_transactions: Table::new(),
            confirming_blocks: Table::new(),
            transactions: Table::new(),
            outpoint_scripts: Table::new(),
            script_utxos: Table::new(),
            spent_in_mempool: Table::new(),
            events: Vec::new(),
            block_count: 0,
            purged_blocks_count: 0,
            block_hashes: Table::new(),
            mempool_txs: TxidSet::new(),
        }
    }
}

} // verus!
