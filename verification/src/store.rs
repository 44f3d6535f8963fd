use vstd::prelude::*;
use crate::index_state::{lookup_hash, txid_keys, BatchDelete, IndexState, IndexView, PaginationResponse};
use crate::lookups::{entry_view_opt, page_defined, page_of};
use crate::rune_entry::{rune_response, spec_max_supply, spec_supply, RuneEntry, RuneResponse, SpacedRune};
use crate::state_change::{TransactionStateChange, TransactionStateChangeView, TxOutEntry, TxOutEntryView};
use crate::tx_updater::StoreError;
use crate::types::{BlockHash, RuneId, SerializedOutPoint, Txid};

verus! {

/// The index as stored: the tables of the chain and those of the mempool.
pub struct Store {
    pub chain: IndexState,
    pub mempool: IndexState,
}

/// The tables of one side: the mempool's for `true`, the chain's for `false`.
pub open spec fn side(chain: IndexView, mempool: IndexView, in_mempool: bool) -> IndexView {
    if in_mempool {
        mempool
    } else {
        chain
    }
}

/// What reading an output entry gives: from the side asked for, or, when none is asked for,
/// from the chain and else from the mempool.
pub open spec fn read_tx_out(
    chain: IndexView,
    mempool: IndexView,
    o: SerializedOutPoint,
    which: Option<bool>,
) -> Option<TxOutEntryView> {
    match which {
        Some(m) => if side(chain, mempool, m).tx_outs.contains_key(o) {
            Some(side(chain, mempool, m).tx_outs[o])
        } else {
            None
        },
        None => if chain.tx_outs.contains_key(o) {
            Some(chain.tx_outs[o])
        } else if mempool.tx_outs.contains_key(o) {
            Some(mempool.tx_outs[o])
        } else {
            None
        },
    }
}

/// What reading a state change gives: from the side asked for, or, when none is asked for,
/// from the chain and else from the mempool.
pub open spec fn read_state_change(
    chain: IndexView,
    mempool: IndexView,
    txid: Txid,
    which: Option<bool>,
) -> Option<TransactionStateChangeView> {
    match which {
        Some(m) => if side(chain, mempool, m).tx_state_changes.contains_key(txid@) {
            Some(side(chain, mempool, m).tx_state_changes[txid@])
        } else {
            None
        },
        None => if chain.tx_state_changes.contains_key(txid@) {
            Some(chain.tx_state_changes[txid@])
        } else if mempool.tx_state_changes.contains_key(txid@) {
            Some(mempool.tx_state_changes[txid@])
        } else {
            None
        },
    }
}

/// The numbers of a page of runes, newest first: from `count - skip` down, at most `limit` of
/// them.
pub open spec fn rune_page_numbers(count: u64, skip: u64, limit: u64) -> Seq<u64> {
    let start: int = if skip >= count {
        0
    } else {
        count - skip
    };
    let end: int = if limit >= start {
        0
    } else {
        start - limit
    };
    Seq::new((start - end) as nat, |i: int| (start - 1 - i) as u64)
}

/// A page of runes read by number: each number's rune id and entry, or the first number
/// without an id, or the first id without an entry.
pub open spec fn read_runes(s: IndexView, numbers: Seq<u64>) -> Result<Seq<(RuneId, RuneEntry)>, StoreError>
    decreases numbers.len(),
{
    if numbers.len() == 0 {
        Ok(Seq::empty())
    } else {
        match read_runes(s, numbers.drop_last()) {
            Err(e) => Err(e),
            Ok(page) => {
                let n = numbers.last();
                if !s.rune_numbers.contains_key(n) {
                    Err(StoreError::RuneNumberNotFound(n))
                } else if !s.runes.contains_key(s.rune_numbers[n]) {
                    Err(StoreError::RuneNotFound(s.rune_numbers[n]))
                } else {
                    Ok(page.push((s.rune_numbers[n], s.runes[s.rune_numbers[n]])))
                }
            },
        }
    }
}

/// Whether the store records transaction `txid` as in the mempool: the record is one table,
/// kept on whichever side wrote it.
pub open spec fn in_mempool(chain: IndexView, mempool: IndexView, txid: Txid) -> bool {
    chain.mempool_txs.contains(txid) || mempool.mempool_txs.contains(txid)
}

/// A rune asked for by its name or by its id.
#[derive(Clone, Copy, Debug)]
pub enum RuneQuery {
    Spaced(SpacedRune),
    Id(RuneId),
}

impl Store {
    /// The entry of output `o`: from the side asked for, or, when none is, from the chain and
    /// else from the mempool.
    pub fn get_tx_out(&self, o: &SerializedOutPoint, which: Option<bool>) -> (r: Result<
        TxOutEntry,
        StoreError,
    >)
        ensures
            match read_tx_out(self.chain@, self.mempool@, *o, which) {
                Some(v) => r matches Ok(e) && e@ == v,
                None => r == Err::<TxOutEntry, StoreError>(StoreError::OutputNotFound(*o)),
            },
    {
        let found = match which {
            Some(true) => self.mempool.tx_outs.get(o),
            Some(false) => self.chain.tx_outs.get(o),
            None => match self.chain.tx_outs.get(o) {
                Some(e) => Some(e),
                None => self.mempool.tx_outs.get(o),
            },
        };
        match found {
            Some(e) => Ok(e.duplicate()),
            None => Err(StoreError::OutputNotFound(*o)),
        }
    }

    /// The state change of transaction `txid`: from the side asked for, or, when none is, from
    /// the chain and else from the mempool.
    pub fn get_tx_state_changes(&self, txid: &Txid, which: Option<bool>) -> (r: Result<
        TransactionStateChange,
        StoreError,
    >)
        ensures
            match read_state_change(self.chain@, self.mempool@, *txid, which) {
                Some(v) => r matches Ok(c) && c@ == v,
                None => r == Err::<TransactionStateChange, StoreError>(
                    StoreError::StateChangeNotFound(*txid),
                ),
            },
    {
        let found = match which {
            Some(true) => self.mempool.tx_state_changes.get(txid),
            Some(false) => self.chain.tx_state_changes.get(txid),
            None => match self.chain.tx_state_changes.get(txid) {
                Some(c) => Some(c),
                None => self.mempool.tx_state_changes.get(txid),
            },
        };
        match found {
            Some(c) => Ok(c.duplicate()),
            None => Err(StoreError::StateChangeNotFound(*txid)),
        }
    }

    /// A page of runes, newest first: skipping the `skip` newest, at most `limit` of them, with
    /// the offset of the next page.
    pub fn get_runes(&self, skip: u64, limit: u64) -> (r: Result<(Vec<(RuneId, RuneEntry)>, u64), StoreError>)
        ensures
            match read_runes(self.chain@, rune_page_numbers(self.chain@.runes_count, skip, limit)) {
                Ok(page) => r matches Ok((items, offset)) && items@ == page && offset == skip
                    + page.len(),
                Err(e) => r == Err::<(Vec<(RuneId, RuneEntry)>, u64), StoreError>(e),
            },
    {
        let count = self.chain.runes_count;
        let start = count.saturating_sub(skip);
        let end = start.saturating_sub(limit);
        let ghost numbers = rune_page_numbers(count, skip, limit);
        let mut items: Vec<(RuneId, RuneEntry)> = Vec::new();
        let mut i = start;
        while i > end
            invariant
                end <= i <= start,
                start <= count,
                count == self.chain@.runes_count,
                start == (if skip >= count { 0 } else { count - skip }),
                items@.len() == start - i,
                numbers == rune_page_numbers(count, skip, limit),
                numbers.len() == start - end,
                forall|k: int| 0 <= k < numbers.len() ==> numbers[k] == start - 1 - k,
                read_runes(self.chain@, numbers.take(start - i)) == Ok::<
                    Seq<(RuneId, RuneEntry)>,
                    StoreError,
                >(items@),
            decreases i,
        {
            let n = i - 1;
            proof {
                assert(numbers.take(start - i + 1).drop_last() =~= numbers.take(start - i));
                assert(numbers.take(start - i + 1).last() == n);
            }
            let id = match self.chain.rune_numbers.get(&n) {
                Some(id) => *id,
                None => {
                    proof {
                        assert(read_runes(self.chain@, numbers.take(start - i + 1)) == Err::<
                            Seq<(RuneId, RuneEntry)>,
                            StoreError,
                        >(StoreError::RuneNumberNotFound(n)));
                        lemma_read_runes_failed(self.chain@, numbers, start - i + 1);
                    }
                    return Err(StoreError::RuneNumberNotFound(n));
                },
            };
            let entry = match self.chain.runes.get(&id) {
                Some(e) => *e,
                None => {
                    proof {
                        assert(read_runes(self.chain@, numbers.take(start - i + 1)) == Err::<
                            Seq<(RuneId, RuneEntry)>,
                            StoreError,
                        >(StoreError::RuneNotFound(id)));
                        lemma_read_runes_failed(self.chain@, numbers, start - i + 1);
                    }
                    return Err(StoreError::RuneNotFound(id));
                },
            };
            items.push((id, entry));
            i = n;
        }
        assert(numbers.take(start - i) =~= numbers);
        let n = items.len() as u64;
        Ok((items, skip + n))
    }

    /// The id of the rune asked for: by its name, from the chain's table of names.
    pub fn to_rune_id(&self, query: &RuneQuery) -> (r: Result<RuneId, StoreError>)
        ensures
            match *query {
                RuneQuery::Id(id) => r == Ok::<RuneId, StoreError>(id),
                RuneQuery::Spaced(s) => if self.chain@.rune_ids.contains_key(s.rune) {
                    r == Ok::<RuneId, StoreError>(self.chain@.rune_ids[s.rune])
                } else {
                    r == Err::<RuneId, StoreError>(StoreError::RuneNameNotFound(s.rune))
                },
            },
    {
        match query {
            RuneQuery::Id(id) => Ok(*id),
            RuneQuery::Spaced(s) => match self.chain.rune_ids.get(&s.rune) {
                Some(id) => Ok(*id),
                None => Err(StoreError::RuneNameNotFound(s.rune)),
            },
        }
    }

    /// The rune asked for, as the API shows it at block count `block_count`.
    pub fn rune(&self, query: &RuneQuery, block_count: u64) -> (r: Result<RuneResponse, StoreError>)
        requires
            match self.to_rune_id_spec(*query) {
                Ok(id) => self.chain@.runes.contains_key(id) ==> (spec_supply(self.chain@.runes[id])
                    <= u128::MAX && spec_max_supply(self.chain@.runes[id]) <= u128::MAX),
                Err(_) => true,
            },
        ensures
            match self.to_rune_id_spec(*query) {
                Err(e) => r == Err::<RuneResponse, StoreError>(e),
                Ok(id) => if self.chain@.runes.contains_key(id) {
                    r == Ok::<RuneResponse, StoreError>(
                        rune_response(self.chain@.runes[id], id, block_count),
                    )
                } else {
                    r == Err::<RuneResponse, StoreError>(StoreError::RuneNotFound(id))
                },
            },
    {
        let id = match self.to_rune_id(query) {
            Ok(id) => id,
            Err(e) => {
                return Err(e);
            },
        };
        match self.chain.runes.get(&id) {
            Some(e) => Ok(e.to_rune_response(id, block_count)),
            None => Err(StoreError::RuneNotFound(id)),
        }
    }

    /// A page of runes, newest first, as the API shows them at block count `block_count`, with
    /// the offset of the next page.
    pub fn runes(&self, skip: u64, limit: u64, block_count: u64) -> (r: Result<(Vec<RuneResponse>, u64), StoreError>)
        requires
            forall|id: RuneId|
                #[trigger] self.chain@.runes.contains_key(id) ==> spec_supply(self.chain@.runes[id])
                    <= u128::MAX && spec_max_supply(self.chain@.runes[id]) <= u128::MAX,
        ensures
            match read_runes(self.chain@, rune_page_numbers(self.chain@.runes_count, skip, limit)) {
                Ok(page) => r matches Ok((items, offset)) && items@.len() == page.len() && offset
                    == skip + page.len() && forall|i: int|
                    0 <= i < page.len() ==> #[trigger] items@[i] == rune_response(
                        page[i].1,
                        page[i].0,
                        block_count,
                    ),
                Err(e) => r == Err::<(Vec<RuneResponse>, u64), StoreError>(e),
            },
    {
        let (entries, offset) = match self.get_runes(skip, limit) {
            Ok(p) => p,
            Err(e) => {
                return Err(e);
            },
        };
        let ghost page = entries@;
        proof {
            lemma_read_runes_held(self.chain@, rune_page_numbers(self.chain@.runes_count, skip, limit));
        }
        let mut items: Vec<RuneResponse> = Vec::new();
        let mut i: usize = 0;
        while i < entries.len()
            invariant
                i <= entries@.len(),
                items@.len() == i,
                page == entries@,
                forall|k: int| 0 <= k < page.len() ==> #[trigger] self.chain@.runes.contains_key(page[k].0)
                    && self.chain@.runes[page[k].0] == page[k].1,
                forall|id: RuneId|
                    #[trigger] self.chain@.runes.contains_key(id) ==> spec_supply(self.chain@.runes[id])
                        <= u128::MAX && spec_max_supply(self.chain@.runes[id]) <= u128::MAX,
                forall|k: int| 0 <= k < i ==> #[trigger] items@[k] == rune_response(page[k].1, page[k].0, block_count),
            decreases entries@.len() - i,
        {
            let (id, entry) = entries[i];
            assert(self.chain@.runes.contains_key(page[i as int].0));
            items.push(entry.to_rune_response(id, block_count));
            i = i + 1;
        }
        Ok((items, offset))
    }

    /// A page of the transactions of the rune asked for, newest first: the mempool's, then
    /// the chain's.
    pub fn last_rune_transactions(&self, query: &RuneQuery, skip: u64, limit: u64) -> (r: Result<
        PaginationResponse<Txid>,
        StoreError,
    >)
        requires
            self.to_rune_id_spec(*query) matches Ok(id) ==> page_defined(
                self.chain@,
                self.mempool@,
                id,
                skip,
                limit,
                None,
            ),
        ensures
            match self.to_rune_id_spec(*query) {
                Ok(id) => r matches Ok(p) && (p.items@, p.offset) == page_of(
                    self.chain@,
                    self.mempool@,
                    id,
                    skip,
                    limit,
                    None,
                ),
                Err(e) => r matches Err(x) && x == e,
            },
    {
        match self.to_rune_id(query) {
            Ok(id) => Ok(self.get_last_rune_transactions(&id, skip, limit, None)),
            Err(e) => Err(e),
        }
    }

    /// Applies a deletion as the store does, on both sides: outputs, state changes and
    /// recorded scripts leave the chain's tables and the mempool's; outputs spent in the
    /// mempool leave the mempool's record of them.
    pub fn batch_delete(&mut self, delete: &BatchDelete)
        ensures
            final(self).chain@ == (IndexView {
                tx_outs: old(self).chain@.tx_outs.remove_keys(delete.tx_outs@.to_set()),
                tx_state_changes: old(self).chain@.tx_state_changes.remove_keys(
                    txid_keys(delete.tx_state_changes@),
                ),
                outpoint_scripts: old(self).chain@.outpoint_scripts.remove_keys(
                    delete.script_pubkeys_outpoints@.to_set(),
                ),
                ..old(self).chain@
            }),
            final(self).mempool@ == (IndexView {
                tx_outs: old(self).mempool@.tx_outs.remove_keys(delete.tx_outs@.to_set()),
                tx_state_changes: old(self).mempool@.tx_state_changes.remove_keys(
                    txid_keys(delete.tx_state_changes@),
                ),
                outpoint_scripts: old(self).mempool@.outpoint_scripts.remove_keys(
                    delete.script_pubkeys_outpoints@.to_set(),
                ),
                spent_in_mempool: old(self).mempool@.spent_in_mempool.remove_keys(
                    delete.spent_outpoints_in_mempool@.to_set(),
                ),
                ..old(self).mempool@
            }),
    {
        let tx_outs = delete.tx_outs.clone();
        let tx_state_changes = delete.tx_state_changes.clone();
        let script_pubkeys_outpoints = delete.script_pubkeys_outpoints.clone();
        assert(tx_outs@ =~= delete.tx_outs@);
        assert(tx_state_changes@ =~= delete.tx_state_changes@);
        assert(script_pubkeys_outpoints@ =~= delete.script_pubkeys_outpoints@);
        let chain_part = BatchDelete {
            tx_outs,
            tx_state_changes,
            script_pubkeys_outpoints,
            spent_outpoints_in_mempool: Vec::new(),
        };
        self.chain.batch_delete(&chain_part);
        assert(chain_part.spent_outpoints_in_mempool@.to_set() =~= Set::<SerializedOutPoint>::empty());
        assert(old(self).chain@.spent_in_mempool.remove_keys(Set::<SerializedOutPoint>::empty())
            =~= old(self).chain@.spent_in_mempool);
        self.mempool.batch_delete(delete);
    }

    /// The entries of `outpoints`, in order, each as `get_tx_out` reads it; `None` for one
    /// that is not stored.
    pub fn get_tx_outs(&self, outpoints: &Vec<SerializedOutPoint>, which: Option<bool>) -> (r: Vec<
        Option<TxOutEntry>,
    >)
        ensures
            r@.len() == outpoints@.len(),
            forall|i: int|
                0 <= i < outpoints@.len() ==> entry_view_opt(#[trigger] r@[i]) == read_tx_out(
                    self.chain@,
                    self.mempool@,
                    outpoints@[i],
                    which,
                ),
    {
        let mut r: Vec<Option<TxOutEntry>> = Vec::new();
        let mut i: usize = 0;
        while i < outpoints.len()
            invariant
                i <= outpoints@.len(),
                r@.len() == i,
                forall|k: int|
                    0 <= k < i ==> entry_view_opt(#[trigger] r@[k]) == read_tx_out(
                        self.chain@,
                        self.mempool@,
                        outpoints@[k],
                        which,
                    ),
            decreases outpoints@.len() - i,
        {
            let e = match self.get_tx_out(&outpoints[i], which) {
                Ok(e) => Some(e),
                Err(_) => None,
            };
            r.push(e);
            i = i + 1;
        }
        r
    }

    /// The number of blocks indexed, as the chain's side records it.
    pub fn get_block_count(&self) -> (n: u64)
        ensures
            n == self.chain@.block_count,
    {
        self.chain.get_block_count()
    }

    /// The number of runes counted, as the chain's side records it.
    pub fn get_runes_count(&self) -> (n: u64)
        ensures
            n == self.chain@.runes_count,
    {
        self.chain.get_runes_count()
    }

    /// The number of purged blocks, as the chain's side records it.
    pub fn get_purged_blocks_count(&self) -> (n: u64)
        ensures
            n == self.chain@.purged_blocks_count,
    {
        self.chain.get_purged_blocks_count()
    }

    /// The hash of the block at `height`, as the chain's side records it.
    pub fn get_block_hash(&self, height: u64) -> (r: Result<BlockHash, StoreError>)
        ensures
            match lookup_hash(self.chain@, height) {
                Some(h) => r matches Ok(x) && x@ == h,
                None => r == Err::<BlockHash, StoreError>(StoreError::BlockHashNotFound(height)),
            },
    {
        self.chain.get_block_hash(height)
    }

    /// Whether the store records transaction `txid` as in the mempool.
    pub fn is_tx_in_mempool(&self, txid: &Txid) -> (b: bool)
        ensures
            b == in_mempool(self.chain@, self.mempool@, *txid),
    {
        self.chain.is_tx_in_mempool(txid) || self.mempool.is_tx_in_mempool(txid)
    }

    /// The id a query stands for, as `to_rune_id` finds it.
    pub open spec fn to_rune_id_spec(&self, query: RuneQuery) -> Result<RuneId, StoreError> {
        match query {
            RuneQuery::Id(id) => Ok(id),
            RuneQuery::Spaced(s) => if self.chain@.rune_ids.contains_key(s.rune) {
                Ok(self.chain@.rune_ids[s.rune])
            } else {
                Err(StoreError::RuneNameNotFound(s.rune))
            },
        }
    }
}

/// Every rune a page holds is the chain's entry of its id.
proof fn lemma_read_runes_held(s: IndexView, numbers: Seq<u64>)
    ensures
        read_runes(s, numbers) matches Ok(page) ==> forall|k: int|
            0 <= k < page.len() ==> #[trigger] s.runes.contains_key(page[k].0) && s.runes[page[k].0]
                == page[k].1,
    decreases numbers.len(),
{
    if numbers.len() > 0 {
        lemma_read_runes_held(s, numbers.drop_last());
    }
}

/// Once a page of runes fails to read, later numbers change nothing.
proof fn lemma_read_runes_failed(s: IndexView, numbers: Seq<u64>, k: int)
    requires
        0 <= k <= numbers.len(),
        read_runes(s, numbers.take(k)) is Err,
    ensures
        read_runes(s, numbers) == read_runes(s, numbers.take(k)),
    decreases numbers.len() - k,
{
    if k < numbers.len() {
        assert(numbers.take(k + 1).drop_last() =~= numbers.take(k));
        lemma_read_runes_failed(s, numbers, k + 1);
    } else {
        assert(numbers.take(k) =~= numbers);
    }
}

} // verus!
