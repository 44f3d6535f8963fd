use vstd::prelude::*;
use crate::address::SpenderReference;
use crate::index_state::{
    confirmed_status, last_page, rune_txs, spent_outpoints_of, unconfirmed_status, IndexView,
    PaginationResponse, TransactionStatus,
};
use crate::parser::{copy_bytes, TransactionData, TransactionView};
use crate::state_change::{SpentStatus, TxOutEntry, TxOutEntryView};
use crate::store::{read_tx_out, side, Store};
use crate::tx_updater::StoreError;
use crate::types::{RuneId, SerializedOutPoint, Txid};

verus! {

/// An output entry as the mempool sees it: marked spent by the input that spends it there.
pub open spec fn with_mempool_spent(
    v: TxOutEntryView,
    spent: Map<SerializedOutPoint, SpenderReference>,
    o: SerializedOutPoint,
) -> TxOutEntryView {
    if spent.contains_key(o) {
        TxOutEntryView { spent: SpentStatus::Spent(spent[o]), ..v }
    } else {
        v
    }
}

/// What reading an output entry gives once the mempool's spends are applied to it.
pub open spec fn read_tx_out_seen(
    chain: IndexView,
    mempool: IndexView,
    o: SerializedOutPoint,
    which: Option<bool>,
) -> Option<TxOutEntryView> {
    match read_tx_out(chain, mempool, o, which) {
        Some(v) => Some(with_mempool_spent(v, mempool.spent_in_mempool, o)),
        None => None,
    }
}

/// The view of an entry that may be missing.
pub open spec fn entry_view_opt(e: Option<TxOutEntry>) -> Option<TxOutEntryView> {
    match e {
        Some(x) => Some(x@),
        None => None,
    }
}

/// The outpoint of output `vout` of transaction `txid`.
pub open spec fn output_outpoint(txid: Txid, vout: int) -> SerializedOutPoint {
    SerializedOutPoint { txid, vout: vout as u32 }
}

impl Store {
    /// `e`, the entry of `o`, marked spent when a mempool transaction spends `o`.
    fn mark_mempool_spent(&self, o: &SerializedOutPoint, e: TxOutEntry) -> (r: TxOutEntry)
        ensures
            r@ == with_mempool_spent(e@, self.mempool@.spent_in_mempool, *o),
    {
        let mut e = e;
        match self.mempool.spent_in_mempool.get(o) {
            Some(by) => {
                e.spent = SpentStatus::Spent(*by);
            },
            None => {},
        }
        e
    }

    /// The entry of output `o`, as `get_tx_out` reads it, marked spent when a mempool
    /// transaction spends it.
    pub fn get_tx_out_with_mempool_spent_update(
        &self,
        o: &SerializedOutPoint,
        which: Option<bool>,
    ) -> (r: Result<TxOutEntry, StoreError>)
        ensures
            match read_tx_out_seen(self.chain@, self.mempool@, *o, which) {
                Some(v) => r matches Ok(e) && e@ == v,
                None => r == Err::<TxOutEntry, StoreError>(
                    StoreError::OutputNotFound(*o),
                ),
            },
    {
        match self.get_tx_out(o, which) {
            Ok(e) => Ok(self.mark_mempool_spent(o, e)),
            Err(e) => Err(e),
        }
    }

    /// The entries of `outpoints`, in their order, each as
    /// `get_tx_out_with_mempool_spent_update` reads it; `None` for one that is not stored.
    pub fn get_tx_outs_with_mempool_spent_update(
        &self,
        outpoints: &Vec<SerializedOutPoint>,
        which: Option<bool>,
    ) -> (r: Vec<Option<TxOutEntry>>)
        ensures
            r@.len() == outpoints@.len(),
            forall|i: int|
                0 <= i < outpoints@.len() ==> entry_view_opt(#[trigger] r@[i]) == read_tx_out_seen(
                    self.chain@,
                    self.mempool@,
                    outpoints@[i],
                    which,
                ),
    {
        let mut r: Vec<Option<TxOutEntry>> = Vec::new();
        let mut i: usize = 0;
        while i < outpoints.len()
            invariant
                i <= outpoints@.len(),
                r@.len() == i,
                forall|k: int|
                    0 <= k < i ==> entry_view_opt(#[trigger] r@[k]) == read_tx_out_seen(
                        self.chain@,
                        self.mempool@,
                        outpoints@[k],
                        which,
                    ),
            decreases outpoints@.len() - i,
        {
            let e = match self.get_tx_out_with_mempool_spent_update(&outpoints[i], which) {
                Ok(e) => Some(e),
                Err(_) => None,
            };
            r.push(e);
            i = i + 1;
        }
        r
    }

    /// The entries of the outputs a transaction spends and of those it creates, in order, each
    /// read from the chain and else from the mempool and marked spent by the mempool.
    pub fn get_inputs_outputs_from_transaction(&self, tx: &TransactionData, txid: &Txid) -> (r: (
        Vec<Option<TxOutEntry>>,
        Vec<Option<TxOutEntry>>,
    ))
        ensures
            r.0@.len() == tx.input@.len(),
            forall|i: int|
                0 <= i < tx.input@.len() ==> entry_view_opt(#[trigger] r.0@[i]) == read_tx_out_seen(
                    self.chain@,
                    self.mempool@,
                    spent_outpoints_of(*tx)[i],
                    None,
                ),
            r.1@.len() == tx.output@.len(),
            forall|v: int|
                0 <= v < tx.output@.len() ==> entry_view_opt(#[trigger] r.1@[v]) == read_tx_out_seen(
                    self.chain@,
                    self.mempool@,
                    output_outpoint(*txid, v),
                    None,
                ),
    {
        let mut prev: Vec<SerializedOutPoint> = Vec::new();
        let mut i: usize = 0;
        while i < tx.input.len()
            invariant
                i <= tx.input@.len(),
                prev@ == spent_outpoints_of(*tx).take(i as int),
            decreases tx.input@.len() - i,
        {
            prev.push(tx.input[i].previous_output);
            i = i + 1;
            assert(prev@ =~= spent_outpoints_of(*tx).take(i as int));
        }
        assert(prev@ =~= spent_outpoints_of(*tx));
        let mut outs: Vec<SerializedOutPoint> = Vec::new();
        let mut v: usize = 0;
        while v < tx.output.len()
            invariant
                v <= tx.output@.len(),
                outs@.len() == v,
                forall|k: int| 0 <= k < v ==> #[trigger] outs@[k] == output_outpoint(*txid, k),
            decreases tx.output@.len() - v,
        {
            outs.push(SerializedOutPoint { txid: *txid, vout: v as u32 });
            v = v + 1;
        }
        let inputs = self.get_tx_outs_with_mempool_spent_update(&prev, None);
        let outputs = self.get_tx_outs_with_mempool_spent_update(&outs, None);
        (inputs, outputs)
    }

    /// Of `outpoints`, in order, those that a mempool transaction spends.
    pub fn filter_spent_outpoints_in_mempool(&self, outpoints: &Vec<SerializedOutPoint>) -> (r: Vec<
        SerializedOutPoint,
    >)
        ensures
            r@ == outpoints@.filter(|o: SerializedOutPoint| self.mempool@.spent_in_mempool.contains_key(o)),
    {
        let ghost pred = |o: SerializedOutPoint| self.mempool@.spent_in_mempool.contains_key(o);
        let mut r: Vec<SerializedOutPoint> = Vec::new();
        let mut i: usize = 0;
        while i < outpoints.len()
            invariant
                i <= outpoints@.len(),
                pred == (|o: SerializedOutPoint| self.mempool@.spent_in_mempool.contains_key(o)),
                r@ == outpoints@.take(i as int).filter(pred),
            decreases outpoints@.len() - i,
        {
            proof {
                reveal(Seq::filter);
                assert(outpoints@.take(i + 1).drop_last() =~= outpoints@.take(i as int));
            }
            if self.mempool.spent_in_mempool.contains(&outpoints[i]) {
                r.push(outpoints[i]);
            }
            i = i + 1;
        }
        assert(outpoints@.take(i as int) =~= outpoints@);
        r
    }
}


/// A stored transaction with its status and the entries of the outputs it spends and creates.
pub struct TransactionRecord {
    pub transaction: TransactionData,
    pub status: TransactionStatus,
    pub inputs: Vec<Option<TxOutEntry>>,
    pub outputs: Vec<Option<TxOutEntry>>,
}

/// The transaction stored under `txid` with its status: from the side asked for, or, when
/// none is, from the chain and else from the mempool. One of the chain takes the status of
/// the block that confirms it; one of the mempool is unconfirmed.
pub open spec fn found_transaction(
    chain: IndexView,
    mempool: IndexView,
    txid: Txid,
    which: Option<bool>,
) -> Result<(TransactionView, TransactionStatus), StoreError> {
    let in_chain = chain.transactions.contains_key(txid@);
    let confirmed = chain.confirming_blocks.contains_key(txid@);
    let in_mempool = mempool.transactions.contains_key(txid@);
    match which {
        Some(false) => if !confirmed {
            Err(StoreError::ConfirmingBlockNotFound(txid))
        } else if !in_chain {
            Err(StoreError::TransactionNotFound(txid))
        } else {
            Ok((chain.transactions[txid@], confirmed_status(chain.confirming_blocks[txid@])))
        },
        Some(true) => if in_mempool {
            Ok((mempool.transactions[txid@], unconfirmed_status()))
        } else {
            Err(StoreError::TransactionNotFound(txid))
        },
        None => if in_chain {
            if confirmed {
                Ok((chain.transactions[txid@], confirmed_status(chain.confirming_blocks[txid@])))
            } else {
                Err(StoreError::ConfirmingBlockNotFound(txid))
            }
        } else if in_mempool {
            Ok((mempool.transactions[txid@], unconfirmed_status()))
        } else {
            Err(StoreError::TransactionNotFound(txid))
        },
    }
}

/// Whether `inputs` and `outputs` are the entries of the outputs `tx` spends and creates,
/// each read from the chain and else from the mempool and marked spent by the mempool.
pub open spec fn lists_entries(
    chain: IndexView,
    mempool: IndexView,
    tx: TransactionData,
    txid: Txid,
    inputs: Seq<Option<TxOutEntry>>,
    outputs: Seq<Option<TxOutEntry>>,
) -> bool {
    &&& inputs.len() == tx.input@.len()
    &&& forall|i: int|
        0 <= i < inputs.len() ==> entry_view_opt(#[trigger] inputs[i]) == read_tx_out_seen(
            chain,
            mempool,
            spent_outpoints_of(tx)[i],
            None,
        )
    &&& outputs.len() == tx.output@.len()
    &&& forall|v: int|
        0 <= v < outputs.len() ==> entry_view_opt(#[trigger] outputs[v]) == read_tx_out_seen(
            chain,
            mempool,
            output_outpoint(txid, v),
            None,
        )
}

/// `a` less `b`, or zero when `b` is larger.
pub open spec fn sat_sub(a: u64, b: int) -> u64 {
    if a >= b {
        (a - b) as u64
    } else {
        0
    }
}

/// The page of a rune's transactions that the mempool and the chain give together: the
/// mempool's page first, then the chain's, skipping what the mempool's offset did not
/// cover and limited to what the mempool's page left.
pub open spec fn merged_page(chain: IndexView, mempool: IndexView, id: RuneId, skip: u64, limit: u64) -> (
    Seq<Txid>,
    u64,
) {
    let m = last_page(rune_txs(mempool, id), skip, limit);
    let c = last_page(rune_txs(chain, id), sat_sub(skip, m.1 as int), sat_sub(limit, m.0.len() as int));
    (m.0 + c.0, (m.1 + c.1) as u64)
}

/// The page of a rune's transactions from the side asked for, or from both when none is.
pub open spec fn page_of(
    chain: IndexView,
    mempool: IndexView,
    id: RuneId,
    skip: u64,
    limit: u64,
    which: Option<bool>,
) -> (Seq<Txid>, u64) {
    match which {
        Some(m) => last_page(rune_txs(side(chain, mempool, m), id), skip, limit),
        None => merged_page(chain, mempool, id, skip, limit),
    }
}

/// Whether reading such a page is defined: no side is read for an empty page of a list that
/// it does not skip past, and the two offsets add up within `u64`.
pub open spec fn page_defined(
    chain: IndexView,
    mempool: IndexView,
    id: RuneId,
    skip: u64,
    limit: u64,
    which: Option<bool>,
) -> bool {
    match which {
        Some(m) => limit > 0 || skip >= rune_txs(side(chain, mempool, m), id).len(),
        None => {
            let m = last_page(rune_txs(mempool, id), skip, limit);
            let cs = sat_sub(skip, m.1 as int);
            let cl = sat_sub(limit, m.0.len() as int);
            &&& limit > 0 || skip >= rune_txs(mempool, id).len()
            &&& cl > 0 || cs >= rune_txs(chain, id).len()
            &&& m.1 + last_page(rune_txs(chain, id), cs, cl).1 <= u64::MAX
        },
    }
}

/// The outputs recorded for a locking script; none when it has no entry.
pub open spec fn script_list(s: IndexView, script: Seq<u8>) -> Seq<SerializedOutPoint> {
    if s.script_utxos.contains_key(script) {
        s.script_utxos[script]
    } else {
        Seq::empty()
    }
}

/// Whether no mempool transaction spends `o`.
pub open spec fn unspent_in_mempool(mempool: IndexView, o: SerializedOutPoint) -> bool {
    !mempool.spent_in_mempool.contains_key(o)
}

/// The outputs of a locking script: those of the side asked for, or, when none is, those of
/// the chain then those of the mempool, less those a mempool transaction spends.
pub open spec fn script_outpoints(
    chain: IndexView,
    mempool: IndexView,
    script: Seq<u8>,
    which: Option<bool>,
) -> Seq<SerializedOutPoint> {
    match which {
        Some(m) => script_list(side(chain, mempool, m), script),
        None => (script_list(chain, script) + script_list(mempool, script)).filter(
            |o: SerializedOutPoint| unspent_in_mempool(mempool, o),
        ),
    }
}

/// The locking script recorded for output `o`: on the side asked for, or, when none is, on
/// the chain and else in the mempool.
pub open spec fn script_of(
    chain: IndexView,
    mempool: IndexView,
    o: SerializedOutPoint,
    which: Option<bool>,
) -> Option<Seq<u8>> {
    match which {
        Some(m) => if side(chain, mempool, m).outpoint_scripts.contains_key(o) {
            Some(side(chain, mempool, m).outpoint_scripts[o])
        } else {
            None
        },
        None => if chain.outpoint_scripts.contains_key(o) {
            Some(chain.outpoint_scripts[o])
        } else if mempool.outpoint_scripts.contains_key(o) {
            Some(mempool.outpoint_scripts[o])
        } else {
            None
        },
    }
}

/// The bytes of a script that may be missing.
pub open spec fn bytes_opt(b: Option<Vec<u8>>) -> Option<Seq<u8>> {
    match b {
        Some(x) => Some(x@),
        None => None,
    }
}

fn copy_outpoints(v: &Vec<SerializedOutPoint>) -> (c: Vec<SerializedOutPoint>)
    ensures
        c@ == v@,
{
    let mut c: Vec<SerializedOutPoint> = Vec::new();
    let mut i: usize = 0;
    while i < v.len()
        invariant
            i <= v@.len(),
            c@ == v@.take(i as int),
        decreases v@.len() - i,
    {
        c.push(v[i]);
        i = i + 1;
        assert(c@ =~= v@.take(i as int));
    }
    assert(v@.take(i as int) =~= v@);
    c
}

impl Store {
    /// The transaction stored under `txid`, with its status and the entries of the outputs it
    /// spends and creates.
    pub fn get_transaction(&self, txid: &Txid, which: Option<bool>) -> (r: Result<TransactionRecord, StoreError>)
        ensures
            match found_transaction(self.chain@, self.mempool@, *txid, which) {
                Ok(found) => r matches Ok(rec) && rec.transaction@ == found.0 && rec.status
                    == found.1 && lists_entries(
                    self.chain@,
                    self.mempool@,
                    rec.transaction,
                    *txid,
                    rec.inputs@,
                    rec.outputs@,
                ),
                Err(e) => r matches Err(x) && x == e,
            },
    {
        let (tx, status) = match which {
            Some(false) => {
                let status = match self.chain.confirming_blocks.get(txid) {
                    Some(b) => (*b).into_transaction_status(),
                    None => {
                        return Err(StoreError::ConfirmingBlockNotFound(*txid));
                    },
                };
                match self.chain.transactions.get(txid) {
                    Some(t) => (t, status),
                    None => {
                        return Err(StoreError::TransactionNotFound(*txid));
                    },
                }
            },
            Some(true) => match self.mempool.transactions.get(txid) {
                Some(t) => (t, TransactionStatus::unconfirmed()),
                None => {
                    return Err(StoreError::TransactionNotFound(*txid));
                },
            },
            None => match self.chain.transactions.get(txid) {
                Some(t) => {
                    let status = match self.chain.confirming_blocks.get(txid) {
                        Some(b) => (*b).into_transaction_status(),
                        None => {
                            return Err(StoreError::ConfirmingBlockNotFound(*txid));
                        },
                    };
                    (t, status)
                },
                None => match self.mempool.transactions.get(txid) {
                    Some(t) => (t, TransactionStatus::unconfirmed()),
                    None => {
                        return Err(StoreError::TransactionNotFound(*txid));
                    },
                },
            },
        };
        let (inputs, outputs) = self.get_inputs_outputs_from_transaction(tx, txid);
        let transaction = tx.duplicate();
        assert(spent_outpoints_of(transaction) =~= spent_outpoints_of(*tx));
        assert(transaction.output@.len() == transaction@.output.len());
        assert(tx.output@.len() == tx@.output.len());
        Ok(TransactionRecord { transaction, status, inputs, outputs })
    }

    /// A page of the transactions of rune `rune_id`, newest first, from the side asked for;
    /// when none is, the mempool's page first, then the chain's.
    pub fn get_last_rune_transactions(
        &self,
        rune_id: &RuneId,
        skip: u64,
        limit: u64,
        which: Option<bool>,
    ) -> (r: PaginationResponse<Txid>)
        requires
            page_defined(self.chain@, self.mempool@, *rune_id, skip, limit, which),
        ensures
            (r.items@, r.offset) == page_of(self.chain@, self.mempool@, *rune_id, skip, limit, which),
    {
        match which {
            Some(true) => self.mempool.get_last_rune_transactions(rune_id, skip, limit),
            Some(false) => self.chain.get_last_rune_transactions(rune_id, skip, limit),
            None => {
                let m = self.mempool.get_last_rune_transactions(rune_id, skip, limit);
                let n = m.items.len() as u64;
                let chain_skip = skip.saturating_sub(m.offset);
                let chain_limit = limit.saturating_sub(n);
                let c = self.chain.get_last_rune_transactions(rune_id, chain_skip, chain_limit);
                let offset = m.offset + c.offset;
                let mut items = m.items;
                let mut rest = c.items;
                items.append(&mut rest);
                PaginationResponse { items, offset }
            },
        }
    }

    /// The outputs of a locking script: those of the side asked for, or, when none is, those
    /// of the chain then those of the mempool, less those a mempool transaction spends.
    pub fn get_script_pubkey_outpoints(&self, script: &Vec<u8>, which: Option<bool>) -> (r: Vec<
        SerializedOutPoint,
    >)
        ensures
            r@ == script_outpoints(self.chain@, self.mempool@, script@, which),
    {
        let empty: Vec<SerializedOutPoint> = Vec::new();
        match which {
            Some(m) => {
                let s = if m {
                    &self.mempool
                } else {
                    &self.chain
                };
                match s.script_utxos.get(script) {
                    Some(l) => copy_outpoints(l),
                    None => empty,
                }
            },
            None => {
                let a = match self.chain.script_utxos.get(script) {
                    Some(l) => l,
                    None => &empty,
                };
                let b = match self.mempool.script_utxos.get(script) {
                    Some(l) => l,
                    None => &empty,
                };
                let ghost p = |o: SerializedOutPoint| unspent_in_mempool(self.mempool@, o);
                assert(a@ == script_list(self.chain@, script@));
                assert(b@ == script_list(self.mempool@, script@));
                let mut r: Vec<SerializedOutPoint> = Vec::new();
                let mut i: usize = 0;
                while i < a.len()
                    invariant
                        i <= a@.len(),
                        p == (|o: SerializedOutPoint| unspent_in_mempool(self.mempool@, o)),
                        r@ == a@.take(i as int).filter(p),
                    decreases a@.len() - i,
                {
                    proof {
                        reveal(Seq::filter);
                        assert(a@.take(i + 1).drop_last() =~= a@.take(i as int));
                    }
                    if !self.mempool.spent_in_mempool.contains(&a[i]) {
                        r.push(a[i]);
                    }
                    i = i + 1;
                }
                assert(a@.take(i as int) =~= a@);
                let mut j: usize = 0;
                while j < b.len()
                    invariant
                        j <= b@.len(),
                        p == (|o: SerializedOutPoint| unspent_in_mempool(self.mempool@, o)),
                        r@ == a@.filter(p) + b@.take(j as int).filter(p),
                    decreases b@.len() - j,
                {
                    proof {
                        reveal(Seq::filter);
                        assert(b@.take(j + 1).drop_last() =~= b@.take(j as int));
                    }
                    if !self.mempool.spent_in_mempool.contains(&b[j]) {
                        r.push(b[j]);
                        proof {
                            assert(a@.filter(p) + b@.take(j + 1).filter(p) =~= (a@.filter(p)
                                + b@.take(j as int).filter(p)).push(b@[j as int]));
                        }
                    }
                    j = j + 1;
                }
                assert(b@.take(j as int) =~= b@);
                proof {
                    Seq::filter_distributes_over_add(a@, b@, p);
                }
                r
            },
        }
    }

    /// The locking scripts of `outpoints`, in order: from the side asked for, or, when none
    /// is, from the chain and else from the mempool. An output without one is `None` when
    /// `optimistic`, and otherwise the first such one is the error.
    pub fn get_outpoints_to_script_pubkey(
        &self,
        outpoints: &Vec<SerializedOutPoint>,
        which: Option<bool>,
        optimistic: bool,
    ) -> (r: Result<Vec<Option<Vec<u8>>>, StoreError>)
        ensures
            r is Ok <==> (optimistic || forall|i: int|
                0 <= i < outpoints@.len() ==> (#[trigger] script_of(
                    self.chain@,
                    self.mempool@,
                    outpoints@[i],
                    which,
                )) is Some),
            r matches Ok(v) ==> v@.len() == outpoints@.len() && forall|i: int|
                0 <= i < outpoints@.len() ==> bytes_opt(#[trigger] v@[i]) == script_of(
                    self.chain@,
                    self.mempool@,
                    outpoints@[i],
                    which,
                ),
            r matches Err(e) ==> exists|i: int|
                0 <= i < outpoints@.len() && script_of(self.chain@, self.mempool@, outpoints@[i], which)
                    is None && e == StoreError::ScriptNotFound(outpoints@[i]) && forall|j: int|
                    0 <= j < i ==> (#[trigger] script_of(
                        self.chain@,
                        self.mempool@,
                        outpoints@[j],
                        which,
                    )) is Some,
    {
        let mut v: Vec<Option<Vec<u8>>> = Vec::new();
        let mut i: usize = 0;
        while i < outpoints.len()
            invariant
                i <= outpoints@.len(),
                v@.len() == i,
                forall|k: int|
                    0 <= k < i ==> bytes_opt(#[trigger] v@[k]) == script_of(
                        self.chain@,
                        self.mempool@,
                        outpoints@[k],
                        which,
                    ),
                !optimistic ==> forall|k: int|
                    0 <= k < i ==> (#[trigger] script_of(
                        self.chain@,
                        self.mempool@,
                        outpoints@[k],
                        which,
                    )) is Some,
            decreases outpoints@.len() - i,
        {
            let o = &outpoints[i];
            let found = match which {
                Some(true) => self.mempool.outpoint_scripts.get(o),
                Some(false) => self.chain.outpoint_scripts.get(o),
                None => match self.chain.outpoint_scripts.get(o) {
                    Some(s) => Some(s),
                    None => self.mempool.outpoint_scripts.get(o),
                },
            };
            match found {
                Some(s) => {
                    v.push(Some(copy_bytes(s)));
                },
                None => {
                    if !optimistic {
                        assert(script_of(self.chain@, self.mempool@, outpoints@[i as int], which) is None);
                        return Err(StoreError::ScriptNotFound(*o));
                    }
                    v.push(None);
                },
            }
            i = i + 1;
        }
        Ok(v)
    }
}


/// Whether the chain side stores the transaction `t`.
pub open spec fn stored_on_chain(chain: IndexView, t: Txid) -> bool {
    chain.transactions.contains_key(t@)
}

impl Store {
    /// Splits `txids`, each in order, into those whose transaction the chain side stores and
    /// the others.
    pub fn partition_transactions_by_existence(&self, txids: &Vec<Txid>) -> (r: (Vec<Txid>, Vec<Txid>))
        ensures
            r.0@ == txids@.filter(|t: Txid| stored_on_chain(self.chain@, t)),
            r.1@ == txids@.filter(|t: Txid| !stored_on_chain(self.chain@, t)),
    {
        let ghost yes = |t: Txid| stored_on_chain(self.chain@, t);
        let ghost no = |t: Txid| !stored_on_chain(self.chain@, t);
        let mut exists: Vec<Txid> = Vec::new();
        let mut not_exists: Vec<Txid> = Vec::new();
        let mut i: usize = 0;
        while i < txids.len()
            invariant
                i <= txids@.len(),
                yes == (|t: Txid| stored_on_chain(self.chain@, t)),
                no == (|t: Txid| !stored_on_chain(self.chain@, t)),
                exists@ == txids@.take(i as int).filter(yes),
                not_exists@ == txids@.take(i as int).filter(no),
            decreases txids@.len() - i,
        {
            proof {
                reveal(Seq::filter);
                assert(txids@.take(i + 1).drop_last() =~= txids@.take(i as int));
            }
            if self.chain.transactions.contains(&txids[i]) {
                exists.push(txids[i]);
            } else {
                not_exists.push(txids[i]);
            }
            i = i + 1;
        }
        assert(txids@.take(i as int) =~= txids@);
        (exists, not_exists)
    }
}

} // verus!
