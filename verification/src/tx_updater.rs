use vstd::prelude::*;
use crate::address::{index_of, AddressUpdater, SpenderReference};
use crate::allocation::{Artifact, ArtifactView};
use crate::parser::artifact_view;
use crate::index_state::{location_of, BlockId, Event, IndexState, IndexView, Location};
use crate::parse::{is_coinbase, spec_is_coinbase};
use crate::parser::{TransactionData, TransactionView, TxOutput};
use crate::rune_entry::{burned_entry, minted_entry, new_rune_entry, Etching, InscriptionId, RuneEntry};
use crate::settings::TransactionUpdaterSettings;
use crate::state_change::{touched_rune_ids, RuneAmount, SpentStatus, TransactionStateChange, TxOutEntryView};
use crate::types::{RuneId, SerializedOutPoint, Txid};

verus! {

/// A failure of the index's tables.
#[derive(Clone, Copy, Debug)]
pub enum StoreError {
    /// The rune has no entry.
    RuneNotFound(RuneId),
    /// The output has no recorded locking script.
    ScriptNotFound(SerializedOutPoint),
    /// The output has no entry.
    OutputNotFound(SerializedOutPoint),
    /// The transaction has no recorded state change.
    StateChangeNotFound(Txid),
    /// No rune has this number.
    RuneNumberNotFound(u64),
    /// No rune has this name.
    RuneNameNotFound(u128),
    /// The transaction is not stored.
    TransactionNotFound(Txid),
    /// No block is recorded as confirming the transaction.
    ConfirmingBlockNotFound(Txid),
    /// No block hash is recorded at the height.
    BlockHashNotFound(u64),
}

/// Why a transaction could not be saved.
#[derive(Clone, Copy, Debug)]
pub enum TransactionUpdaterError {
    Store(StoreError),
    /// A burned count would not fit.
    Overflow,
}

/// What an etching found in `a` sets for the new rune: a runestone's etching; nothing for a
/// cenotaph.
pub open spec fn etching_fields(a: ArtifactView) -> Option<Etching> {
    match a {
        ArtifactView::Runestone { etching, .. } => etching,
        ArtifactView::Cenotaph { .. } => None,
    }
}

/// Whether `a` can be the artifact of an etching: there is one, and a runestone holds its
/// etching.
pub open spec fn can_etch(a: Option<ArtifactView>) -> bool {
    match a {
        Some(ArtifactView::Runestone { etching, .. }) => etching is Some,
        Some(ArtifactView::Cenotaph { .. }) => true,
        None => false,
    }
}

/// The tables after a rune is etched: its entry, numbered by the count of runes, its number
/// and name pointing at its id, the count one more, and the event.
pub open spec fn save_etch(
    s: IndexView,
    txid: Txid,
    loc: Location,
    timestamp: u64,
    inscription_id: Option<InscriptionId>,
    fields: Option<Etching>,
    id: RuneId,
    rune: u128,
) -> IndexView {
    IndexView {
        runes: s.runes.insert(
            id,
            new_rune_entry(id.block, txid, s.runes_count, rune, timestamp, inscription_id, fields),
        ),
        rune_numbers: s.rune_numbers.insert(s.runes_count, id),
        rune_ids: s.rune_ids.insert(rune, id),
        runes_count: (s.runes_count + 1) as u64,
        events: s.events.push(Event::RuneEtched { location: loc, txid, rune_id: id }),
        ..s
    }
}

/// The tables after `b.1` units of rune `b.0` are burned, or the failure with the tables as
/// they were.
pub open spec fn save_burn(
    s: IndexView,
    txid: Txid,
    loc: Location,
    mempool: bool,
    b: (RuneId, u128),
) -> Result<IndexView, (IndexView, TransactionUpdaterError)> {
    if !s.runes.contains_key(b.0) {
        Err((s, TransactionUpdaterError::Store(StoreError::RuneNotFound(b.0))))
    } else {
        match burned_entry(s.runes[b.0], b.1, mempool) {
            None => Err((s, TransactionUpdaterError::Overflow)),
            Some(e) => Ok(
                IndexView {
                    runes: s.runes.insert(b.0, e),
                    events: s.events.push(
                        Event::RuneBurned { location: loc, txid, amount: b.1, rune_id: b.0 },
                    ),
                    ..s
                },
            ),
        }
    }
}

/// The tables after the burns in order, stopping at the first failure.
pub open spec fn save_burns(
    s: IndexView,
    txid: Txid,
    loc: Location,
    mempool: bool,
    burns: Seq<(RuneId, u128)>,
) -> Result<IndexView, (IndexView, TransactionUpdaterError)>
    decreases burns.len(),
{
    if burns.len() == 0 {
        Ok(s)
    } else {
        match save_burns(s, txid, loc, mempool, burns.drop_last()) {
            Ok(t) => save_burn(t, txid, loc, mempool, burns.last()),
            Err(x) => Err(x),
        }
    }
}

/// The tables after a mint of `m.rune_id` is counted, or the failure with the tables as they
/// were.
pub open spec fn save_mint(
    s: IndexView,
    txid: Txid,
    loc: Location,
    mempool: bool,
    m: RuneAmount,
) -> Result<IndexView, (IndexView, TransactionUpdaterError)> {
    if !s.runes.contains_key(m.rune_id) {
        Err((s, TransactionUpdaterError::Store(StoreError::RuneNotFound(m.rune_id))))
    } else {
        Ok(
            IndexView {
                runes: s.runes.insert(m.rune_id, minted_entry(s.runes[m.rune_id], mempool)),
                events: s.events.push(
                    Event::RuneMinted { location: loc, txid, amount: m.amount, rune_id: m.rune_id },
                ),
                ..s
            },
        )
    }
}

/// The output entries with the one of `o` marked spent by `by`, when it has one.
pub open spec fn spend(
    m: Map<SerializedOutPoint, TxOutEntryView>,
    o: SerializedOutPoint,
    by: SpenderReference,
) -> Map<SerializedOutPoint, TxOutEntryView> {
    if m.contains_key(o) {
        m.insert(o, TxOutEntryView { spent: SpentStatus::Spent(by), ..m[o] })
    } else {
        m
    }
}

/// The output entries with each of `inputs` marked spent, in order, by the input of
/// transaction `txid` at the same position.
pub open spec fn spend_all(
    m: Map<SerializedOutPoint, TxOutEntryView>,
    inputs: Seq<SerializedOutPoint>,
    txid: Txid,
) -> Map<SerializedOutPoint, TxOutEntryView>
    decreases inputs.len(),
{
    if inputs.len() == 0 {
        m
    } else {
        spend(
            spend_all(m, inputs.drop_last(), txid),
            inputs.last(),
            SpenderReference { txid, vin: (inputs.len() - 1) as u32 },
        )
    }
}

/// The events of the runes an output receives.
pub open spec fn transfer_events(
    txid: Txid,
    loc: Location,
    o: SerializedOutPoint,
    runes: Seq<RuneAmount>,
) -> Seq<Event> {
    Seq::new(
        runes.len(),
        |j: int|
            Event::RuneTransferred {
                location: loc,
                txid,
                outpoint: o,
                rune_id: runes[j].rune_id,
                amount: runes[j].amount,
            },
    )
}

/// The tables after the outputs are stored, in order: an output without runes only when
/// addresses are indexed, each with the events of its runes.
pub open spec fn save_outputs(
    s: IndexView,
    txid: Txid,
    loc: Location,
    index_addresses: bool,
    outputs: Seq<TxOutEntryView>,
) -> IndexView
    decreases outputs.len(),
{
    if outputs.len() == 0 {
        s
    } else {
        let prev = save_outputs(s, txid, loc, index_addresses, outputs.drop_last());
        let out = outputs.last();
        let o = SerializedOutPoint { txid, vout: (outputs.len() - 1) as u32 };
        if out.runes.len() == 0 && !index_addresses {
            prev
        } else {
            IndexView {
                tx_outs: prev.tx_outs.insert(o, out),
                events: prev.events + transfer_events(txid, loc, o, out.runes),
                ..prev
            }
        }
    }
}

/// The rune transactions with `txid` appended to the list of each of `ids`.
pub open spec fn add_rune_transactions(
    m: Map<RuneId, Seq<Txid>>,
    ids: Set<RuneId>,
    txid: Txid,
) -> Map<RuneId, Seq<Txid>> {
    Map::new(
        |id: RuneId| m.contains_key(id) || ids.contains(id),
        |id: RuneId|
            if ids.contains(id) {
                (if m.contains_key(id) {
                    m[id]
                } else {
                    Seq::empty()
                }).push(txid)
            } else {
                m[id]
            },
    )
}

/// The tables after the state change, the rune transactions, the transaction (when they are
/// indexed) and, outside the mempool, the confirming block are recorded.
pub open spec fn save_records(
    s: IndexView,
    settings: TransactionUpdaterSettings,
    mempool: bool,
    block_id: Option<BlockId>,
    txid: Txid,
    tx: TransactionView,
    change: &TransactionStateChange,
) -> IndexView {
    IndexView {
        tx_state_changes: s.tx_state_changes.insert(txid@, change@),
        rune_transactions: add_rune_transactions(s.rune_transactions, touched_rune_ids(change), txid),
        transactions: if settings.index_bitcoin_transactions {
            s.transactions.insert(txid@, tx)
        } else {
            s.transactions
        },
        confirming_blocks: if !mempool {
            s.confirming_blocks.insert(txid@, block_id.unwrap())
        } else {
            s.confirming_blocks
        },
        ..s
    }
}

/// The height of a block, none for the mempool.
pub open spec fn height_of(block_id: Option<BlockId>) -> Option<u64> {
    match block_id {
        Some(b) => Some(b.height),
        None => None,
    }
}

/// Whether a transaction, as bytes, is a coinbase: its one input spends the null outpoint.
pub open spec fn view_is_coinbase(tx: TransactionView) -> bool {
    &&& tx.input.len() == 1
    &&& tx.input[0].vout == u32::MAX
    &&& tx.input[0].txid == Seq::new(32, |i: int| 0u8)
}

/// A transaction and its bytes agree on whether it is a coinbase.
pub proof fn lemma_view_is_coinbase(tx: TransactionData)
    ensures
        view_is_coinbase(tx@) == spec_is_coinbase(tx),
{
}

/// The output entries once the inputs of transaction `txid` are spent: each input marked
/// spent by the input at its position, but none for a coinbase.
pub open spec fn spend_inputs(
    s: IndexView,
    tx: TransactionView,
    inputs: Seq<SerializedOutPoint>,
    txid: Txid,
) -> IndexView {
    if view_is_coinbase(tx) {
        s
    } else {
        IndexView { tx_outs: spend_all(s.tx_outs, inputs, txid), ..s }
    }
}

/// What saving a transaction does to the tables: the etching, the burns, the mint, the spent
/// inputs (a coinbase spends none), the new outputs and the records, stopping at the first
/// failure.
pub open spec fn saved(
    settings: TransactionUpdaterSettings,
    mempool: bool,
    s: IndexView,
    block_time: u32,
    block_id: Option<BlockId>,
    txid: Txid,
    tx: TransactionView,
    artifact: Option<ArtifactView>,
    inscription_id: Option<InscriptionId>,
    change: &TransactionStateChange,
) -> (IndexView, Result<(), TransactionUpdaterError>) {
    let loc = location_of(height_of(block_id));
    let s1 = match change.etched {
        Some((id, rune)) => save_etch(
            s,
            txid,
            loc,
            block_time as u64,
            inscription_id,
            etching_fields(artifact.unwrap()),
            id,
            rune,
        ),
        None => s,
    };
    match save_burns(s1, txid, loc, mempool, change@.burned) {
        Err((t, e)) => (t, Err(e)),
        Ok(s2) => {
            let m = match change.minted {
                Some(m) => save_mint(s2, txid, loc, mempool, m),
                None => Ok(s2),
            };
            match m {
                Err((t, e)) => (t, Err(e)),
                Ok(s3) => {
                    let s4 = spend_inputs(s3, tx, change@.inputs, txid);
                    let s5 = save_outputs(
                        s4,
                        txid,
                        loc,
                        settings.index_addresses,
                        change@.outputs,
                    );
                    (save_records(s5, settings, mempool, block_id, txid, tx, change), Ok(()))
                },
            }
        },
    }
}

/// `s` with `x` recorded for `o`: in place of its earlier record, or at the end.
pub open spec fn record<T>(s: Seq<(SerializedOutPoint, T)>, o: SerializedOutPoint, x: T) -> Seq<
    (SerializedOutPoint, T),
> {
    match index_of(s, o) {
        Some(i) => s.update(i, (o, x)),
        None => s.push((o, x)),
    }
}

/// `s` with each of `items` recorded, in order.
pub open spec fn record_all<T>(
    s: Seq<(SerializedOutPoint, T)>,
    items: Seq<(SerializedOutPoint, T)>,
) -> Seq<(SerializedOutPoint, T)>
    decreases items.len(),
{
    if items.len() == 0 {
        s
    } else {
        let last = items.last();
        record(record_all(s, items.drop_last()), last.0, last.1)
    }
}

/// The outputs a transaction spends, each with its input; none for a coinbase.
pub open spec fn spender_records(txid: Txid, tx: TransactionData) -> Seq<
    (SerializedOutPoint, SpenderReference),
> {
    if spec_is_coinbase(tx) {
        Seq::empty()
    } else {
        Seq::new(
            tx.input@.len(),
            |i: int| (tx.input@[i].previous_output, SpenderReference { txid, vin: i as u32 }),
        )
    }
}

/// Whether a locking script starts with OP_RETURN.
pub open spec fn is_op_return_script(script: Seq<u8>) -> bool {
    script.len() > 0 && script[0] == 0x6a
}

/// The outputs a transaction creates that can be spent, with their locking scripts.
pub open spec fn created_records(txid: Txid, outputs: Seq<TxOutput>) -> Seq<
    (SerializedOutPoint, Seq<u8>),
>
    decreases outputs.len(),
{
    if outputs.len() == 0 {
        Seq::empty()
    } else {
        let prev = created_records(txid, outputs.drop_last());
        let script = outputs.last().script_pubkey@;
        if is_op_return_script(script) {
            prev
        } else {
            prev.push((SerializedOutPoint { txid, vout: (outputs.len() - 1) as u32 }, script))
        }
    }
}

/// Once the burns fail, later burns change nothing.
proof fn lemma_save_burns_failed(
    s: IndexView,
    txid: Txid,
    loc: Location,
    mempool: bool,
    burns: Seq<(RuneId, u128)>,
    k: int,
)
    requires
        0 <= k <= burns.len(),
        save_burns(s, txid, loc, mempool, burns.take(k)) is Err,
    ensures
        save_burns(s, txid, loc, mempool, burns) == save_burns(s, txid, loc, mempool, burns.take(k)),
    decreases burns.len() - k,
{
    if k < burns.len() {
        assert(burns.take(k + 1).drop_last() =~= burns.take(k));
        lemma_save_burns_failed(s, txid, loc, mempool, burns, k + 1);
    } else {
        assert(burns.take(k) =~= burns);
    }
}

proof fn lemma_add_rune_transaction_step(
    m: Map<RuneId, Seq<Txid>>,
    ids: Set<RuneId>,
    id: RuneId,
    txid: Txid,
)
    requires
        !ids.contains(id),
    ensures
        ({
            let a = add_rune_transactions(m, ids, txid);
            add_rune_transactions(m, ids.insert(id), txid) == a.insert(
                id,
                (if a.contains_key(id) {
                    a[id]
                } else {
                    Seq::empty()
                }).push(txid),
            )
        }),
{
    let a = add_rune_transactions(m, ids, txid);
    assert(add_rune_transactions(m, ids.insert(id), txid) =~= a.insert(
        id,
        (if a.contains_key(id) {
            a[id]
        } else {
            Seq::empty()
        }).push(txid),
    ));
}

/// Saves what transactions do to the index.
pub struct TransactionUpdater {
    pub settings: TransactionUpdaterSettings,
    pub mempool: bool,
}

impl TransactionUpdater {
    /// An updater for the mempool or for blocks.
    pub fn new(settings: TransactionUpdaterSettings, mempool: bool) -> (u: TransactionUpdater)
        ensures
            u.settings == settings,
            u.mempool == mempool,
    {
        TransactionUpdater { settings, mempool }
    }

    /// Saves what a transaction does to the index: the rune it etches (with `artifact`, what
    /// ordinals deciphers from it, and `inscription_id`, the icon inscription it reveals), its
    /// burns and mint, the outputs it spends (unless it is a coinbase) and creates, its state change, the runes it
    /// touches, the transaction itself when transactions are indexed, and its confirming block
    /// outside the mempool; then, when addresses are indexed, the outputs for the address
    /// index. Stops at the first rune it cannot find or burned count that would not fit.
    pub fn save(
        &self,
        index: &mut IndexState,
        addresses: &mut AddressUpdater,
        block_time: u32,
        block_id: Option<BlockId>,
        txid: Txid,
        transaction: &TransactionData,
        artifact: &Option<Artifact>,
        inscription_id: Option<InscriptionId>,
        change: &TransactionStateChange,
    ) -> (r: Result<(), TransactionUpdaterError>)
        requires
            change.etched is Some ==> can_etch(artifact_view(*artifact)) && old(index).runes_count
                < u64::MAX,
            !self.mempool ==> block_id is Some,
            change.outputs@.len() <= u32::MAX,
            transaction.input@.len() <= u32::MAX,
            transaction.output@.len() <= u32::MAX,
        ensures
            ({
                let (s, res) = saved(
                    self.settings,
                    self.mempool,
                    old(index)@,
                    block_time,
                    block_id,
                    txid,
                    transaction@,
                    artifact_view(*artifact),
                    inscription_id,
                    change,
                );
                final(index)@ == s && r == res
            }),
            r is Ok && self.settings.index_addresses ==> final(addresses).spent() == record_all(
                old(addresses).spent(),
                spender_records(txid, *transaction),
            ) && final(addresses).created() == record_all(
                old(addresses).created(),
                created_records(txid, transaction.output@),
            ),
            !(r is Ok && self.settings.index_addresses) ==> final(addresses).spent() == old(
                addresses,
            ).spent() && final(addresses).created() == old(addresses).created(),
    {
        let height = match block_id {
            Some(b) => Some(b.height),
            None => None,
        };
        let loc = Location::from_height(height);
        let ghost s0 = index@;
        if let Some((id, rune)) = change.etched {
            let fields = match artifact {
                Some(Artifact::Runestone { etching, .. }) => *etching,
                _ => None,
            };
            self.etched_rune(index, loc, block_time as u64, txid, fields, inscription_id, id, rune);
        }
        let ghost s1 = index@;
        let burns = change.burned.entries();
        let mut i: usize = 0;
        while i < burns.len()
            invariant
                i <= burns@.len(),
                burns@ == change@.burned,
                s0 == old(index)@,
                loc == location_of(height_of(block_id)),
                s1 == (match change.etched {
                    Some((id, rune)) => save_etch(
                        s0,
                        txid,
                        loc,
                        block_time as u64,
                        inscription_id,
                        etching_fields(artifact_view(*artifact).unwrap()),
                        id,
                        rune,
                    ),
                    None => s0,
                }),
                save_burns(s1, txid, loc, self.mempool, burns@.take(i as int)) == Ok::<
                    IndexView,
                    (IndexView, TransactionUpdaterError),
                >(index@),
                addresses.spent() == old(addresses).spent(),
                addresses.created() == old(addresses).created(),
            decreases burns@.len() - i,
        {
            let (id, amount) = burns[i];
            let ghost before = index@;
            let r = self.burn_rune(index, loc, txid, id, amount);
            proof {
                assert(burns@.take(i + 1).drop_last() =~= burns@.take(i as int));
                assert(burns@.take(i + 1).last() == (id, amount));
            }
            match r {
                Ok(()) => {},
                Err(e) => {
                    proof {
                        assert(save_burns(s1, txid, loc, self.mempool, burns@.take(i + 1)) == save_burn(
                            before,
                            txid,
                            loc,
                            self.mempool,
                            (id, amount),
                        ));
                        lemma_save_burns_failed(s1, txid, loc, self.mempool, burns@, i + 1);
                    }
                    return Err(e);
                },
            }
            i = i + 1;
        }
        assert(burns@.take(i as int) =~= burns@);
        let ghost s2 = index@;
        if let Some(m) = change.minted {
            match self.mint_rune(index, loc, txid, m) {
                Ok(()) => {},
                Err(e) => {
                    return Err(e);
                },
            }
        }
        let ghost s3 = index@;
        proof {
            lemma_view_is_coinbase(*transaction);
        }
        if !is_coinbase(transaction) {
        let mut k: usize = 0;
        while k < change.inputs.len()
            invariant
                k <= change.inputs@.len(),
                index@ == (IndexView {
                    tx_outs: spend_all(s3.tx_outs, change@.inputs.take(k as int), txid),
                    ..s3
                }),
                addresses.spent() == old(addresses).spent(),
                addresses.created() == old(addresses).created(),
            decreases change.inputs@.len() - k,
        {
            self.update_spendable_input(index, change.inputs[k], SpenderReference { txid, vin: k as u32 });
            proof {
                assert(change@.inputs.take(k + 1).drop_last() =~= change@.inputs.take(k as int));
            }
            k = k + 1;
        }
        assert(change@.inputs.take(k as int) =~= change@.inputs);
        }
        let ghost s4 = index@;
        assert(s4 == spend_inputs(s3, transaction@, change@.inputs, txid));
        let index_addresses = self.settings.index_addresses;
        let mut v: usize = 0;
        while v < change.outputs.len()
            invariant
                v <= change.outputs@.len(),
                change.outputs@.len() <= u32::MAX,
                index_addresses == self.settings.index_addresses,
                index@ == save_outputs(s4, txid, loc, index_addresses, change@.outputs.take(v as int)),
                addresses.spent() == old(addresses).spent(),
                addresses.created() == old(addresses).created(),
            decreases change.outputs@.len() - v,
        {
            let ghost prev = index@;
            let ghost outs = change@.outputs.take(v + 1);
            proof {
                assert(outs.drop_last() =~= change@.outputs.take(v as int));
                assert(outs.last() == change.outputs@[v as int]@);
            }
            let output = &change.outputs[v];
            if output.has_runes() || index_addresses {
                let o = SerializedOutPoint::from_txid_vout(&txid, v as u32);
                index.tx_outs.insert(o, output.duplicate());
                let mut j: usize = 0;
                while j < output.runes.len()
                    invariant
                        j <= output.runes@.len(),
                        index@ == (IndexView {
                            tx_outs: prev.tx_outs.insert(o, output@),
                            events: prev.events + transfer_events(
                                txid,
                                loc,
                                o,
                                output.runes@.take(j as int),
                            ),
                            ..prev
                        }),
                    decreases output.runes@.len() - j,
                {
                    let a = output.runes[j];
                    index.events.push(
                        Event::RuneTransferred {
                            location: loc,
                            txid,
                            outpoint: o,
                            rune_id: a.rune_id,
                            amount: a.amount,
                        },
                    );
                    proof {
                        assert(prev.events + transfer_events(txid, loc, o, output.runes@.take(j + 1))
                            =~= (prev.events + transfer_events(
                            txid,
                            loc,
                            o,
                            output.runes@.take(j as int),
                        )).push(
                            Event::RuneTransferred {
                                location: loc,
                                txid,
                                outpoint: o,
                                rune_id: a.rune_id,
                                amount: a.amount,
                            },
                        ));
                    }
                    j = j + 1;
                    assert(index@ =~= (IndexView {
                        tx_outs: prev.tx_outs.insert(o, output@),
                        events: prev.events + transfer_events(
                            txid,
                            loc,
                            o,
                            output.runes@.take(j as int),
                        ),
                        ..prev
                    }));
                }
                assert(output.runes@.take(j as int) =~= output.runes@);
            }
            v = v + 1;
        }
        assert(change@.outputs.take(v as int) =~= change@.outputs);
        let ghost s5 = index@;
        index.tx_state_changes.insert(txid, change.duplicate());
        let ids = change.rune_ids();
        let ghost rt0 = index@.rune_transactions;
        let mut n: usize = 0;
        while n < ids.len()
            invariant
                n <= ids@.len(),
                ids@.no_duplicates(),
                index@ == (IndexView {
                    tx_state_changes: s5.tx_state_changes.insert(txid@, change@),
                    rune_transactions: add_rune_transactions(
                        rt0,
                        Set::new(|id: RuneId| exists|q: int| 0 <= q < n && ids@[q] == id),
                        txid,
                    ),
                    ..s5
                }),
                rt0 == s5.rune_transactions,
                addresses.spent() == old(addresses).spent(),
                addresses.created() == old(addresses).created(),
            decreases ids@.len() - n,
        {
            let id = ids[n];
            let ghost before = Set::new(|x: RuneId| exists|q: int| 0 <= q < n && ids@[q] == x);
            let ghost after = Set::new(|x: RuneId| exists|q: int| 0 <= q < n + 1 && ids@[q] == x);
            proof {
                assert(!before.contains(id)) by {
                    if before.contains(id) {
                        let q = choose|q: int| 0 <= q < n && ids@[q] == id;
                        assert(ids@[q] == ids@[n as int]);
                    }
                }
                assert(after =~= before.insert(id)) by {
                    assert forall|x: RuneId| after.contains(x) implies before.insert(id).contains(x) by {
                        let q = choose|q: int| 0 <= q < n + 1 && ids@[q] == x;
                        if q < n {
                            assert(before.contains(x));
                        }
                    }
                    assert forall|x: RuneId| before.insert(id).contains(x) implies after.contains(x) by {
                        if x != id {
                            let q = choose|q: int| 0 <= q < n && ids@[q] == x;
                            assert(0 <= q < n + 1 && ids@[q] == x);
                        } else {
                            assert(ids@[n as int] == x);
                        }
                    }
                }
                lemma_add_rune_transaction_step(rt0, before, id, txid);
            }
            match index.rune_transactions.remove(&id) {
                Some(list) => {
                    let mut list = list;
                    list.push(txid);
                    index.rune_transactions.insert(id, list);
                },
                None => {
                    let mut list: Vec<Txid> = Vec::new();
                    list.push(txid);
                    assert(list@ =~= Seq::<Txid>::empty().push(txid));
                    index.rune_transactions.insert(id, list);
                },
            }
            n = n + 1;
            assert(index@.rune_transactions =~= add_rune_transactions(rt0, after, txid));
            assert(index@ =~= (IndexView {
                tx_state_changes: s5.tx_state_changes.insert(txid@, change@),
                rune_transactions: add_rune_transactions(rt0, after, txid),
                ..s5
            }));
        }
        proof {
            assert(Set::new(|id: RuneId| exists|q: int| 0 <= q < n && ids@[q] == id) =~= ids@.to_set());
        }
        if self.settings.index_bitcoin_transactions {
            index.transactions.insert(txid, transaction.duplicate());
        }
        if !self.mempool {
            match block_id {
                Some(b) => {
                    index.confirming_blocks.insert(txid, b);
                },
                None => {},
            }
        }
        assert(index@ =~= save_records(s5, self.settings, self.mempool, block_id, txid, transaction@, change));
        if self.settings.index_addresses {
            self.update_script_pubkeys(addresses, txid, transaction);
        }
        Ok(())
    }

    /// Records the outputs a transaction spends and those it creates, for the address index.
    pub fn update_script_pubkeys(
        &self,
        addresses: &mut AddressUpdater,
        txid: Txid,
        transaction: &TransactionData,
    )
        requires
            transaction.input@.len() <= u32::MAX,
            transaction.output@.len() <= u32::MAX,
        ensures
            final(addresses).spent() == record_all(
                old(addresses).spent(),
                spender_records(txid, *transaction),
            ),
            final(addresses).created() == record_all(
                old(addresses).created(),
                created_records(txid, transaction.output@),
            ),
    {
        let ghost spenders = spender_records(txid, *transaction);
        if !is_coinbase(transaction) {
            let mut vin: usize = 0;
            while vin < transaction.input.len()
                invariant
                    vin <= transaction.input@.len(),
                    transaction.input@.len() <= u32::MAX,
                    !spec_is_coinbase(*transaction),
                    spenders == spender_records(txid, *transaction),
                    addresses.created() == old(addresses).created(),
                    addresses.spent() == record_all(old(addresses).spent(), spenders.take(vin as int)),
                decreases transaction.input@.len() - vin,
            {
                let o = transaction.input[vin].previous_output;
                addresses.add_spent_outpoint(o, SpenderReference { txid, vin: vin as u32 });
                proof {
                    assert(spenders.take(vin + 1).drop_last() =~= spenders.take(vin as int));
                }
                vin = vin + 1;
            }
            assert(spenders.take(vin as int) =~= spenders);
        } else {
            assert(spenders =~= Seq::<(SerializedOutPoint, SpenderReference)>::empty());
        }
        let ghost mid = addresses.spent();
        let mut vout: usize = 0;
        while vout < transaction.output.len()
            invariant
                vout <= transaction.output@.len(),
                transaction.output@.len() <= u32::MAX,
                addresses.spent() == mid,
                addresses.created() == record_all(
                    old(addresses).created(),
                    created_records(txid, transaction.output@.take(vout as int)),
                ),
            decreases transaction.output@.len() - vout,
        {
            let o = SerializedOutPoint::from_txid_vout(&txid, vout as u32);
            let script = copy_script(&transaction.output[vout].script_pubkey);
            addresses.add_new_outpoint(o, script);
            proof {
                let outs = transaction.output@.take(vout + 1);
                assert(outs.drop_last() =~= transaction.output@.take(vout as int));
                let prev = created_records(txid, outs.drop_last());
                if !is_op_return_script(outs.last().script_pubkey@) {
                    let p = prev.push((o, outs.last().script_pubkey@));
                    assert(p.drop_last() =~= prev);
                }
            }
            vout = vout + 1;
        }
        assert(transaction.output@.take(vout as int) =~= transaction.output@);
    }

    fn etched_rune(
        &self,
        index: &mut IndexState,
        loc: Location,
        timestamp: u64,
        txid: Txid,
        fields: Option<Etching>,
        inscription_id: Option<InscriptionId>,
        id: RuneId,
        rune: u128,
    )
        requires
            old(index).runes_count < u64::MAX,
        ensures
            final(index)@ == save_etch(old(index)@, txid, loc, timestamp, inscription_id, fields, id, rune),
    {
        let number = index.runes_count;
        let entry = RuneEntry::from_etching(id.block, txid, number, rune, timestamp, inscription_id, fields);
        index.runes.insert(id, entry);
        index.rune_numbers.insert(number, id);
        index.rune_ids.insert(rune, id);
        index.runes_count = number + 1;
        index.events.push(Event::RuneEtched { location: loc, txid, rune_id: id });
        assert(index@ =~= save_etch(old(index)@, txid, loc, timestamp, inscription_id, fields, id, rune));
    }

    fn burn_rune(
        &self,
        index: &mut IndexState,
        loc: Location,
        txid: Txid,
        id: RuneId,
        amount: u128,
    ) -> (r: Result<(), TransactionUpdaterError>)
        ensures
            match save_burn(old(index)@, txid, loc, self.mempool, (id, amount)) {
                Ok(s) => r is Ok && final(index)@ == s,
                Err((s, e)) => r == Err::<(), TransactionUpdaterError>(e) && final(index)@ == s,
            },
    {
        let mut entry = match index.runes.get(&id) {
            Some(e) => *e,
            None => {
                return Err(TransactionUpdaterError::Store(StoreError::RuneNotFound(id)));
            },
        };
        match entry.add_burn(amount, self.mempool) {
            Ok(()) => {},
            Err(_) => {
                return Err(TransactionUpdaterError::Overflow);
            },
        }
        index.runes.insert(id, entry);
        index.events.push(Event::RuneBurned { location: loc, txid, amount, rune_id: id });
        proof {
            let s = save_burn(old(index)@, txid, loc, self.mempool, (id, amount))->Ok_0;
            assert(index@ =~= s);
        }
        Ok(())
    }

    fn mint_rune(
        &self,
        index: &mut IndexState,
        loc: Location,
        txid: Txid,
        m: RuneAmount,
    ) -> (r: Result<(), TransactionUpdaterError>)
        ensures
            match save_mint(old(index)@, txid, loc, self.mempool, m) {
                Ok(s) => r is Ok && final(index)@ == s,
                Err((s, e)) => r == Err::<(), TransactionUpdaterError>(e) && final(index)@ == s,
            },
    {
        let mut entry = match index.runes.get(&m.rune_id) {
            Some(e) => *e,
            None => {
                return Err(TransactionUpdaterError::Store(StoreError::RuneNotFound(m.rune_id)));
            },
        };
        entry.increment_mint(self.mempool);
        index.runes.insert(m.rune_id, entry);
        index.events.push(
            Event::RuneMinted { location: loc, txid, amount: m.amount, rune_id: m.rune_id },
        );
        proof {
            let s = save_mint(old(index)@, txid, loc, self.mempool, m)->Ok_0;
            assert(index@ =~= s);
        }
        Ok(())
    }

    fn update_spendable_input(&self, index: &mut IndexState, o: SerializedOutPoint, by: SpenderReference)
        ensures
            final(index)@ == (IndexView { tx_outs: spend(old(index)@.tx_outs, o, by), ..old(index)@ }),
    {
        match index.tx_outs.remove(&o) {
            Some(t) => {
                let mut t = t;
                t.spent = SpentStatus::Spent(by);
                index.tx_outs.insert(o, t);
                assert(index@.tx_outs =~= spend(old(index)@.tx_outs, o, by));
            },
            None => {
                assert(index@.tx_outs =~= spend(old(index)@.tx_outs, o, by));
            },
        }
        assert(index@ =~= (IndexView { tx_outs: spend(old(index)@.tx_outs, o, by), ..old(index)@ }));
    }
}

fn copy_script(a: &Vec<u8>) -> (c: Vec<u8>)
    ensures
        c@ == a@,
{
    let mut c: Vec<u8> = Vec::new();
    let mut i: usize = 0;
    while i < a.len()
        invariant
            i <= a@.len(),
            c@ == a@.subrange(0, i as int),
        decreases a@.len() - i,
    {
        c.push(a[i]);
        i = i + 1;
        assert(c@ =~= a@.subrange(0, i as int));
    }
    assert(a@.subrange(0, a@.len() as int) =~= a@);
    c
}


/// Whether two entries of a rune have the same confirmed counts (mints and burned) when
/// `mempool`, and the same pending counts otherwise.
pub open spec fn same_counts(a: RuneEntry, b: RuneEntry, mempool: bool) -> bool {
    if mempool {
        a.mints == b.mints && a.burned == b.burned
    } else {
        a.pending_mints == b.pending_mints && a.pending_burns == b.pending_burns
    }
}

/// Whether every rune of `before` other than `except` that `after` still holds has the same
/// confirmed counts (for the mempool) or pending counts (for blocks).
pub open spec fn counts_kept(
    before: Map<RuneId, RuneEntry>,
    after: Map<RuneId, RuneEntry>,
    mempool: bool,
    except: Option<RuneId>,
) -> bool {
    forall|r: RuneId|
        before.contains_key(r) && #[trigger] after.contains_key(r) && except != Some(r) ==> same_counts(
            before[r],
            after[r],
            mempool,
        )
}

proof fn lemma_save_burns_keep_counts(
    before: Map<RuneId, RuneEntry>,
    s: IndexView,
    txid: Txid,
    loc: Location,
    mempool: bool,
    burns: Seq<(RuneId, u128)>,
    except: Option<RuneId>,
)
    requires
        counts_kept(before, s.runes, mempool, except),
    ensures
        match save_burns(s, txid, loc, mempool, burns) {
            Ok(t) => counts_kept(before, t.runes, mempool, except),
            Err((t, _)) => counts_kept(before, t.runes, mempool, except),
        },
    decreases burns.len(),
{
    if burns.len() > 0 {
        lemma_save_burns_keep_counts(before, s, txid, loc, mempool, burns.drop_last(), except);
        match save_burns(s, txid, loc, mempool, burns.drop_last()) {
            Ok(t1) => {
                let b = burns.last();
                if let Ok(t) = save_burn(t1, txid, loc, mempool, b) {
                    assert forall|r: RuneId|
                        before.contains_key(r) && #[trigger] t.runes.contains_key(r) && except != Some(
                            r,
                        ) implies same_counts(before[r], t.runes[r], mempool) by {
                        assert(t1.runes.contains_key(r));
                    }
                }
            },
            Err(_) => {},
        }
    }
}

/// Indexing a transaction from the mempool changes only the pending mints and burns of the
/// runes the index already holds, never their confirmed mints and burned counts; indexing a
/// transaction of a block changes only the confirmed counts, never the pending ones. (The rune
/// the transaction etches gets a new entry and is left out.) This holds whether the save
/// succeeds or stops at a failure.
pub proof fn lemma_save_separates_pending_from_confirmed(
    settings: TransactionUpdaterSettings,
    mempool: bool,
    s0: IndexView,
    block_time: u32,
    block_id: Option<BlockId>,
    txid: Txid,
    tx: TransactionView,
    artifact: Option<ArtifactView>,
    inscription_id: Option<InscriptionId>,
    change: &TransactionStateChange,
)
    requires
        change@.outputs.len() <= u32::MAX,
    ensures
        counts_kept(
            s0.runes,
            saved(settings, mempool, s0, block_time, block_id, txid, tx, artifact, inscription_id, change).0.runes,
            mempool,
            match change.etched {
                Some((id, _)) => Some(id),
                None => None,
            },
        ),
{
    let loc = location_of(height_of(block_id));
    let except = match change.etched {
        Some((id, _)) => Some(id),
        None => None,
    };
    let s1 = match change.etched {
        Some((id, rune)) => save_etch(
            s0,
            txid,
            loc,
            block_time as u64,
            inscription_id,
            etching_fields(artifact.unwrap()),
            id,
            rune,
        ),
        None => s0,
    };
    assert(counts_kept(s0.runes, s1.runes, mempool, except));
    lemma_save_burns_keep_counts(s0.runes, s1, txid, loc, mempool, change@.burned, except);
    if let Ok(s2) = save_burns(s1, txid, loc, mempool, change@.burned) {
        let m = match change.minted {
            Some(m) => save_mint(s2, txid, loc, mempool, m),
            None => Ok(s2),
        };
        if let Ok(s3) = m {
            assert(counts_kept(s0.runes, s3.runes, mempool, except)) by {
                if let Some(mm) = change.minted {
                    assert forall|r: RuneId|
                        s0.runes.contains_key(r) && #[trigger] s3.runes.contains_key(r) && except != Some(
                            r,
                        ) implies same_counts(s0.runes[r], s3.runes[r], mempool) by {
                        assert(s2.runes.contains_key(r));
                    }
                }
            }
            let s4 = spend_inputs(s3, tx, change@.inputs, txid);
            let k0 = SerializedOutPoint { txid, vout: 0 };
            crate::rollback::lemma_save_outputs_frame(
                s4,
                txid,
                loc,
                settings.index_addresses,
                change@.outputs,
                k0,
            );
        }
    }
}

} // verus!
