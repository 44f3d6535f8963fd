use vstd::prelude::*;
use crate::allocation::ArtifactView;
use crate::balances::distinct_rune_ids;
use crate::index_state::{BlockId, IndexState, IndexView, Location};
use crate::parser::TransactionView;
use crate::rune_entry::{burned_entry, minted_entry, InscriptionId};
use crate::settings::TransactionUpdaterSettings;
use crate::rune_entry::{unburned_entry, unminted_entry, RuneEntry};
use crate::state_change::{RuneAmount, SpentStatus, TransactionStateChange, TxOutEntryView};
use crate::tx_updater::{
    etching_fields, height_of, save_burns, save_etch, save_mint, save_outputs, save_records, saved,
    spend_all, StoreError,
};
use crate::index_state::location_of;
use crate::types::{RuneId, SerializedOutPoint, Txid};

verus! {

/// Why a transaction could not be reverted.
#[derive(Clone, Copy, Debug)]
pub enum RollbackError {
    Store(StoreError),
    /// A burned count would be negative or would not fit.
    Overflow,
}

/// The output entries with the one of `o` marked unspent, when it has one.
pub open spec fn unspend(m: Map<SerializedOutPoint, TxOutEntryView>, o: SerializedOutPoint) -> Map<
    SerializedOutPoint,
    TxOutEntryView,
> {
    if m.contains_key(o) {
        m.insert(o, TxOutEntryView { spent: SpentStatus::Unspent, ..m[o] })
    } else {
        m
    }
}

/// The output entries with each of `inputs` marked unspent, in order.
pub open spec fn unspend_all(
    m: Map<SerializedOutPoint, TxOutEntryView>,
    inputs: Seq<SerializedOutPoint>,
) -> Map<SerializedOutPoint, TxOutEntryView>
    decreases inputs.len(),
{
    if inputs.len() == 0 {
        m
    } else {
        unspend(unspend_all(m, inputs.drop_last()), inputs.last())
    }
}

/// The output entries without those of the first `n` outputs of `txid`.
pub open spec fn remove_outputs(m: Map<SerializedOutPoint, TxOutEntryView>, txid: Txid, n: nat) -> Map<
    SerializedOutPoint,
    TxOutEntryView,
>
    decreases n,
{
    if n == 0 {
        m
    } else {
        remove_outputs(m, txid, (n - 1) as nat).remove(
            SerializedOutPoint { txid, vout: (n - 1) as u32 },
        )
    }
}

/// The tables after the runes numbered above `i` move down one number each, from `i` up to
/// `total`, stopping at the first number that has no rune; or the failure, with the tables
/// where it happened, when a numbered rune has no entry.
pub open spec fn renumber(s: IndexView, i: u64, total: u64) -> Result<
    IndexView,
    (IndexView, RollbackError),
>
    decreases total - i,
{
    if i >= total {
        Ok(s)
    } else {
        let next = (i + 1) as u64;
        if !s.rune_numbers.contains_key(next) {
            Ok(s)
        } else {
            let id = s.rune_numbers[next];
            if !s.runes.contains_key(id) {
                Err((s, RollbackError::Store(StoreError::RuneNotFound(id))))
            } else {
                let moved = IndexView {
                    runes: s.runes.insert(id, RuneEntry { number: i, ..s.runes[id] }),
                    rune_numbers: s.rune_numbers.insert(i, id),
                    ..s
                };
                renumber(moved, next, total)
            }
        }
    }
}

/// The tables after the rune etched as `id` named `rune` is removed: its entry, name,
/// number and transactions, the count of runes set to `count`, the runes above it
/// renumbered; or the failure with the tables where it happened.
pub open spec fn unetch(s: IndexView, id: RuneId, rune: u128, count: u64) -> Result<
    IndexView,
    (IndexView, RollbackError),
> {
    if !s.runes.contains_key(id) {
        Err((s, RollbackError::Store(StoreError::RuneNotFound(id))))
    } else {
        let e = s.runes[id];
        let t = IndexView {
            runes: s.runes.remove(id),
            rune_ids: s.rune_ids.remove(rune),
            runes_count: count,
            rune_numbers: s.rune_numbers.remove(e.number),
            ..s
        };
        match renumber(t, e.number, count) {
            Err(x) => Err(x),
            Ok(u) => Ok(IndexView { rune_transactions: u.rune_transactions.remove(id), ..u }),
        }
    }
}

/// The tables after a mint of `m.rune_id` is taken back, or the failure with the tables as
/// they were.
pub open spec fn unmint(s: IndexView, mempool: bool, m: RuneAmount) -> Result<
    IndexView,
    (IndexView, RollbackError),
> {
    if !s.runes.contains_key(m.rune_id) {
        Err((s, RollbackError::Store(StoreError::RuneNotFound(m.rune_id))))
    } else {
        Ok(
            IndexView {
                runes: s.runes.insert(m.rune_id, unminted_entry(s.runes[m.rune_id], mempool)),
                ..s
            },
        )
    }
}

/// The tables after the burn of `b.1` units of `b.0` is taken back, or the failure with the
/// tables as they were.
pub open spec fn unburn(s: IndexView, mempool: bool, b: (RuneId, u128)) -> Result<
    IndexView,
    (IndexView, RollbackError),
> {
    if !s.runes.contains_key(b.0) {
        Err((s, RollbackError::Store(StoreError::RuneNotFound(b.0))))
    } else {
        match unburned_entry(s.runes[b.0], b.1, mempool) {
            None => Err((s, RollbackError::Overflow)),
            Some(e) => Ok(IndexView { runes: s.runes.insert(b.0, e), ..s }),
        }
    }
}

/// The tables after the burns are taken back in order, stopping at the first failure.
pub open spec fn unburn_all(s: IndexView, mempool: bool, burns: Seq<(RuneId, u128)>) -> Result<
    IndexView,
    (IndexView, RollbackError),
>
    decreases burns.len(),
{
    if burns.len() == 0 {
        Ok(s)
    } else {
        match unburn_all(s, mempool, burns.drop_last()) {
            Ok(t) => unburn(t, mempool, burns.last()),
            Err(x) => Err(x),
        }
    }
}

/// No burned amount reads as the most negative `i128`, which cannot be negated.
pub open spec fn negatable_burns(burns: Seq<(RuneId, u128)>) -> bool {
    forall|i: int|
        0 <= i < burns.len() ==> #[trigger] burns[i].1 != 0x8000_0000_0000_0000_0000_0000_0000_0000u128
}

/// The outputs of `txid` numbered below `n`.
pub open spec fn output_outpoints(txid: Txid, n: nat) -> Seq<SerializedOutPoint> {
    Seq::new(n, |v: int| SerializedOutPoint { txid, vout: v as u32 })
}

/// The first of `os` that has no locking script in `scripts`.
pub open spec fn first_missing(
    scripts: Map<SerializedOutPoint, Seq<u8>>,
    os: Seq<SerializedOutPoint>,
) -> Option<SerializedOutPoint>
    decreases os.len(),
{
    if os.len() == 0 {
        None
    } else if !scripts.contains_key(os[0]) {
        Some(os[0])
    } else {
        first_missing(scripts, os.drop_first())
    }
}

/// The unspent outputs recorded for `script`, none when it has no entry.
pub open spec fn utxos_of(u: Map<Seq<u8>, Seq<SerializedOutPoint>>, script: Seq<u8>) -> Seq<
    SerializedOutPoint,
> {
    if u.contains_key(script) {
        u[script]
    } else {
        Seq::empty()
    }
}

/// `s` without the occurrences of `o`.
pub open spec fn without(s: Seq<SerializedOutPoint>, o: SerializedOutPoint) -> Seq<SerializedOutPoint>
    decreases s.len(),
{
    if s.len() == 0 {
        s
    } else if s.last() == o {
        without(s.drop_last(), o)
    } else {
        without(s.drop_last(), o).push(s.last())
    }
}

/// The unspent outputs of each script after the outputs `os` are removed from the entries of
/// their scripts (an entry is made, empty, for a script that had none).
pub open spec fn remove_utxos(
    scripts: Map<SerializedOutPoint, Seq<u8>>,
    u: Map<Seq<u8>, Seq<SerializedOutPoint>>,
    os: Seq<SerializedOutPoint>,
) -> Map<Seq<u8>, Seq<SerializedOutPoint>>
    decreases os.len(),
{
    if os.len() == 0 {
        u
    } else {
        let prev = remove_utxos(scripts, u, os.drop_last());
        let script = scripts[os.last()];
        prev.insert(script, without(utxos_of(prev, script), os.last()))
    }
}

/// The unspent outputs of each script after each of `os`, taken once, is added back to the
/// entry of its script.
pub open spec fn add_utxos(
    scripts: Map<SerializedOutPoint, Seq<u8>>,
    u: Map<Seq<u8>, Seq<SerializedOutPoint>>,
    os: Seq<SerializedOutPoint>,
) -> Map<Seq<u8>, Seq<SerializedOutPoint>>
    decreases os.len(),
{
    if os.len() == 0 {
        u
    } else {
        let prev = add_utxos(scripts, u, os.drop_last());
        if os.drop_last().contains(os.last()) {
            prev
        } else {
            let script = scripts[os.last()];
            prev.insert(script, utxos_of(prev, script).push(os.last()))
        }
    }
}

/// `m` without the entries of `os`.
pub open spec fn remove_keys<V>(m: Map<SerializedOutPoint, V>, os: Seq<SerializedOutPoint>) -> Map<
    SerializedOutPoint,
    V,
>
    decreases os.len(),
{
    if os.len() == 0 {
        m
    } else {
        remove_keys(m, os.drop_last()).remove(os.last())
    }
}

/// What reverting a transaction does to the address index: its outputs leave the unspent
/// outputs of their scripts and lose their scripts; in the mempool, the outputs it spent are no
/// longer marked spent; in a block, unless it is a coinbase, the outputs it spent are unspent
/// outputs of their scripts again. Fails, with the tables where it happened, at the first
/// output whose script is not recorded.
pub open spec fn unindex_addresses(
    s: IndexView,
    mempool: bool,
    txid: Txid,
    change: &TransactionStateChange,
) -> Result<IndexView, (IndexView, RollbackError)> {
    let outs = output_outpoints(txid, change@.outputs.len());
    match first_missing(s.outpoint_scripts, outs) {
        Some(o) => Err((s, RollbackError::Store(StoreError::ScriptNotFound(o)))),
        None => {
            let t = IndexView {
                script_utxos: remove_utxos(s.outpoint_scripts, s.script_utxos, outs),
                outpoint_scripts: remove_keys(s.outpoint_scripts, outs),
                ..s
            };
            if mempool {
                Ok(IndexView { spent_in_mempool: remove_keys(t.spent_in_mempool, change@.inputs), ..t })
            } else if change.is_coinbase {
                Ok(t)
            } else {
                match first_missing(t.outpoint_scripts, change@.inputs) {
                    Some(o) => Err((t, RollbackError::Store(StoreError::ScriptNotFound(o)))),
                    None => Ok(
                        IndexView {
                            script_utxos: add_utxos(t.outpoint_scripts, t.script_utxos, change@.inputs),
                            ..t
                        },
                    ),
                }
            }
        },
    }
}

/// Every output up to a point has a recorded script when none is missing.
proof fn lemma_first_missing_none(
    scripts: Map<SerializedOutPoint, Seq<u8>>,
    os: Seq<SerializedOutPoint>,
    k: int,
)
    requires
        0 <= k < os.len(),
        first_missing(scripts, os) is None,
    ensures
        scripts.contains_key(os[k]),
    decreases os.len(),
{
    if k > 0 {
        assert(os.drop_first()[k - 1] == os[k]);
        lemma_first_missing_none(scripts, os.drop_first(), k - 1);
    }
}

/// What reverting a transaction does before its burns are taken back: its inputs unspent,
/// its outputs removed, the rune it etched removed and its mint taken back; with the count of
/// runes after that, or the failure where it happened.
pub open spec fn reverted_before_burns(
    mempool: bool,
    count: u64,
    s: IndexView,
    txid: Txid,
    change: &TransactionStateChange,
) -> Result<(IndexView, u64), (IndexView, u64, RollbackError)> {
    let s1 = IndexView {
        tx_outs: remove_outputs(
            unspend_all(s.tx_outs, change@.inputs),
            txid,
            change@.outputs.len(),
        ),
        ..s
    };
    let (e2, c2) = match change.etched {
        None => (Ok(s1), count),
        Some((id, rune)) => if !s1.runes.contains_key(id) {
            (unetch(s1, id, rune, count), count)
        } else {
            (unetch(s1, id, rune, (count - 1) as u64), (count - 1) as u64)
        },
    };
    match e2 {
        Err((t, e)) => Err((t, c2, e)),
        Ok(s2) => {
            let e3 = match change.minted {
                Some(m) => unmint(s2, mempool, m),
                None => Ok(s2),
            };
            match e3 {
                Err((t, e)) => Err((t, c2, e)),
                Ok(s3) => Ok((s3, c2)),
            }
        },
    }
}

/// Whether the address index records what reverting a transaction there reads: the script of
/// each of its outputs and, in a block and unless it is a coinbase, the script of each output
/// it spends.
pub open spec fn addresses_recorded(
    s: IndexView,
    mempool: bool,
    txid: Txid,
    change: &TransactionStateChange,
) -> bool {
    let outs = output_outpoints(txid, change@.outputs.len());
    &&& first_missing(s.outpoint_scripts, outs) is None
    &&& !mempool && !change.is_coinbase ==> first_missing(
        remove_keys(s.outpoint_scripts, outs),
        change@.inputs,
    ) is None
}

/// What reverting a transaction does to the tables and to the count of runes `count`: its
/// inputs unspent, its outputs removed, the rune it etched removed, its mint and burns taken
/// back, the address index reverted when it is kept, its state change and transaction
/// removed; stopping at the first failure.
pub open spec fn reverted(
    mempool: bool,
    index_addresses: bool,
    count: u64,
    s: IndexView,
    txid: Txid,
    change: &TransactionStateChange,
) -> (IndexView, u64, Result<(), RollbackError>) {
    match reverted_before_burns(mempool, count, s, txid, change) {
        Err((t, c, e)) => (t, c, Err(e)),
        Ok((s3, c)) => match unburn_all(s3, mempool, change@.burned) {
            Err((t, e)) => (t, c, Err(e)),
            Ok(s4) => {
                let e5 = if index_addresses {
                    unindex_addresses(s4, mempool, txid, change)
                } else {
                    Ok(s4)
                };
                match e5 {
                    Err((t, e)) => (t, c, Err(e)),
                    Ok(s5) => (
                        IndexView {
                            tx_state_changes: s5.tx_state_changes.remove(txid@),
                            transactions: s5.transactions.remove(txid@),
                            ..s5
                        },
                        c,
                        Ok(()),
                    ),
                }
            },
        },
    }
}

/// Once the burns fail to be taken back, later burns change nothing.
proof fn lemma_unburn_all_failed(s: IndexView, mempool: bool, burns: Seq<(RuneId, u128)>, k: int)
    requires
        0 <= k <= burns.len(),
        unburn_all(s, mempool, burns.take(k)) is Err,
    ensures
        unburn_all(s, mempool, burns) == unburn_all(s, mempool, burns.take(k)),
    decreases burns.len() - k,
{
    if k < burns.len() {
        assert(burns.take(k + 1).drop_last() =~= burns.take(k));
        lemma_unburn_all_failed(s, mempool, burns, k + 1);
    } else {
        assert(burns.take(k) =~= burns);
    }
}

/// Reverts transactions whose blocks left the chain, or that left the mempool.
pub struct Rollback {
    pub mempool: bool,
    pub index_addresses: bool,
    /// The number of runes, counted down as etchings are reverted.
    pub runes: u64,
}

impl Rollback {
    /// A rollback on the tables of `index`, starting from its count of runes.
    pub fn new(index: &IndexState, mempool: bool, index_addresses: bool) -> (r: Rollback)
        ensures
            r.mempool == mempool,
            r.index_addresses == index_addresses,
            r.runes == index@.runes_count,
    {
        Rollback { mempool, index_addresses, runes: index.runes_count }
    }

    /// Reverts what a transaction did to the index: its inputs become unspent, its outputs are
    /// removed, the rune it etched is removed with its name, number and transactions and the
    /// runes after it are renumbered, its mint and burns are taken back, and its state change
    /// and transaction are removed. Stops at the first rune it cannot find or burned count
    /// that would not fit.
    pub fn revert_transaction(
        &mut self,
        index: &mut IndexState,
        txid: Txid,
        change: &TransactionStateChange,
    ) -> (r: Result<(), RollbackError>)
        requires
            change.etched is Some ==> old(self).runes > 0,
            change.outputs@.len() <= u32::MAX,
            negatable_burns(change@.burned),
        ensures
            ({
                let (s, count, res) = reverted(
                    old(self).mempool,
                    old(self).index_addresses,
                    old(self).runes,
                    old(index)@,
                    txid,
                    change,
                );
                final(index)@ == s && final(self).runes == count && r == res
            }),
            final(self).mempool == old(self).mempool,
            final(self).index_addresses == old(self).index_addresses,
    {
        let ghost s0 = index@;
        let mut k: usize = 0;
        while k < change.inputs.len()
            invariant
                k <= change.inputs@.len(),
                index@ == (IndexView {
                    tx_outs: unspend_all(s0.tx_outs, change@.inputs.take(k as int)),
                    ..s0
                }),
            decreases change.inputs@.len() - k,
        {
            self.update_spendable_input(index, change.inputs[k]);
            proof {
                assert(change@.inputs.take(k + 1).drop_last() =~= change@.inputs.take(k as int));
            }
            k = k + 1;
        }
        assert(change@.inputs.take(k as int) =~= change@.inputs);
        let ghost unspent = index@.tx_outs;
        let mut v: usize = 0;
        while v < change.outputs.len()
            invariant
                v <= change.outputs@.len(),
                change.outputs@.len() <= u32::MAX,
                index@ == (IndexView { tx_outs: remove_outputs(unspent, txid, v as nat), ..s0 }),
            decreases change.outputs@.len() - v,
        {
            let o = SerializedOutPoint::from_txid_vout(&txid, v as u32);
            let _ = index.tx_outs.remove(&o);
            v = v + 1;
            assert(index@ =~= (IndexView { tx_outs: remove_outputs(unspent, txid, v as nat), ..s0 }));
        }
        assert(change@.outputs.len() == change.outputs@.len());
        if let Some((id, rune)) = change.etched {
            match self.revert_etching(index, id, rune) {
                Ok(()) => {},
                Err(e) => {
                    return Err(e);
                },
            }
        }
        if let Some(m) = change.minted {
            match self.update_mints(index, m) {
                Ok(()) => {},
                Err(e) => {
                    return Err(e);
                },
            }
        }
        let ghost s3 = index@;
        let ghost c3 = self.runes;
        assert(reverted_before_burns(old(self).mempool, old(self).runes, old(index)@, txid, change)
            == Ok::<(IndexView, u64), (IndexView, u64, RollbackError)>((s3, c3)));
        let burns = change.burned.entries();
        let mut i: usize = 0;
        while i < burns.len()
            invariant
                i <= burns@.len(),
                burns@ == change@.burned,
                negatable_burns(change@.burned),
                self.mempool == old(self).mempool,
                self.index_addresses == old(self).index_addresses,
                self.runes == c3,
                reverted_before_burns(old(self).mempool, old(self).runes, old(index)@, txid, change)
                    == Ok::<(IndexView, u64), (IndexView, u64, RollbackError)>((s3, c3)),
                unburn_all(s3, self.mempool, burns@.take(i as int)) == Ok::<
                    IndexView,
                    (IndexView, RollbackError),
                >(index@),
            decreases burns@.len() - i,
        {
            let (id, amount) = burns[i];
            let ghost before = index@;
            proof {
                assert(burns@[i as int].1 == amount);
            }
            let r = self.update_burn_balance(index, id, amount);
            proof {
                assert(burns@.take(i + 1).drop_last() =~= burns@.take(i as int));
                assert(burns@.take(i + 1).last() == (id, amount));
            }
            match r {
                Ok(()) => {},
                Err(e) => {
                    proof {
                        assert(unburn_all(s3, self.mempool, burns@.take(i + 1)) == unburn(
                            before,
                            self.mempool,
                            (id, amount),
                        ));
                        lemma_unburn_all_failed(s3, self.mempool, burns@, i + 1);
                    }
                    return Err(e);
                },
            }
            i = i + 1;
        }
        assert(burns@.take(i as int) =~= burns@);
        if self.index_addresses {
            match self.revert_transaction_script_pubkeys_modifications(index, txid, change) {
                Ok(()) => {},
                Err(e) => {
                    return Err(e);
                },
            }
        }
        let ghost s5 = index@;
        let _ = index.tx_state_changes.remove(&txid);
        let _ = index.transactions.remove(&txid);
        assert(index@ =~= IndexView {
            tx_state_changes: s5.tx_state_changes.remove(txid@),
            transactions: s5.transactions.remove(txid@),
            ..s5
        });
        Ok(())
    }

    fn find_missing_script(index: &IndexState, os: &Vec<SerializedOutPoint>) -> (r: Option<
        SerializedOutPoint,
    >)
        ensures
            r == first_missing(index@.outpoint_scripts, os@),
    {
        let mut i: usize = 0;
        assert(os@.skip(0) =~= os@);
        while i < os.len()
            invariant
                i <= os@.len(),
                first_missing(index@.outpoint_scripts, os@) == first_missing(
                    index@.outpoint_scripts,
                    os@.skip(i as int),
                ),
            decreases os@.len() - i,
        {
            assert(os@.skip(i as int)[0] == os@[i as int]);
            if !index.outpoint_scripts.contains(&os[i]) {
                return Some(os[i]);
            }
            assert(os@.skip(i as int).drop_first() =~= os@.skip(i + 1));
            i = i + 1;
        }
        assert(os@.skip(i as int) =~= Seq::<SerializedOutPoint>::empty());
        None
    }

    fn copy_script(a: &Vec<u8>) -> (c: Vec<u8>)
        ensures
            c@ == a@,
    {
        let mut c: Vec<u8> = Vec::new();
        let mut i: usize = 0;
        while i < a.len()
            invariant
                i <= a@.len(),
                c@ == a@.subrange(0, i as int),
            decreases a@.len() - i,
        {
            c.push(a[i]);
            i = i + 1;
            assert(c@ =~= a@.subrange(0, i as int));
        }
        assert(a@.subrange(0, a@.len() as int) =~= a@);
        c
    }

    fn take_utxos(index: &mut IndexState, script: &Vec<u8>) -> (v: Vec<SerializedOutPoint>)
        ensures
            v@ == utxos_of(old(index)@.script_utxos, script@),
            final(index)@ == (IndexView {
                script_utxos: old(index)@.script_utxos.remove(script@),
                ..old(index)@
            }),
    {
        let v = match index.script_utxos.remove(script) {
            Some(v) => v,
            None => Vec::new(),
        };
        assert(index@ =~= (IndexView {
            script_utxos: old(index)@.script_utxos.remove(script@),
            ..old(index)@
        }));
        v
    }

    /// Reverts what a transaction did to the address index: its outputs leave the unspent
    /// outputs of their scripts and lose their recorded scripts; in the mempool the outputs it
    /// spent are no longer marked spent, and in a block, unless it is a coinbase, they are
    /// unspent outputs of their scripts again.
    pub fn revert_transaction_script_pubkeys_modifications(
        &self,
        index: &mut IndexState,
        txid: Txid,
        change: &TransactionStateChange,
    ) -> (r: Result<(), RollbackError>)
        requires
            change.outputs@.len() <= u32::MAX,
        ensures
            match unindex_addresses(old(index)@, self.mempool, txid, change) {
                Ok(s) => r is Ok && final(index)@ == s,
                Err((s, e)) => r == Err::<(), RollbackError>(e) && final(index)@ == s,
            },
    {
        let mut outs: Vec<SerializedOutPoint> = Vec::new();
        let mut v: usize = 0;
        while v < change.outputs.len()
            invariant
                v <= change.outputs@.len(),
                change.outputs@.len() <= u32::MAX,
                outs@ == output_outpoints(txid, v as nat),
            decreases change.outputs@.len() - v,
        {
            outs.push(SerializedOutPoint::from_txid_vout(&txid, v as u32));
            v = v + 1;
            assert(outs@ =~= output_outpoints(txid, v as nat));
        }
        assert(change@.outputs.len() == change.outputs@.len());
        if let Some(o) = Self::find_missing_script(index, &outs) {
            return Err(RollbackError::Store(StoreError::ScriptNotFound(o)));
        }
        let ghost s0 = index@;
        let mut k: usize = 0;
        while k < outs.len()
            invariant
                k <= outs@.len(),
                first_missing(s0.outpoint_scripts, outs@) is None,
                index@ == (IndexView {
                    script_utxos: remove_utxos(s0.outpoint_scripts, s0.script_utxos, outs@.take(k as int)),
                    ..s0
                }),
            decreases outs@.len() - k,
        {
            let o = outs[k];
            proof {
                lemma_first_missing_none(s0.outpoint_scripts, outs@, k as int);
                assert(outs@.take(k + 1).drop_last() =~= outs@.take(k as int));
            }
            let script = match index.outpoint_scripts.get(&o) {
                Some(sc) => Self::copy_script(sc),
                None => Vec::new(),
            };
            let ghost before = index@;
            let list = Self::take_utxos(index, &script);
            let mut kept: Vec<SerializedOutPoint> = Vec::new();
            let mut j: usize = 0;
            while j < list.len()
                invariant
                    j <= list@.len(),
                    kept@ == without(list@.take(j as int), o),
                decreases list@.len() - j,
            {
                let x = list[j];
                proof {
                    assert(list@.take(j + 1).drop_last() =~= list@.take(j as int));
                }
                if !x.same(&o) {
                    kept.push(x);
                }
                j = j + 1;
            }
            assert(list@.take(j as int) =~= list@);
            index.script_utxos.insert(script, kept);
            proof {
                assert(index@ =~= (IndexView {
                    script_utxos: remove_utxos(s0.outpoint_scripts, s0.script_utxos, outs@.take(k + 1)),
                    ..s0
                }));
            }
            k = k + 1;
        }
        assert(outs@.take(k as int) =~= outs@);
        let ghost s1 = index@;
        let mut d: usize = 0;
        while d < outs.len()
            invariant
                d <= outs@.len(),
                index@ == (IndexView {
                    outpoint_scripts: remove_keys(s1.outpoint_scripts, outs@.take(d as int)),
                    ..s1
                }),
            decreases outs@.len() - d,
        {
            let _ = index.outpoint_scripts.remove(&outs[d]);
            proof {
                assert(outs@.take(d + 1).drop_last() =~= outs@.take(d as int));
            }
            d = d + 1;
            assert(index@ =~= (IndexView {
                outpoint_scripts: remove_keys(s1.outpoint_scripts, outs@.take(d as int)),
                ..s1
            }));
        }
        assert(outs@.take(d as int) =~= outs@);
        let ghost t = index@;
        if self.mempool {
            let mut i: usize = 0;
            while i < change.inputs.len()
                invariant
                    i <= change.inputs@.len(),
                    index@ == (IndexView {
                        spent_in_mempool: remove_keys(t.spent_in_mempool, change@.inputs.take(i as int)),
                        ..t
                    }),
                decreases change.inputs@.len() - i,
            {
                let _ = index.spent_in_mempool.remove(&change.inputs[i]);
                proof {
                    assert(change@.inputs.take(i + 1).drop_last() =~= change@.inputs.take(i as int));
                }
                i = i + 1;
                assert(index@ =~= (IndexView {
                    spent_in_mempool: remove_keys(t.spent_in_mempool, change@.inputs.take(i as int)),
                    ..t
                }));
            }
            assert(change@.inputs.take(i as int) =~= change@.inputs);
            return Ok(());
        }
        if change.is_coinbase {
            return Ok(());
        }
        if let Some(o) = Self::find_missing_script(index, &change.inputs) {
            return Err(RollbackError::Store(StoreError::ScriptNotFound(o)));
        }
        let mut i: usize = 0;
        while i < change.inputs.len()
            invariant
                i <= change.inputs@.len(),
                first_missing(t.outpoint_scripts, change@.inputs) is None,
                index@ == (IndexView {
                    script_utxos: add_utxos(t.outpoint_scripts, t.script_utxos, change@.inputs.take(i as int)),
                    ..t
                }),
            decreases change.inputs@.len() - i,
        {
            let o = change.inputs[i];
            let ghost prefix = change@.inputs.take(i as int);
            proof {
                lemma_first_missing_none(t.outpoint_scripts, change@.inputs, i as int);
                assert(change@.inputs.take(i + 1).drop_last() =~= prefix);
            }
            if !Self::appears_before(&change.inputs, i) {
                let script = match index.outpoint_scripts.get(&o) {
                    Some(sc) => Self::copy_script(sc),
                    None => Vec::new(),
                };
                let mut list = Self::take_utxos(index, &script);
                list.push(o);
                index.script_utxos.insert(script, list);
                assert(index@ =~= (IndexView {
                    script_utxos: add_utxos(t.outpoint_scripts, t.script_utxos, change@.inputs.take(i + 1)),
                    ..t
                }));
            }
            i = i + 1;
        }
        assert(change@.inputs.take(i as int) =~= change@.inputs);
        Ok(())
    }

    fn appears_before(os: &Vec<SerializedOutPoint>, i: usize) -> (b: bool)
        requires
            i < os@.len(),
        ensures
            b == os@.take(i as int).contains(os@[i as int]),
    {
        let mut j: usize = 0;
        while j < i
            invariant
                j <= i < os@.len(),
                forall|q: int| 0 <= q < j ==> os@[q] != os@[i as int],
            decreases i - j,
        {
            if os[j].same(&os[i]) {
                assert(os@.take(i as int)[j as int] == os@[i as int]);
                return true;
            }
            j = j + 1;
        }
        assert forall|q: int| 0 <= q < os@.take(i as int).len() implies os@.take(i as int)[q] != os@[i as int] by {
            assert(os@.take(i as int)[q] == os@[q]);
        }
        false
    }

    fn update_spendable_input(&self, index: &mut IndexState, o: SerializedOutPoint)
        ensures
            final(index)@ == (IndexView { tx_outs: unspend(old(index)@.tx_outs, o), ..old(index)@ }),
    {
        match index.tx_outs.remove(&o) {
            Some(t) => {
                let mut t = t;
                t.spent = SpentStatus::Unspent;
                index.tx_outs.insert(o, t);
            },
            None => {},
        }
        assert(index@.tx_outs =~= unspend(old(index)@.tx_outs, o));
        assert(index@ =~= (IndexView { tx_outs: unspend(old(index)@.tx_outs, o), ..old(index)@ }));
    }

    /// Moves the runes numbered above `deleted` down one number each, up to `total`, stopping
    /// at the first number that has no rune.
    fn update_rune_numbers_after_revert(
        &self,
        index: &mut IndexState,
        deleted: u64,
        total: u64,
    ) -> (r: Result<(), RollbackError>)
        ensures
            match renumber(old(index)@, deleted, total) {
                Ok(s) => r is Ok && final(index)@ == s,
                Err((s, e)) => r == Err::<(), RollbackError>(e) && final(index)@ == s,
            },
    {
        let mut i = deleted;
        while i < total
            invariant
                renumber(old(index)@, deleted, total) == renumber(index@, i, total),
            decreases total - i,
        {
            let next = i + 1;
            let id = match index.rune_numbers.get(&next) {
                Some(id) => *id,
                None => {
                    return Ok(());
                },
            };
            let mut entry = match index.runes.get(&id) {
                Some(e) => *e,
                None => {
                    return Err(RollbackError::Store(StoreError::RuneNotFound(id)));
                },
            };
            let ghost before = index@;
            entry.number = i;
            index.runes.insert(id, entry);
            index.rune_numbers.insert(i, id);
            proof {
                let moved = IndexView {
                    runes: before.runes.insert(id, RuneEntry { number: i, ..before.runes[id] }),
                    rune_numbers: before.rune_numbers.insert(i, id),
                    ..before
                };
                assert(index@ =~= moved);
            }
            i = next;
        }
        Ok(())
    }

    fn revert_etching(
        &mut self,
        index: &mut IndexState,
        id: RuneId,
        rune: u128,
    ) -> (r: Result<(), RollbackError>)
        requires
            old(self).runes > 0,
        ensures
            final(self).mempool == old(self).mempool,
            final(self).index_addresses == old(self).index_addresses,
            old(index)@.runes.contains_key(id) ==> final(self).runes == old(self).runes - 1,
            !old(index)@.runes.contains_key(id) ==> final(self).runes == old(self).runes,
            match unetch(old(index)@, id, rune, final(self).runes) {
                Ok(s) => r is Ok && final(index)@ == s,
                Err((s, e)) => r == Err::<(), RollbackError>(e) && final(index)@ == s,
            },
    {
        let entry = match index.runes.get(&id) {
            Some(e) => *e,
            None => {
                return Err(RollbackError::Store(StoreError::RuneNotFound(id)));
            },
        };
        let _ = index.runes.remove(&id);
        let _ = index.rune_ids.remove(&rune);
        self.runes = self.runes - 1;
        index.runes_count = self.runes;
        let _ = index.rune_numbers.remove(&entry.number);
        let ghost t = index@;
        proof {
            assert(t =~= IndexView {
                runes: old(index)@.runes.remove(id),
                rune_ids: old(index)@.rune_ids.remove(rune),
                runes_count: self.runes,
                rune_numbers: old(index)@.rune_numbers.remove(entry.number),
                ..old(index)@
            });
        }
        match self.update_rune_numbers_after_revert(index, entry.number, self.runes) {
            Ok(()) => {},
            Err(e) => {
                return Err(e);
            },
        }
        let ghost u = index@;
        let _ = index.rune_transactions.remove(&id);
        assert(index@ =~= IndexView { rune_transactions: u.rune_transactions.remove(id), ..u });
        Ok(())
    }

    fn update_mints(&self, index: &mut IndexState, m: RuneAmount) -> (r: Result<(), RollbackError>)
        ensures
            match unmint(old(index)@, self.mempool, m) {
                Ok(s) => r is Ok && final(index)@ == s,
                Err((s, e)) => r == Err::<(), RollbackError>(e) && final(index)@ == s,
            },
    {
        let mut entry = match index.runes.get(&m.rune_id) {
            Some(e) => *e,
            None => {
                return Err(RollbackError::Store(StoreError::RuneNotFound(m.rune_id)));
            },
        };
        entry.revert_mint(self.mempool);
        index.runes.insert(m.rune_id, entry);
        assert(index@ =~= unmint(old(index)@, self.mempool, m)->Ok_0);
        Ok(())
    }

    fn update_burn_balance(
        &self,
        index: &mut IndexState,
        id: RuneId,
        amount: u128,
    ) -> (r: Result<(), RollbackError>)
        requires
            amount != 0x8000_0000_0000_0000_0000_0000_0000_0000u128,
        ensures
            match unburn(old(index)@, self.mempool, (id, amount)) {
                Ok(s) => r is Ok && final(index)@ == s,
                Err((s, e)) => r == Err::<(), RollbackError>(e) && final(index)@ == s,
            },
    {
        let mut entry = match index.runes.get(&id) {
            Some(e) => *e,
            None => {
                return Err(RollbackError::Store(StoreError::RuneNotFound(id)));
            },
        };
        match entry.revert_burn(amount, self.mempool) {
            Ok(()) => {},
            Err(_) => {
                return Err(RollbackError::Overflow);
            },
        }
        index.runes.insert(id, entry);
        assert(index@ =~= unburn(old(index)@, self.mempool, (id, amount))->Ok_0);
        Ok(())
    }
}


/// The ids of the burns.
pub open spec fn burned_ids(burns: Seq<(RuneId, u128)>) -> Set<RuneId> {
    Set::new(|r: RuneId| exists|i: int| 0 <= i < burns.len() && burns[i].0 == r)
}

proof fn lemma_save_burns_effect(
    s: IndexView,
    txid: Txid,
    loc: Location,
    mempool: bool,
    burns: Seq<(RuneId, u128)>,
)
    requires
        distinct_rune_ids(burns),
        save_burns(s, txid, loc, mempool, burns) is Ok,
    ensures
        ({
            let t = save_burns(s, txid, loc, mempool, burns)->Ok_0;
            &&& t == IndexView { runes: t.runes, events: t.events, ..s }
            &&& t.runes.dom() == s.runes.dom()
            &&& forall|i: int|
                0 <= i < burns.len() ==> s.runes.contains_key(#[trigger] burns[i].0)
                    && burned_entry(s.runes[burns[i].0], burns[i].1, mempool) is Some
                    && t.runes[burns[i].0] == burned_entry(
                    s.runes[burns[i].0],
                    burns[i].1,
                    mempool,
                )->Some_0
            &&& forall|r: RuneId|
                t.runes.contains_key(r) && !burned_ids(burns).contains(r) ==> #[trigger] t.runes[r]
                    == s.runes[r]
        }),
    decreases burns.len(),
{
    if burns.len() > 0 {
        let p = burns.drop_last();
        let b = burns.last();
        assert(distinct_rune_ids(p));
        assert(save_burns(s, txid, loc, mempool, p) is Ok);
        lemma_save_burns_effect(s, txid, loc, mempool, p);
        let t1 = save_burns(s, txid, loc, mempool, p)->Ok_0;
        let t = save_burns(s, txid, loc, mempool, burns)->Ok_0;
        assert(t1.runes.contains_key(b.0));
        assert(t.runes.dom() =~= s.runes.dom());
        assert(!burned_ids(p).contains(b.0)) by {
            if burned_ids(p).contains(b.0) {
                let i = choose|i: int| 0 <= i < p.len() && p[i].0 == b.0;
                assert(burns[i].0 == burns[burns.len() - 1].0);
            }
        }
        assert forall|i: int| 0 <= i < burns.len() implies s.runes.contains_key(#[trigger] burns[i].0)
            && burned_entry(s.runes[burns[i].0], burns[i].1, mempool) is Some && t.runes[burns[i].0]
            == burned_entry(s.runes[burns[i].0], burns[i].1, mempool)->Some_0 by {
            if i < burns.len() - 1 {
                assert(p[i] == burns[i]);
                assert(burns[i].0 != b.0);
            } else {
                assert(burns[i] == b);
            }
        }
        assert forall|r: RuneId| t.runes.contains_key(r) && !burned_ids(burns).contains(r) implies #[trigger] t.runes[r] == s.runes[r] by {
            assert(r != b.0) by {
                assert(burns[burns.len() - 1].0 == b.0);
            }
            assert(!burned_ids(p).contains(r)) by {
                if burned_ids(p).contains(r) {
                    let i = choose|i: int| 0 <= i < p.len() && p[i].0 == r;
                    assert(burns[i].0 == r);
                }
            }
        }
    } else {
        assert(burned_ids(burns) =~= Set::<RuneId>::empty());
    }
}

proof fn lemma_unburn_all_effect(s: IndexView, mempool: bool, burns: Seq<(RuneId, u128)>)
    requires
        distinct_rune_ids(burns),
        forall|i: int|
            0 <= i < burns.len() ==> s.runes.contains_key(#[trigger] burns[i].0)
                && unburned_entry(s.runes[burns[i].0], burns[i].1, mempool) is Some,
    ensures
        unburn_all(s, mempool, burns) is Ok,
        ({
            let t = unburn_all(s, mempool, burns)->Ok_0;
            &&& t == IndexView { runes: t.runes, ..s }
            &&& t.runes.dom() == s.runes.dom()
            &&& forall|i: int|
                0 <= i < burns.len() ==> t.runes[#[trigger] burns[i].0] == unburned_entry(
                    s.runes[burns[i].0],
                    burns[i].1,
                    mempool,
                )->Some_0
            &&& forall|r: RuneId|
                t.runes.contains_key(r) && !burned_ids(burns).contains(r) ==> #[trigger] t.runes[r]
                    == s.runes[r]
        }),
    decreases burns.len(),
{
    if burns.len() > 0 {
        let p = burns.drop_last();
        let b = burns.last();
        assert(distinct_rune_ids(p));
        assert forall|i: int| 0 <= i < p.len() implies s.runes.contains_key(#[trigger] p[i].0)
            && unburned_entry(s.runes[p[i].0], p[i].1, mempool) is Some by {
            assert(p[i] == burns[i]);
        }
        lemma_unburn_all_effect(s, mempool, p);
        let t1 = unburn_all(s, mempool, p)->Ok_0;
        assert(!burned_ids(p).contains(b.0)) by {
            if burned_ids(p).contains(b.0) {
                let i = choose|i: int| 0 <= i < p.len() && p[i].0 == b.0;
                assert(burns[i].0 == burns[burns.len() - 1].0);
            }
        }
        assert(burns[burns.len() - 1] == b);
        assert(s.runes.contains_key(b.0));
        assert(t1.runes[b.0] == s.runes[b.0]);
        let t = unburn_all(s, mempool, burns)->Ok_0;
        assert(t.runes.dom() =~= s.runes.dom());
        assert forall|i: int| 0 <= i < burns.len() implies t.runes[#[trigger] burns[i].0]
            == unburned_entry(s.runes[burns[i].0], burns[i].1, mempool)->Some_0 by {
            if i < burns.len() - 1 {
                assert(p[i] == burns[i]);
                assert(burns[i].0 != b.0);
            }
        }
        assert forall|r: RuneId| t.runes.contains_key(r) && !burned_ids(burns).contains(r) implies #[trigger] t.runes[r] == s.runes[r] by {
            assert(r != b.0) by {
                assert(burns[burns.len() - 1].0 == b.0);
            }
            assert(!burned_ids(p).contains(r)) by {
                if burned_ids(p).contains(r) {
                    let i = choose|i: int| 0 <= i < p.len() && p[i].0 == r;
                    assert(burns[i].0 == r);
                }
            }
        }
    } else {
        assert(burned_ids(burns) =~= Set::<RuneId>::empty());
    }
}

proof fn lemma_spend_all_at(
    m: Map<SerializedOutPoint, TxOutEntryView>,
    ins: Seq<SerializedOutPoint>,
    txid: Txid,
    k: SerializedOutPoint,
)
    ensures
        spend_all(m, ins, txid).contains_key(k) == m.contains_key(k),
        m.contains_key(k) && !ins.contains(k) ==> spend_all(m, ins, txid)[k] == m[k],
        m.contains_key(k) && ins.contains(k) ==> spend_all(m, ins, txid)[k] == (TxOutEntryView {
            spent: spend_all(m, ins, txid)[k].spent,
            ..m[k]
        }),
    decreases ins.len(),
{
    if ins.len() > 0 {
        lemma_spend_all_at(m, ins.drop_last(), txid, k);
        if ins.last() != k {
            assert(ins.contains(k) == ins.drop_last().contains(k)) by {
                if ins.contains(k) {
                    let i = choose|i: int| 0 <= i < ins.len() && ins[i] == k;
                    assert(ins.drop_last()[i] == k);
                }
            }
        } else {
            assert(ins[ins.len() - 1] == k);
        }
    }
}

proof fn lemma_unspend_all_at(
    m: Map<SerializedOutPoint, TxOutEntryView>,
    ins: Seq<SerializedOutPoint>,
    k: SerializedOutPoint,
)
    ensures
        unspend_all(m, ins).contains_key(k) == m.contains_key(k),
        m.contains_key(k) ==> unspend_all(m, ins)[k] == (if ins.contains(k) {
            TxOutEntryView { spent: SpentStatus::Unspent, ..m[k] }
        } else {
            m[k]
        }),
    decreases ins.len(),
{
    if ins.len() > 0 {
        lemma_unspend_all_at(m, ins.drop_last(), k);
        if ins.last() != k {
            assert(ins.contains(k) == ins.drop_last().contains(k)) by {
                if ins.contains(k) {
                    let i = choose|i: int| 0 <= i < ins.len() && ins[i] == k;
                    assert(ins.drop_last()[i] == k);
                }
            }
        } else {
            assert(ins[ins.len() - 1] == k);
        }
    }
}

proof fn lemma_remove_outputs_at(
    m: Map<SerializedOutPoint, TxOutEntryView>,
    txid: Txid,
    n: nat,
    k: SerializedOutPoint,
)
    requires
        n <= u32::MAX,
    ensures
        remove_outputs(m, txid, n).contains_key(k) == (m.contains_key(k) && !(k.txid == txid
            && k.vout < n)),
        remove_outputs(m, txid, n).contains_key(k) ==> remove_outputs(m, txid, n)[k] == m[k],
    decreases n,
{
    if n > 0 {
        lemma_remove_outputs_at(m, txid, (n - 1) as nat, k);
    }
}

pub(crate) proof fn lemma_save_outputs_frame(
    s: IndexView,
    txid: Txid,
    loc: Location,
    index_addresses: bool,
    outs: Seq<TxOutEntryView>,
    k: SerializedOutPoint,
)
    requires
        outs.len() <= u32::MAX,
    ensures
        ({
            let t = save_outputs(s, txid, loc, index_addresses, outs);
            &&& t == IndexView { tx_outs: t.tx_outs, events: t.events, ..s }
            &&& !(k.txid == txid && k.vout < outs.len()) ==> (t.tx_outs.contains_key(k)
                == s.tx_outs.contains_key(k) && (s.tx_outs.contains_key(k) ==> t.tx_outs[k]
                == s.tx_outs[k]))
        }),
    decreases outs.len(),
{
    if outs.len() > 0 {
        lemma_save_outputs_frame(s, txid, loc, index_addresses, outs.drop_last(), k);
    }
}

/// Reverting a transaction right after saving it gives back the index as it was: the rune
/// entries, rune names and numbers, the count of runes, the output entries, the state changes
/// and the stored transactions. This holds when the transaction's outputs, state change and
/// transaction were not in the index, the outputs it spends that the index holds are unspent
/// and belong to other transactions, the rune it etches is new (its id, name and number
/// unused, and it neither mints nor burns it), the rune it mints has not reached the largest
/// mint count, and it burns nothing outside the mempool (outside the mempool, reverting a burn
/// sets the burned total from the pending burns).
#[verifier::rlimit(40)]
pub proof fn lemma_revert_undoes_save(
    settings: TransactionUpdaterSettings,
    mempool: bool,
    index_addresses: bool,
    s0: IndexView,
    block_time: u32,
    block_id: Option<BlockId>,
    txid: Txid,
    tx: TransactionView,
    artifact: Option<ArtifactView>,
    inscription_id: Option<InscriptionId>,
    change: &TransactionStateChange,
)
    requires
        saved(settings, mempool, s0, block_time, block_id, txid, tx, artifact, inscription_id, change).1
            is Ok,
        distinct_rune_ids(change@.burned),
        negatable_burns(change@.burned),
        mempool || change@.burned.len() == 0,
        change@.outputs.len() <= u32::MAX,
        forall|i: int| 0 <= i < change@.inputs.len() ==> (#[trigger] change@.inputs[i]).txid != txid,
        forall|i: int|
            0 <= i < change@.inputs.len() && s0.tx_outs.contains_key(#[trigger] change@.inputs[i])
                ==> s0.tx_outs[change@.inputs[i]].spent is Unspent,
        forall|k: SerializedOutPoint|
            k.txid == txid && k.vout < change@.outputs.len() ==> !#[trigger] s0.tx_outs.contains_key(k),
        !s0.tx_state_changes.contains_key(txid@),
        !s0.transactions.contains_key(txid@),
        index_addresses ==> addresses_recorded(s0, mempool, txid, change),
        change.minted matches Some(m) ==> (if mempool {
            s0.runes[m.rune_id].pending_mints < u128::MAX
        } else {
            s0.runes[m.rune_id].mints < u128::MAX
        }),
        change.etched matches Some((id, rune)) ==> {
            &&& !s0.runes.contains_key(id)
            &&& !s0.rune_ids.contains_key(rune)
            &&& !s0.rune_numbers.contains_key(s0.runes_count)
            &&& s0.runes_count < u64::MAX
            &&& !burned_ids(change@.burned).contains(id)
            &&& change.minted matches Some(m) ==> m.rune_id != id
        },
    ensures
        ({
            let s1 = saved(
                settings,
                mempool,
                s0,
                block_time,
                block_id,
                txid,
                tx,
                artifact,
                inscription_id,
                change,
            ).0;
            let (s2, count, r) = reverted(mempool, index_addresses, s1.runes_count, s1, txid, change);
            &&& r is Ok
            &&& count == s0.runes_count
            &&& s2.runes == s0.runes
            &&& s2.rune_ids == s0.rune_ids
            &&& s2.rune_numbers == s0.rune_numbers
            &&& s2.runes_count == s0.runes_count
            &&& s2.tx_outs == s0.tx_outs
            &&& s2.tx_state_changes == s0.tx_state_changes
            &&& s2.transactions == s0.transactions
        }),
{
    let loc = location_of(height_of(block_id));
    let burns = change@.burned;
    let ins = change@.inputs;
    let outs = change@.outputs;
    let s_e = match change.etched {
        Some((id, rune)) => save_etch(
            s0,
            txid,
            loc,
            block_time as u64,
            inscription_id,
            etching_fields(artifact.unwrap()),
            id,
            rune,
        ),
        None => s0,
    };
    assert(save_burns(s_e, txid, loc, mempool, burns) is Ok);
    lemma_save_burns_effect(s_e, txid, loc, mempool, burns);
    let s_b = save_burns(s_e, txid, loc, mempool, burns)->Ok_0;
    let s_m = match change.minted {
        Some(m) => save_mint(s_b, txid, loc, mempool, m)->Ok_0,
        None => s_b,
    };
    if let Some(m) = change.minted {
        assert(save_mint(s_b, txid, loc, mempool, m) is Ok);
        assert(s_b.runes.contains_key(m.rune_id));
    }
    let s_i = crate::tx_updater::spend_inputs(s_m, tx, ins, txid);
    let s_o = save_outputs(s_i, txid, loc, settings.index_addresses, outs);
    let s1 = save_records(s_o, settings, mempool, block_id, txid, tx, change);
    assert(saved(settings, mempool, s0, block_time, block_id, txid, tx, artifact, inscription_id, change).0 == s1);
    let k0 = SerializedOutPoint { txid, vout: 0 };
    lemma_save_outputs_frame(s_i, txid, loc, settings.index_addresses, outs, k0);
    assert(s1.runes == s_m.runes);
    assert(s1.rune_ids == s_e.rune_ids);
    assert(s1.rune_numbers == s_e.rune_numbers);
    assert(s1.runes_count == s_e.runes_count);

    // The outputs: inputs unspent again, new outputs removed.
    let r1 = IndexView {
        tx_outs: remove_outputs(unspend_all(s1.tx_outs, ins), txid, outs.len()),
        ..s1
    };
    assert forall|k: SerializedOutPoint| #[trigger] r1.tx_outs.contains_key(k) == s0.tx_outs.contains_key(k)
        && (s0.tx_outs.contains_key(k) ==> r1.tx_outs[k] == s0.tx_outs[k]) by {
        lemma_remove_outputs_at(unspend_all(s1.tx_outs, ins), txid, outs.len(), k);
        lemma_unspend_all_at(s1.tx_outs, ins, k);
        lemma_save_outputs_frame(s_i, txid, loc, settings.index_addresses, outs, k);
        lemma_spend_all_at(s_m.tx_outs, ins, txid, k);
        if k.txid == txid && k.vout < outs.len() {
            assert(!s0.tx_outs.contains_key(k));
        } else {
            assert(s_m.tx_outs == s0.tx_outs);
            if s0.tx_outs.contains_key(k) && ins.contains(k) {
                let i = choose|i: int| 0 <= i < ins.len() && ins[i] == k;
                assert(s0.tx_outs[ins[i]].spent is Unspent);
            }
        }
    }
    assert(r1.tx_outs =~= s0.tx_outs);

    // The etched rune: its entry, name and number go; nothing above it is renumbered.
    let c1 = s1.runes_count;
    let (r2, c2) = match change.etched {
        None => (r1, c1),
        Some((id, rune)) => {
            assert(!burned_ids(burns).contains(id));
            assert(s_e.runes.contains_key(id));
            assert(s_b.runes[id] == s_e.runes[id]);
            assert(r1.runes.contains_key(id));
            assert(r1.runes[id].number == s0.runes_count);
            let c = (c1 - 1) as u64;
            let t = IndexView {
                runes: r1.runes.remove(id),
                rune_ids: r1.rune_ids.remove(rune),
                runes_count: c,
                rune_numbers: r1.rune_numbers.remove(r1.runes[id].number),
                ..r1
            };
            assert(renumber(t, r1.runes[id].number, c) == Ok::<IndexView, (IndexView, RollbackError)>(t));
            assert(unetch(r1, id, rune, c) == Ok::<IndexView, (IndexView, RollbackError)>(
                IndexView { rune_transactions: t.rune_transactions.remove(id), ..t },
            ));
            assert(t.rune_ids =~= s0.rune_ids);
            assert(t.rune_numbers =~= s0.rune_numbers);
            (IndexView { rune_transactions: t.rune_transactions.remove(id), ..t }, c)
        },
    };
    assert(c2 == s0.runes_count);
    assert(r2.rune_ids == s0.rune_ids);
    assert(r2.rune_numbers == s0.rune_numbers);
    assert(r2.tx_outs == s0.tx_outs);

    // Which rune entries r2 holds, and what they are.
    let etched_id = match change.etched {
        Some((id, _)) => Some(id),
        None => None,
    };
    assert forall|r: RuneId| #[trigger] r2.runes.contains_key(r) == (s0.runes.contains_key(r)) by {
        if etched_id != Some(r) {
            assert(s_b.runes.contains_key(r) == s_e.runes.contains_key(r));
        }
    }
    assert forall|r: RuneId| r2.runes.contains_key(r) implies #[trigger] r2.runes[r] == s_m.runes[r] by {}

    // The mint is taken back.
    let r3 = match change.minted {
        Some(m) => unmint(r2, mempool, m)->Ok_0,
        None => r2,
    };
    if let Some(m) = change.minted {
        assert(s_e.runes.contains_key(m.rune_id));
        assert(r2.runes.contains_key(m.rune_id));
        assert(unmint(r2, mempool, m) is Ok);
    }
    assert forall|r: RuneId| r3.runes.contains_key(r) implies #[trigger] r3.runes[r] == s_b.runes[r] by {
        if let Some(m) = change.minted {
            if r == m.rune_id {
                assert(s_b.runes.contains_key(r));
                if burned_ids(burns).contains(r) {
                    let i = choose|i: int| 0 <= i < burns.len() && burns[i].0 == r;
                    assert(s_b.runes[burns[i].0] == burned_entry(s_e.runes[burns[i].0], burns[i].1, mempool)->Some_0);
                } else {
                    assert(s_b.runes[r] == s_e.runes[r]);
                }
                assert(unminted_entry(minted_entry(s_b.runes[r], mempool), mempool) == s_b.runes[r]);
            }
        }
    }
    assert(reverted_before_burns(mempool, c1, s1, txid, change) == Ok::<(IndexView, u64), (IndexView, u64, RollbackError)>((r3, c2)));

    // The burns are taken back.
    assert forall|i: int| 0 <= i < burns.len() implies r3.runes.contains_key(#[trigger] burns[i].0)
        && unburned_entry(r3.runes[burns[i].0], burns[i].1, mempool) is Some
        && unburned_entry(r3.runes[burns[i].0], burns[i].1, mempool)->Some_0 == s0.runes[burns[i].0] by {
        let r = burns[i].0;
        assert(burned_ids(burns).contains(r));
        assert(etched_id != Some(r));
        assert(s_e.runes[r] == s0.runes[r]);
        assert(r3.runes[r] == s_b.runes[r]);
    }
    lemma_unburn_all_effect(r3, mempool, burns);
    let r4 = unburn_all(r3, mempool, burns)->Ok_0;
    assert forall|r: RuneId| #[trigger] r4.runes.contains_key(r) implies r4.runes[r] == s0.runes[r] by {
        assert(etched_id != Some(r));
        if burned_ids(burns).contains(r) {
            let i = choose|i: int| 0 <= i < burns.len() && burns[i].0 == r;
            assert(r4.runes[burns[i].0] == unburned_entry(r3.runes[burns[i].0], burns[i].1, mempool)->Some_0);
        } else {
            assert(s_b.runes[r] == s_e.runes[r]);
        }
    }
    assert(r4.runes =~= s0.runes);
    let r5 = if index_addresses {
        unindex_addresses(r4, mempool, txid, change)->Ok_0
    } else {
        r4
    };
    if index_addresses {
        assert(r4.outpoint_scripts == s0.outpoint_scripts);
        assert(unindex_addresses(r4, mempool, txid, change) is Ok);
    }
    assert(r5.runes == r4.runes && r5.rune_ids == r4.rune_ids && r5.rune_numbers == r4.rune_numbers
        && r5.runes_count == r4.runes_count && r5.tx_outs == r4.tx_outs && r5.tx_state_changes
        == r4.tx_state_changes && r5.transactions == r4.transactions);
    let s2 = IndexView {
        tx_state_changes: r5.tx_state_changes.remove(txid@),
        transactions: r5.transactions.remove(txid@),
        ..r5
    };
    assert(reverted(mempool, index_addresses, c1, s1, txid, change) == (s2, c2, Ok::<(), RollbackError>(())));
    assert(s2.tx_state_changes =~= s0.tx_state_changes);
    assert(s2.transactions =~= s0.transactions);

}

} // verus!
