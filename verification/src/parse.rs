use vstd::prelude::*;
use crate::allocation::{
    allocate_runes, bounded, initial_unallocated, spec_allocation, views, Artifact,
};
use crate::balances::{bal, credit, Balances};
use crate::parser::{artifact_fits, is_op_return, TransactionData};
use crate::rune_entry::{spec_mintable, RuneEntry};
use crate::runes::{spec_etched, EtchingRequest, NamedEtchingChecks, TransactionParser};
use crate::state_change::{SpentStatus, lists_balances, sorted_runes, RuneAmount, TransactionStateChange, TxOutEntry};
use crate::types::{RuneId, SerializedOutPoint, Txid};

use crate::index_state::IndexState;

verus! {

/// The rune amounts held by a list of outputs, output after output.
pub open spec fn flat_runes(outs: Seq<TxOutEntry>) -> Seq<RuneAmount>
    decreases outs.len(),
{
    if outs.len() == 0 {
        Seq::empty()
    } else {
        flat_runes(outs.drop_last()) + outs.last().runes@
    }
}

/// The amounts of a list, summed per rune.
pub open spec fn sum_amounts(s: Seq<RuneAmount>) -> Map<RuneId, nat>
    decreases s.len(),
{
    if s.len() == 0 {
        Map::empty()
    } else {
        credit(sum_amounts(s.drop_last()), s.last().rune_id, s.last().amount as nat)
    }
}

/// The runes held by the outputs a transaction spends, summed per rune.
pub open spec fn spent_runes(spent: Seq<TxOutEntry>) -> Map<RuneId, nat> {
    sum_amounts(flat_runes(spent))
}

/// What an artifact asks to etch: a runestone's etching with or without a name, or the name
/// a cenotaph would have etched.
pub open spec fn etching_request(a: Option<Artifact>) -> EtchingRequest {
    match a {
        Some(Artifact::Runestone { etching: Some(e), .. }) => match e.rune {
            Some(r) => EtchingRequest::Named(r),
            None => EtchingRequest::Unnamed,
        },
        Some(Artifact::Cenotaph { etching: Some(r), .. }) => EtchingRequest::Named(r),
        _ => EtchingRequest::NoEtching,
    }
}

/// The rune an artifact mints, if any.
pub open spec fn artifact_mint(a: Option<Artifact>) -> Option<RuneId> {
    match a {
        Some(Artifact::Runestone { mint, .. }) => mint,
        Some(Artifact::Cenotaph { mint, .. }) => mint,
        None => None,
    }
}

/// The mint a transaction makes at the parser's height, given the entry of the rune its
/// artifact mints: none when it mints nothing, the rune is unknown or it cannot be minted.
pub open spec fn spec_minted(p: TransactionParser, a: Option<Artifact>, entry: Option<RuneEntry>) -> Option<(RuneId, u128)> {
    match (artifact_mint(a), entry) {
        (Some(id), Some(e)) => match spec_mintable(e, p.height) {
            Ok(amount) => Some((id, amount)),
            Err(_) => None,
        },
        _ => None,
    }
}

/// The id of the rune a transaction etches, if any.
pub open spec fn etched_id(p: TransactionParser, tx_index: u32, a: Option<Artifact>, checks: NamedEtchingChecks) -> Option<RuneId> {
    match spec_etched(p, tx_index, etching_request(a), checks) {
        Some((id, _)) => Some(id),
        None => None,
    }
}

/// Which outputs of a transaction are OP_RETURN outputs.
pub open spec fn op_return_flags(tx: TransactionData) -> Seq<bool> {
    Seq::new(
        tx.output@.len(),
        |v: int| tx.output@[v].script_pubkey@.len() > 0 && tx.output@[v].script_pubkey@[0] == 0x6a,
    )
}

/// Whether a transaction is a coinbase: its one input spends the null outpoint (an id of
/// zeros and the largest index), as bitcoin's `Transaction::is_coinbase` decides.
pub open spec fn spec_is_coinbase(tx: TransactionData) -> bool {
    &&& tx.input@.len() == 1
    &&& tx.input@[0].previous_output.vout == u32::MAX
    &&& tx.input@[0].previous_output.txid@ == Seq::new(32, |i: int| 0u8)
}

/// The unallocated balances a transaction starts with: what it spends, its mint, and the
/// premine of what it etches.
pub open spec fn starting_balances(
    p: TransactionParser,
    tx_index: u32,
    spent: Seq<TxOutEntry>,
    a: Option<Artifact>,
    entry: Option<RuneEntry>,
    checks: NamedEtchingChecks,
) -> Map<RuneId, nat> {
    initial_unallocated(spent_runes(spent), a, spec_minted(p, a, entry), etched_id(p, tx_index, a, checks))
}

/// What a parsed transaction records of its runes, given what `TransactionParser::parse`
/// was handed: each output's balances, what it mints, what it etches, what it burns.
pub open spec fn parsed_runes(
    p: TransactionParser,
    tx_index: u32,
    tx: TransactionData,
    spent: Seq<TxOutEntry>,
    a: Option<Artifact>,
    entry: Option<RuneEntry>,
    checks: NamedEtchingChecks,
) -> (Seq<Map<RuneId, nat>>, Option<(RuneId, u128)>, Option<(RuneId, u128)>, Map<RuneId, nat>) {
    if p.should_index_runes {
        let (allocated, burned) = spec_allocation(
            spent_runes(spent),
            a,
            spec_minted(p, a, entry),
            etched_id(p, tx_index, a, checks),
            op_return_flags(tx),
        );
        (
            allocated,
            spec_minted(p, a, entry),
            spec_etched(p, tx_index, etching_request(a), checks),
            burned,
        )
    } else {
        (
            Seq::new(tx.output@.len(), |v: int| Map::<RuneId, nat>::empty()),
            None,
            None,
            Map::empty(),
        )
    }
}

proof fn lemma_sum_amounts_prefix(s: Seq<RuneAmount>, k: int, id: RuneId)
    requires
        0 <= k <= s.len(),
    ensures
        bal(sum_amounts(s.take(k)), id) <= bal(sum_amounts(s), id),
    decreases s.len(),
{
    if k < s.len() {
        lemma_sum_amounts_prefix(s.drop_last(), k, id);
        assert(s.drop_last().take(k) =~= s.take(k));
    } else {
        assert(s.take(k) =~= s);
    }
}

fn flatten_runes(outs: &Vec<TxOutEntry>) -> (flat: Vec<RuneAmount>)
    ensures
        flat@ == flat_runes(outs@),
{
    let mut flat: Vec<RuneAmount> = Vec::new();
    let mut o: usize = 0;
    while o < outs.len()
        invariant
            o <= outs@.len(),
            flat@ == flat_runes(outs@.take(o as int)),
        decreases outs@.len() - o,
    {
        let runes = &outs[o].runes;
        let mut j: usize = 0;
        while j < runes.len()
            invariant
                o < outs@.len(),
                runes@ == outs@[o as int].runes@,
                j <= runes@.len(),
                flat@ == flat_runes(outs@.take(o as int)) + runes@.take(j as int),
            decreases runes@.len() - j,
        {
            flat.push(runes[j]);
            j = j + 1;
            assert(flat@ =~= flat_runes(outs@.take(o as int)) + runes@.take(j as int));
        }
        proof {
            assert(outs@.take(o + 1).drop_last() =~= outs@.take(o as int));
            assert(runes@.take(j as int) =~= runes@);
        }
        o = o + 1;
    }
    assert(outs@.take(outs@.len() as int) =~= outs@);
    flat
}

/// The runes held by the spent outputs, summed per rune; `None` when a sum would not fit in
/// a `u128`.
pub fn sum_spent_runes(spent: &Vec<TxOutEntry>) -> (r: Option<Balances>)
    ensures
        r is None <==> !bounded(spent_runes(spent@)),
        r matches Some(b) ==> b@ == spent_runes(spent@),
{
    let flat = flatten_runes(spent);
    let mut b = Balances::new();
    let mut k: usize = 0;
    while k < flat.len()
        invariant
            k <= flat@.len(),
            flat@ == flat_runes(spent@),
            b@ == sum_amounts(flat@.take(k as int)),
        decreases flat@.len() - k,
    {
        let a = flat[k];
        let cur: u128 = match b.get(a.rune_id) {
            Some(v) => v,
            None => 0,
        };
        proof {
            assert(flat@.take(k + 1).drop_last() =~= flat@.take(k as int));
        }
        if cur > u128::MAX - a.amount {
            proof {
                lemma_sum_amounts_prefix(flat@, k + 1, a.rune_id);
            }
            return None;
        }
        b.credit(a.rune_id, a.amount);
        k = k + 1;
    }
    proof {
        assert(flat@.take(flat@.len() as int) =~= flat@);
        b.lemma_bounded();
    }
    Some(b)
}

fn is_null_txid(t: &Txid) -> (b: bool)
    ensures
        b == (t@ == Seq::new(32, |i: int| 0u8)),
{
    t.same(&Txid::all_zeros())
}

/// Whether the transaction is a coinbase: its one input spends the null outpoint.
pub fn is_coinbase(tx: &TransactionData) -> (b: bool)
    ensures
        b == spec_is_coinbase(*tx),
{
    tx.input.len() == 1 && tx.input[0].previous_output.vout == u32::MAX && is_null_txid(
        &tx.input[0].previous_output.txid,
    )
}

fn op_returns(tx: &TransactionData) -> (flags: Vec<bool>)
    ensures
        flags@ == op_return_flags(*tx),
{
    let mut flags: Vec<bool> = Vec::new();
    let mut v: usize = 0;
    while v < tx.output.len()
        invariant
            v <= tx.output@.len(),
            flags@.len() == v,
            forall|j: int| 0 <= j < v ==> #[trigger] flags@[j] == op_return_flags(*tx)[j],
        decreases tx.output@.len() - v,
    {
        flags.push(is_op_return(&tx.output[v].script_pubkey));
        v = v + 1;
    }
    assert(flags@ =~= op_return_flags(*tx));
    flags
}

/// What an artifact says about etching.
pub fn etching_request_of(a: &Option<Artifact>) -> (r: EtchingRequest)
    ensures
        r == etching_request(*a),
{
    match a {
        Some(Artifact::Runestone { etching: Some(e), .. }) => match e.rune {
            Some(r) => EtchingRequest::Named(r),
            None => EtchingRequest::Unnamed,
        },
        Some(Artifact::Cenotaph { etching: Some(r), .. }) => EtchingRequest::Named(*r),
        _ => EtchingRequest::NoEtching,
    }
}

fn artifact_mint_of(a: &Option<Artifact>) -> (r: Option<RuneId>)
    ensures
        r == artifact_mint(*a),
{
    match a {
        Some(Artifact::Runestone { mint, .. }) => *mint,
        Some(Artifact::Cenotaph { mint, .. }) => *mint,
        None => None,
    }
}

fn spent_outpoints(tx: &TransactionData) -> (v: Vec<SerializedOutPoint>)
    ensures
        v@ == Seq::new(tx.input@.len(), |i: int| tx.input@[i].previous_output),
{
    let mut v: Vec<SerializedOutPoint> = Vec::new();
    let mut i: usize = 0;
    while i < tx.input.len()
        invariant
            i <= tx.input@.len(),
            v@ == Seq::new(i as nat, |j: int| tx.input@[j].previous_output),
        decreases tx.input@.len() - i,
    {
        v.push(tx.input[i].previous_output);
        i = i + 1;
        assert(v@ =~= Seq::new(i as nat, |j: int| tx.input@[j].previous_output));
    }
    v
}

proof fn lemma_credit_grows(m: Map<RuneId, nat>, id: RuneId, amt: nat, x: RuneId)
    ensures
        bal(m, x) <= bal(credit(m, id, amt), x),
{
}

/// What parsing a transaction gives: nothing when a balance would not fit in a `u128`;
/// otherwise its spent outputs, its outputs with their values and the runes allocated to them
/// in order of id, its mint, its etching, its burns, and whether it is a coinbase.
pub open spec fn parse_outcome(
    p: TransactionParser,
    tx_index: u32,
    tx: TransactionData,
    spent: Seq<TxOutEntry>,
    artifact: Option<Artifact>,
    mint_entry: Option<RuneEntry>,
    checks: NamedEtchingChecks,
    r: Option<TransactionStateChange>,
) -> bool {
    &&& r is None <==> (p.should_index_runes && !bounded(
        starting_balances(p, tx_index, spent, artifact, mint_entry, checks),
    ))
    &&& r matches Some(c) ==> {
        let (allocated, minted, etched, burned) = parsed_runes(
            p,
            tx_index,
            tx,
            spent,
            artifact,
            mint_entry,
            checks,
        );
        &&& c.inputs@ == Seq::new(tx.input@.len(), |i: int| tx.input@[i].previous_output)
        &&& c.outputs@.len() == tx.output@.len()
        &&& forall|v: int| 0 <= v < c.outputs@.len() ==> {
            &&& #[trigger] c.outputs@[v].value == tx.output@[v].value
            &&& c.outputs@[v].spent is Unspent
            &&& lists_balances(c.outputs@[v].runes@, allocated[v])
        }
        &&& c.minted == match minted {
            Some((id, amount)) => Some(RuneAmount { rune_id: id, amount }),
            None => None,
        }
        &&& c.etched == etched
        &&& c.burned@ == burned
        &&& c.is_coinbase == spec_is_coinbase(tx)
    }
}

impl TransactionParser {
    /// What a transaction does to runes. `spent` holds the index's entries of the outputs the
    /// transaction spends, `artifact` what ordinals deciphers from it, `mint_entry` the entry
    /// of the rune the artifact mints (when the index has one), and `checks` the outcome of
    /// the checks on a named etching. Below the first rune height no rune moves. `None` when a
    /// balance would not fit in a `u128`.
    pub fn parse(
        &self,
        tx_index: u32,
        tx: &TransactionData,
        artifact: &Option<Artifact>,
        spent: &Vec<TxOutEntry>,
        mint_entry: Option<RuneEntry>,
        checks: NamedEtchingChecks,
    ) -> (r: Option<TransactionStateChange>)
        requires
            artifact matches Some(a) ==> artifact_fits(a@, tx.output@.len()),
        ensures
            r is None <==> (self.should_index_runes && !bounded(
                starting_balances(*self, tx_index, spent@, *artifact, mint_entry, checks),
            )),
            r matches Some(c) ==> {
                let (allocated, minted, etched, burned) = parsed_runes(
                    *self,
                    tx_index,
                    *tx,
                    spent@,
                    *artifact,
                    mint_entry,
                    checks,
                );
                &&& c.inputs@ == Seq::new(tx.input@.len(), |i: int| tx.input@[i].previous_output)
                &&& c.outputs@.len() == tx.output@.len()
                &&& forall|v: int| 0 <= v < c.outputs@.len() ==> {
                    &&& #[trigger] c.outputs@[v].value == tx.output@[v].value
                    &&& c.outputs@[v].spent is Unspent
                    &&& lists_balances(c.outputs@[v].runes@, allocated[v])
                }
                &&& c.minted == match minted {
                    Some((id, amount)) => Some(RuneAmount { rune_id: id, amount }),
                    None => None,
                }
                &&& c.etched == etched
                &&& c.burned@ == burned
                &&& c.is_coinbase == spec_is_coinbase(*tx)
            },
    {
        let n = tx.output.len();
        let mut allocated: Vec<Balances> = Vec::new();
        let mut minted: Option<RuneAmount> = None;
        let mut etched: Option<(RuneId, u128)> = None;
        let mut burned = Balances::new();
        if self.should_index_runes {
            let total = match sum_spent_runes(spent) {
                Some(b) => b,
                None => {
                    proof {
                        let s = starting_balances(*self, tx_index, spent@, *artifact, mint_entry, checks);
                        let t = spent_runes(spent@);
                        let id = choose|id: RuneId| !(#[trigger] bal(t, id) <= u128::MAX);
                        let m = match spec_minted(*self, *artifact, mint_entry) {
                            Some((mid, amount)) => credit(t, mid, amount as nat),
                            None => t,
                        };
                        if let Some((mid, amount)) = spec_minted(*self, *artifact, mint_entry) {
                            lemma_credit_grows(t, mid, amount as nat, id);
                        }
                        if let Some(eid) = etched_id(*self, tx_index, *artifact, checks) {
                            if artifact.is_some() && artifact->0 is Runestone {
                                lemma_credit_grows(m, eid, crate::allocation::artifact_premine(artifact->0) as nat, id);
                            }
                        }
                        assert(!(bal(s, id) <= u128::MAX));
                    }
                    return None;
                },
            };
            let mint_id = artifact_mint_of(artifact);
            let mint_amount: Option<(RuneId, u128)> = match mint_id {
                Some(id) => match self.mint(mint_entry) {
                    Some(amount) => Some((id, amount)),
                    None => None,
                },
                None => None,
            };
            let etching = self.etched(tx_index, etching_request_of(artifact), checks);
            let etched_rune_id: Option<RuneId> = match etching {
                Some((id, _)) => Some(id),
                None => None,
            };
            let ghost t = total@;
            let ghost m = match mint_amount {
                Some((mid, amount)) => credit(t, mid, amount as nat),
                None => t,
            };
            if let Some((mid, amount)) = mint_amount {
                let cur: u128 = match total.get(mid) {
                    Some(v) => v,
                    None => 0,
                };
                if cur > u128::MAX - amount {
                    proof {
                        let s = starting_balances(*self, tx_index, spent@, *artifact, mint_entry, checks);
                        if let Some(eid) = etched_rune_id {
                            if artifact.is_some() && artifact->0 is Runestone {
                                lemma_credit_grows(m, eid, crate::allocation::artifact_premine(artifact->0) as nat, mid);
                            }
                        }
                        assert(!(bal(s, mid) <= u128::MAX));
                    }
                    return None;
                }
            }
            if let Some(eid) = etched_rune_id {
                if let Some(Artifact::Runestone { etching: e, .. }) = artifact {
                    let premine: u128 = match e {
                        Some(e) => match e.premine {
                            Some(p) => p,
                            None => 0,
                        },
                        None => 0,
                    };
                    assert(premine == crate::allocation::artifact_premine(artifact->0));
                    let cur_total: u128 = match total.get(eid) {
                        Some(v) => v,
                        None => 0,
                    };
                    let cur: u128 = match mint_amount {
                        Some((mid, amount)) => if mid == eid {
                            cur_total + amount
                        } else {
                            cur_total
                        },
                        None => cur_total,
                    };
                    assert(cur == bal(m, eid));
                    if cur > u128::MAX - premine {
                        proof {
                            let s = starting_balances(*self, tx_index, spent@, *artifact, mint_entry, checks);
                            assert(s == credit(m, eid, premine as nat));
                            assert(!(bal(s, eid) <= u128::MAX));
                        }
                        return None;
                    }
                }
            }
            proof {
                let s = starting_balances(*self, tx_index, spent@, *artifact, mint_entry, checks);
                assert forall|x: RuneId| #[trigger] bal(s, x) <= u128::MAX by {
                    assert(bal(t, x) <= u128::MAX);
                }
            }
            let flags = op_returns(tx);
            proof {
                total.lemma_bounded();
                if let Some(Artifact::Runestone { edicts, pointer, .. }) = artifact {
                    assert(artifact_fits(artifact->0@, n as nat));
                    assert forall|i: int| 0 <= i < edicts@.len() implies #[trigger] edicts@[i].output
                        <= flags@.len() by {
                        assert(artifact->0@->Runestone_edicts[i] == edicts@[i]);
                    }
                }
            }
            let allocation = allocate_runes(total, artifact, mint_amount, etched_rune_id, &flags);
            allocated = allocation.allocated;
            burned = allocation.burned;
            minted = match mint_amount {
                Some((id, amount)) => Some(RuneAmount { rune_id: id, amount }),
                None => None,
            };
            etched = etching;
        } else {
            let mut v: usize = 0;
            while v < n
                invariant
                    v <= n,
                    allocated@.len() == v,
                    forall|j: int| 0 <= j < v ==> #[trigger] allocated@[j]@ == Map::<RuneId, nat>::empty(),
                decreases n - v,
            {
                allocated.push(Balances::new());
                v = v + 1;
            }
        }
        let ghost expected = parsed_runes(*self, tx_index, *tx, spent@, *artifact, mint_entry, checks);
        assert(allocated@.len() == n);
        assert(forall|j: int| 0 <= j < n ==> #[trigger] allocated@[j]@ == expected.0[j]) by {
            if self.should_index_runes {
                assert forall|j: int| 0 <= j < n implies #[trigger] allocated@[j]@ == expected.0[j] by {
                    assert(views(allocated@)[j] == allocated@[j]@);
                }
            }
        }
        let mut outputs: Vec<TxOutEntry> = Vec::new();
        let mut v: usize = 0;
        while v < n
            invariant
                n == tx.output@.len(),
                allocated@.len() == n,
                forall|j: int| 0 <= j < n ==> #[trigger] allocated@[j]@ == expected.0[j],
                v <= n,
                outputs@.len() == v,
                forall|j: int| 0 <= j < v ==> {
                    &&& #[trigger] outputs@[j].value == tx.output@[j].value
                    &&& outputs@[j].spent is Unspent
                    &&& lists_balances(outputs@[j].runes@, expected.0[j])
                },
            decreases n - v,
        {
            let runes = sorted_runes(&allocated[v]);
            outputs.push(TxOutEntry { runes, spent: SpentStatus::Unspent, value: tx.output[v].value });
            v = v + 1;
        }
        Some(
            TransactionStateChange {
                inputs: spent_outpoints(tx),
                outputs,
                etched,
                minted,
                burned,
                is_coinbase: is_coinbase(tx),
            },
        )
    }
}


impl IndexState {
    /// The entry of the rune the artifact mints, when it mints one the index holds.
    pub fn mint_entry(&self, artifact: &Option<Artifact>) -> (r: Option<RuneEntry>)
        ensures
            r == match artifact_mint(*artifact) {
                Some(id) => if self@.runes.contains_key(id) {
                    Some(self@.runes[id])
                } else {
                    None
                },
                None => None,
            },
    {
        match artifact_mint_of(artifact) {
            Some(id) => match self.runes.get(&id) {
                Some(e) => Some(*e),
                None => None,
            },
            None => None,
        }
    }
}

} // verus!
