use vstd::prelude::*;
use crate::address::AddressUpdater;
use crate::allocation::{bounded, Artifact};
use crate::commit::{
    commitment_candidates, is_p2tr, commit_check, commit_check_defined, commitment_bytes, commitment_candidates_spec,
    commitment_needed, CommitCheck, EtchingLookup,
};
use crate::index_state::{entry_views, held_entries, spent_outpoints_of, BlockId, IndexState, IndexView};
use crate::allocation::initial_unallocated;
use crate::parse::{
    artifact_mint, etched_id, etching_request, etching_request_of, flat_runes, parsed_runes,
    spec_is_coinbase, spec_minted, starting_balances, sum_amounts,
};
use crate::parser::{
    artifact_fits, artifact_of_raw, artifact_view, computed_txid, decipher_transaction, decode_with_txid,
    decoded, deciphered, TransactionData,
};
use crate::rune_entry::{InscriptionId, RuneEntry};
use crate::runes::{rune_is_reserved, spec_etched, EtchingRequest, NamedEtchingChecks, TransactionParser};
use crate::state_change::{SpentStatus, lists_balances, RuneAmount, TransactionStateChange, TxOutEntry, TxOutEntryView};
use crate::tx_updater::{can_etch, saved, TransactionUpdater, TransactionUpdaterError};
use crate::types::{SerializedOutPoint, Txid};

verus! {

/// Why a transaction could not be indexed.
#[derive(Clone, Copy, Debug)]
pub enum IndexTxError {
    /// A transaction other than a coinbase spends an output the index does not hold, or the
    /// same output twice.
    SpentOutputMissing,
    /// Only the node can tell whether the transaction commits to the rune it etches, from
    /// this output.
    AskNode(SerializedOutPoint),
    /// A rune balance would not fit in a `u128`.
    Overflow,
    /// Saving the transaction failed.
    Update(TransactionUpdaterError),
    /// The bytes do not decode to a transaction.
    Undecodable,
    /// The transaction has more inputs or outputs than a `u32` counts.
    TooLarge,
    /// Deciding the etching's commitment would read what the index does not have: an output
    /// missing from its recorded transaction, or a confirming block above the parser's height.
    CommitmentUnreadable,
}

/// What parsing a transaction gives: nothing when a balance would not fit in a `u128`;
/// otherwise its spent outputs, its outputs with their values and the runes allocated to them
/// in order of id, its mint, its etching, its burns, and whether it is a coinbase.
pub open spec fn parse_outcome(
    p: TransactionParser,
    tx_index: u32,
    tx: TransactionData,
    spent: Seq<TxOutEntry>,
    artifact: Option<Artifact>,
    mint_entry: Option<RuneEntry>,
    checks: NamedEtchingChecks,
    r: Option<TransactionStateChange>,
) -> bool {
    &&& r is None <==> (p.should_index_runes && !bounded(
        starting_balances(p, tx_index, spent, artifact, mint_entry, checks),
    ))
    &&& r matches Some(c) ==> {
        let (allocated, minted, etched, burned) = parsed_runes(
            p,
            tx_index,
            tx,
            spent,
            artifact,
            mint_entry,
            checks,
        );
        &&& c.inputs@ == Seq::new(tx.input@.len(), |i: int| tx.input@[i].previous_output)
        &&& c.outputs@.len() == tx.output@.len()
        &&& forall|v: int| 0 <= v < c.outputs@.len() ==> {
            &&& #[trigger] c.outputs@[v].value == tx.output@[v].value
            &&& c.outputs@[v].spent is Unspent
            &&& lists_balances(c.outputs@[v].runes@, allocated[v])
        }
        &&& c.minted == match minted {
            Some((id, amount)) => Some(RuneAmount { rune_id: id, amount }),
            None => None,
        }
        &&& c.etched == etched
        &&& c.burned@ == burned
        &&& c.is_coinbase == spec_is_coinbase(tx)
    }
}

/// The runes of output entries, output after output.
pub open spec fn flat_view_runes(v: Seq<TxOutEntryView>) -> Seq<RuneAmount>
    decreases v.len(),
{
    if v.len() == 0 {
        Seq::empty()
    } else {
        flat_view_runes(v.drop_last()) + v.last().runes
    }
}

proof fn lemma_flat_runes_views(spent: Seq<TxOutEntry>)
    ensures
        flat_runes(spent) == flat_view_runes(entry_views(spent)),
    decreases spent.len(),
{
    if spent.len() > 0 {
        lemma_flat_runes_views(spent.drop_last());
        assert(entry_views(spent).drop_last() =~= entry_views(spent.drop_last()));
    }
}

/// The entry of the rune an artifact mints, as the index holds it.
pub open spec fn mint_entry_of(s: IndexView, artifact: Option<Artifact>) -> Option<RuneEntry> {
    match artifact_mint(artifact) {
        Some(id) => if s.runes.contains_key(id) {
            Some(s.runes[id])
        } else {
            None
        },
        None => None,
    }
}

/// The checks on what an artifact etches: for a named rune that can still be etched, whether
/// the transaction commits to it, from the index or else from the node's answer `commits`;
/// `None` when the node must be asked and has not answered.
pub open spec fn etching_checks_of(
    s: IndexView,
    p: TransactionParser,
    tx: TransactionData,
    artifact: Option<Artifact>,
    commits: Option<bool>,
) -> Option<NamedEtchingChecks> {
    match etching_request(artifact) {
        EtchingRequest::Named(rune) => if !commitment_needed(s, p, rune) {
            Some(NamedEtchingChecks { already_exists: s.rune_ids.contains_key(rune), commits: false })
        } else {
            match commit_check(s, p.height, commitment_candidates_spec(tx, commitment_bytes(rune))) {
                CommitCheck::Committed => Some(NamedEtchingChecks { already_exists: false, commits: true }),
                CommitCheck::NotCommitted => Some(
                    NamedEtchingChecks { already_exists: false, commits: false },
                ),
                CommitCheck::AskNode(_) => match commits {
                    Some(b) => Some(NamedEtchingChecks { already_exists: false, commits: b }),
                    None => None,
                },
            }
        },
        _ => Some(NamedEtchingChecks { already_exists: false, commits: false }),
    }
}

/// Whether the index has everything indexing the transaction reads: each spent output in a
/// committing transaction exists, and no committing output's block is above the parser's
/// height.
pub open spec fn commitments_readable(
    s: IndexView,
    p: TransactionParser,
    tx: TransactionData,
    artifact: Option<Artifact>,
) -> bool {
    match etching_request(artifact) {
        EtchingRequest::Named(rune) => commitment_needed(s, p, rune) ==> commit_check_defined(
            s,
            p.height,
            commitment_candidates_spec(tx, commitment_bytes(rune)),
        ),
        _ => true,
    }
}

proof fn lemma_parse_outcome(
    p: TransactionParser,
    tx_index: u32,
    tx: TransactionData,
    spent: Seq<TxOutEntry>,
    artifact: Option<Artifact>,
    mint_entry: Option<RuneEntry>,
    checks: NamedEtchingChecks,
    r: Option<TransactionStateChange>,
)
    requires
        r is None <==> (p.should_index_runes && !bounded(
            starting_balances(p, tx_index, spent, artifact, mint_entry, checks),
        )),
        r matches Some(c) ==> {
            let (allocated, minted, etched, burned) = parsed_runes(
                p,
                tx_index,
                tx,
                spent,
                artifact,
                mint_entry,
                checks,
            );
            &&& c.inputs@ == Seq::new(tx.input@.len(), |i: int| tx.input@[i].previous_output)
            &&& c.outputs@.len() == tx.output@.len()
            &&& forall|v: int| 0 <= v < c.outputs@.len() ==> {
                &&& #[trigger] c.outputs@[v].value == tx.output@[v].value
                &&& c.outputs@[v].spent is Unspent
                &&& lists_balances(c.outputs@[v].runes@, allocated[v])
            }
            &&& c.minted == match minted {
                Some((id, amount)) => Some(RuneAmount { rune_id: id, amount }),
                None => None,
            }
            &&& c.etched == etched
            &&& c.burned@ == burned
            &&& c.is_coinbase == spec_is_coinbase(tx)
        },
    ensures
        parse_outcome(p, tx_index, tx, spent, artifact, mint_entry, checks, r),
{
}

/// The output whose commitment only the node can decide, for a named etching that the index
/// cannot decide.
pub open spec fn ask_node_of(
    s: IndexView,
    p: TransactionParser,
    tx: TransactionData,
    artifact: Option<Artifact>,
) -> SerializedOutPoint {
    match etching_request(artifact) {
        EtchingRequest::Named(rune) => match commit_check(
            s,
            p.height,
            commitment_candidates_spec(tx, commitment_bytes(rune)),
        ) {
            CommitCheck::AskNode(o) => o,
            _ => arbitrary(),
        },
        _ => arbitrary(),
    }
}

/// What indexing transaction `txid`, `tx`, does to the index `s0`, leaving `s1`, with result
/// `r`: a mempool transaction already indexed is skipped; a transaction other than a coinbase
/// that spends an output the index does not hold fails; an etching only the node can decide
/// fails with the output to ask about, unless `commits` answers; a balance that would not fit
/// fails; otherwise the transaction is parsed and saved.
pub open spec fn indexed(
    u: TransactionUpdater,
    p: TransactionParser,
    s0: IndexView,
    s1: IndexView,
    block_time: u32,
    block_id: Option<BlockId>,
    tx_index: u32,
    txid: Txid,
    tx: TransactionData,
    artifact: Option<Artifact>,
    inscription_id: Option<InscriptionId>,
    commits: Option<bool>,
    r: Result<Option<TransactionStateChange>, IndexTxError>,
) -> bool {
    &&& u.mempool && s0.tx_state_changes.contains_key(txid@) ==> r == Ok::<
            Option<TransactionStateChange>,
            IndexTxError,
        >(None) && s1 == s0
    &&& !(u.mempool && s0.tx_state_changes.contains_key(txid@)) ==> {
            let held = held_entries(s0.tx_outs, spent_outpoints_of(tx));
            let mint = mint_entry_of(s0, artifact);
            if !spec_is_coinbase(tx) && !(spent_outpoints_of(tx).no_duplicates() && forall|i: int|
                0 <= i < tx.input@.len() ==> s0.tx_outs.contains_key(
                    #[trigger] tx.input@[i].previous_output,
                )) {
                r == Err::<Option<TransactionStateChange>, IndexTxError>(
                    IndexTxError::SpentOutputMissing,
                ) && s1 == s0
            } else {
                match etching_checks_of(s0, p, tx, artifact, commits) {
                    None => r == Err::<Option<TransactionStateChange>, IndexTxError>(
                        IndexTxError::AskNode(ask_node_of(s0, p, tx, artifact)),
                    ) && s1 == s0,
                    Some(checks) => {
                        &&& (r == Err::<Option<TransactionStateChange>, IndexTxError>(
                            IndexTxError::Overflow,
                        ) && s1 == s0) <==> (p.should_index_runes
                            && !bounded(
                            initial_unallocated(
                                sum_amounts(flat_view_runes(held)),
                                artifact,
                                spec_minted(p, artifact, mint),
                                etched_id(p, tx_index, artifact, checks),
                            ),
                        ))
                        &&& r matches Ok(Some(c)) ==> exists|spent: Seq<TxOutEntry>|
                            entry_views(spent) == held && parse_outcome(
                                p,
                                tx_index,
                                tx,
                                spent,
                                artifact,
                                mint,
                                checks,
                                Some(c),
                            ) && saved(
                                u.settings,
                                u.mempool,
                                s0,
                                block_time,
                                block_id,
                                txid,
                                tx@,
                                artifact_view(artifact),
                                inscription_id,
                                &c,
                            ) == (s1, Ok::<(), TransactionUpdaterError>(()))
                        &&& r matches Err(IndexTxError::Update(e)) ==> exists|
                            spent: Seq<TxOutEntry>,
                            c: TransactionStateChange,
                        |
                            entry_views(spent) == held && parse_outcome(
                                p,
                                tx_index,
                                tx,
                                spent,
                                artifact,
                                mint,
                                checks,
                                Some(c),
                            ) && saved(
                                u.settings,
                                u.mempool,
                                s0,
                                block_time,
                                block_id,
                                txid,
                                tx@,
                                artifact_view(artifact),
                                inscription_id,
                                &c,
                            ) == (s1, Err::<(), TransactionUpdaterError>(e))
                        &&& r matches Ok(x) ==> x is Some
                    },
                }
            }
        }
}

/// Whether deciding the candidates from the index reads only what is there.
fn commit_check_defined_exec(index: &IndexState, height: u64, cands: &Vec<SerializedOutPoint>) -> (b: bool)
    ensures
        b == commit_check_defined(index@, height, cands@),
{
    let ghost all = cands@;
    let mut i: usize = 0;
    assert(all.skip(0) =~= all);
    while i < cands.len()
        invariant
            i <= all.len(),
            cands@ == all,
            commit_check_defined(index@, height, all) == commit_check_defined(index@, height, all.skip(i as int)),
        decreases all.len() - i,
    {
        let o = cands[i];
        let ghost rest = all.skip(i as int);
        assert(rest[0] == o);
        assert(rest.drop_first() =~= all.skip(i + 1));
        let t = match index.transactions.get(&o.txid) {
            Some(t) => t,
            None => {
                return true;
            },
        };
        assert(t.output@.len() == t@.output.len());
        if o.vout as usize >= t.output.len() {
            return false;
        }
        assert(t@.output[o.vout as int].script_pubkey == t.output@[o.vout as int].script_pubkey@);
        if is_p2tr(&t.output[o.vout as usize].script_pubkey) {
            let b = match index.confirming_blocks.get(&o.txid) {
                Some(b) => *b,
                None => {
                    return true;
                },
            };
            if b.height > height {
                return false;
            }
            if height - b.height >= 5 {
                return true;
            }
        }
        i = i + 1;
    }
    assert(all.skip(i as int) =~= Seq::<SerializedOutPoint>::empty());
    true
}

/// Whether the index has everything indexing the transaction reads, as
/// `commitments_readable` says.
fn commitments_readable_check(
    index: &IndexState,
    parser: &TransactionParser,
    tx: &TransactionData,
    artifact: &Option<Artifact>,
) -> (b: bool)
    ensures
        b == commitments_readable(index@, *parser, *tx, *artifact),
{
    match etching_request_of(artifact) {
        EtchingRequest::Named(rune) => {
            if index.rune_ids.contains(&rune) || rune < parser.minimum_rune || rune_is_reserved(rune) {
                true
            } else {
                commit_check_defined_exec(index, parser.height, &commitment_candidates(tx, rune))
            }
        },
        _ => true,
    }
}

/// The result of indexing with the transaction id left out.
pub open spec fn without_txid(r: Result<Option<(Txid, TransactionStateChange)>, IndexTxError>) -> Result<
    Option<TransactionStateChange>,
    IndexTxError,
> {
    match r {
        Ok(Some((_, c))) => Ok(Some(c)),
        Ok(None) => Ok(None),
        Err(e) => Err(e),
    }
}

/// What indexing the transaction encoded by `raw` does, given `tx`, `txid` and `artifact`,
/// what bitcoin decodes from it, the id it computes and what ordinals deciphers: a
/// transaction with more inputs or outputs than a `u32` counts fails, as does one whose
/// etching's commitment the index cannot read; any other is indexed as `indexed` says.
pub open spec fn raw_indexed(
    u: TransactionUpdater,
    p: TransactionParser,
    s0: IndexView,
    s1: IndexView,
    block_time: u32,
    block_id: Option<BlockId>,
    tx_index: u32,
    raw: Seq<u8>,
    inscription_id: Option<InscriptionId>,
    commits: Option<bool>,
    tx: TransactionData,
    txid: Txid,
    artifact: Option<Artifact>,
    r: Result<Option<(Txid, TransactionStateChange)>, IndexTxError>,
) -> bool {
    &&& decoded(raw) == Some(tx@)
    &&& txid@ == computed_txid(raw)
    &&& artifact_view(artifact) == match deciphered(raw) {
        Some(x) => Some(artifact_of_raw(x)),
        None => None,
    }
    &&& if tx.input@.len() > u32::MAX || tx.output@.len() > u32::MAX {
        r == Err::<Option<(Txid, TransactionStateChange)>, IndexTxError>(IndexTxError::TooLarge)
            && s1 == s0
    } else if !commitments_readable(s0, p, tx, artifact) {
        r == Err::<Option<(Txid, TransactionStateChange)>, IndexTxError>(
            IndexTxError::CommitmentUnreadable,
        ) && s1 == s0
    } else {
        indexed(u, p, s0, s1, block_time, block_id, tx_index, txid, tx, artifact, inscription_id, commits, without_txid(r))
    }
}

impl TransactionUpdater {
    /// Indexes one transaction: reads from the index the outputs it spends and the rune it
    /// mints, checks the rune it etches (asking the node's answer `commits` when the index
    /// cannot tell), parses it with `parser`, and saves it. A mempool transaction already
    /// indexed is skipped (`None`).
    pub fn index_transaction(
        &self,
        parser: &TransactionParser,
        index: &mut IndexState,
        addresses: &mut AddressUpdater,
        block_time: u32,
        block_id: Option<BlockId>,
        tx_index: u32,
        txid: Txid,
        tx: &TransactionData,
        artifact: &Option<Artifact>,
        inscription_id: Option<InscriptionId>,
        commits: Option<bool>,
    ) -> (r: Result<Option<TransactionStateChange>, IndexTxError>)
        requires
            artifact matches Some(a) ==> artifact_fits(a@, tx.output@.len()),
            !self.mempool ==> block_id is Some,
            tx.input@.len() <= u32::MAX,
            tx.output@.len() <= u32::MAX,
            old(index)@.runes_count < u64::MAX,
            commitments_readable(old(index)@, *parser, *tx, *artifact),
        ensures
            indexed(
                *self,
                *parser,
                old(index)@,
                final(index)@,
                block_time,
                block_id,
                tx_index,
                txid,
                *tx,
                *artifact,
                inscription_id,
                commits,
                r,
            ),
    {
        if self.mempool && index.tx_state_changes.contains(&txid) {
            return Ok(None);
        }
        let spent = match index.spent_entries(tx) {
            Some(v) => v,
            None => {
                return Err(IndexTxError::SpentOutputMissing);
            },
        };
        let mint = index.mint_entry(artifact);
        let checks = match etching_request_of(artifact) {
            EtchingRequest::Named(rune) => match parser.etching_checks(index, tx, rune) {
                EtchingLookup::Checks(c) => c,
                EtchingLookup::AskNode(o) => match commits {
                    Some(b) => NamedEtchingChecks { already_exists: false, commits: b },
                    None => {
                        return Err(IndexTxError::AskNode(o));
                    },
                },
            },
            _ => NamedEtchingChecks { already_exists: false, commits: false },
        };
        let parsed = parser.parse(tx_index, tx, artifact, &spent, mint, checks);
        proof {
            lemma_parse_outcome(*parser, tx_index, *tx, spent@, *artifact, mint, checks, parsed);
            lemma_flat_runes_views(spent@);
        }
        let change = match parsed {
            Some(c) => c,
            None => {
                return Err(IndexTxError::Overflow);
            },
        };
        proof {
            if change.etched is Some {
                assert(spec_etched(*parser, tx_index, etching_request(*artifact), checks) is Some);
                assert(etching_request(*artifact) != EtchingRequest::NoEtching);
                assert(can_etch(artifact_view(*artifact)));
            }
        }
        let ghost before = index@;
        let ghost held = held_entries(before.tx_outs, spent_outpoints_of(*tx));
        let saved_result = self.save(
            index,
            addresses,
            block_time,
            block_id,
            txid,
            tx,
            artifact,
            inscription_id,
            &change,
        );
        proof {
            assert(entry_views(spent@) == held);
            assert(parse_outcome(*parser, tx_index, *tx, spent@, *artifact, mint, checks, Some(change)));
        }
        match saved_result {
            Ok(()) => Ok(Some(change)),
            Err(e) => Err(IndexTxError::Update(e)),
        }
    }

    /// Indexes the transaction encoded by `raw`: decodes it and computes its id with bitcoin,
    /// deciphers its rune artifact with ordinals, checks that the index can read what
    /// deciding its etching reads, and indexes it as `index_transaction` does under that id.
    /// The id is returned with the state change.
    pub fn index_raw_transaction(
        &self,
        parser: &TransactionParser,
        index: &mut IndexState,
        addresses: &mut AddressUpdater,
        block_time: u32,
        block_id: Option<BlockId>,
        tx_index: u32,
        raw: &Vec<u8>,
        inscription_id: Option<InscriptionId>,
        commits: Option<bool>,
    ) -> (r: Result<Option<(Txid, TransactionStateChange)>, IndexTxError>)
        requires
            !self.mempool ==> block_id is Some,
            old(index)@.runes_count < u64::MAX,
        ensures
            decoded(raw@) is None ==> r == Err::<Option<(Txid, TransactionStateChange)>, IndexTxError>(
                IndexTxError::Undecodable,
            ) && final(index)@ == old(index)@,
            decoded(raw@) is Some ==> exists|tx: TransactionData, txid: Txid, artifact: Option<Artifact>|
                #[trigger] raw_indexed(
                    *self,
                    *parser,
                    old(index)@,
                    final(index)@,
                    block_time,
                    block_id,
                    tx_index,
                    raw@,
                    inscription_id,
                    commits,
                    tx,
                    txid,
                    artifact,
                    r,
                ),
            r matches Ok(Some((id, _))) ==> id@ == computed_txid(raw@),
    {
        let (tx, txid) = match decode_with_txid(raw) {
            Some(p) => p,
            None => {
                return Err(IndexTxError::Undecodable);
            },
        };
        let artifact = decipher_transaction(raw);
        let ghost s0 = index@;
        if tx.input.len() > 4294967295usize || tx.output.len() > 4294967295usize {
            let r = Err(IndexTxError::TooLarge);
            assert(raw_indexed(*self, *parser, s0, index@, block_time, block_id, tx_index, raw@, inscription_id, commits, tx, txid, artifact, r));
            return r;
        }
        if !commitments_readable_check(index, parser, &tx, &artifact) {
            let r = Err(IndexTxError::CommitmentUnreadable);
            assert(raw_indexed(*self, *parser, s0, index@, block_time, block_id, tx_index, raw@, inscription_id, commits, tx, txid, artifact, r));
            return r;
        }
        proof {
            assert(tx.output@.len() == tx@.output.len());
        }
        let res = self.index_transaction(
            parser,
            index,
            addresses,
            block_time,
            block_id,
            tx_index,
            txid,
            &tx,
            &artifact,
            inscription_id,
            commits,
        );
        let r = match res {
            Ok(Some(c)) => Ok(Some((txid, c))),
            Ok(None) => Ok(None),
            Err(e) => Err(e),
        };
        assert(without_txid(r) == res);
        assert(raw_indexed(*self, *parser, s0, index@, block_time, block_id, tx_index, raw@, inscription_id, commits, tx, txid, artifact, r));
        r
    }
}

} // verus!
