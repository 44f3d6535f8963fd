use bitcoin::absolute::LockTime;
use bitcoin::transaction::Version;
use bitcoin::{Amount, OutPoint, ScriptBuf, Sequence, TxIn, TxOut, Witness};
use titan::{
    AddressUpdater, IndexTxError, TransactionUpdater, TransactionUpdaterSettings, BlockHash, BlockId, CommitCheck, EtchingLookup, IndexState, SerializedOutPoint,
    decipher_transaction, decode_transaction, is_coinbase, sum_spent_runes, Artifact, Chain,
    NamedEtchingChecks, RuneAmount, RuneEntry, RuneId, SpacedRune, Terms, TransactionParser,
    SpentStatus, TxOutEntry, Txid,
};

fn p2tr_script(tag: u8) -> ScriptBuf {
    let mut bytes = vec![0x51, 0x20];
    bytes.extend([tag; 32]);
    ScriptBuf::from_bytes(bytes)
}

fn spending(prev: u8, outputs: Vec<TxOut>) -> bitcoin::Transaction {
    bitcoin::Transaction {
        version: Version::TWO,
        lock_time: LockTime::ZERO,
        input: vec![TxIn {
            previous_output: OutPoint {
                txid: <bitcoin::Txid as bitcoin::hashes::Hash>::from_byte_array([prev; 32]),
                vout: 0,
            },
            script_sig: ScriptBuf::new(),
            sequence: Sequence::MAX,
            witness: Witness::new(),
        }],
        output: outputs,
    }
}

fn out(value: u64, script: ScriptBuf) -> TxOut {
    TxOut {
        value: Amount::from_sat(value),
        script_pubkey: script,
    }
}

fn rune_id(block: u64, tx: u32) -> RuneId {
    RuneId { block, tx }
}

fn holding(id: RuneId, amount: u128) -> TxOutEntry {
    TxOutEntry {
        runes: vec![RuneAmount { rune_id: id, amount }],
        spent: SpentStatus::Unspent,
        value: 1000,
    }
}

fn no_checks() -> NamedEtchingChecks {
    NamedEtchingChecks {
        already_exists: false,
        commits: false,
    }
}

#[test]
fn edict_then_default_output_receives_the_rest() {
    let id = rune_id(840000, 1);
    let runestone = ordinals::Runestone {
        edicts: vec![ordinals::Edict {
            id: ordinals::RuneId {
                block: 840000,
                tx: 1,
            },
            amount: 100,
            output: 1,
        }],
        ..Default::default()
    };
    let tx = spending(
        7,
        vec![
            out(500, p2tr_script(1)),
            out(600, p2tr_script(2)),
            out(0, runestone.encipher()),
        ],
    );
    let raw = bitcoin::consensus::serialize(&tx);
    let data = decode_transaction(&raw).unwrap();
    assert_eq!(data.output.len(), 3);
    assert_eq!(data.output[1].value, 600);
    assert_eq!(data.input[0].previous_output.txid.bytes, [7u8; 32]);
    let artifact = decipher_transaction(&raw);
    match &artifact {
        Some(Artifact::Runestone { edicts, pointer, .. }) => {
            assert_eq!(edicts.len(), 1);
            assert_eq!(edicts[0].amount, 100);
            assert_eq!(edicts[0].output, 1);
            assert!(pointer.is_none());
        }
        _ => panic!("expected a runestone"),
    }
    let parser = TransactionParser::new(Chain::Mainnet, 840010, false);
    let change = parser
        .parse(3, &data, &artifact, &vec![holding(id, 1000)], None, no_checks())
        .unwrap();
    assert_eq!(change.outputs.len(), 3);
    assert_eq!(change.outputs[0].runes.len(), 1);
    assert_eq!(change.outputs[0].runes[0].amount, 900);
    assert_eq!(change.outputs[1].runes[0].amount, 100);
    assert_eq!(change.outputs[1].runes[0].rune_id.block, 840000);
    assert!(change.outputs[2].runes.is_empty());
    assert_eq!(change.outputs[0].value, 500);
    assert!(change.burned.is_empty());
    assert!(change.minted.is_none());
    assert!(change.etched.is_none());
    assert!(!change.is_coinbase);
    assert_eq!(change.inputs.len(), 1);
    assert_eq!(change.inputs[0].txid.bytes, [7u8; 32]);
}

#[test]
fn cenotaph_burns_everything() {
    // An unknown even tag makes the runestone a cenotaph.
    let script = bitcoin::script::Builder::new()
        .push_opcode(bitcoin::opcodes::all::OP_RETURN)
        .push_opcode(bitcoin::opcodes::all::OP_PUSHNUM_13)
        .push_slice([126u8, 1])
        .into_script();
    let tx = spending(9, vec![out(500, p2tr_script(1)), out(0, script)]);
    let raw = bitcoin::consensus::serialize(&tx);
    let data = decode_transaction(&raw).unwrap();
    let artifact = decipher_transaction(&raw);
    assert!(matches!(artifact, Some(Artifact::Cenotaph { .. })));
    let id = rune_id(840000, 5);
    let parser = TransactionParser::new(Chain::Mainnet, 840100, false);
    let change = parser
        .parse(1, &data, &artifact, &vec![holding(id, 42)], None, no_checks())
        .unwrap();
    assert!(change.outputs[0].runes.is_empty());
    assert_eq!(change.burned.get(id), Some(42));
}

#[test]
fn no_runestone_sends_runes_to_first_plain_output() {
    let op_return = bitcoin::script::Builder::new()
        .push_opcode(bitcoin::opcodes::all::OP_RETURN)
        .into_script();
    let tx = spending(3, vec![out(0, op_return), out(800, p2tr_script(4))]);
    let raw = bitcoin::consensus::serialize(&tx);
    let data = decode_transaction(&raw).unwrap();
    let artifact = decipher_transaction(&raw);
    assert!(artifact.is_none());
    let a = rune_id(840001, 2);
    let b = rune_id(840000, 9);
    let spent = vec![holding(a, 5), holding(b, 7), holding(a, 3)];
    let parser = TransactionParser::new(Chain::Mainnet, 840100, false);
    let change = parser
        .parse(1, &data, &artifact, &spent, None, no_checks())
        .unwrap();
    assert!(change.outputs[0].runes.is_empty());
    let runes = &change.outputs[1].runes;
    assert_eq!(runes.len(), 2);
    // Balances come out in increasing rune id order.
    assert_eq!(runes[0].rune_id.block, 840000);
    assert_eq!(runes[0].amount, 7);
    assert_eq!(runes[1].rune_id.block, 840001);
    assert_eq!(runes[1].amount, 8);
}

#[test]
fn runes_are_not_indexed_before_the_first_rune_height() {
    let tx = spending(3, vec![out(800, p2tr_script(4))]);
    let raw = bitcoin::consensus::serialize(&tx);
    let data = decode_transaction(&raw).unwrap();
    let parser = TransactionParser::new(Chain::Mainnet, 839999, false);
    assert!(!parser.should_index_runes);
    let change = parser
        .parse(
            0,
            &data,
            &None,
            &vec![holding(rune_id(1, 0), 5)],
            None,
            no_checks(),
        )
        .unwrap();
    assert!(change.outputs[0].runes.is_empty());
    assert!(change.burned.is_empty());
}

#[test]
fn unnamed_etching_gets_the_reserved_rune_and_its_premine() {
    let runestone = ordinals::Runestone {
        etching: Some(ordinals::Etching {
            premine: Some(1000),
            divisibility: Some(2),
            ..Default::default()
        }),
        ..Default::default()
    };
    let tx = spending(1, vec![out(500, p2tr_script(1)), out(0, runestone.encipher())]);
    let raw = bitcoin::consensus::serialize(&tx);
    let data = decode_transaction(&raw).unwrap();
    let artifact = decipher_transaction(&raw);
    let parser = TransactionParser::new(Chain::Mainnet, 840000, false);
    let change = parser
        .parse(4, &data, &artifact, &vec![], None, no_checks())
        .unwrap();
    let (id, rune) = change.etched.unwrap();
    assert_eq!((id.block, id.tx), (840000, 4));
    assert_eq!(rune, ordinals::Rune::reserved(840000, 4).0);
    assert_eq!(change.outputs[0].runes[0].rune_id.block, 840000);
    assert_eq!(change.outputs[0].runes[0].amount, 1000);
}

#[test]
fn mempool_transactions_etch_nothing() {
    let runestone = ordinals::Runestone {
        etching: Some(ordinals::Etching {
            premine: Some(10),
            ..Default::default()
        }),
        ..Default::default()
    };
    let tx = spending(1, vec![out(500, p2tr_script(1)), out(0, runestone.encipher())]);
    let raw = bitcoin::consensus::serialize(&tx);
    let data = decode_transaction(&raw).unwrap();
    let artifact = decipher_transaction(&raw);
    let parser = TransactionParser::new(Chain::Mainnet, 840000, true);
    let change = parser
        .parse(0, &data, &artifact, &vec![], None, no_checks())
        .unwrap();
    assert!(change.etched.is_none());
    assert!(change.outputs[0].runes.is_empty());
}

fn mintable_entry() -> RuneEntry {
    RuneEntry {
        block: 840000,
        burned: 0,
        divisibility: 0,
        etching: Txid { bytes: [2u8; 32] },
        mints: 0,
        number: 1,
        premine: 0,
        spaced_rune: SpacedRune {
            rune: 1000,
            spacers: 0,
        },
        symbol: None,
        terms: Some(Terms {
            amount: Some(25),
            cap: Some(10),
            height: (None, None),
            offset: (None, None),
        }),
        pending_burns: 0,
        pending_mints: 0,
        inscription_id: None,
        timestamp: 0,
        turbo: false,
    }
}

#[test]
fn mint_adds_its_amount() {
    let runestone = ordinals::Runestone {
        mint: Some(ordinals::RuneId {
            block: 840000,
            tx: 3,
        }),
        ..Default::default()
    };
    let tx = spending(1, vec![out(500, p2tr_script(1)), out(0, runestone.encipher())]);
    let raw = bitcoin::consensus::serialize(&tx);
    let data = decode_transaction(&raw).unwrap();
    let artifact = decipher_transaction(&raw);
    let parser = TransactionParser::new(Chain::Mainnet, 840500, false);
    let change = parser
        .parse(2, &data, &artifact, &vec![], Some(mintable_entry()), no_checks())
        .unwrap();
    let minted = change.minted.unwrap();
    assert_eq!((minted.rune_id.block, minted.rune_id.tx), (840000, 3));
    assert_eq!(minted.amount, 25);
    assert_eq!(change.outputs[0].runes[0].amount, 25);
}

#[test]
fn overflowing_balances_are_refused() {
    let tx = spending(3, vec![out(800, p2tr_script(4))]);
    let raw = bitcoin::consensus::serialize(&tx);
    let data = decode_transaction(&raw).unwrap();
    let id = rune_id(840000, 1);
    let parser = TransactionParser::new(Chain::Mainnet, 840100, false);
    let spent = vec![holding(id, u128::MAX), holding(id, 1)];
    assert!(parser
        .parse(0, &data, &None, &spent, None, no_checks())
        .is_none());
    assert!(sum_spent_runes(&spent).is_none());
}

#[test]
fn coinbase_is_recognised() {
    let tx = bitcoin::Transaction {
        version: Version::TWO,
        lock_time: LockTime::ZERO,
        input: vec![TxIn {
            previous_output: OutPoint::null(),
            script_sig: ScriptBuf::from_bytes(vec![1, 2]),
            sequence: Sequence::MAX,
            witness: Witness::new(),
        }],
        output: vec![out(5000, p2tr_script(1))],
    };
    let raw = bitcoin::consensus::serialize(&tx);
    let data = decode_transaction(&raw).unwrap();
    assert!(is_coinbase(&data));
    let other = decode_transaction(&bitcoin::consensus::serialize(&spending(1, vec![]))).unwrap();
    assert!(!is_coinbase(&other));
}

#[test]
fn garbage_does_not_decode() {
    assert!(decode_transaction(&vec![1, 2, 3]).is_none());
    assert!(decipher_transaction(&vec![1, 2, 3]).is_none());
}

#[test]
fn spent_runes_are_summed_per_rune() {
    let a = rune_id(840000, 1);
    let b = rune_id(840002, 0);
    let total = sum_spent_runes(&vec![holding(a, 5), holding(b, 1), holding(a, 6)]).unwrap();
    assert_eq!(total.get(a), Some(11));
    assert_eq!(total.get(b), Some(1));
    assert_eq!(total.get(rune_id(1, 1)), None);
}

#[test]
fn txid_bytes_keep_their_stored_order() {
    let txid = <bitcoin::Txid as bitcoin::hashes::Hash>::from_byte_array([5u8; 32]);
    let tx = bitcoin::Transaction {
        version: Version::TWO,
        lock_time: LockTime::ZERO,
        input: vec![TxIn {
            previous_output: OutPoint { txid, vout: 3 },
            script_sig: ScriptBuf::new(),
            sequence: Sequence::MAX,
            witness: Witness::from_slice(&[vec![1u8, 2], vec![3u8]]),
        }],
        output: vec![],
    };
    let data = decode_transaction(&bitcoin::consensus::serialize(&tx)).unwrap();
    assert_eq!(data.input[0].previous_output.vout, 3);
    assert_eq!(data.input[0].witness, vec![vec![1u8, 2], vec![3u8]]);
}

fn commit_script(commitment: &[u8], times: usize) -> Vec<u8> {
    let push: &bitcoin::script::PushBytes = commitment.try_into().unwrap();
    let mut b = bitcoin::script::Builder::new();
    for _ in 0..times {
        b = b.push_slice(push).push_opcode(bitcoin::opcodes::all::OP_DROP);
    }
    b.push_opcode(bitcoin::opcodes::OP_TRUE).into_script().to_bytes()
}

#[test]
fn inputs_that_push_the_commitment_are_candidates() {
    let rune = 123_456_789_012u128;
    let commitment = ordinals::Rune(rune).commitment();
    let script = commit_script(&commitment, 2);
    let other = commit_script(&[1, 2, 3], 1);
    let mut tx = spending(1, vec![out(500, p2tr_script(1))]);
    tx.input[0].witness = Witness::from_slice(&[vec![7u8; 64], script, vec![0xc0; 33]]);
    tx.input.push(TxIn {
        previous_output: OutPoint {
            txid: <bitcoin::Txid as bitcoin::hashes::Hash>::from_byte_array([8; 32]),
            vout: 4,
        },
        script_sig: ScriptBuf::new(),
        sequence: Sequence::MAX,
        witness: Witness::from_slice(&[vec![7u8; 64], other, vec![0xc0; 33]]),
    });
    let data = decode_transaction(&bitcoin::consensus::serialize(&tx)).unwrap();
    let candidates = titan::commitment_candidates(&data, rune);
    assert_eq!(candidates.len(), 2);
    assert_eq!(candidates[0].txid.bytes, [1u8; 32]);
    assert_eq!(candidates[1].vout, 0);
    assert!(titan::commitment_candidates(&data, rune + 1).is_empty());
}

#[test]
fn commitments_need_a_taproot_output_with_six_confirmations() {
    let parser = TransactionParser::new(Chain::Mainnet, 840010, false);
    let taproot = p2tr_script(3).to_bytes();
    assert!(parser.validate_commit_output(&taproot, 840005));
    assert!(!parser.validate_commit_output(&taproot, 840006));
    let legacy = vec![0x76, 0xa9, 0x14];
    assert!(!parser.validate_commit_output(&legacy, 800000));
}

fn committing_tx(rune: u128) -> titan::TransactionData {
    let commitment = ordinals::Rune(rune).commitment();
    let script = commit_script(&commitment, 1);
    let mut tx = spending(1, vec![out(500, p2tr_script(1))]);
    tx.input[0].witness = Witness::from_slice(&[vec![7u8; 64], script, vec![0xc0; 33]]);
    decode_transaction(&bitcoin::consensus::serialize(&tx)).unwrap()
}

fn index_with_commit(script: ScriptBuf, height: Option<u64>) -> IndexState {
    let mut index = IndexState::new(0);
    let committed = spending(9, vec![out(1000, script)]);
    let data = decode_transaction(&bitcoin::consensus::serialize(&committed)).unwrap();
    index.transactions.insert(Txid { bytes: [1; 32] }, data);
    if let Some(h) = height {
        index.confirming_blocks.insert(Txid { bytes: [1; 32] }, BlockId { hash: BlockHash { bytes: [0; 32] }, height: h });
    }
    index
}

#[test]
fn the_index_decides_commitments_it_holds() {
    let rune = 123_456_789_012_345_678_901_234u128;
    let tx = committing_tx(rune);
    let parser = TransactionParser::new(Chain::Mainnet, 900_000, false);
    let index = index_with_commit(p2tr_script(2), Some(899_995));
    assert!(matches!(parser.tx_commits_to_rune(&index, &tx, rune), CommitCheck::Committed));
    let index = index_with_commit(p2tr_script(2), Some(899_996));
    assert!(matches!(parser.tx_commits_to_rune(&index, &tx, rune), CommitCheck::NotCommitted));
    let index = index_with_commit(ScriptBuf::from_bytes(vec![0x76, 0xa9]), Some(1));
    assert!(matches!(parser.tx_commits_to_rune(&index, &tx, rune), CommitCheck::NotCommitted));
    let index = index_with_commit(p2tr_script(2), None);
    assert!(matches!(parser.tx_commits_to_rune(&index, &tx, rune), CommitCheck::AskNode(o) if o.txid.bytes == [1; 32]));
    let empty = IndexState::new(0);
    assert!(matches!(parser.tx_commits_to_rune(&empty, &tx, rune), CommitCheck::AskNode(_)));
    assert!(matches!(parser.tx_commits_to_rune(&empty, &tx, rune + 1), CommitCheck::NotCommitted));
}

#[test]
fn etching_checks_look_at_the_commitment_only_for_a_possible_rune() {
    let rune = 123_456_789_012_345_678_901_234u128;
    let tx = committing_tx(rune);
    let parser = TransactionParser::new(Chain::Mainnet, 900_000, false);
    let mut index = index_with_commit(p2tr_script(2), Some(899_000));
    match parser.etching_checks(&index, &tx, rune) {
        EtchingLookup::Checks(c) => assert!(c.commits && !c.already_exists),
        EtchingLookup::AskNode(_) => panic!("the index holds the commitment"),
    }
    index.rune_ids.insert(rune, rune_id(5, 5));
    match parser.etching_checks(&index, &tx, rune) {
        EtchingLookup::Checks(c) => assert!(c.already_exists && !c.commits),
        EtchingLookup::AskNode(_) => panic!("a known rune needs no commitment"),
    }
    // Below the minimum name length at this height, nothing is asked.
    let empty = IndexState::new(0);
    match parser.etching_checks(&empty, &tx, 1) {
        EtchingLookup::Checks(c) => assert!(!c.commits && !c.already_exists),
        EtchingLookup::AskNode(_) => panic!("a short name needs no commitment"),
    }
}

#[test]
fn spent_entries_follow_the_inputs() {
    let mut index = IndexState::new(0);
    let tx = decode_transaction(&bitcoin::consensus::serialize(&spending(7, vec![out(1, p2tr_script(1))]))).unwrap();
    assert!(index.spent_entries(&tx).is_none());
    index.tx_outs.insert(SerializedOutPoint { txid: Txid { bytes: [7; 32] }, vout: 0 }, holding(rune_id(1, 1), 5));
    let spent = index.spent_entries(&tx).unwrap();
    assert_eq!(spent.len(), 1);
    assert_eq!(spent[0].runes[0].amount, 5);

    let mut twice = spending(7, vec![out(1, p2tr_script(1))]);
    twice.input.push(twice.input[0].clone());
    let twice = decode_transaction(&bitcoin::consensus::serialize(&twice)).unwrap();
    assert!(index.spent_entries(&twice).is_none());
}

#[test]
fn the_mint_entry_is_the_minted_runes_entry() {
    let mut index = IndexState::new(0);
    let runestone = ordinals::Runestone {
        mint: Some(ordinals::RuneId { block: 3, tx: 4 }),
        ..Default::default()
    };
    let tx = spending(7, vec![out(0, runestone.encipher())]);
    let artifact = decipher_transaction(&bitcoin::consensus::serialize(&tx));
    assert!(index.mint_entry(&artifact).is_none());
    let e = RuneEntry::from_etching(3, Txid { bytes: [3; 32] }, 0, 77, 0, None, None);
    index.runes.insert(rune_id(3, 4), e);
    assert_eq!(index.mint_entry(&artifact).unwrap().spaced_rune.rune, 77);
    assert!(index.mint_entry(&None).is_none());
}

fn updater(mempool: bool) -> TransactionUpdater {
    TransactionUpdater::new(
        TransactionUpdaterSettings { index_addresses: false, index_bitcoin_transactions: false },
        mempool,
    )
}

#[test]
fn indexing_a_transaction_moves_its_runes() {
    let id = rune_id(840000, 1);
    let runestone = ordinals::Runestone {
        edicts: vec![ordinals::Edict { id: ordinals::RuneId { block: 840000, tx: 1 }, amount: 30, output: 1 }],
        ..Default::default()
    };
    let tx = spending(7, vec![out(500, p2tr_script(1)), out(600, p2tr_script(2)), out(0, runestone.encipher())]);
    let raw = bitcoin::consensus::serialize(&tx);
    let data = decode_transaction(&raw).unwrap();
    let artifact = decipher_transaction(&raw);

    let mut index = IndexState::new(1);
    let mut addresses = AddressUpdater::new();
    let parser = TransactionParser::new(Chain::Mainnet, 840100, true);
    let txid = Txid { bytes: [9; 32] };

    let r = updater(true).index_transaction(&parser, &mut index, &mut addresses, 0, None, 0, txid, &data, &artifact, None, None);
    assert!(matches!(r, Err(IndexTxError::SpentOutputMissing)));

    index.tx_outs.insert(SerializedOutPoint { txid: Txid { bytes: [7; 32] }, vout: 0 }, holding(id, 100));
    let change = updater(true)
        .index_transaction(&parser, &mut index, &mut addresses, 0, None, 0, txid, &data, &artifact, None, None)
        .unwrap()
        .unwrap();
    // The edict sends 30 to output 1; the rest goes to the first output that is no OP_RETURN.
    assert_eq!(change.outputs[0].runes[0].amount, 70);
    assert_eq!(change.outputs[1].runes[0].amount, 30);
    assert!(matches!(
        index.tx_outs.get(&SerializedOutPoint { txid: Txid { bytes: [7; 32] }, vout: 0 }).unwrap().spent,
        SpentStatus::Spent(s) if s.txid.bytes == [9; 32] && s.vin == 0
    ));
    assert_eq!(index.tx_outs.get(&SerializedOutPoint { txid, vout: 1 }).unwrap().runes[0].amount, 30);

    // A mempool transaction already indexed is skipped.
    let again = updater(true).index_transaction(&parser, &mut index, &mut addresses, 0, None, 0, txid, &data, &artifact, None, None);
    assert!(matches!(again, Ok(None)));
}

#[test]
fn indexing_an_etching_asks_the_node_when_the_index_cannot_tell() {
    let rune = 123_456_789_012_345_678_901_234u128;
    let commitment = ordinals::Rune(rune).commitment();
    let runestone = ordinals::Runestone {
        etching: Some(ordinals::Etching { rune: Some(ordinals::Rune(rune)), premine: Some(10), ..Default::default() }),
        ..Default::default()
    };
    let mut tx = spending(1, vec![out(500, p2tr_script(1)), out(0, runestone.encipher())]);
    tx.input[0].witness = Witness::from_slice(&[vec![7u8; 64], commit_script(&commitment, 1), vec![0xc0; 33]]);
    let raw = bitcoin::consensus::serialize(&tx);
    let data = decode_transaction(&raw).unwrap();
    let artifact = decipher_transaction(&raw);
    let parser = TransactionParser::new(Chain::Mainnet, 900_000, false);
    let block = Some(BlockId { hash: BlockHash { bytes: [0; 32] }, height: 900_000 });
    let mut index = IndexState::new(0);
    index.tx_outs.insert(SerializedOutPoint { txid: Txid { bytes: [1; 32] }, vout: 0 }, holding(rune_id(1, 1), 0));
    let mut addresses = AddressUpdater::new();
    let txid = Txid { bytes: [9; 32] };
    let r = updater(false).index_transaction(&parser, &mut index, &mut addresses, 0, block, 5, txid, &data, &artifact, None, None);
    assert!(matches!(r, Err(IndexTxError::AskNode(o)) if o.txid.bytes == [1; 32]));
    assert_eq!(index.runes_count, 0);
    let change = updater(false)
        .index_transaction(&parser, &mut index, &mut addresses, 0, block, 5, txid, &data, &artifact, None, Some(true))
        .unwrap()
        .unwrap();
    assert_eq!(change.etched, Some((rune_id(900_000, 5), rune)));
    assert_eq!(index.runes_count, 1);
    assert_eq!(index.runes.get(&rune_id(900_000, 5)).unwrap().premine, 10);
    assert_eq!(index.tx_outs.get(&SerializedOutPoint { txid, vout: 0 }).unwrap().runes[0].amount, 10);
}

#[test]
fn indexing_raw_bytes_uses_the_id_bitcoin_computes() {
    let id = rune_id(840000, 1);
    let runestone = ordinals::Runestone {
        edicts: vec![ordinals::Edict { id: ordinals::RuneId { block: 840000, tx: 1 }, amount: 30, output: 1 }],
        ..Default::default()
    };
    let tx = spending(7, vec![out(500, p2tr_script(1)), out(600, p2tr_script(2)), out(0, runestone.encipher())]);
    let raw = bitcoin::consensus::serialize(&tx);
    let expected = Txid { bytes: bitcoin::hashes::Hash::to_byte_array(tx.compute_txid()) };

    let mut index = IndexState::new(1);
    let mut addresses = AddressUpdater::new();
    let parser = TransactionParser::new(Chain::Mainnet, 840100, true);
    let bad = updater(true).index_raw_transaction(&parser, &mut index, &mut addresses, 0, None, 0, &vec![1, 2, 3], None, None);
    assert!(matches!(bad, Err(IndexTxError::Undecodable)));

    index.tx_outs.insert(SerializedOutPoint { txid: Txid { bytes: [7; 32] }, vout: 0 }, holding(id, 100));
    let (txid, change) = updater(true)
        .index_raw_transaction(&parser, &mut index, &mut addresses, 0, None, 0, &raw, None, None)
        .unwrap()
        .unwrap();
    assert_eq!(txid.bytes, expected.bytes);
    assert_eq!(change.outputs[1].runes[0].amount, 30);
    assert_eq!(index.tx_outs.get(&SerializedOutPoint { txid: expected, vout: 0 }).unwrap().runes[0].amount, 70);
}

fn witness_input(witness: Vec<Vec<u8>>, vout: u32) -> titan::TxInput {
    titan::TxInput {
        previous_output: SerializedOutPoint { txid: Txid { bytes: [vout as u8; 32] }, vout },
        witness,
    }
}

#[test]
fn the_tapscript_is_found_before_an_annex_and_never_in_a_key_spend() {
    let rune = 123_456_789_012u128;
    let commitment = ordinals::Rune(rune).commitment();
    let script = commit_script(&commitment, 1);
    let data = titan::TransactionData {
        input: vec![
            witness_input(vec![vec![7u8; 64], script.clone(), vec![0xc0; 33], vec![0x50, 1]], 1),
            witness_input(vec![script.clone(), vec![0x50]], 2),
            witness_input(vec![script.clone()], 3),
            witness_input(vec![script.clone(), vec![0xc0; 33]], 4),
            witness_input(vec![], 5),
        ],
        output: vec![],
    };
    let candidates = titan::commitment_candidates(&data, rune);
    assert_eq!(candidates.len(), 2);
    assert_eq!(candidates[0].vout, 1);
    assert_eq!(candidates[1].vout, 4);
}
