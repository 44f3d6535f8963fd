use titan::{
    block_id_to_transaction_status, BatchDelete, BlockHash, BlockId, IndexState, RuneEntry, RuneId, RuneQuery,
    SerializedOutPoint, SpacedRune, SpenderReference, SpentStatus, Store, StoreError,
    TransactionData, TxInput, TxOutEntry, TxOutput, Txid,
};

fn id(block: u64) -> RuneId {
    RuneId { block, tx: 0 }
}

fn store_with_runes(n: u64) -> Store {
    let mut chain = IndexState::new(n);
    for k in 0..n {
        chain.runes.insert(id(10 + k), RuneEntry::from_etching(10 + k, Txid { bytes: [1; 32] }, k, 100 + k as u128, 0, None, None));
        chain.rune_numbers.insert(k, id(10 + k));
        chain.rune_ids.insert(100 + k as u128, id(10 + k));
    }
    Store { chain, mempool: IndexState::new(0) }
}

#[test]
fn runes_come_newest_first_a_page_at_a_time() {
    let store = store_with_runes(3);
    let (items, offset) = store.get_runes(0, 10).unwrap();
    assert_eq!(items.iter().map(|(i, e)| (i.block, e.number)).collect::<Vec<_>>(), vec![(12, 2), (11, 1), (10, 0)]);
    assert_eq!(offset, 3);
    let (items, offset) = store.get_runes(1, 1).unwrap();
    assert_eq!(items.len(), 1);
    assert_eq!(items[0].0, id(11));
    assert_eq!(offset, 2);
    let (items, offset) = store.get_runes(5, 10).unwrap();
    assert!(items.is_empty());
    assert_eq!(offset, 5);
}

#[test]
fn a_missing_rune_number_fails_the_page() {
    let mut store = store_with_runes(2);
    store.chain.runes_count = 3;
    assert!(matches!(store.get_runes(0, 10), Err(StoreError::RuneNumberNotFound(2))));
}

#[test]
fn outputs_are_read_from_the_chain_then_the_mempool() {
    let mut store = store_with_runes(0);
    let o = SerializedOutPoint { txid: Txid { bytes: [5; 32] }, vout: 1 };
    assert!(matches!(store.get_tx_out(&o, None), Err(StoreError::OutputNotFound(_))));
    store.mempool.tx_outs.insert(o, TxOutEntry { runes: vec![], spent: SpentStatus::Unspent, value: 7 });
    assert_eq!(store.get_tx_out(&o, None).unwrap().value, 7);
    assert!(store.get_tx_out(&o, Some(false)).is_err());
    store.chain.tx_outs.insert(o, TxOutEntry { runes: vec![], spent: SpentStatus::Spent(SpenderReference { txid: Txid { bytes: [6; 32] }, vin: 0 }), value: 8 });
    assert_eq!(store.get_tx_out(&o, None).unwrap().value, 8);
    assert_eq!(store.get_tx_out(&o, Some(true)).unwrap().value, 7);
}

#[test]
fn runes_are_found_by_name_or_id() {
    let store = store_with_runes(2);
    let by_name = RuneQuery::Spaced(SpacedRune { rune: 101, spacers: 0 });
    assert_eq!(store.to_rune_id(&by_name).unwrap(), id(11));
    assert_eq!(store.rune(&by_name, 20).unwrap().number, 1);
    assert!(matches!(store.to_rune_id(&RuneQuery::Spaced(SpacedRune { rune: 7, spacers: 0 })), Err(StoreError::RuneNameNotFound(7))));
    assert!(matches!(store.rune(&RuneQuery::Id(id(99)), 20), Err(StoreError::RuneNotFound(_))));
    assert!(store.get_tx_state_changes(&Txid { bytes: [0; 32] }, None).is_err());
}

fn txid(b: u8) -> Txid {
    Txid { bytes: [b; 32] }
}

fn op(b: u8, vout: u32) -> SerializedOutPoint {
    SerializedOutPoint { txid: txid(b), vout }
}

fn entry(value: u64) -> TxOutEntry {
    TxOutEntry { runes: vec![], spent: SpentStatus::Unspent, value }
}

fn empty_store() -> Store {
    Store { chain: IndexState::new(0), mempool: IndexState::new(0) }
}

#[test]
fn an_output_spent_in_the_mempool_reads_as_spent() {
    let mut store = empty_store();
    store.chain.tx_outs.insert(op(1, 0), entry(10));
    store.chain.tx_outs.insert(op(1, 1), entry(11));
    store.mempool.spent_in_mempool.insert(op(1, 0), SpenderReference { txid: txid(2), vin: 3 });
    let e = store.get_tx_out_with_mempool_spent_update(&op(1, 0), None).unwrap();
    assert!(matches!(e.spent, SpentStatus::Spent(s) if s.txid.bytes == [2; 32] && s.vin == 3));
    assert_eq!(e.value, 10);
    assert!(matches!(store.get_tx_out(&op(1, 0), None).unwrap().spent, SpentStatus::Unspent));
    let e = store.get_tx_out_with_mempool_spent_update(&op(1, 1), Some(false)).unwrap();
    assert!(matches!(e.spent, SpentStatus::Unspent));
    assert!(matches!(
        store.get_tx_out_with_mempool_spent_update(&op(1, 2), None),
        Err(StoreError::OutputNotFound(o)) if o.vout == 2
    ));

    let all = store.get_tx_outs_with_mempool_spent_update(&vec![op(1, 1), op(9, 9), op(1, 0)], None);
    assert_eq!(all.len(), 3);
    assert_eq!(all[0].as_ref().unwrap().value, 11);
    assert!(all[1].is_none());
    assert!(matches!(all[2].as_ref().unwrap().spent, SpentStatus::Spent(_)));

    let spent = store.filter_spent_outpoints_in_mempool(&vec![op(1, 1), op(1, 0), op(4, 4)]);
    assert_eq!(spent.len(), 1);
    assert_eq!(spent[0].vout, 0);
}

fn two_in_three_out() -> TransactionData {
    TransactionData {
        input: vec![
            TxInput { previous_output: op(1, 0), witness: vec![] },
            TxInput { previous_output: op(1, 5), witness: vec![] },
        ],
        output: vec![
            TxOutput { value: 1, script_pubkey: vec![0x51] },
            TxOutput { value: 2, script_pubkey: vec![0x52] },
            TxOutput { value: 3, script_pubkey: vec![0x53] },
        ],
    }
}

#[test]
fn a_transaction_is_read_with_its_status_and_outputs() {
    let mut store = empty_store();
    store.chain.tx_outs.insert(op(1, 0), entry(10));
    store.mempool.tx_outs.insert(op(7, 2), entry(3));
    store.chain.transactions.insert(txid(7), two_in_three_out());

    // A transaction of the chain needs the block that confirms it.
    assert!(matches!(store.get_transaction(&txid(7), None), Err(StoreError::ConfirmingBlockNotFound(_))));
    assert!(matches!(store.get_transaction(&txid(7), Some(false)), Err(StoreError::ConfirmingBlockNotFound(_))));
    store.chain.confirming_blocks.insert(txid(7), BlockId { hash: BlockHash { bytes: [4; 32] }, height: 812 });

    let rec = store.get_transaction(&txid(7), None).unwrap();
    assert!(rec.status.confirmed);
    assert_eq!(rec.status.block_height, Some(812));
    assert_eq!(rec.status.block_hash.unwrap().bytes, [4; 32]);
    assert_eq!(rec.transaction.output.len(), 3);
    assert_eq!(rec.inputs.len(), 2);
    assert_eq!(rec.inputs[0].as_ref().unwrap().value, 10);
    assert!(rec.inputs[1].is_none());
    assert_eq!(rec.outputs.len(), 3);
    assert!(rec.outputs[0].is_none());
    assert_eq!(rec.outputs[2].as_ref().unwrap().value, 3);

    assert!(matches!(store.get_transaction(&txid(7), Some(true)), Err(StoreError::TransactionNotFound(_))));
    store.mempool.transactions.insert(txid(8), two_in_three_out());
    let rec = store.get_transaction(&txid(8), None).unwrap();
    assert!(!rec.status.confirmed);
    assert_eq!(rec.status.block_height, None);
    assert!(matches!(store.get_transaction(&txid(9), None), Err(StoreError::TransactionNotFound(t)) if t.bytes == [9; 32]));
}

#[test]
fn a_block_id_gives_a_confirmed_status() {
    let b = BlockId { hash: BlockHash { bytes: [6; 32] }, height: 5 };
    let s = block_id_to_transaction_status(Some(&b)).unwrap();
    assert!(s.confirmed);
    assert_eq!(s.block_height, Some(5));
    let u = block_id_to_transaction_status(None).unwrap();
    assert!(!u.confirmed);
    assert!(u.block_hash.is_none());
}

#[test]
fn rune_transactions_come_from_the_mempool_then_the_chain() {
    let mut store = empty_store();
    let rune = id(50);
    store.mempool.rune_transactions.insert(rune, vec![txid(1), txid(2)]);
    store.chain.rune_transactions.insert(rune, vec![txid(3), txid(4), txid(5)]);
    let page = store.get_last_rune_transactions(&rune, 0, 3, None);
    assert_eq!(page.items.iter().map(|t| t.bytes[0]).collect::<Vec<_>>(), vec![2, 1, 5]);
    assert_eq!(page.offset, 3);
    let page = store.get_last_rune_transactions(&rune, 0, 2, Some(false));
    assert_eq!(page.items.iter().map(|t| t.bytes[0]).collect::<Vec<_>>(), vec![5, 4]);
    assert_eq!(page.offset, 2);
    let page = store.get_last_rune_transactions(&rune, 1, 5, Some(true));
    assert_eq!(page.items.iter().map(|t| t.bytes[0]).collect::<Vec<_>>(), vec![1]);
    assert_eq!(page.offset, 2);
}

#[test]
fn script_outputs_leave_out_those_spent_in_the_mempool() {
    let mut store = empty_store();
    let script = vec![0x51, 0x52];
    store.chain.script_utxos.insert(script.clone(), vec![op(1, 0), op(1, 1)]);
    store.mempool.script_utxos.insert(script.clone(), vec![op(2, 0)]);
    store.mempool.spent_in_mempool.insert(op(1, 1), SpenderReference { txid: txid(2), vin: 0 });
    let all = store.get_script_pubkey_outpoints(&script, None);
    assert_eq!(all.iter().map(|o| (o.txid.bytes[0], o.vout)).collect::<Vec<_>>(), vec![(1, 0), (2, 0)]);
    let chain = store.get_script_pubkey_outpoints(&script, Some(false));
    assert_eq!(chain.len(), 2);
    assert!(store.get_script_pubkey_outpoints(&vec![0x00], None).is_empty());
}

#[test]
fn output_scripts_are_read_from_the_chain_then_the_mempool() {
    let mut store = empty_store();
    store.chain.outpoint_scripts.insert(op(1, 0), vec![0x51]);
    store.mempool.outpoint_scripts.insert(op(2, 0), vec![0x52]);
    let asked = vec![op(1, 0), op(2, 0), op(3, 0)];
    let found = store.get_outpoints_to_script_pubkey(&asked, None, true).unwrap();
    assert_eq!(found, vec![Some(vec![0x51]), Some(vec![0x52]), None]);
    assert!(matches!(
        store.get_outpoints_to_script_pubkey(&asked, None, false),
        Err(StoreError::ScriptNotFound(o)) if o.txid.bytes == [3; 32]
    ));
    let mempool_only = store.get_outpoints_to_script_pubkey(&asked, Some(true), true).unwrap();
    assert_eq!(mempool_only, vec![None, Some(vec![0x52]), None]);
}

#[test]
fn the_runes_page_shows_each_rune_as_the_api_does() {
    let store = store_with_runes(3);
    let (items, offset) = store.runes(1, 5, 20).unwrap();
    assert_eq!(items.iter().map(|r| r.number).collect::<Vec<_>>(), vec![1, 0]);
    assert_eq!(items[0].id, id(11));
    assert_eq!(offset, 3);
    let mut broken = store_with_runes(2);
    broken.chain.runes_count = 3;
    assert!(matches!(broken.runes(0, 5, 20), Err(StoreError::RuneNumberNotFound(2))));
}

#[test]
fn last_rune_transactions_are_found_by_name() {
    let mut store = store_with_runes(1);
    store.chain.rune_transactions.insert(id(10), vec![txid(1), txid(2)]);
    store.mempool.rune_transactions.insert(id(10), vec![txid(3)]);
    let page = store.last_rune_transactions(&RuneQuery::Spaced(SpacedRune { rune: 100, spacers: 0 }), 0, 10).unwrap();
    assert_eq!(page.items.iter().map(|t| t.bytes[0]).collect::<Vec<_>>(), vec![3, 2, 1]);
    assert_eq!(page.offset, 3);
    assert!(matches!(
        store.last_rune_transactions(&RuneQuery::Spaced(SpacedRune { rune: 999, spacers: 0 }), 0, 10),
        Err(StoreError::RuneNameNotFound(999))
    ));
}

#[test]
fn a_deletion_reaches_both_sides() {
    let mut store = empty_store();
    store.chain.tx_outs.insert(op(1, 0), entry(1));
    store.mempool.tx_outs.insert(op(1, 0), entry(2));
    store.mempool.tx_outs.insert(op(1, 1), entry(3));
    store.chain.outpoint_scripts.insert(op(1, 0), vec![0x51]);
    store.mempool.spent_in_mempool.insert(op(1, 1), SpenderReference { txid: txid(4), vin: 0 });
    let got = store.get_tx_outs(&vec![op(1, 0), op(1, 1)], Some(false));
    assert_eq!(got[0].as_ref().unwrap().value, 1);
    assert!(got[1].is_none());
    let mut d = BatchDelete::new();
    assert!(d.is_empty());
    d.tx_outs.push(op(1, 0));
    d.script_pubkeys_outpoints.push(op(1, 0));
    d.spent_outpoints_in_mempool.push(op(1, 1));
    assert!(!d.is_empty());
    store.batch_delete(&d);
    assert!(store.chain.tx_outs.get(&op(1, 0)).is_none());
    assert!(store.mempool.tx_outs.get(&op(1, 0)).is_none());
    assert_eq!(store.mempool.tx_outs.get(&op(1, 1)).unwrap().value, 3);
    assert!(store.chain.outpoint_scripts.get(&op(1, 0)).is_none());
    assert!(store.mempool.spent_in_mempool.get(&op(1, 1)).is_none());
    d.clear();
    assert!(d.is_empty());
}

#[test]
fn a_block_batch_reads_back_its_counts_hashes_and_mempool_transactions() {
    let mut store = empty_store();
    let mut batch = IndexState::with_counts(3, 812, 700);
    batch.block_hashes.insert(811, BlockHash { bytes: [8; 32] });
    batch.mempool_txs.insert(txid(5));
    store.chain.batch_update(batch, false);
    assert_eq!(store.get_block_count(), 812);
    assert_eq!(store.get_runes_count(), 3);
    assert_eq!(store.get_purged_blocks_count(), 700);
    assert_eq!(store.get_block_hash(811).unwrap().bytes, [8; 32]);
    assert!(matches!(store.get_block_hash(5), Err(StoreError::BlockHashNotFound(5))));
    assert!(store.is_tx_in_mempool(&txid(5)));

    // A mempool batch leaves the counts as they were.
    let batch = IndexState::with_counts(9, 9, 9);
    store.chain.batch_update(batch, true);
    assert_eq!(store.get_block_count(), 812);
    assert_eq!(store.get_runes_count(), 3);
}
