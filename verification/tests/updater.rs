use titan::{
    plan_flush, WriteMode, AddressUpdater, Artifact, Balances, BlockHash, BlockId, Etching, Event, IndexState, Location,
    Rollback, RollbackError, RuneAmount, RuneEntry, RuneId, SerializedOutPoint, StoreError,
    TransactionData, TransactionStateChange, TransactionUpdater, TransactionUpdaterError,
    TransactionUpdaterSettings, TxInput, TxOutEntry, TxOutput, Txid, SpentStatus,
};

fn txid(b: u8) -> Txid {
    Txid { bytes: [b; 32] }
}

fn id(block: u64, tx: u32) -> RuneId {
    RuneId { block, tx }
}

fn outpoint(t: u8, vout: u32) -> SerializedOutPoint {
    SerializedOutPoint { txid: txid(t), vout }
}

fn settings(index_addresses: bool) -> TransactionUpdaterSettings {
    TransactionUpdaterSettings { index_addresses, index_bitcoin_transactions: true }
}

fn entry(block: u64, number: u64, rune: u128) -> RuneEntry {
    RuneEntry::from_etching(block, txid(block as u8), number, rune, 1000, None, None)
}

fn out(runes: Vec<RuneAmount>, value: u64) -> TxOutEntry {
    TxOutEntry { runes, spent: SpentStatus::Unspent, value }
}

fn tx(inputs: Vec<SerializedOutPoint>, scripts: Vec<Vec<u8>>) -> TransactionData {
    TransactionData {
        input: inputs
            .into_iter()
            .map(|o| TxInput { previous_output: o, witness: vec![] })
            .collect(),
        output: scripts
            .into_iter()
            .map(|s| TxOutput { value: 546, script_pubkey: s })
            .collect(),
    }
}

fn change(
    inputs: Vec<SerializedOutPoint>,
    outputs: Vec<TxOutEntry>,
    etched: Option<(RuneId, u128)>,
    minted: Option<RuneAmount>,
    burned: Vec<(RuneId, u128)>,
) -> TransactionStateChange {
    let mut b = Balances::new();
    for (i, a) in burned {
        b.credit(i, a);
    }
    TransactionStateChange { inputs, outputs, etched, minted, burned: b, is_coinbase: false }
}

/// An index holding rune 100:1 numbered 0 and an unspent output 1:0 holding 10 of it.
fn base_index() -> IndexState {
    let mut index = IndexState::new(1);
    index.runes.insert(id(100, 1), entry(100, 0, 7));
    index.rune_ids.insert(7, id(100, 1));
    index.rune_numbers.insert(0, id(100, 1));
    index.tx_outs.insert(outpoint(1, 0), out(vec![RuneAmount { rune_id: id(100, 1), amount: 10 }], 1000));
    index
}

fn etching_artifact() -> Option<Artifact> {
    Some(Artifact::Runestone {
        edicts: vec![],
        pointer: None,
        etching: Some(Etching {
            divisibility: Some(2),
            rune: Some(99),
            premine: Some(5),
            spacers: None,
            symbol: Some('x'),
            terms: None,
            turbo: true,
        }),
        mint: None,
    })
}

#[test]
fn save_records_an_etching_mint_burn_and_transfer() {
    let mut index = base_index();
    let mut addresses = AddressUpdater::new();
    let updater = TransactionUpdater::new(settings(false), true);
    let c = change(
        vec![outpoint(1, 0)],
        vec![
            out(vec![RuneAmount { rune_id: id(100, 1), amount: 4 }], 600),
            out(vec![], 500),
        ],
        Some((id(200, 3), 99)),
        Some(RuneAmount { rune_id: id(100, 1), amount: 1 }),
        vec![(id(100, 1), 7)],
    );
    let t = tx(vec![outpoint(1, 0)], vec![vec![0x51], vec![0x6a]]);
    let r = updater.save(&mut index, &mut addresses, 1234, None, txid(9), &t, &etching_artifact(), None, &c);
    assert!(r.is_ok());

    let etched = index.runes.get(&id(200, 3)).unwrap();
    assert_eq!(etched.number, 1);
    assert_eq!(etched.premine, 5);
    assert_eq!(etched.divisibility, 2);
    assert_eq!(etched.symbol, Some('x'));
    assert!(etched.turbo);
    assert_eq!(etched.timestamp, 1234);
    assert_eq!(index.runes_count, 2);
    assert_eq!(*index.rune_ids.get(&99).unwrap(), id(200, 3));
    assert_eq!(*index.rune_numbers.get(&1).unwrap(), id(200, 3));

    let old = index.runes.get(&id(100, 1)).unwrap();
    assert_eq!(old.pending_burns, 7);
    assert_eq!(old.pending_mints, 1);
    assert_eq!(old.burned, 0);
    assert_eq!(old.mints, 0);

    // Output 1:0 is spent by input 0 of transaction 9.
    assert!(matches!(
        index.tx_outs.get(&outpoint(1, 0)).unwrap().spent,
        SpentStatus::Spent(s) if s.txid.bytes == [9; 32] && s.vin == 0
    ));
    assert_eq!(index.tx_outs.get(&outpoint(9, 0)).unwrap().value, 600);
    // An output without runes is kept only when addresses are indexed.
    assert!(index.tx_outs.get(&outpoint(9, 1)).is_none());
    assert!(index.tx_state_changes.contains(&txid(9)));
    assert!(index.transactions.contains(&txid(9)));
    assert!(!index.confirming_blocks.contains(&txid(9)));
    for rid in [id(100, 1), id(200, 3)] {
        let list = index.rune_transactions.get(&rid).unwrap();
        assert_eq!(list.len(), 1);
        assert_eq!(list[0].bytes, [9u8; 32]);
    }

    assert_eq!(index.events.len(), 4);
    assert!(matches!(index.events[0], Event::RuneEtched { location: Location::Mempool, rune_id, .. } if rune_id == id(200, 3)));
    assert!(matches!(index.events[1], Event::RuneBurned { amount: 7, .. }));
    assert!(matches!(index.events[2], Event::RuneMinted { amount: 1, .. }));
    assert!(matches!(index.events[3], Event::RuneTransferred { amount: 4, outpoint, .. } if outpoint.vout == 0));
}

#[test]
fn save_in_a_block_confirms_and_indexes_addresses() {
    let mut index = base_index();
    let mut addresses = AddressUpdater::new();
    let updater = TransactionUpdater::new(settings(true), false);
    let c = change(vec![outpoint(1, 0)], vec![out(vec![], 500), out(vec![], 0)], None, None, vec![]);
    let t = tx(vec![outpoint(1, 0)], vec![vec![0x51], vec![0x6a, 1]]);
    let block = BlockId { hash: BlockHash { bytes: [4; 32] }, height: 840_000 };
    let r = updater.save(&mut index, &mut addresses, 1, Some(block), txid(9), &t, &None, None, &c);
    assert!(r.is_ok());
    assert_eq!(index.confirming_blocks.get(&txid(9)).unwrap().height, 840_000);
    assert!(index.tx_outs.contains(&outpoint(9, 0)));
    assert!(index.tx_outs.contains(&outpoint(9, 1)));
    // The OP_RETURN output is not recorded for the address index.
    let lookups = addresses.spent_lookups();
    assert_eq!(lookups.len(), 1);
    assert_eq!(lookups[0].txid.bytes, [1u8; 32]);
    assert_eq!(lookups[0].vout, 0);
    let groups = addresses.group_for_mempool().into_entries();
    assert_eq!(groups.len(), 1);
    assert_eq!(groups[0].0, vec![0x51]);
}

#[test]
fn save_fails_on_an_unknown_rune() {
    let mut index = base_index();
    let mut addresses = AddressUpdater::new();
    let updater = TransactionUpdater::new(settings(false), true);
    let c = change(vec![], vec![], None, Some(RuneAmount { rune_id: id(5, 5), amount: 1 }), vec![]);
    let t = tx(vec![], vec![]);
    let r = updater.save(&mut index, &mut addresses, 1, None, txid(9), &t, &None, None, &c);
    assert!(matches!(r, Err(TransactionUpdaterError::Store(StoreError::RuneNotFound(rid))) if rid == id(5, 5)));
    assert!(!index.tx_state_changes.contains(&txid(9)));
}

#[test]
fn save_fails_when_a_burned_count_overflows() {
    let mut index = base_index();
    let mut e = *index.runes.get(&id(100, 1)).unwrap();
    e.burned = u128::MAX - 1;
    index.runes.insert(id(100, 1), e);
    let mut addresses = AddressUpdater::new();
    let updater = TransactionUpdater::new(settings(false), false);
    let c = change(vec![], vec![], None, None, vec![(id(100, 1), 2)]);
    let t = tx(vec![], vec![]);
    let block = BlockId { hash: BlockHash { bytes: [4; 32] }, height: 1 };
    let r = updater.save(&mut index, &mut addresses, 1, Some(block), txid(9), &t, &None, None, &c);
    assert!(matches!(r, Err(TransactionUpdaterError::Overflow)));
    assert_eq!(index.runes.get(&id(100, 1)).unwrap().burned, u128::MAX - 1);
}

#[test]
fn revert_after_save_restores_the_index() {
    let mut index = base_index();
    let mut addresses = AddressUpdater::new();
    let updater = TransactionUpdater::new(settings(false), true);
    let c = change(
        vec![outpoint(1, 0)],
        vec![out(vec![RuneAmount { rune_id: id(100, 1), amount: 4 }], 600)],
        Some((id(200, 3), 99)),
        Some(RuneAmount { rune_id: id(100, 1), amount: 1 }),
        vec![(id(100, 1), 7)],
    );
    let t = tx(vec![outpoint(1, 0)], vec![vec![0x51]]);
    updater.save(&mut index, &mut addresses, 1234, None, txid(9), &t, &etching_artifact(), None, &c).unwrap();

    let mut rollback = Rollback::new(&index, true, false);
    assert_eq!(rollback.runes, 2);
    rollback.revert_transaction(&mut index, txid(9), &c).unwrap();
    assert_eq!(rollback.runes, 1);
    assert_eq!(index.runes_count, 1);
    assert!(index.runes.get(&id(200, 3)).is_none());
    assert!(index.rune_ids.get(&99).is_none());
    assert!(index.rune_numbers.get(&1).is_none());
    let old = index.runes.get(&id(100, 1)).unwrap();
    assert_eq!(old.pending_burns, 0);
    assert_eq!(old.pending_mints, 0);
    assert!(matches!(index.tx_outs.get(&outpoint(1, 0)).unwrap().spent, SpentStatus::Unspent));
    assert!(index.tx_outs.get(&outpoint(9, 0)).is_none());
    assert!(!index.tx_state_changes.contains(&txid(9)));
    assert!(!index.transactions.contains(&txid(9)));
    assert!(index.rune_transactions.get(&id(200, 3)).is_none());
}

#[test]
fn reverting_a_confirmed_burn_sets_burned_from_pending_burns() {
    let mut index = base_index();
    let mut e = *index.runes.get(&id(100, 1)).unwrap();
    e.burned = 50;
    e.pending_burns = 30;
    index.runes.insert(id(100, 1), e);
    let c = change(vec![], vec![], None, None, vec![(id(100, 1), 10)]);
    let mut rollback = Rollback::new(&index, false, false);
    rollback.revert_transaction(&mut index, txid(9), &c).unwrap();
    let e = index.runes.get(&id(100, 1)).unwrap();
    assert_eq!(e.burned, 20);
    assert_eq!(e.pending_burns, 30);
}

#[test]
fn reverting_a_burn_below_zero_fails() {
    let mut index = base_index();
    let c = change(vec![], vec![], None, None, vec![(id(100, 1), 10)]);
    let mut rollback = Rollback::new(&index, true, false);
    let r = rollback.revert_transaction(&mut index, txid(9), &c);
    assert!(matches!(r, Err(RollbackError::Overflow)));
}

#[test]
fn reverting_an_etching_renumbers_later_runes() {
    let mut index = IndexState::new(3);
    for n in 0..3u64 {
        index.runes.insert(id(10 + n, 0), entry(10 + n, n, 100 + n as u128));
        index.rune_ids.insert(100 + n as u128, id(10 + n, 0));
        index.rune_numbers.insert(n, id(10 + n, 0));
    }
    let c = change(vec![], vec![], Some((id(10, 0), 100)), None, vec![]);
    let mut rollback = Rollback::new(&index, false, false);
    rollback.revert_transaction(&mut index, txid(10), &c).unwrap();
    assert_eq!(index.runes_count, 2);
    assert!(index.runes.get(&id(10, 0)).is_none());
    assert_eq!(index.runes.get(&id(11, 0)).unwrap().number, 0);
    assert_eq!(index.runes.get(&id(12, 0)).unwrap().number, 1);
    assert_eq!(*index.rune_numbers.get(&0).unwrap(), id(11, 0));
    assert_eq!(*index.rune_numbers.get(&1).unwrap(), id(12, 0));
    // The last number is not cleared.
    assert_eq!(*index.rune_numbers.get(&2).unwrap(), id(12, 0));
}

#[test]
fn reverting_an_unknown_etching_fails() {
    let mut index = base_index();
    let c = change(vec![], vec![], Some((id(300, 1), 5)), None, vec![]);
    let mut rollback = Rollback::new(&index, false, false);
    let r = rollback.revert_transaction(&mut index, txid(10), &c);
    assert!(matches!(r, Err(RollbackError::Store(StoreError::RuneNotFound(rid))) if rid == id(300, 1)));
    assert_eq!(rollback.runes, 1);
}

#[test]
fn last_rune_transactions_come_newest_first_a_page_at_a_time() {
    let mut index = IndexState::new(0);
    index.rune_transactions.insert(id(1, 1), (1..=5u8).map(txid).collect());
    let page = index.get_last_rune_transactions(&id(1, 1), 0, 2);
    assert_eq!(page.items.iter().map(|t| t.bytes[0]).collect::<Vec<_>>(), vec![5, 4]);
    assert_eq!(page.offset, 2);
    let page = index.get_last_rune_transactions(&id(1, 1), 3, 10);
    assert_eq!(page.items.iter().map(|t| t.bytes[0]).collect::<Vec<_>>(), vec![2, 1]);
    assert_eq!(page.offset, 5);
    let page = index.get_last_rune_transactions(&id(1, 1), 7, 10);
    assert!(page.items.is_empty());
    assert_eq!(page.offset, 2);
    let page = index.get_last_rune_transactions(&id(2, 2), 3, 10);
    assert!(page.items.is_empty());
    assert_eq!(page.offset, 0);
}

#[test]
fn reverting_addresses_moves_outputs_back_to_their_scripts() {
    let mut index = base_index();
    // Transaction 9 spent 1:0 (script A) and created 9:0 and 9:1 (script B).
    index.outpoint_scripts.insert(outpoint(1, 0), vec![0xa]);
    index.outpoint_scripts.insert(outpoint(9, 0), vec![0xb]);
    index.outpoint_scripts.insert(outpoint(9, 1), vec![0xb]);
    index.script_utxos.insert(vec![0xb], vec![outpoint(9, 0), outpoint(5, 5), outpoint(9, 1)]);
    let c = change(vec![outpoint(1, 0)], vec![out(vec![], 1), out(vec![], 2)], None, None, vec![]);
    let mut rollback = Rollback::new(&index, false, true);
    rollback.revert_transaction(&mut index, txid(9), &c).unwrap();
    let b = index.script_utxos.get(&vec![0xb]).unwrap();
    assert_eq!(b.len(), 1);
    assert_eq!(b[0].vout, 5);
    let a = index.script_utxos.get(&vec![0xa]).unwrap();
    assert_eq!(a.len(), 1);
    assert_eq!(a[0].txid.bytes, [1u8; 32]);
    assert!(!index.outpoint_scripts.contains(&outpoint(9, 0)));
    assert!(!index.outpoint_scripts.contains(&outpoint(9, 1)));
    assert!(index.outpoint_scripts.contains(&outpoint(1, 0)));
}

#[test]
fn reverting_addresses_fails_on_an_output_without_script() {
    let mut index = base_index();
    let c = change(vec![], vec![out(vec![], 1)], None, None, vec![]);
    let mut rollback = Rollback::new(&index, true, true);
    let r = rollback.revert_transaction(&mut index, txid(9), &c);
    assert!(matches!(r, Err(RollbackError::Store(StoreError::ScriptNotFound(o))) if o.vout == 0));
}

#[test]
fn reverting_in_the_mempool_forgets_spent_outputs() {
    let mut index = base_index();
    index.outpoint_scripts.insert(outpoint(9, 0), vec![0xb]);
    index.spent_in_mempool.insert(outpoint(1, 0), titan::SpenderReference { txid: txid(9), vin: 0 });
    let c = change(vec![outpoint(1, 0)], vec![out(vec![], 1)], None, None, vec![]);
    let mut rollback = Rollback::new(&index, true, true);
    rollback.revert_transaction(&mut index, txid(9), &c).unwrap();
    assert!(!index.spent_in_mempool.contains(&outpoint(1, 0)));
    assert_eq!(index.script_utxos.get(&vec![0xb]).unwrap().len(), 0);
}

#[test]
fn a_batch_of_updates_replaces_entries_and_appends_rune_transactions() {
    let mut store = base_index();
    store.rune_transactions.insert(id(100, 1), vec![txid(1)]);
    let mut update = IndexState::new(5);
    update.runes.insert(id(100, 1), entry(100, 3, 7));
    update.rune_transactions.insert(id(100, 1), vec![txid(2), txid(3)]);
    update.rune_transactions.insert(id(8, 8), vec![txid(4)]);
    update.tx_outs.insert(outpoint(2, 0), out(vec![], 9));
    store.batch_update(update, true);
    assert_eq!(store.runes_count, 1);
    assert_eq!(store.runes.get(&id(100, 1)).unwrap().number, 3);
    let list = store.rune_transactions.get(&id(100, 1)).unwrap();
    assert_eq!(list.iter().map(|t| t.bytes[0]).collect::<Vec<_>>(), vec![1, 2, 3]);
    assert_eq!(store.rune_transactions.get(&id(8, 8)).unwrap().len(), 1);
    assert!(store.tx_outs.contains(&outpoint(1, 0)));
    assert!(store.tx_outs.contains(&outpoint(2, 0)));

    let mut update = IndexState::new(5);
    update.rune_ids.insert(1, id(1, 1));
    store.batch_update(update, false);
    assert_eq!(store.runes_count, 5);
}

#[test]
fn a_batch_of_deletes_removes_the_keys() {
    let mut store = base_index();
    store.outpoint_scripts.insert(outpoint(1, 0), vec![1]);
    store.tx_state_changes.insert(txid(1), change(vec![], vec![], None, None, vec![]));
    let delete = titan::BatchDelete {
        tx_outs: vec![outpoint(1, 0), outpoint(7, 7)],
        tx_state_changes: vec![txid(1)],
        script_pubkeys_outpoints: vec![outpoint(1, 0)],
        spent_outpoints_in_mempool: vec![],
    };
    store.batch_delete(&delete);
    assert!(!store.tx_outs.contains(&outpoint(1, 0)));
    assert!(!store.tx_state_changes.contains(&txid(1)));
    assert!(!store.outpoint_scripts.contains(&outpoint(1, 0)));
    assert!(store.runes.contains(&id(100, 1)));
}

#[test]
fn purging_blocks_deletes_state_changes_and_spent_scripts() {
    let mut index = base_index();
    index.tx_state_changes.insert(txid(1), change(vec![outpoint(5, 0), outpoint(5, 1)], vec![], None, None, vec![]));
    index.tx_state_changes.insert(txid(2), change(vec![outpoint(6, 0)], vec![], None, None, vec![]));
    assert_eq!(index.purged_blocks_count, 0);
    let nothing = index.purge_block_range(10, 10, &vec![]);
    assert!(nothing.is_empty());
    assert_eq!(index.purged_blocks_count, 0);
    let d = index.purge_block_range(10, 13, &vec![vec![txid(1)], vec![], vec![txid(2)]]);
    assert_eq!(index.purged_blocks_count, 13);
    assert_eq!(d.tx_state_changes.iter().map(|t| t.bytes[0]).collect::<Vec<_>>(), vec![1, 2]);
    assert_eq!(d.script_pubkeys_outpoints.iter().map(|o| (o.txid.bytes[0], o.vout)).collect::<Vec<_>>(), vec![(5, 0), (5, 1), (6, 0)]);
    assert!(d.tx_outs.is_empty());
    index.batch_delete(&d);
    assert!(!index.tx_state_changes.contains(&txid(1)));
}

#[test]
fn flush_plans() {
    // The mempool writes at once and always starts over.
    let p = plan_flush(true, true, false, true, false, 3);
    assert_eq!(p.write, WriteMode::Direct);
    assert!(!p.purge && !p.delete && !p.wait_for_writes && p.clear_update);
    // Blocks at the tip purge, hand the batch to the writer and wait for it.
    let p = plan_flush(false, true, false, false, true, 0);
    assert_eq!(p.write, WriteMode::Background);
    assert!(p.purge && p.delete && p.wait_for_writes && p.clear_update);
    // Below the tip the batch is kept while a background write is pending.
    let p = plan_flush(false, false, false, true, true, 0);
    assert!(!p.clear_update);
    let p = plan_flush(false, false, true, true, true, 0);
    assert_eq!(p.write, WriteMode::Skip);
    assert!(p.clear_update);
    let p = plan_flush(false, false, true, true, true, 2);
    assert!(!p.clear_update);
}

#[test]
fn a_block_changes_confirmed_counts_and_the_mempool_pending_ones() {
    let block = BlockId { hash: BlockHash { bytes: [4; 32] }, height: 1 };
    let c = change(vec![], vec![], None, Some(RuneAmount { rune_id: id(100, 1), amount: 1 }), vec![(id(100, 1), 3)]);
    let t = tx(vec![], vec![]);

    let mut index = base_index();
    let mut addresses = AddressUpdater::new();
    TransactionUpdater::new(settings(false), false)
        .save(&mut index, &mut addresses, 1, Some(block), txid(9), &t, &None, None, &c)
        .unwrap();
    let e = index.runes.get(&id(100, 1)).unwrap();
    assert_eq!((e.mints, e.burned, e.pending_mints, e.pending_burns), (1, 3, 0, 0));

    let mut index = base_index();
    TransactionUpdater::new(settings(false), true)
        .save(&mut index, &mut addresses, 1, None, txid(9), &t, &None, None, &c)
        .unwrap();
    let e = index.runes.get(&id(100, 1)).unwrap();
    assert_eq!((e.mints, e.burned, e.pending_mints, e.pending_burns), (0, 0, 1, 3));
}

#[test]
fn saving_a_coinbase_spends_no_input() {
    let null = SerializedOutPoint { txid: Txid { bytes: [0; 32] }, vout: u32::MAX };
    let mut index = base_index();
    index.tx_outs.insert(null, out(vec![], 1));
    let mut addresses = AddressUpdater::new();
    let updater = TransactionUpdater::new(settings(false), false);
    let c = change(vec![null], vec![out(vec![], 5000)], None, None, vec![]);
    let t = tx(vec![null], vec![vec![0x51]]);
    let block = Some(BlockId { hash: BlockHash { bytes: [3; 32] }, height: 900 });
    assert!(updater.save(&mut index, &mut addresses, 1, block, txid(8), &t, &None, None, &c).is_ok());
    assert!(matches!(index.tx_outs.get(&null).unwrap().spent, SpentStatus::Unspent));

    // Any other transaction spends its inputs.
    let mut index = base_index();
    let c = change(vec![outpoint(1, 0)], vec![], None, None, vec![]);
    let t = tx(vec![outpoint(1, 0)], vec![]);
    assert!(updater.save(&mut index, &mut addresses, 1, block, txid(8), &t, &None, None, &c).is_ok());
    assert!(matches!(index.tx_outs.get(&outpoint(1, 0)).unwrap().spent, SpentStatus::Spent(_)));
}
