use titan::{
    Balances, BlockHash, BlockId, Chain, Event, IndexState, Location, ReadCacheSettings, RuneEntry,
    RuneId, SerializedOutPoint, SpentStatus, Store, StoreError, TransactionData,
    TransactionStateChange, TxOutEntry, Txid, UpdaterCache, UpdaterCacheSettings,
};

fn txid(b: u8) -> Txid {
    Txid { bytes: [b; 32] }
}

fn op(b: u8, vout: u32) -> SerializedOutPoint {
    SerializedOutPoint { txid: txid(b), vout }
}

fn entry(value: u64) -> TxOutEntry {
    TxOutEntry { runes: vec![], spent: SpentStatus::Unspent, value }
}

fn settings(chain: Chain, mempool: bool) -> UpdaterCacheSettings {
    UpdaterCacheSettings {
        max_recoverable_reorg_depth: 6,
        mempool,
        chain,
        read_cache: ReadCacheSettings::default(),
        max_async_batches: 8,
    }
}

fn empty_store() -> Store {
    Store { chain: IndexState::new(0), mempool: IndexState::new(0) }
}

fn rune(number: u64) -> RuneEntry {
    RuneEntry::from_etching(10, txid(1), number, 1000 + number as u128, 0, None, None)
}

fn state_change(value: u64) -> TransactionStateChange {
    TransactionStateChange {
        inputs: vec![],
        outputs: vec![entry(value)],
        etched: None,
        minted: None,
        burned: Balances::new(),
        is_coinbase: false,
    }
}

#[test]
fn a_regtest_cache_starts_at_block_one() {
    let c = UpdaterCache::new(3, 0, 0, settings(Chain::Regtest, false));
    assert_eq!(c.get_block_count(), 1);
    assert_eq!(c.get_block_height_tip(), 0);
    assert_eq!(c.get_runes_count(), 3);
    let c = UpdaterCache::new(3, 0, 0, settings(Chain::Mainnet, false));
    assert_eq!(c.get_block_count(), 0);
    assert_eq!(c.get_block_height_tip(), 0);
    let c = UpdaterCache::new(3, 10, 4, settings(Chain::Regtest, false));
    assert_eq!(c.get_block_count(), 10);
    assert_eq!(c.get_block_height_tip(), 9);
    assert_eq!(c.get_purged_blocks_count(), 4);
}

#[test]
fn outputs_are_read_from_the_newest_layer_holding_them() {
    let mut db = empty_store();
    db.chain.tx_outs.insert(op(1, 0), entry(1));
    db.mempool.tx_outs.insert(op(1, 1), entry(2));
    let mut c = UpdaterCache::new(0, 5, 0, settings(Chain::Mainnet, false));

    // From the store, chain first, then the mempool.
    assert_eq!(c.get_tx_out(&db, &op(1, 0)).unwrap().value, 1);
    assert_eq!(c.get_tx_out(&db, &op(1, 1)).unwrap().value, 2);
    assert!(matches!(c.get_tx_out(&db, &op(9, 9)), Err(StoreError::OutputNotFound(o)) if o.vout == 9));

    // What was read from the store is now cached: changing the store does not show.
    db.chain.tx_outs.insert(op(1, 0), entry(100));
    assert_eq!(c.get_tx_out(&db, &op(1, 0)).unwrap().value, 1);

    // A pending batch hides the cache, the newest batch first.
    let mut b1 = IndexState::new(0);
    b1.tx_outs.insert(op(1, 0), entry(10));
    let mut b2 = IndexState::new(0);
    b2.tx_outs.insert(op(1, 0), entry(20));
    c.pending.push(b1);
    c.pending.push(b2);
    assert_eq!(c.get_tx_out(&db, &op(1, 0)).unwrap().value, 20);

    // The current update hides everything.
    c.set_tx_out(op(1, 0), entry(30));
    assert_eq!(c.get_tx_out(&db, &op(1, 0)).unwrap().value, 30);

    let all = c.get_tx_outs(&db, &vec![op(1, 0), op(1, 1), op(7, 7)]);
    assert_eq!(all[0].as_ref().unwrap().value, 30);
    assert_eq!(all[1].as_ref().unwrap().value, 2);
    assert!(all[2].is_none());
}

#[test]
fn precached_outputs_are_served_from_the_read_cache() {
    let mut db = empty_store();
    db.chain.tx_outs.insert(op(1, 0), entry(1));
    let mut c = UpdaterCache::new(0, 5, 0, settings(Chain::Mainnet, false));
    let tx = TransactionData {
        input: vec![
            titan::TxInput { previous_output: op(1, 0), witness: vec![] },
            titan::TxInput { previous_output: SerializedOutPoint { txid: txid(0), vout: u32::MAX }, witness: vec![] },
        ],
        output: vec![],
    };
    c.precache_tx_outs(&db, &vec![tx]);
    db.chain.tx_outs.insert(op(1, 0), entry(50));
    assert_eq!(c.get_tx_out(&db, &op(1, 0)).unwrap().value, 1);
}

#[test]
fn runes_and_names_are_read_through_the_layers() {
    let mut db = empty_store();
    let id = RuneId { block: 10, tx: 1 };
    db.chain.runes.insert(id, rune(4));
    db.chain.rune_ids.insert(1004, id);
    let mut c = UpdaterCache::new(0, 5, 0, settings(Chain::Mainnet, false));
    assert_eq!(c.get_rune(&db, &id).unwrap().number, 4);
    assert_eq!(c.get_rune_id(&db, 1004).unwrap(), id);
    assert!(matches!(c.get_rune(&db, &RuneId { block: 1, tx: 1 }), Err(StoreError::RuneNotFound(_))));
    assert!(matches!(c.get_rune_id(&db, 5), Err(StoreError::RuneNameNotFound(5))));
    c.set_rune(id, rune(5));
    assert_eq!(c.get_rune(&db, &id).unwrap().number, 5);
    let other = RuneId { block: 11, tx: 0 };
    c.set_rune_id(2000, other);
    assert_eq!(c.get_rune_id(&db, 2000).unwrap(), other);
    c.set_rune_id_number(1, other);
    assert_eq!(*c.update.rune_numbers.get(&1).unwrap(), other);
}

#[test]
fn transactions_and_their_blocks_are_read_through_the_layers() {
    let mut db = empty_store();
    db.mempool.transactions.insert(txid(3), TransactionData { input: vec![], output: vec![] });
    db.chain.confirming_blocks.insert(txid(4), BlockId { hash: BlockHash { bytes: [1; 32] }, height: 7 });
    let mut c = UpdaterCache::new(0, 5, 0, settings(Chain::Mainnet, false));
    assert!(c.get_transaction(&db, &txid(3)).is_ok());
    assert!(matches!(c.get_transaction(&db, &txid(5)), Err(StoreError::TransactionNotFound(_))));
    c.set_transaction(txid(5), TransactionData { input: vec![], output: vec![] });
    assert!(c.get_transaction(&db, &txid(5)).is_ok());
    assert_eq!(c.get_transaction_confirming_block(&db, &txid(4)).unwrap().height, 7);
    assert!(matches!(c.get_transaction_confirming_block(&db, &txid(5)), Err(StoreError::ConfirmingBlockNotFound(_))));
    c.set_transaction_confirming_block(txid(5), BlockId { hash: BlockHash { bytes: [2; 32] }, height: 8 });
    assert_eq!(c.get_transaction_confirming_block(&db, &txid(5)).unwrap().height, 8);
}

#[test]
fn a_transaction_exists_when_its_state_change_is_known() {
    let mut db = empty_store();
    db.chain.tx_state_changes.insert(txid(1), state_change(1));
    db.mempool.tx_state_changes.insert(txid(2), state_change(2));
    db.mempool.mempool_txs.insert(txid(2));
    let mut blocks = UpdaterCache::new(0, 5, 0, settings(Chain::Mainnet, false));
    let mempool = UpdaterCache::new(0, 5, 0, settings(Chain::Mainnet, true));
    assert!(blocks.does_tx_exist(&db, &txid(1)));
    assert!(!blocks.does_tx_exist(&db, &txid(2)));
    assert!(mempool.does_tx_exist(&db, &txid(2)));
    assert!(!mempool.does_tx_exist(&db, &txid(1)));
    blocks.set_tx_state_changes(txid(3), state_change(3));
    assert!(blocks.does_tx_exist(&db, &txid(3)));
    let found = blocks.get_txs_state_changes(&db, &vec![txid(3), txid(2), txid(1)]);
    assert_eq!(found[0].as_ref().unwrap().outputs[0].value, 3);
    assert!(found[1].is_none());
    assert_eq!(found[2].as_ref().unwrap().outputs[0].value, 1);
}

#[test]
fn handing_the_update_to_the_writer_keeps_it_readable() {
    let db = empty_store();
    let mut c = UpdaterCache::new(2, 5, 0, settings(Chain::Mainnet, false));
    c.set_tx_out(op(1, 0), entry(9));
    c.add_rune_transaction(RuneId { block: 1, tx: 1 }, txid(1));
    c.add_rune_transaction(RuneId { block: 1, tx: 1 }, txid(2));
    assert_eq!(c.update.rune_transactions.get(&RuneId { block: 1, tx: 1 }).unwrap().len(), 2);
    c.add_event(Event::RuneEtched { location: Location::Mempool, txid: txid(1), rune_id: RuneId { block: 1, tx: 1 } });
    assert!(!c.update.is_empty());
    c.hand_to_writer();
    assert!(c.update.is_empty());
    assert_eq!(c.get_runes_count(), 2);
    assert_eq!(c.pending.len(), 1);
    assert_eq!(c.get_tx_out(&db, &op(1, 0)).unwrap().value, 9);
    let events = c.take_events();
    assert_eq!(events.len(), 1);
    assert!(c.take_events().is_empty());
    c.forget_written(1);
    assert!(c.pending.is_empty());
}

#[test]
fn purging_stops_the_reorg_depth_below_the_last_block() {
    let mut c = UpdaterCache::new(0, 100, 20, settings(Chain::Mainnet, false));
    assert_eq!(c.purge_range(6), None);
    c.increment_block_count();
    assert_eq!(c.get_block_count(), 101);
    assert_eq!(c.purge_range(6), Some((20, 94)));
    assert_eq!(c.purge_range(200), None);
    c.increment_runes_count();
    c.decrement_runes_count();
    assert_eq!(c.get_runes_count(), 0);
}

#[test]
fn a_mempool_transaction_set_in_the_cache_reaches_the_store() {
    let mut db = empty_store();
    let mut c = UpdaterCache::new(0, 5, 0, settings(Chain::Mainnet, true));
    c.set_mempool_tx(txid(7));
    assert!(c.update.is_tx_in_mempool(&txid(7)));
    assert!(!db.is_tx_in_mempool(&txid(7)));
    c.hand_to_writer();
    let batch = c.pending.remove(0);
    db.mempool.batch_update(batch, true);
    assert!(db.is_tx_in_mempool(&txid(7)));
}

#[test]
fn pages_of_added_rune_transactions_come_newest_first() {
    let mut c = UpdaterCache::new(0, 5, 0, settings(Chain::Mainnet, false));
    let rune = RuneId { block: 2, tx: 2 };
    for i in 0..300u32 {
        let mut bytes = [0u8; 32];
        bytes[..4].copy_from_slice(&i.to_le_bytes());
        c.add_rune_transaction(rune, Txid { bytes });
    }
    let first = |t: &Txid| u32::from_le_bytes([t.bytes[0], t.bytes[1], t.bytes[2], t.bytes[3]]);
    let page = c.update.get_last_rune_transactions(&rune, 0, 3);
    assert_eq!(page.items.iter().map(first).collect::<Vec<_>>(), vec![299, 298, 297]);
    assert_eq!(page.offset, 3);
    let page = c.update.get_last_rune_transactions(&rune, 298, 5);
    assert_eq!(page.items.iter().map(first).collect::<Vec<_>>(), vec![1, 0]);
    assert_eq!(page.offset, 300);
    let none = UpdaterCache::new(0, 5, 0, settings(Chain::Mainnet, false));
    let page = none.update.get_last_rune_transactions(&rune, 4, 0);
    assert!(page.items.is_empty());
    assert_eq!(page.offset, 0);
}
