use titan::{
    BlockHash, ReadCache, ReadCacheSettings, RuneEntry, RuneId, SerializedOutPoint, SpenderReference,
    SpentStatus, TxOutEntry, Txid,
};

fn entry(number: u64) -> RuneEntry {
    RuneEntry::from_etching(1, Txid { bytes: [1; 32] }, number, 5, 0, None, None)
}

fn settings(n: usize) -> ReadCacheSettings {
    ReadCacheSettings { txouts: n, blocks: n, block_hashes: n, transactions: n, runes: n, rune_ids: n }
}

#[test]
fn a_read_gives_back_what_was_inserted() {
    let mut cache = ReadCache::new();
    let id = RuneId { block: 3, tx: 4 };
    assert!(cache.get_rune(&id).is_none());
    cache.insert_rune(id, entry(7));
    assert_eq!(cache.get_rune(&id).unwrap().number, 7);
    cache.insert_rune(id, entry(8));
    assert_eq!(cache.get_rune(&id).unwrap().number, 8);

    let o = SerializedOutPoint { txid: Txid { bytes: [2; 32] }, vout: 1 };
    assert!(!cache.contains_tx_out(&o));
    cache.insert_tx_out(o, TxOutEntry { runes: vec![], spent: SpentStatus::Spent(SpenderReference { txid: Txid { bytes: [3; 32] }, vin: 2 }), value: 42 });
    assert!(cache.contains_tx_out(&o));
    let got = cache.get_tx_out(&o).unwrap();
    assert_eq!(got.value, 42);
    assert!(matches!(got.spent, SpentStatus::Spent(s) if s.vin == 2));

    cache.insert_block_hash(10, BlockHash { bytes: [9; 32] });
    assert_eq!(cache.get_block_hash(&10).unwrap().bytes, [9; 32]);
    assert!(cache.get_block_hash(&11).is_none());

    cache.insert_rune_id(99, id);
    assert_eq!(cache.get_rune_id(&99), Some(id));
}

#[test]
fn a_zero_capacity_holds_one_entry() {
    let mut cache = ReadCache::with_settings(settings(0));
    let a = RuneId { block: 1, tx: 0 };
    let b = RuneId { block: 2, tx: 0 };
    cache.insert_rune(a, entry(1));
    assert_eq!(cache.get_rune(&a).unwrap().number, 1);
    cache.insert_rune(b, entry(2));
    // The least recently used entry made room.
    assert!(cache.get_rune(&a).is_none());
    assert_eq!(cache.get_rune(&b).unwrap().number, 2);
}

#[test]
fn a_zero_setting_gives_a_segment_room_for_one_entry() {
    let mut cache = ReadCache::with_settings(ReadCacheSettings {
        txouts: 0,
        blocks: 0,
        block_hashes: 0,
        transactions: 0,
        runes: 0,
        rune_ids: 0,
    });
    let a = SerializedOutPoint { txid: Txid { bytes: [1; 32] }, vout: 0 };
    let b = SerializedOutPoint { txid: Txid { bytes: [2; 32] }, vout: 0 };
    cache.insert_tx_out(a, TxOutEntry { runes: vec![], spent: SpentStatus::Unspent, value: 1 });
    cache.insert_tx_out(b, TxOutEntry { runes: vec![], spent: SpentStatus::Unspent, value: 2 });
    assert!(!cache.contains_tx_out(&a));
    assert_eq!(cache.get_tx_out(&b).unwrap().value, 2);
}
