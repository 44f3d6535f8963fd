use titan::{
    allocate_runes, outpoint_from_bytes, outpoint_to_bytes, parse_outpoint_from_script_pubkey_key,
    retry_delay_seconds, rune_id_from_bytes, rune_id_to_bytes, rune_index_key,
    rune_transaction_key, script_pubkey_outpoint_to_bytes, script_pubkey_search_key,
    sort_transaction_order, sorted_runes, Artifact, BalanceError, Balances, BlockFetcherStats,
    Edict, MempoolDebouncer, MempoolError, MempoolRemovalGrace, MintError, ReorderBuffer,
    RuneEntry, RuneId, Semaphore, SerializedOutPoint, SpacedRune, Terms, TransactionChangeSet,
    TransactionUpdate, TxTimes, Txid, TxidSet,
};

fn txid(b: u8) -> Txid {
    Txid { bytes: [b; 32] }
}

fn id(block: u64, tx: u32) -> RuneId {
    RuneId { block, tx }
}

#[test]
fn outpoint_bytes_are_txid_then_little_endian_vout() {
    let o = SerializedOutPoint {
        txid: txid(3),
        vout: 0x0102_0304,
    };
    let bytes = outpoint_to_bytes(&o);
    assert_eq!(bytes.len(), 36);
    assert_eq!(&bytes[..32], &[3u8; 32]);
    assert_eq!(&bytes[32..], &[4, 3, 2, 1]);
    let back = outpoint_from_bytes(&bytes).unwrap();
    assert_eq!(back.vout, o.vout);
    assert_eq!(back.txid.bytes, [3u8; 32]);
    assert!(outpoint_from_bytes(&bytes[..35]).is_err());
}

#[test]
fn rune_id_bytes_round_trip() {
    let r = id(840000, 7);
    let bytes = rune_id_to_bytes(&r);
    assert_eq!(bytes, vec![0x40, 0xd1, 0x0c, 0, 0, 0, 0, 0, 7, 0, 0, 0]);
    assert_eq!(rune_id_from_bytes(&bytes).unwrap(), r);
    assert!(rune_id_from_bytes(&bytes[..11]).is_err());
}

#[test]
fn store_keys_have_their_prefixes() {
    let r = id(1, 2);
    let key = rune_index_key(&r);
    assert_eq!(&key[..11], b"rune_index:");
    assert_eq!(key.len(), 23);
    let key = rune_transaction_key(&r, 5);
    assert_eq!(&key[..5], b"rune:");
    assert_eq!(key[17], b':');
    assert_eq!(&key[18..], &[5, 0, 0, 0, 0, 0, 0, 0]);
    let spk = vec![0x51, 0x20, 9];
    assert_eq!(script_pubkey_search_key(&spk), vec![0x51, 0x20, 9, b':']);
    let o = SerializedOutPoint {
        txid: txid(8),
        vout: 2,
    };
    let key = script_pubkey_outpoint_to_bytes(&spk, &o);
    let back = parse_outpoint_from_script_pubkey_key(&key).unwrap();
    assert_eq!(back.vout, 2);
    assert_eq!(back.txid.bytes, [8u8; 32]);
    let mut broken = key.clone();
    broken[3] = b'x';
    assert!(parse_outpoint_from_script_pubkey_key(&broken).is_err());
}

#[test]
fn txid_sets_combine() {
    let a = TxidSet::from_vec(&vec![txid(1), txid(2), txid(2), txid(3)]);
    let b = TxidSet::from_vec(&vec![txid(2), txid(4)]);
    assert_eq!(a.len(), 3);
    assert_eq!(a.intersection(&b).len(), 1);
    assert!(a.intersection(&b).contains(&txid(2)));
    assert_eq!(a.difference(&b).len(), 2);
    assert!(!a.difference(&b).contains(&txid(2)));
    assert_eq!(a.union(&b).len(), 4);
    let mut c = a.copy();
    c.remove(&txid(1));
    assert!(!c.contains(&txid(1)));
    assert!(a.contains(&txid(1)));
}

fn set(ids: &[u8]) -> TxidSet {
    TxidSet::from_vec(&ids.iter().map(|b| txid(*b)).collect())
}

#[test]
fn transaction_updates_are_categorized() {
    let mut u = TransactionUpdate::new(
        TransactionChangeSet {
            removed: set(&[1, 2]),
            added: set(&[3, 4]),
        },
        TransactionChangeSet {
            removed: set(&[4, 5, 6]),
            added: set(&[1, 6]),
        },
    );
    let c = u.categorize();
    assert!(c.mined_from_mempool.contains(&txid(1)));
    assert_eq!(c.mined_from_mempool.len(), 1);
    assert!(c.reorged_back_to_mempool.contains(&txid(4)));
    assert!(c.new_in_mempool_only.contains(&txid(3)));
    assert!(c.new_block_only.contains(&txid(6)));
    assert!(c.reorged_out_entirely.contains(&txid(5)));
    assert!(c.mempool_rbf_or_evicted.contains(&txid(2)));
    assert!(c.reorged_out_and_remined.contains(&txid(6)));
    let s = u.categorize_to_change_set();
    // Added: in the system now and not before; removed: gone from both places.
    assert!(s.added.contains(&txid(3)));
    assert!(!s.added.contains(&txid(1)));
    assert!(s.removed.contains(&txid(2)));
    assert!(s.removed.contains(&txid(5)));
    assert!(s.removed.intersection(&s.added).is_empty());
    u.reset();
    assert!(u.categorize_to_change_set().added.is_empty());
    u.add_block_tx(txid(9));
    assert!(u.categorize_to_change_set().added.contains(&txid(9)));
}

#[test]
fn debouncer_waits_for_the_window() {
    let mut d = MempoolDebouncer::new(1000);
    d.handle_added(txid(1), 100);
    d.handle_removed(txid(2), 500);
    let (removed, added) = d.get_tx_to_update(false, 1000);
    assert!(removed.is_empty());
    assert!(added.is_empty());
    let (removed, added) = d.get_tx_to_update(false, 1100);
    assert!(removed.is_empty());
    assert_eq!(added.len(), 1);
    assert_eq!(added[0].bytes, [1u8; 32]);
    let (removed, _) = d.get_tx_to_update(true, 0);
    assert_eq!(removed.len(), 1);
    // A transaction that comes back before its removal is due is not reported as removed.
    d.handle_removed(txid(3), 0);
    d.handle_added(txid(3), 10);
    let (removed, added) = d.get_tx_to_update(false, 5000);
    assert!(removed.is_empty());
    assert_eq!(added.len(), 1);
    d.handle_added(txid(4), 0);
    d.handle_indexed(txid(4));
    let (_, added) = d.get_tx_to_update(true, 0);
    assert!(added.is_empty());
}

#[test]
fn grace_protects_recent_additions() {
    let mut g = MempoolRemovalGrace::new(100);
    g.mark_as_added(txid(1), 1000);
    let removable = g.filter_removable_txs(&[txid(1), txid(2)]);
    assert_eq!(removable.len(), 1);
    assert_eq!(removable[0].bytes, [2u8; 32]);
    g.expire_old_entries(1050);
    assert_eq!(g.filter_removable_txs(&[txid(1)]).len(), 0);
    g.expire_old_entries(1100);
    assert_eq!(g.filter_removable_txs(&[txid(1)]).len(), 1);
}

#[test]
fn tx_times_take_the_aged() {
    let mut t = TxTimes::new();
    t.insert(txid(1), 10);
    t.insert(txid(2), 50);
    t.insert(txid(1), 20);
    assert_eq!(t.get(&txid(1)), Some(20));
    let aged = t.take_aged(60, 30);
    assert_eq!(aged.len(), 1);
    assert_eq!(aged[0].bytes, [1u8; 32]);
    assert!(!t.contains_key(&txid(1)));
    assert!(t.contains_key(&txid(2)));
}

fn entry(terms: Option<Terms>, premine: u128, mints: u128) -> RuneEntry {
    RuneEntry {
        block: 840000,
        burned: 0,
        divisibility: 0,
        etching: txid(0),
        mints,
        number: 0,
        premine,
        spaced_rune: SpacedRune {
            rune: 99,
            spacers: 0,
        },
        symbol: None,
        terms,
        pending_burns: 0,
        pending_mints: 0,
        inscription_id: None,
        timestamp: 0,
        turbo: false,
    }
}

#[test]
fn mint_windows_and_caps() {
    let terms = Terms {
        amount: Some(10),
        cap: Some(3),
        height: (Some(840010), Some(840100)),
        offset: (Some(5), Some(50)),
    };
    let e = entry(Some(terms), 7, 2);
    // The start is the later of 840000 + 5 and 840010; the end the earlier of 840050 and 840100.
    assert_eq!(e.start(), Some(840010));
    assert_eq!(e.end(), Some(840050));
    assert_eq!(e.mintable(840009), Err(MintError::Start(840010)));
    assert_eq!(e.mintable(840050), Err(MintError::End(840050)));
    assert_eq!(e.mintable(840020), Ok(10));
    assert_eq!(e.supply(), 27);
    assert_eq!(e.max_supply(), 37);
    let full = entry(Some(terms), 0, 3);
    assert_eq!(full.mintable(840020), Err(MintError::Cap(3)));
    assert_eq!(entry(None, 0, 0).mintable(1), Err(MintError::Unmintable));
}

#[test]
fn mints_and_burns_move_their_counters() {
    let mut e = entry(None, 0, 0);
    e.increment_mint(false);
    e.increment_mint(true);
    assert_eq!((e.mints, e.pending_mints), (1, 1));
    e.revert_mint(false);
    e.revert_mint(false);
    assert_eq!(e.mints, 0);
    assert_eq!(e.add_burn(5, false), Ok(()));
    assert_eq!(e.burned, 5);
    assert_eq!(e.add_burn(3, true), Ok(()));
    assert_eq!(e.pending_burns, 3);
    assert_eq!(e.add_burn(u128::MAX, true), Ok(()));
    assert_eq!(e.pending_burns, 2);
    e.burned = u128::MAX;
    assert_eq!(e.add_burn(1, false), Err(BalanceError::Overflow));
    assert_eq!(e.burned, u128::MAX);
    let mut r = entry(None, 0, 0);
    r.pending_burns = 10;
    assert_eq!(r.revert_burn(4, true), Ok(()));
    assert_eq!(r.pending_burns, 6);
    assert_eq!(r.revert_burn(7, true), Err(BalanceError::Overflow));
}

#[test]
fn semaphore_counts_permits() {
    let mut s = Semaphore::new(1);
    assert!(s.acquire());
    assert!(!s.acquire());
    s.release();
    assert_eq!(s.available(), 1);
}

#[test]
fn fetcher_stats_wrap_like_atomics() {
    let mut st = BlockFetcherStats::new();
    st.increment_fetching();
    st.increment_intermediate();
    st.increment_final();
    st.increment_buffer();
    st.increment_buffer();
    st.decrement_buffer();
    assert_eq!(st.snapshot(), (1, 1, 1, 1));
    st.decrement_fetching();
    st.decrement_fetching();
    assert_eq!(st.get_blocks_being_fetched(), u64::MAX);
    assert_eq!(st.get_blocks_sent_to_final(), 1);
    assert_eq!(st.get_blocks_sent_to_intermediate(), 1);
    assert_eq!(st.get_blocks_in_buffer(), 1);
}

#[test]
fn reorder_buffer_releases_blocks_in_order() {
    let mut b: ReorderBuffer<&str> = ReorderBuffer::new(10);
    assert!(b.receive(12, "c").is_empty());
    assert!(b.receive(11, "b").is_empty());
    assert_eq!(b.receive(10, "a"), vec!["a", "b", "c"]);
    assert_eq!(b.receive(13, "d"), vec!["d"]);
    assert!(b.receive(15, "f").is_empty());
}

#[test]
fn retries_back_off_up_to_two_minutes() {
    assert_eq!(retry_delay_seconds(1), 2);
    assert_eq!(retry_delay_seconds(3), 8);
    assert_eq!(retry_delay_seconds(6), 64);
    assert_eq!(retry_delay_seconds(7), 120);
    assert_eq!(retry_delay_seconds(40), 120);
}

#[test]
fn balances_credit_and_debit() {
    let mut b = Balances::new();
    assert!(b.is_empty());
    b.credit(id(1, 0), 5);
    b.credit(id(1, 0), 6);
    b.credit(id(2, 0), 1);
    b.debit(id(1, 0), 4);
    assert_eq!(b.get(id(1, 0)), Some(7));
    assert_eq!(b.entries().len(), 2);
    let sorted = sorted_runes(&b);
    assert_eq!(sorted[0].rune_id, id(1, 0));
    assert_eq!(sorted[1].rune_id, id(2, 0));
}

fn one_rune(amount: u128) -> Balances {
    let mut b = Balances::new();
    b.credit(id(5, 5), amount);
    b
}

#[test]
fn zero_amount_edict_to_all_outputs_splits_evenly() {
    // Outputs 0, 2 and 3 are plain; output 1 is an OP_RETURN output.
    let artifact = Some(Artifact::Runestone {
        edicts: vec![Edict {
            id: id(5, 5),
            amount: 0,
            output: 4,
        }],
        pointer: None,
        etching: None,
        mint: None,
    });
    let r = allocate_runes(one_rune(11), &artifact, None, None, &vec![false, true, false, false]);
    assert_eq!(r.allocated[0].get(id(5, 5)), Some(4));
    assert_eq!(r.allocated[1].get(id(5, 5)), None);
    assert_eq!(r.allocated[2].get(id(5, 5)), Some(4));
    assert_eq!(r.allocated[3].get(id(5, 5)), Some(3));
    assert!(r.burned.is_empty());
}

#[test]
fn fixed_amount_edict_to_all_outputs_stops_when_exhausted() {
    let artifact = Some(Artifact::Runestone {
        edicts: vec![Edict {
            id: id(5, 5),
            amount: 4,
            output: 3,
        }],
        pointer: Some(2),
        etching: None,
        mint: None,
    });
    let r = allocate_runes(one_rune(10), &artifact, None, None, &vec![false, false, false]);
    assert_eq!(r.allocated[0].get(id(5, 5)), Some(4));
    assert_eq!(r.allocated[1].get(id(5, 5)), Some(4));
    assert_eq!(r.allocated[2].get(id(5, 5)), Some(2));
}

#[test]
fn runes_sent_to_op_return_are_burned() {
    let artifact = Some(Artifact::Runestone {
        edicts: vec![Edict {
            id: id(5, 5),
            amount: 6,
            output: 1,
        }],
        pointer: None,
        etching: None,
        mint: None,
    });
    let r = allocate_runes(one_rune(10), &artifact, None, None, &vec![false, true]);
    assert_eq!(r.allocated[0].get(id(5, 5)), Some(4));
    assert_eq!(r.burned.get(id(5, 5)), Some(6));
    // With no plain output at all, everything unallocated is burned.
    let r = allocate_runes(one_rune(10), &None, None, None, &vec![true]);
    assert_eq!(r.burned.get(id(5, 5)), Some(10));
}

#[test]
fn edicts_for_unknown_runes_are_ignored() {
    let artifact = Some(Artifact::Runestone {
        edicts: vec![Edict {
            id: id(9, 9),
            amount: 6,
            output: 0,
        }],
        pointer: Some(1),
        etching: None,
        mint: None,
    });
    let r = allocate_runes(one_rune(10), &artifact, None, None, &vec![false, false]);
    assert_eq!(r.allocated[0].get(id(9, 9)), None);
    assert_eq!(r.allocated[1].get(id(5, 5)), Some(10));
}

#[test]
fn mempool_order_puts_parents_first() {
    let mempool = TxidSet::from_vec(&vec![txid(1), txid(2), txid(3)]);
    let tx_map = vec![
        (txid(3), vec![txid(2)]),
        (txid(2), vec![txid(1), txid(7)]),
        (txid(1), vec![]),
    ];
    let order = sort_transaction_order(&mempool, &tx_map).unwrap();
    let pos = |b: u8| order.iter().position(|t| t.bytes == [b; 32]).unwrap();
    assert_eq!(order.len(), 3);
    assert!(pos(1) < pos(2));
    assert!(pos(2) < pos(3));
    let cyclic = vec![(txid(1), vec![txid(2)]), (txid(2), vec![txid(1)])];
    assert!(matches!(
        sort_transaction_order(&mempool, &cyclic),
        Err(MempoolError::CycleDetected)
    ));
}
