use titan::{AddressUpdater, SerializedOutPoint, SpenderReference, Txid};

fn op(b: u8, vout: u32) -> SerializedOutPoint {
    SerializedOutPoint {
        txid: Txid { bytes: [b; 32] },
        vout,
    }
}

fn spender(b: u8) -> SpenderReference {
    SpenderReference {
        txid: Txid { bytes: [b; 32] },
        vin: 0,
    }
}

#[test]
fn block_groups_mark_outputs_spent_in_the_same_window() {
    let mut u = AddressUpdater::new();
    let alice = vec![0x51, 0x20, 1];
    let bob = vec![0x51, 0x20, 2];
    u.add_new_outpoint(op(1, 0), alice.clone());
    u.add_new_outpoint(op(1, 1), bob.clone());
    // OP_RETURN outputs are not recorded.
    u.add_new_outpoint(op(1, 2), vec![0x6a, 5]);
    // Output (1, 1) is created and spent in the same window; (7, 3) was created earlier.
    u.add_spent_outpoint(op(1, 1), spender(2));
    u.add_spent_outpoint(op(7, 3), spender(2));
    let lookups = u.spent_lookups();
    assert_eq!(lookups.len(), 1);
    assert_eq!(lookups[0].vout, 3);
    let groups = u
        .group_for_block(&vec![(op(7, 3), alice.clone())])
        .into_entries();
    assert_eq!(groups.len(), 2);
    let (_, alice_new, alice_spent) = groups.iter().find(|g| g.0 == alice).unwrap();
    assert_eq!(alice_new.len(), 1);
    assert_eq!(alice_new[0].vout, 0);
    assert_eq!(alice_spent.len(), 1);
    assert_eq!(alice_spent[0].vout, 3);
    let (_, bob_new, bob_spent) = groups.iter().find(|g| g.0 == bob).unwrap();
    assert!(bob_new.is_empty());
    assert_eq!(bob_spent.len(), 1);
    assert_eq!(bob_spent[0].vout, 1);
}

#[test]
fn mempool_groups_list_created_outputs() {
    let mut u = AddressUpdater::new();
    let script = vec![0x00, 0x14, 3];
    u.add_new_outpoint(op(4, 0), script.clone());
    u.add_new_outpoint(op(4, 1), script.clone());
    // A second record of an output replaces the first.
    u.add_new_outpoint(op(4, 0), script.clone());
    u.add_spent_outpoint(op(9, 9), spender(4));
    let groups = u.group_for_mempool().into_entries();
    assert_eq!(groups.len(), 1);
    assert_eq!(groups[0].1.len(), 2);
    assert!(groups[0].2.is_empty());
    u.clear();
    assert!(u.group_for_mempool().into_entries().is_empty());
    assert!(u.spent_lookups().is_empty());
}
