use titan::{
    load_rune_entry, store_rune_entry, InscriptionId, RuneEntry, SpacedRune, Terms, Txid,
};

fn sample() -> RuneEntry {
    let mut etching = [0u8; 32];
    etching[0] = 0xab;
    etching[31] = 0x01;
    RuneEntry {
        block: 840000,
        burned: 5,
        divisibility: 2,
        etching: Txid { bytes: etching },
        mints: 7,
        number: 12,
        premine: 1000,
        spaced_rune: SpacedRune {
            rune: 123456,
            spacers: 3,
        },
        symbol: Some('⧉'),
        terms: Some(Terms {
            amount: Some(25),
            cap: None,
            height: (Some(840010), None),
            offset: (None, Some(99)),
        }),
        pending_burns: 1,
        pending_mints: 2,
        inscription_id: Some(InscriptionId {
            txid: Txid { bytes: [9u8; 32] },
            index: 4,
        }),
        timestamp: 1_700_000_000,
        turbo: true,
    }
}

fn same(a: &RuneEntry, b: &RuneEntry) -> bool {
    a.block == b.block
        && a.burned == b.burned
        && a.divisibility == b.divisibility
        && a.etching.bytes == b.etching.bytes
        && a.mints == b.mints
        && a.number == b.number
        && a.premine == b.premine
        && a.spaced_rune == b.spaced_rune
        && a.symbol == b.symbol
        && format!("{:?}", a.terms) == format!("{:?}", b.terms)
        && a.pending_burns == b.pending_burns
        && a.pending_mints == b.pending_mints
        && format!("{:?}", a.inscription_id) == format!("{:?}", b.inscription_id)
        && a.timestamp == b.timestamp
        && a.turbo == b.turbo
}

#[test]
fn stored_entries_load_back() {
    let e = sample();
    let bytes = store_rune_entry(&e);
    let back = load_rune_entry(&bytes).unwrap();
    assert!(same(&back, &e));
    // Bytes after an entry are ignored.
    let mut longer = bytes.clone();
    longer.extend([1, 2, 3]);
    assert!(same(&load_rune_entry(&longer).unwrap(), &e));
    let mut plain = sample();
    plain.symbol = None;
    plain.terms = None;
    plain.inscription_id = None;
    plain.turbo = false;
    let back = load_rune_entry(&store_rune_entry(&plain)).unwrap();
    assert!(same(&back, &plain));
}

#[test]
fn stored_layout_starts_with_the_numbers_and_the_etching_text() {
    let bytes = store_rune_entry(&sample());
    assert_eq!(&bytes[0..8], &840000u64.to_le_bytes());
    assert_eq!(&bytes[8..24], &5u128.to_le_bytes());
    assert_eq!(bytes[24], 2);
    assert_eq!(&bytes[25..29], &64u32.to_le_bytes());
    let text = std::str::from_utf8(&bytes[29..93]).unwrap();
    assert!(text.starts_with("01"));
    assert!(text.ends_with("ab"));
    assert_eq!(*bytes.last().unwrap(), 1);
}

#[test]
fn malformed_entries_are_refused() {
    let bytes = store_rune_entry(&sample());
    assert!(load_rune_entry(&bytes[..bytes.len() - 1]).is_none());
    let mut bad_flag = bytes.clone();
    let last = bad_flag.len() - 1;
    bad_flag[last] = 2;
    assert!(load_rune_entry(&bad_flag).is_none());
    let mut bad_hex = bytes.clone();
    bad_hex[29] = b'z';
    assert!(load_rune_entry(&bad_hex).is_none());
    assert!(load_rune_entry(&[]).is_none());
}
