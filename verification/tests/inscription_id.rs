use titan::{InscriptionId, ParseError, Txid};

fn inscription_id(n: u32) -> InscriptionId {
    let hex = format!("{n:x}");

    if hex.is_empty() || hex.len() > 1 {
        panic!();
    }

    format!("{}i{n}", hex.repeat(64)).parse().unwrap()
}

fn txid(n: u32) -> Txid {
    let hex = format!("{n:x}");

    if hex.is_empty() || hex.len() > 1 {
        panic!();
    }

    Txid::from_hex(&hex.repeat(64)).unwrap()
}

fn same(a: &InscriptionId, b: &InscriptionId) -> bool {
    a.txid.bytes == b.txid.bytes && a.index == b.index
}

#[test]
fn display() {
    assert_eq!(
        inscription_id(1).to_string(),
        "1111111111111111111111111111111111111111111111111111111111111111i1",
    );
    assert_eq!(
        InscriptionId {
            txid: txid(1),
            index: 0,
        }
        .to_string(),
        "1111111111111111111111111111111111111111111111111111111111111111i0",
    );
    assert_eq!(
        InscriptionId {
            txid: txid(1),
            index: 0xFFFFFFFF,
        }
        .to_string(),
        "1111111111111111111111111111111111111111111111111111111111111111i4294967295",
    );
}

#[test]
fn inscription_id_from_str() {
    assert!(same(
        &"1111111111111111111111111111111111111111111111111111111111111111i1"
            .parse::<InscriptionId>()
            .unwrap(),
        &inscription_id(1),
    ));
    assert!(same(
        &"1111111111111111111111111111111111111111111111111111111111111111i4294967295"
            .parse::<InscriptionId>()
            .unwrap(),
        &InscriptionId {
            txid: txid(1),
            index: 0xFFFFFFFF,
        },
    ));
    assert!(same(
        &"1111111111111111111111111111111111111111111111111111111111111111i4294967295"
            .parse::<InscriptionId>()
            .unwrap(),
        &InscriptionId {
            txid: txid(1),
            index: 0xFFFFFFFF,
        },
    ));
}

#[test]
fn txid_text_is_byte_reversed_hex() {
    let mut bytes = [0u8; 32];
    bytes[0] = 0xab;
    bytes[31] = 0x01;
    let id = InscriptionId {
        txid: Txid { bytes },
        index: 7,
    };
    let text = id.to_string();
    assert!(text.starts_with("01"));
    assert!(text.ends_with("abi7"));
    let back: InscriptionId = text.parse().unwrap();
    assert!(same(&back, &id));
    // Upper-case digits are read too.
    let upper = text.to_uppercase().replace('I', "i");
    assert!(same(&upper.parse::<InscriptionId>().unwrap(), &id));
}

#[test]
fn parse_errors_are_told_apart() {
    let good = "1111111111111111111111111111111111111111111111111111111111111111";
    assert!(matches!(
        format!("{good}i1é").parse::<InscriptionId>(),
        Err(ParseError::Character('é'))
    ));
    assert!(matches!(
        "abc".parse::<InscriptionId>(),
        Err(ParseError::Length(3))
    ));
    assert!(matches!(
        format!("{good}x1").parse::<InscriptionId>(),
        Err(ParseError::Separator('x'))
    ));
    let bad_txid = good.replacen('1', "g", 1);
    assert!(matches!(
        format!("{bad_txid}i1").parse::<InscriptionId>(),
        Err(ParseError::Txid(_))
    ));
    assert!(matches!(
        format!("{good}i4294967296").parse::<InscriptionId>(),
        Err(ParseError::Index(_))
    ));
    assert!(matches!(
        format!("{good}i+5").parse::<InscriptionId>().map(|id| id.index),
        Ok(5)
    ));
}
