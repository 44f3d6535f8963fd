use titan::{Chain, ChainError};

#[test]
fn chain_from_str() {
    assert_eq!("mainnet".parse::<Chain>().unwrap(), Chain::Mainnet);
    assert_eq!("regtest".parse::<Chain>().unwrap(), Chain::Regtest);
    assert_eq!("signet".parse::<Chain>().unwrap(), Chain::Signet);
    assert_eq!("testnet".parse::<Chain>().unwrap(), Chain::Testnet);
    assert_eq!("testnet4".parse::<Chain>().unwrap(), Chain::Testnet4);
    assert_eq!(
        "foo".parse::<Chain>().unwrap_err().message(),
        "Invalid chain `foo`"
    );
}

#[test]
fn chain_names_round_trip() {
    for chain in [
        Chain::Mainnet,
        Chain::Testnet,
        Chain::Testnet4,
        Chain::Signet,
        Chain::Regtest,
    ] {
        assert_eq!(chain.name().parse::<Chain>().unwrap(), chain);
    }
}

#[test]
fn chain_error_keeps_input() {
    match Chain::parse_name("Mainnet") {
        Err(ChainError::InvalidChain { chain }) => assert_eq!(chain, "Mainnet"),
        Ok(_) => panic!("upper-case names are not chain names"),
    }
}
