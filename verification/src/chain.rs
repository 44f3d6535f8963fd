use vstd::prelude::*;
use vstd::string::*;

verus! {

/// The Bitcoin networks the indexer can follow.
#[derive(Clone, Copy, Debug, PartialEq, Eq, Structural)]
pub enum Chain {
    Mainnet,
    Testnet,
    Testnet4,
    Signet,
    Regtest,
}

/// Error returned when a chain name is not recognised.
#[derive(Clone, Debug)]
pub enum ChainError {
    InvalidChain { chain: String },
}

/// The canonical lower-case name of a chain.
pub open spec fn chain_name(c: Chain) -> Seq<char> {
    match c {
        Chain::Mainnet => seq!['m', 'a', 'i', 'n', 'n', 'e', 't'],
        Chain::Regtest => seq!['r', 'e', 'g', 't', 'e', 's', 't'],
        Chain::Signet => seq!['s', 'i', 'g', 'n', 'e', 't'],
        Chain::Testnet => seq!['t', 'e', 's', 't', 'n', 'e', 't'],
        Chain::Testnet4 => seq!['t', 'e', 's', 't', 'n', 'e', 't', '4'],
    }
}

/// The chain whose name is `s`, if any.
pub open spec fn chain_of_name(s: Seq<char>) -> Option<Chain> {
    if s == chain_name(Chain::Mainnet) {
        Some(Chain::Mainnet)
    } else if s == chain_name(Chain::Regtest) {
        Some(Chain::Regtest)
    } else if s == chain_name(Chain::Signet) {
        Some(Chain::Signet)
    } else if s == chain_name(Chain::Testnet) {
        Some(Chain::Testnet)
    } else if s == chain_name(Chain::Testnet4) {
        Some(Chain::Testnet4)
    } else {
        None
    }
}

/// Height of the first block at which runes may be etched, as ordinals defines it
/// (`SUBSIDY_HALVING_INTERVAL` is 210000 blocks).
pub open spec fn spec_first_rune_height(c: Chain) -> u32 {
    match c {
        Chain::Mainnet => 840000,
        Chain::Testnet => 2520000,
        _ => 0,
    }
}

/// Whether the characters of `s` are exactly `expected`.
fn str_matches(s: &str, expected: &[char]) -> (b: bool)
    ensures
        b == (s@ == expected@),
{
    let n = s.unicode_len();
    if n != expected.len() {
        return false;
    }
    let mut i: usize = 0;
    while i < n
        invariant
            n == s@.len(),
            n == expected@.len(),
            i <= n,
            forall|j: int| 0 <= j < i ==> s@[j] == expected@[j],
        decreases n - i,
    {
        if s.get_char(i) != expected[i] {
            return false;
        }
        i = i + 1;
    }
    assert(s@ =~= expected@);
    true
}

impl Chain {
    /// Parses a chain from its canonical name.
    pub fn parse_name(s: &str) -> (r: Result<Chain, ChainError>)
        ensures
            chain_of_name(s@) is Some ==> r == Ok::<Chain, ChainError>(chain_of_name(s@)->0),
            chain_of_name(s@) is None ==> (r matches Err(ChainError::InvalidChain { chain })
                && chain@ == s@),
    {
        if str_matches(s, &['m', 'a', 'i', 'n', 'n', 'e', 't']) {
            Ok(Chain::Mainnet)
        } else if str_matches(s, &['r', 'e', 'g', 't', 'e', 's', 't']) {
            Ok(Chain::Regtest)
        } else if str_matches(s, &['s', 'i', 'g', 'n', 'e', 't']) {
            Ok(Chain::Signet)
        } else if str_matches(s, &['t', 'e', 's', 't', 'n', 'e', 't']) {
            Ok(Chain::Testnet)
        } else if str_matches(s, &['t', 'e', 's', 't', 'n', 'e', 't', '4']) {
            Ok(Chain::Testnet4)
        } else {
            Err(ChainError::InvalidChain { chain: s.to_owned() })
        }
    }

    /// The canonical name of the chain.
    pub fn name(self) -> (s: String)
        ensures
            s@ == chain_name(self),
    {
        let s = match self {
            Chain::Mainnet => String::from_str("mainnet"),
            Chain::Regtest => String::from_str("regtest"),
            Chain::Signet => String::from_str("signet"),
            Chain::Testnet => String::from_str("testnet"),
            Chain::Testnet4 => String::from_str("testnet4"),
        };
        proof {
            reveal_strlit("mainnet");
            reveal_strlit("regtest");
            reveal_strlit("signet");
            reveal_strlit("testnet");
            reveal_strlit("testnet4");
        }
        s
    }

    /// The default chain is mainnet.
    pub fn default_chain() -> (c: Chain)
        ensures
            c == Chain::Mainnet,
    {
        Chain::Mainnet
    }
}

impl ChainError {
    /// The human-readable message of the error.
    pub fn message(&self) -> (s: String)
        ensures
            match self {
                ChainError::InvalidChain { chain } => s@ == seq![
                    'I', 'n', 'v', 'a', 'l', 'i', 'd', ' ', 'c', 'h', 'a', 'i', 'n', ' ', '`',
                ] + chain@ + seq!['`'],
            },
    {
        match self {
            ChainError::InvalidChain { chain } => {
                let mut s = String::from_str("Invalid chain `");
                s.append(chain.as_str());
                s.append("`");
                proof {
                    reveal_strlit("Invalid chain `");
                    reveal_strlit("`");
                }
                s
            },
        }
    }
}

impl std::str::FromStr for Chain {
    type Err = ChainError;

    fn from_str(s: &str) -> (r: Result<Chain, ChainError>)
        ensures
            chain_of_name(s@) is Some ==> r == Ok::<Chain, ChainError>(chain_of_name(s@)->0),
            chain_of_name(s@) is None ==> (r matches Err(ChainError::InvalidChain { chain })
                && chain@ == s@),
    {
        Chain::parse_name(s)
    }
}

} // verus!
