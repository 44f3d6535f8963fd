use vstd::prelude::*;
use crate::chain::{spec_first_rune_height, Chain};
use crate::rune_entry::{spec_mintable, RuneEntry};
use crate::types::RuneId;

verus! {

/// Rune values at or above this one are reserved for runes etched without a name.
pub open spec fn reserved_threshold() -> u128 {
    6402364363415443603228541259936211926u128
}

/// The smallest rune name that may be etched at a height on a chain, as ordinals computes it.
pub uninterp spec fn minimum_rune(chain: Chain, height: u32) -> u128;

/// The value of the reserved rune that a nameless etching at `block`, `tx` gets.
pub open spec fn spec_reserved(block: u64, tx: u32) -> int {
    reserved_threshold() + block * 0x1_0000_0000int + tx
}

/// ordinals' `Rune::first_rune_height`: the first height at which runes are indexed on a chain.
#[verifier::external_body]
pub(crate) fn first_rune_height(chain: Chain) -> (h: u32)
    ensures
        h == spec_first_rune_height(chain),
{
    let network = match chain {
        Chain::Mainnet => bitcoin::Network::Bitcoin,
        Chain::Testnet => bitcoin::Network::Testnet,
        Chain::Testnet4 => bitcoin::Network::Testnet4,
        Chain::Signet => bitcoin::Network::Signet,
        Chain::Regtest => bitcoin::Network::Regtest,
    };
    ordinals::Rune::first_rune_height(network)
}

/// ordinals' `Rune::minimum_at_height`: the smallest rune name allowed at `height` on `chain`.
/// Its value is named, not stated.
#[verifier::external_body]
fn rune_minimum_at_height(chain: Chain, height: u32) -> (r: u128)
    ensures
        r == minimum_rune(chain, height),
{
    let network = match chain {
        Chain::Mainnet => bitcoin::Network::Bitcoin,
        Chain::Testnet => bitcoin::Network::Testnet,
        Chain::Testnet4 => bitcoin::Network::Testnet4,
        Chain::Signet => bitcoin::Network::Signet,
        Chain::Regtest => bitcoin::Network::Regtest,
    };
    ordinals::Rune::minimum_at_height(network, ordinals::Height(height)).0
}

/// ordinals' `Rune::is_reserved`: whether a rune value is in the reserved range.
#[verifier::external_body]
pub(crate) fn rune_is_reserved(rune: u128) -> (b: bool)
    ensures
        b == (rune >= reserved_threshold()),
{
    ordinals::Rune(rune).is_reserved()
}

/// ordinals' `Rune::reserved`: the reserved rune of a nameless etching at `block`, `tx`.
#[verifier::external_body]
fn rune_reserved(block: u64, tx: u32) -> (r: u128)
    ensures
        r == spec_reserved(block, tx),
{
    ordinals::Rune::reserved(block, tx).0
}

/// How a transaction is read for runes at some height.
#[derive(Clone, Copy, Debug)]
pub struct TransactionParser {
    pub height: u64,
    pub minimum_rune: u128,
    pub should_index_runes: bool,
    pub mempool: bool,
}

/// What a runestone or cenotaph says about etching: nothing, an etching with no name, or an
/// etching of a named rune.
#[derive(Clone, Copy, Debug)]
pub enum EtchingRequest {
    NoEtching,
    Unnamed,
    Named(u128),
}

/// The outcome of the checks on a named etching that need the index or the node.
#[derive(Clone, Copy, Debug)]
pub struct NamedEtchingChecks {
    /// The rune already has an id.
    pub already_exists: bool,
    /// The transaction commits to the rune in a sufficiently confirmed taproot input.
    pub commits: bool,
}

impl TransactionParser {
    /// A parser for transactions at `height` on `chain`, in the mempool or in a block.
    pub fn new(chain: Chain, height: u64, mempool: bool) -> (p: TransactionParser)
        ensures
            p.height == height,
            p.minimum_rune == minimum_rune(chain, height as u32),
            p.should_index_runes == (height >= spec_first_rune_height(chain)),
            p.mempool == mempool,
    {
        let minimum_rune = rune_minimum_at_height(chain, height as u32);
        let min_rune_height = first_rune_height(chain) as u64;
        TransactionParser {
            height,
            minimum_rune,
            should_index_runes: height >= min_rune_height,
            mempool,
        }
    }

    /// The rune a transaction etches, if any, with its id. Mempool transactions etch nothing.
    /// A named rune is etched only when it is new, not below the minimum name, not reserved,
    /// and committed to; a nameless etching gets the reserved rune of its position.
    pub fn etched(&self, tx_index: u32, request: EtchingRequest, checks: NamedEtchingChecks) -> (r:
        Option<(RuneId, u128)>)
        ensures
            r == spec_etched(*self, tx_index, request, checks),
            request is Named && r is Some ==> checks.commits && !checks.already_exists,
    {
        if self.mempool {
            return None;
        }
        let rune = match request {
            EtchingRequest::NoEtching => {
                return None;
            },
            EtchingRequest::Named(rune) => {
                if checks.already_exists {
                    return None;
                }
                if rune < self.minimum_rune || rune_is_reserved(rune) || !checks.commits {
                    return None;
                }
                rune
            },
            EtchingRequest::Unnamed => rune_reserved(self.height, tx_index),
        };
        Some((RuneId { block: self.height, tx: tx_index }, rune))
    }

    /// The amount a mint creates at this parser's height, given the entry of the minted rune
    /// when it has one.
    pub fn mint(&self, entry: Option<RuneEntry>) -> (r: Option<u128>)
        ensures
            r == match entry {
                None => None,
                Some(e) => match spec_mintable(e, self.height) {
                    Ok(a) => Some(a),
                    Err(_) => None,
                },
            },
    {
        match entry {
            None => None,
            Some(e) => match e.mintable(self.height) {
                Ok(a) => Some(a),
                Err(_) => None,
            },
        }
    }
}

/// The rune etched by a transaction, as `TransactionParser::etched` decides it.
pub open spec fn spec_etched(
    p: TransactionParser,
    tx_index: u32,
    request: EtchingRequest,
    checks: NamedEtchingChecks,
) -> Option<(RuneId, u128)> {
    if p.mempool {
        None
    } else {
        match request {
            EtchingRequest::NoEtching => None,
            EtchingRequest::Named(rune) => if checks.already_exists || rune < p.minimum_rune
                || rune >= reserved_threshold() || !checks.commits {
                None
            } else {
                Some((RuneId { block: p.height, tx: tx_index }, rune))
            },
            EtchingRequest::Unnamed => Some(
                (RuneId { block: p.height, tx: tx_index }, spec_reserved(p.height, tx_index) as u128),
            ),
        }
    }
}

/// A named rune is etched exactly when the transaction is in a block, the rune is new, not
/// below the minimum name, not reserved, and the transaction commits to it; it then gets the
/// id of the transaction's position and keeps its name.
pub proof fn lemma_named_etching_requires_commitment(
    p: TransactionParser,
    tx_index: u32,
    rune: u128,
    checks: NamedEtchingChecks,
)
    ensures
        spec_etched(p, tx_index, EtchingRequest::Named(rune), checks) is Some <==> (!p.mempool
            && checks.commits && !checks.already_exists && p.minimum_rune <= rune && rune
            < reserved_threshold()),
        spec_etched(p, tx_index, EtchingRequest::Named(rune), checks) is Some ==> spec_etched(
            p,
            tx_index,
            EtchingRequest::Named(rune),
            checks,
        ) == Some((RuneId { block: p.height, tx: tx_index }, rune)),
        !checks.commits ==> spec_etched(p, tx_index, EtchingRequest::Named(rune), checks) is None,
{
}

/// A transaction in a block that etches without a name gets the reserved rune of its position,
/// at the id of its position; nothing is etched in the mempool or without an etching.
pub proof fn lemma_unnamed_etching_gets_reserved_rune(
    p: TransactionParser,
    tx_index: u32,
    checks: NamedEtchingChecks,
)
    ensures
        !p.mempool ==> spec_etched(p, tx_index, EtchingRequest::Unnamed, checks) == Some(
            (RuneId { block: p.height, tx: tx_index }, spec_reserved(p.height, tx_index) as u128),
        ),
        p.mempool ==> spec_etched(p, tx_index, EtchingRequest::Unnamed, checks) is None,
        spec_etched(p, tx_index, EtchingRequest::NoEtching, checks) is None,
{
}

} // verus!
