use vstd::prelude::*;
use crate::lookups::stored_on_chain;
use crate::store::Store;
use crate::transaction_update::TransactionChangeSet;
use crate::txid_set::TxidSet;
use crate::types::{BlockHash, Txid};

verus! {

/// Why the chain the node follows does not extend the indexed chain.
#[derive(Clone, Copy, Debug)]
pub enum ReorgError {
    /// The chains agree again `depth` blocks below `height`; the blocks above can be undone.
    Recoverable { height: u64, depth: u64 },
    /// The chains do not agree within the recoverable depth.
    Unrecoverable,
}

/// The next move when looking for a reorganisation: stop with an outcome, or compare the
/// indexed and the node's hashes at `height_to_check`, which is `depth` blocks down.
#[derive(Clone, Copy, Debug)]
pub enum ReorgStep {
    Done(Result<(), ReorgError>),
    Compare { height_to_check: u64, depth: u64 },
}

/// The step that looks `depth` blocks below `height`, or the end when `depth` reaches the
/// recoverable depth.
pub open spec fn step_at(height: u64, depth: int, max_depth: u64) -> ReorgStep {
    if depth < max_depth {
        ReorgStep::Compare {
            height_to_check: if height >= depth { (height - depth) as u64 } else { 0 },
            depth: depth as u64,
        }
    } else {
        ReorgStep::Done(Err(ReorgError::Unrecoverable))
    }
}

fn compare_at(height: u64, depth: u64, max_depth: u64) -> (s: ReorgStep)
    ensures
        s == step_at(height, depth as int, max_depth),
{
    if depth < max_depth {
        ReorgStep::Compare { height_to_check: height.saturating_sub(depth), depth }
    } else {
        ReorgStep::Done(Err(ReorgError::Unrecoverable))
    }
}

/// Starts checking whether block `height`, whose parent the node gives as `block_prev`,
/// extends the indexed chain, given the indexed hash at `height - 1` when the index has one.
/// Block 0 and blocks whose parent is unknown to the index or matches it extend it; otherwise
/// the search for the last common block starts one block down.
pub fn detect_reorg_start(
    height: u64,
    block_prev: &BlockHash,
    indexed_prev: Option<BlockHash>,
    max_depth: u64,
) -> (s: ReorgStep)
    ensures
        s == (if height == 0 || indexed_prev is None || indexed_prev->0@ == block_prev@ {
            ReorgStep::Done(Ok(()))
        } else {
            step_at(height, 1, max_depth)
        }),
{
    if height == 0 {
        return ReorgStep::Done(Ok(()));
    }
    match indexed_prev {
        Some(h) => if h.same(block_prev) {
            ReorgStep::Done(Ok(()))
        } else {
            compare_at(height, 1, max_depth)
        },
        None => ReorgStep::Done(Ok(())),
    }
}

/// Continues the search after comparing the hashes `depth` blocks below `height`: when the
/// index and the node agree there, the reorganisation is recoverable at that depth; otherwise
/// the search goes one block further down.
pub fn detect_reorg_next(
    height: u64,
    depth: u64,
    max_depth: u64,
    indexed: &BlockHash,
    node: &BlockHash,
) -> (s: ReorgStep)
    requires
        depth < max_depth,
    ensures
        s == (if indexed@ == node@ {
            ReorgStep::Done(Err(ReorgError::Recoverable { height, depth }))
        } else {
            step_at(height, depth + 1, max_depth)
        }),
{
    if indexed.same(node) {
        ReorgStep::Done(Err(ReorgError::Recoverable { height, depth }))
    } else {
        compare_at(height, depth + 1, max_depth)
    }
}

/// Whether the index is at the node's tip: the index's tip height equals the node's block
/// count and, unless both are at the genesis block, the indexed hash at that height (when
/// the index has one) is the node's best block hash.
pub fn is_chain_synced(
    tip_height: u64,
    node_blocks: u64,
    indexed_hash: Option<BlockHash>,
    best_block_hash: &BlockHash,
) -> (b: bool)
    ensures
        b == (tip_height == node_blocks && (node_blocks == 0 || (indexed_hash is Some
            && indexed_hash->0@ == best_block_hash@))),
{
    if tip_height != node_blocks {
        return false;
    }
    if tip_height == 0 && node_blocks == 0 {
        return true;
    }
    match indexed_hash {
        Some(h) => h.same(best_block_hash),
        None => false,
    }
}

/// Whether the tip is deep enough below the node's tip that pending transaction
/// notifications are dropped: more than `max_depth` blocks.
pub fn should_clear_notifications(node_blocks: u64, tip_height: u64, max_depth: u64) -> (b: bool)
    requires
        tip_height <= node_blocks,
    ensures
        b == (node_blocks - tip_height > max_depth),
{
    node_blocks - tip_height > max_depth
}

/// Undoing a recoverable reorganisation `depth` blocks deep at `height`: the block count
/// goes back to `height - depth + 1`, and the blocks at heights `height - 1` down to
/// `height - depth + 1` are reverted, in that order.
pub fn reorg_rollback(height: u64, depth: u64) -> (r: (u64, Vec<u64>))
    requires
        1 <= depth <= height,
    ensures
        r.0 == height - depth + 1,
        r.1@ == Seq::new((depth - 1) as nat, |i: int| (height - (i + 1)) as u64),
{
    let mut heights: Vec<u64> = Vec::new();
    let mut i: u64 = 1;
    while i < depth
        invariant
            1 <= i <= depth,
            depth <= height,
            heights@ == Seq::new((i - 1) as nat, |k: int| (height - (k + 1)) as u64),
        decreases depth - i,
    {
        heights.push(height - i);
        i = i + 1;
        assert(heights@ =~= Seq::new((i - 1) as nat, |k: int| (height - (k + 1)) as u64));
    }
    (height - depth + 1, heights)
}

/// The transactions of `s` that are not pre-indexed and, as `received` says, were or were not
/// received from the node's notifications, in order.
pub open spec fn select_new(s: Seq<Txid>, pre_indexed: Set<Txid>, received: Set<Txid>, want_received: bool) -> Seq<Txid>
    decreases s.len(),
{
    if s.len() == 0 {
        Seq::empty()
    } else {
        let rest = select_new(s.drop_last(), pre_indexed, received, want_received);
        let t = s.last();
        if !pre_indexed.contains(t) && received.contains(t) == want_received {
            rest.push(t)
        } else {
            rest
        }
    }
}

/// Splits new mempool transactions that were not submitted through the indexer into those
/// already received from the node's notifications, to index as received, and those to fetch.
pub fn choose_mempool_transactions(new_txs: &Vec<Txid>, pre_indexed: &TxidSet, received: &TxidSet) -> (r: (Vec<Txid>, Vec<Txid>))
    ensures
        r.0@ == select_new(new_txs@, pre_indexed@, received@, true),
        r.1@ == select_new(new_txs@, pre_indexed@, received@, false),
{
    let mut to_index: Vec<Txid> = Vec::new();
    let mut to_fetch: Vec<Txid> = Vec::new();
    let mut i: usize = 0;
    while i < new_txs.len()
        invariant
            i <= new_txs@.len(),
            to_index@ == select_new(new_txs@.take(i as int), pre_indexed@, received@, true),
            to_fetch@ == select_new(new_txs@.take(i as int), pre_indexed@, received@, false),
        decreases new_txs@.len() - i,
    {
        let t = new_txs[i];
        proof {
            assert(new_txs@.take(i + 1).drop_last() =~= new_txs@.take(i as int));
        }
        if !pre_indexed.contains(&t) {
            if received.contains(&t) {
                to_index.push(t);
            } else {
                to_fetch.push(t);
            }
        }
        i = i + 1;
    }
    proof {
        assert(new_txs@.take(new_txs@.len() as int) =~= new_txs@);
    }
    (to_index, to_fetch)
}


/// What a notification round tells subscribers: the transactions replaced, and the
/// transactions added. An empty list is not sent.
pub struct TxNotices {
    pub replaced: Vec<Txid>,
    pub added: Vec<Txid>,
}

/// Whether a notification round must first check the node's tip: outside a flush, when some
/// transaction entered or left.
pub fn needs_tip_check(flush: bool, change: &TransactionChangeSet) -> (b: bool)
    ensures
        b == (!flush && (change.removed@ != Set::<Txid>::empty() || change.added@ != Set::<Txid>::empty())),
{
    !flush && (!change.removed.is_empty() || !change.added.is_empty())
}

/// Whether the node's tip is consistent with the index: its best block is indexed
/// (`indexed_height` is that block's height), at the node's block count.
pub fn tip_matches(indexed_height: Option<u64>, node_blocks: u64) -> (b: bool)
    ensures
        b == (indexed_height == Some(node_blocks)),
{
    match indexed_height {
        Some(h) => h == node_blocks,
        None => false,
    }
}

/// The notices of a change set: as replaced, the removed transactions that the chain does
/// not store (those that left the mempool without being mined); as added, the added ones.
pub fn tx_notices(store: &Store, change: &TransactionChangeSet) -> (n: TxNotices)
    ensures
        forall|t: Txid| #[trigger] n.replaced@.contains(t) <==> (change.removed@.contains(t)
            && !stored_on_chain(store.chain@, t)),
        forall|t: Txid| #[trigger] n.added@.contains(t) <==> change.added@.contains(t),
        n.added@.no_duplicates(),
{
    broadcast use vstd::seq_lib::group_filter_ensures;

    let removed = change.removed.to_vec();
    let (_, replaced) = store.partition_transactions_by_existence(&removed);
    let added = change.added.to_vec();
    proof {
        let no = |t: Txid| !stored_on_chain(store.chain@, t);
        assert forall|t: Txid| #[trigger] replaced@.contains(t) <==> (change.removed@.contains(t)
            && !stored_on_chain(store.chain@, t)) by {
            if replaced@.contains(t) {
                removed@.lemma_filter_contains_rev(no, t);
                assert(removed@.to_set().contains(t));
                let j = choose|j: int| 0 <= j < replaced@.len() && replaced@[j] == t;
                assert(no(replaced@[j]));
            }
            if change.removed@.contains(t) && !stored_on_chain(store.chain@, t) {
                assert(removed@.to_set().contains(t));
                let i = choose|i: int| 0 <= i < removed@.len() && removed@[i] == t;
                assert(removed@.filter(no).contains(removed@[i]));
            }
        }
        assert forall|t: Txid| #[trigger] added@.contains(t) <==> change.added@.contains(t) by {
            assert(added@.to_set().contains(t) == added@.contains(t));
        }
    }
    TxNotices { replaced, added }
}

} // verus!
