use vstd::prelude::*;

verus! {

/// How a flush writes the pending updates.
#[derive(Clone, Copy, Debug, PartialEq, Eq, Structural)]
pub enum WriteMode {
    /// Nothing to write.
    Skip,
    /// Handed to the background writer.
    Background,
    /// Written at once.
    Direct,
}

/// What a flush of the indexing cache does, in order: purge the blocks that can no longer be
/// reorganized, write the updates, write the deletions, wait for the background writes, and
/// start over with an empty batch of updates.
#[derive(Clone, Copy, Debug)]
pub struct FlushPlan {
    pub purge: bool,
    pub write: WriteMode,
    pub delete: bool,
    pub wait_for_writes: bool,
    pub clear_update: bool,
}

/// The plan of a flush of the indexing cache, from whether it indexes the mempool, whether
/// the index is at the chain's tip, whether there are updates and deletions to write, whether
/// the background writer runs, and how many of its writes are pending. Updates go to the
/// background writer when it runs and blocks are indexed, and are written at once otherwise;
/// at the tip of the chain the old blocks are purged and the flush waits for the background
/// writes; the batch of updates is cleared unless, outside the tip, a background write is
/// still pending after the flush.
pub fn plan_flush(
    mempool: bool,
    at_tip: bool,
    update_empty: bool,
    delete_empty: bool,
    writer_running: bool,
    pending_writes: usize,
) -> (p: FlushPlan)
    ensures
        p.write == (if update_empty {
            WriteMode::Skip
        } else if !mempool && writer_running {
            WriteMode::Background
        } else {
            WriteMode::Direct
        }),
        p.purge == (!mempool && at_tip),
        p.wait_for_writes == (!mempool && at_tip),
        p.delete == !delete_empty,
        p.clear_update == (mempool || at_tip || p.write == WriteMode::Direct || (p.write
            != WriteMode::Background && pending_writes == 0)),
{
    let write = if update_empty {
        WriteMode::Skip
    } else if !mempool && writer_running {
        WriteMode::Background
    } else {
        WriteMode::Direct
    };
    let none_pending_after = match write {
        WriteMode::Background => false,
        _ => pending_writes == 0,
    };
    let direct = match write {
        WriteMode::Direct => true,
        _ => false,
    };
    FlushPlan {
        purge: !mempool && at_tip,
        write,
        delete: !delete_empty,
        wait_for_writes: !mempool && at_tip,
        clear_update: mempool || at_tip || direct || none_pending_after,
    }
}

} // verus!
