use vstd::prelude::*;
use crate::sync::ReorgError;

verus! {

/// Where a run that brings the index up to the node's tip stands.
#[derive(Clone, Copy, Debug)]
pub enum SyncPhase {
    /// Waiting for the node's tip, and whether the index is synced with it.
    CheckTip,
    /// Waiting for the next fetched block, or for the end of the fetch.
    Receive,
    /// Waiting for the outcome of the reorganisation check of the received block.
    Reorg,
    /// Waiting for the received block to be indexed.
    Index,
    /// Waiting for the last flush; then the run stops.
    Finishing,
    /// The run is over.
    Done,
}

/// The decisions of a run that brings the index up to the node's tip.
#[derive(Clone, Copy, Debug)]
pub struct SyncState {
    pub phase: SyncPhase,
    /// Whether the updater is at the node's tip; it outlives a run.
    pub at_tip: bool,
    /// Whether the updater was at the tip when the current fetch began.
    pub was_at_tip: bool,
    /// Whether no block has been indexed in this run yet.
    pub first_block: bool,
    /// The number of indexed blocks.
    pub block_count: u64,
    /// The node's block count at the last look at its tip.
    pub node_blocks: u64,
    /// Blocks indexed since the last flush.
    pub unflushed: u64,
    /// The number of blocks after which the index is flushed.
    pub commit_interval: u64,
    /// The deepest reorganisation that can be undone.
    pub max_depth: u64,
}

/// What the outside world reports to a run.
#[derive(Clone, Copy, Debug)]
pub enum SyncEvent {
    /// The node's block count, and whether the index is synced with the node's tip.
    Tip { synced: bool, node_blocks: u64 },
    /// The fetch handed over its next block; `shutdown` is whether a shutdown was asked for.
    BlockReceived { shutdown: bool },
    /// The fetch has no more blocks; `shutdown` is whether a shutdown was asked for.
    NoMoreBlocks { shutdown: bool },
    /// The outcome of the reorganisation check of the received block.
    ReorgChecked(Result<(), ReorgError>),
    /// The received block was indexed.
    BlockIndexed,
    /// The last flush was done; `shutdown` is whether a shutdown was asked for.
    Finished { shutdown: bool },
}

/// What a run asks the outside world to do next.
#[derive(Clone, Copy, Debug)]
pub enum SyncAction {
    /// Fetch the blocks at heights `from` through `through`, in order.
    Fetch { from: u64, through: u64 },
    /// Look at the node's tip again.
    FetchTip,
    /// Check whether the received block, at `height`, extends the indexed chain.
    CheckReorg { height: u64 },
    /// Index the received block at `height`.
    IndexBlock { height: u64 },
    /// A block was indexed: flush the index when `flush`, drop pending transaction
    /// notifications when `clear_notifications`, then wait for the next block.
    AfterBlock { flush: bool, clear_notifications: bool },
    /// Undo the reorganisation found `depth` blocks below `height`, report it, and end the
    /// run with it as an error.
    HandleReorg { height: u64, depth: u64 },
    /// End the run with an unrecoverable reorganisation.
    Fail,
    /// Flush the index when `flush`, then report whether a shutdown was asked for.
    Finish { flush: bool },
    /// The run is over; leave bulk loading when `leave_bulk_load`.
    Stop { leave_bulk_load: bool },
    /// The event does not fit the phase: nothing to do.
    Ignore,
}

impl SyncState {
    /// A run that starts with `block_count` indexed blocks, the updater at the tip or not.
    pub fn start(at_tip: bool, block_count: u64, commit_interval: u64, max_depth: u64) -> (s: SyncState)
        ensures
            s == (SyncState {
                phase: SyncPhase::CheckTip,
                at_tip,
                was_at_tip: at_tip,
                first_block: true,
                block_count,
                node_blocks: 0,
                unflushed: 0,
                commit_interval,
                max_depth,
            }),
            s.wf(),
    {
        SyncState {
            phase: SyncPhase::CheckTip,
            at_tip,
            was_at_tip: at_tip,
            first_block: true,
            block_count,
            node_blocks: 0,
            unflushed: 0,
            commit_interval,
            max_depth,
        }
    }

    /// Fewer blocks than the commit interval are held unflushed, or none.
    pub open spec fn wf(self) -> bool {
        self.unflushed == 0 || self.unflushed < self.commit_interval
    }
}

/// The state and action that end a run's fetching: the last flush, when a block was indexed.
pub open spec fn finishing(s: SyncState) -> (SyncState, SyncAction) {
    (SyncState { phase: SyncPhase::Finishing, ..s }, SyncAction::Finish { flush: !s.first_block })
}

/// The state left as it is, and nothing to do.
pub open spec fn ignored(s: SyncState) -> (SyncState, SyncAction) {
    (s, SyncAction::Ignore)
}

/// The transition table of a run.
pub open spec fn spec_sync_step(s: SyncState, e: SyncEvent) -> (SyncState, SyncAction) {
    match e {
        SyncEvent::Tip { synced, node_blocks } => if s.phase is CheckTip {
            if synced {
                finishing(s)
            } else {
                (
                    SyncState {
                        phase: SyncPhase::Receive,
                        was_at_tip: s.at_tip,
                        at_tip: false,
                        node_blocks,
                        ..s
                    },
                    SyncAction::Fetch { from: s.block_count, through: node_blocks },
                )
            }
        } else {
            ignored(s)
        },
        SyncEvent::BlockReceived { shutdown } => if s.phase is Receive {
            if shutdown {
                finishing(s)
            } else if s.was_at_tip || s.first_block {
                (SyncState { phase: SyncPhase::Reorg, ..s }, SyncAction::CheckReorg { height: s.block_count })
            } else {
                (SyncState { phase: SyncPhase::Index, ..s }, SyncAction::IndexBlock { height: s.block_count })
            }
        } else {
            ignored(s)
        },
        SyncEvent::NoMoreBlocks { shutdown } => if s.phase is Receive {
            if shutdown {
                finishing(s)
            } else {
                (SyncState { phase: SyncPhase::CheckTip, ..s }, SyncAction::FetchTip)
            }
        } else {
            ignored(s)
        },
        SyncEvent::ReorgChecked(r) => if s.phase is Reorg {
            match r {
                Ok(()) => (SyncState { phase: SyncPhase::Index, ..s }, SyncAction::IndexBlock { height: s.block_count }),
                Err(ReorgError::Recoverable { height, depth }) => (
                    SyncState { phase: SyncPhase::Done, ..s },
                    SyncAction::HandleReorg { height, depth },
                ),
                Err(ReorgError::Unrecoverable) => (SyncState { phase: SyncPhase::Done, ..s }, SyncAction::Fail),
            }
        } else {
            ignored(s)
        },
        SyncEvent::BlockIndexed => if s.phase is Index {
            let flush = s.unflushed + 1 >= s.commit_interval;
            (
                SyncState {
                    phase: SyncPhase::Receive,
                    first_block: false,
                    block_count: (s.block_count + 1) as u64,
                    unflushed: if flush { 0 } else { (s.unflushed + 1) as u64 },
                    ..s
                },
                SyncAction::AfterBlock {
                    flush,
                    clear_notifications: s.node_blocks - s.block_count > s.max_depth,
                },
            )
        } else {
            ignored(s)
        },
        SyncEvent::Finished { shutdown } => if s.phase is Finishing {
            (
                SyncState { phase: SyncPhase::Done, at_tip: if shutdown { s.at_tip } else { true }, ..s },
                SyncAction::Stop { leave_bulk_load: !shutdown && !s.at_tip },
            )
        } else {
            ignored(s)
        },
    }
}

/// The state after a run takes `events` in order, starting from `s`.
pub open spec fn sync_run(s: SyncState, events: Seq<SyncEvent>) -> SyncState
    decreases events.len(),
{
    if events.len() == 0 {
        s
    } else {
        sync_run(spec_sync_step(s, events[0]).0, events.drop_first())
    }
}

/// Whatever events a run takes, fewer blocks than the commit interval stay unflushed (or
/// none): the index is flushed each time the commit interval is reached.
pub proof fn lemma_sync_run_keeps_flush_bound(s: SyncState, events: Seq<SyncEvent>)
    requires
        s.wf(),
    ensures
        sync_run(s, events).wf(),
    decreases events.len(),
{
    if events.len() > 0 {
        lemma_sync_step_keeps_flush_bound(s, events[0]);
        lemma_sync_run_keeps_flush_bound(spec_sync_step(s, events[0]).0, events.drop_first());
    }
}

/// One step keeps fewer blocks than the commit interval unflushed (or none).
pub proof fn lemma_sync_step_keeps_flush_bound(s: SyncState, e: SyncEvent)
    requires
        s.wf(),
    ensures
        spec_sync_step(s, e).0.wf(),
{
}

/// A run that is over takes no more events: every event leaves it as it is, with nothing to
/// do.
pub proof fn lemma_sync_done_is_final(s: SyncState, events: Seq<SyncEvent>)
    requires
        s.phase is Done,
    ensures
        sync_run(s, events) == s,
        events.len() > 0 ==> spec_sync_step(s, events[0]) == (s, SyncAction::Ignore),
    decreases events.len(),
{
    if events.len() > 0 {
        lemma_sync_done_is_final(s, events.drop_first());
    }
}

/// Blocks are indexed one at a time at consecutive heights: the block to index is always the
/// one at the indexed block count, and only an indexed block moves the count, by one.
pub proof fn lemma_sync_indexes_consecutive_heights(s: SyncState, e: SyncEvent)
    requires
        sync_event_fits(s, e),
    ensures
        spec_sync_step(s, e).1 is IndexBlock ==> spec_sync_step(s, e).1->IndexBlock_height
            == s.block_count,
        spec_sync_step(s, e).0.block_count == if e is BlockIndexed && s.phase is Index {
            s.block_count + 1
        } else {
            s.block_count as int
        },
{
}

/// A received block is checked for a reorganisation only when it is the first of the run or
/// when the updater was at the tip as the fetch began; the check is at the indexed block count.
pub proof fn lemma_sync_reorg_checks(s: SyncState, e: SyncEvent)
    ensures
        spec_sync_step(s, e).1 is CheckReorg ==> (s.was_at_tip || s.first_block)
            && spec_sync_step(s, e).1->CheckReorg_height == s.block_count,
        (e is BlockReceived && s.phase is Receive && !e->BlockReceived_shutdown && (s.was_at_tip
            || s.first_block)) ==> spec_sync_step(s, e).1 is CheckReorg,
{
}

/// The updater is marked at the tip only when a run ends without a shutdown, and a fetch
/// always starts with it marked away from the tip; the last flush happens exactly when the
/// run indexed a block.
pub proof fn lemma_sync_tip_marks(s: SyncState, e: SyncEvent)
    ensures
        (spec_sync_step(s, e).0.at_tip && !s.at_tip) ==> (e is Finished && !e->Finished_shutdown
            && spec_sync_step(s, e).1 is Stop),
        spec_sync_step(s, e).1 is Fetch ==> !spec_sync_step(s, e).0.at_tip,
        spec_sync_step(s, e).1 is Finish ==> spec_sync_step(s, e).1->Finish_flush == !s.first_block,
{
}

/// The events that a run in state `s` takes without leaving the machine's limits: an indexed
/// block lies at or below the node's tip, below the largest height.
pub open spec fn sync_event_fits(s: SyncState, e: SyncEvent) -> bool {
    (e is BlockIndexed && s.phase is Index) ==> s.block_count <= s.node_blocks && s.block_count
        < u64::MAX
}

/// Takes one event and gives the next state and what to do.
pub fn sync_step(state: &SyncState, event: SyncEvent) -> (r: (SyncState, SyncAction))
    requires
        state.wf(),
        sync_event_fits(*state, event),
    ensures
        r == spec_sync_step(*state, event),
        r.0.wf(),
{
    let s = *state;
    match event {
        SyncEvent::Tip { synced, node_blocks } => match s.phase {
            SyncPhase::CheckTip => if synced {
                (SyncState { phase: SyncPhase::Finishing, ..s }, SyncAction::Finish { flush: !s.first_block })
            } else {
                (
                    SyncState {
                        phase: SyncPhase::Receive,
                        was_at_tip: s.at_tip,
                        at_tip: false,
                        node_blocks,
                        ..s
                    },
                    SyncAction::Fetch { from: s.block_count, through: node_blocks },
                )
            },
            _ => (s, SyncAction::Ignore),
        },
        SyncEvent::BlockReceived { shutdown } => match s.phase {
            SyncPhase::Receive => if shutdown {
                (SyncState { phase: SyncPhase::Finishing, ..s }, SyncAction::Finish { flush: !s.first_block })
            } else if s.was_at_tip || s.first_block {
                (SyncState { phase: SyncPhase::Reorg, ..s }, SyncAction::CheckReorg { height: s.block_count })
            } else {
                (SyncState { phase: SyncPhase::Index, ..s }, SyncAction::IndexBlock { height: s.block_count })
            },
            _ => (s, SyncAction::Ignore),
        },
        SyncEvent::NoMoreBlocks { shutdown } => match s.phase {
            SyncPhase::Receive => if shutdown {
                (SyncState { phase: SyncPhase::Finishing, ..s }, SyncAction::Finish { flush: !s.first_block })
            } else {
                (SyncState { phase: SyncPhase::CheckTip, ..s }, SyncAction::FetchTip)
            },
            _ => (s, SyncAction::Ignore),
        },
        SyncEvent::ReorgChecked(r) => match s.phase {
            SyncPhase::Reorg => match r {
                Ok(()) => (SyncState { phase: SyncPhase::Index, ..s }, SyncAction::IndexBlock { height: s.block_count }),
                Err(ReorgError::Recoverable { height, depth }) => (
                    SyncState { phase: SyncPhase::Done, ..s },
                    SyncAction::HandleReorg { height, depth },
                ),
                Err(ReorgError::Unrecoverable) => (SyncState { phase: SyncPhase::Done, ..s }, SyncAction::Fail),
            },
            _ => (s, SyncAction::Ignore),
        },
        SyncEvent::BlockIndexed => match s.phase {
            SyncPhase::Index => {
                let pending: u64 = s.unflushed + 1;
                let flush = pending >= s.commit_interval;
                (
                    SyncState {
                        phase: SyncPhase::Receive,
                        first_block: false,
                        block_count: s.block_count + 1,
                        unflushed: if flush { 0 } else { pending },
                        ..s
                    },
                    SyncAction::AfterBlock {
                        flush,
                        clear_notifications: s.node_blocks - s.block_count > s.max_depth,
                    },
                )
            },
            _ => (s, SyncAction::Ignore),
        },
        SyncEvent::Finished { shutdown } => match s.phase {
            SyncPhase::Finishing => (
                SyncState { phase: SyncPhase::Done, at_tip: if shutdown { s.at_tip } else { true }, ..s },
                SyncAction::Stop { leave_bulk_load: !shutdown && !s.at_tip },
            ),
            _ => (s, SyncAction::Ignore),
        },
    }
}

} // verus!
