use titan::{sync_step, ReorgError, SyncAction, SyncEvent, SyncPhase, SyncState};

fn step(s: &SyncState, e: SyncEvent) -> (SyncState, SyncAction) {
    sync_step(s, e)
}

#[test]
fn sync_run_indexes_fetched_blocks_and_reaches_the_tip() {
    let s = SyncState::start(false, 5, 2, 6);
    let (s, a) = step(&s, SyncEvent::Tip { synced: false, node_blocks: 7 });
    assert!(matches!(a, SyncAction::Fetch { from: 5, through: 7 }));
    assert!(!s.at_tip);
    let (s, a) = step(&s, SyncEvent::BlockReceived { shutdown: false });
    assert!(matches!(a, SyncAction::CheckReorg { height: 5 }));
    let (s, a) = step(&s, SyncEvent::ReorgChecked(Ok(())));
    assert!(matches!(a, SyncAction::IndexBlock { height: 5 }));
    let (s, a) = step(&s, SyncEvent::BlockIndexed);
    assert!(matches!(a, SyncAction::AfterBlock { flush: false, clear_notifications: false }));
    assert_eq!(s.block_count, 6);
    assert_eq!(s.unflushed, 1);
    let (s, a) = step(&s, SyncEvent::BlockReceived { shutdown: false });
    assert!(matches!(a, SyncAction::IndexBlock { height: 6 }));
    let (s, a) = step(&s, SyncEvent::BlockIndexed);
    assert!(matches!(a, SyncAction::AfterBlock { flush: true, clear_notifications: false }));
    assert_eq!(s.unflushed, 0);
    let (s, a) = step(&s, SyncEvent::BlockReceived { shutdown: false });
    assert!(matches!(a, SyncAction::IndexBlock { height: 7 }));
    let (s, _) = step(&s, SyncEvent::BlockIndexed);
    assert_eq!(s.block_count, 8);
    let (s, a) = step(&s, SyncEvent::NoMoreBlocks { shutdown: false });
    assert!(matches!(a, SyncAction::FetchTip));
    let (s, a) = step(&s, SyncEvent::Tip { synced: true, node_blocks: 7 });
    assert!(matches!(a, SyncAction::Finish { flush: true }));
    let (s, a) = step(&s, SyncEvent::Finished { shutdown: false });
    assert!(matches!(a, SyncAction::Stop { leave_bulk_load: true }));
    assert!(s.at_tip);
    assert!(matches!(s.phase, SyncPhase::Done));
    let (s2, a) = step(&s, SyncEvent::BlockIndexed);
    assert!(matches!(a, SyncAction::Ignore));
    assert_eq!(s2.block_count, 8);
}

#[test]
fn sync_run_at_tip_stops_on_a_recoverable_reorg() {
    let s = SyncState::start(true, 10, 100, 6);
    let (s, a) = step(&s, SyncEvent::Tip { synced: false, node_blocks: 10 });
    assert!(matches!(a, SyncAction::Fetch { from: 10, through: 10 }));
    assert!(s.was_at_tip);
    let (s, a) = step(&s, SyncEvent::BlockReceived { shutdown: false });
    assert!(matches!(a, SyncAction::CheckReorg { height: 10 }));
    let (s, a) = step(
        &s,
        SyncEvent::ReorgChecked(Err(ReorgError::Recoverable { height: 10, depth: 2 })),
    );
    assert!(matches!(a, SyncAction::HandleReorg { height: 10, depth: 2 }));
    assert!(matches!(s.phase, SyncPhase::Done));
}

#[test]
fn sync_run_fails_on_an_unrecoverable_reorg() {
    let s = SyncState::start(false, 3, 100, 6);
    let (s, _) = step(&s, SyncEvent::Tip { synced: false, node_blocks: 9 });
    let (s, _) = step(&s, SyncEvent::BlockReceived { shutdown: false });
    let (s, a) = step(&s, SyncEvent::ReorgChecked(Err(ReorgError::Unrecoverable)));
    assert!(matches!(a, SyncAction::Fail));
    assert!(matches!(s.phase, SyncPhase::Done));
}

#[test]
fn sync_run_shutdown_before_any_block_skips_the_flush_and_the_tip_mark() {
    let s = SyncState::start(false, 3, 100, 6);
    let (s, _) = step(&s, SyncEvent::Tip { synced: false, node_blocks: 9 });
    let (s, a) = step(&s, SyncEvent::BlockReceived { shutdown: true });
    assert!(matches!(a, SyncAction::Finish { flush: false }));
    let (s, a) = step(&s, SyncEvent::Finished { shutdown: true });
    assert!(matches!(a, SyncAction::Stop { leave_bulk_load: false }));
    assert!(!s.at_tip);
}

#[test]
fn sync_run_far_from_the_tip_clears_notifications_and_flushes_each_block() {
    let s = SyncState::start(false, 0, 0, 6);
    let (s, _) = step(&s, SyncEvent::Tip { synced: false, node_blocks: 100 });
    let (s, a) = step(&s, SyncEvent::BlockReceived { shutdown: false });
    assert!(matches!(a, SyncAction::CheckReorg { height: 0 }));
    let (s, _) = step(&s, SyncEvent::ReorgChecked(Ok(())));
    let (s, a) = step(&s, SyncEvent::BlockIndexed);
    assert!(matches!(a, SyncAction::AfterBlock { flush: true, clear_notifications: true }));
    let (_, a) = step(&s, SyncEvent::BlockReceived { shutdown: false });
    assert!(matches!(a, SyncAction::IndexBlock { height: 1 }));
}

#[test]
fn sync_run_already_synced_leaves_bulk_load_once() {
    let s = SyncState::start(true, 4, 100, 6);
    let (s, a) = step(&s, SyncEvent::Tip { synced: true, node_blocks: 4 });
    assert!(matches!(a, SyncAction::Finish { flush: false }));
    let (s, a) = step(&s, SyncEvent::Finished { shutdown: false });
    assert!(matches!(a, SyncAction::Stop { leave_bulk_load: false }));
    assert!(s.at_tip);
}
