use titan::{
    choose_mempool_transactions, detect_reorg_next, detect_reorg_start, get_purge_info,
    is_chain_synced, reorg_rollback, should_clear_notifications, BlockCacheSettings, BlockHash,
    Chain, MempoolCacheSettings, Options, ReadCacheSettings, ReorgError, ReorgStep, RpcAuth,
    RpcClientPool, RpcClientPoolError, RpcClientProvider, Settings, SubscriptionConfig, from_provider,
    TransactionUpdaterSettings, Txid, TxidSet, UpdaterCacheSettings, needs_tip_check, tip_matches,
    tx_notices, IndexState, Store, TransactionChangeSet, TransactionData,
};

fn hash(b: u8) -> BlockHash {
    BlockHash { bytes: [b; 32] }
}

fn txid(b: u8) -> Txid {
    Txid { bytes: [b; 32] }
}

#[test]
fn synced_only_at_the_same_tip_and_hash() {
    assert!(is_chain_synced(10, 10, Some(hash(1)), &hash(1)));
    assert!(!is_chain_synced(10, 10, Some(hash(2)), &hash(1)));
    assert!(!is_chain_synced(10, 10, None, &hash(1)));
    assert!(!is_chain_synced(9, 10, Some(hash(1)), &hash(1)));
    // The genesis block needs no hash.
    assert!(is_chain_synced(0, 0, None, &hash(1)));
}

#[test]
fn matching_parent_is_no_reorg() {
    assert!(matches!(
        detect_reorg_start(100, &hash(5), Some(hash(5)), 6),
        ReorgStep::Done(Ok(()))
    ));
    assert!(matches!(
        detect_reorg_start(100, &hash(5), None, 6),
        ReorgStep::Done(Ok(()))
    ));
    assert!(matches!(
        detect_reorg_start(0, &hash(5), Some(hash(4)), 6),
        ReorgStep::Done(Ok(()))
    ));
}

#[test]
fn reorg_is_found_at_the_first_common_block() {
    let step = detect_reorg_start(100, &hash(5), Some(hash(4)), 6);
    let (h, d) = match step {
        ReorgStep::Compare {
            height_to_check,
            depth,
        } => (height_to_check, depth),
        _ => panic!("expected a comparison"),
    };
    assert_eq!((h, d), (99, 1));
    let step = detect_reorg_next(100, d, 6, &hash(1), &hash(2));
    let d = match step {
        ReorgStep::Compare {
            height_to_check,
            depth,
        } => {
            assert_eq!(height_to_check, 98);
            depth
        }
        _ => panic!("expected a comparison"),
    };
    match detect_reorg_next(100, d, 6, &hash(3), &hash(3)) {
        ReorgStep::Done(Err(ReorgError::Recoverable { height, depth })) => {
            assert_eq!((height, depth), (100, 2));
        }
        _ => panic!("expected a recoverable reorg"),
    }
}

#[test]
fn reorg_deeper_than_the_limit_is_unrecoverable() {
    assert!(matches!(
        detect_reorg_next(100, 5, 6, &hash(1), &hash(2)),
        ReorgStep::Done(Err(ReorgError::Unrecoverable))
    ));
    assert!(matches!(
        detect_reorg_start(100, &hash(5), Some(hash(4)), 1),
        ReorgStep::Done(Err(ReorgError::Unrecoverable))
    ));
}

#[test]
fn rollback_reverts_the_blocks_above_the_common_one() {
    let (count, heights) = reorg_rollback(100, 3);
    assert_eq!(count, 98);
    assert_eq!(heights, vec![99, 98]);
    let (count, heights) = reorg_rollback(5, 1);
    assert_eq!(count, 5);
    assert!(heights.is_empty());
}

#[test]
fn notifications_are_cleared_far_below_the_tip() {
    assert!(should_clear_notifications(100, 50, 6));
    assert!(!should_clear_notifications(100, 94, 6));
    assert!(should_clear_notifications(100, 93, 6));
}

#[test]
fn new_mempool_transactions_are_split() {
    let mut pre = TxidSet::new();
    pre.insert(txid(1));
    let mut received = TxidSet::new();
    received.insert(txid(2));
    received.insert(txid(9));
    let (to_index, to_fetch) =
        choose_mempool_transactions(&vec![txid(1), txid(2), txid(3), txid(4)], &pre, &received);
    assert_eq!(to_index.len(), 1);
    assert_eq!(to_index[0].bytes, [2; 32]);
    assert_eq!(to_fetch.len(), 2);
    assert_eq!(to_fetch[0].bytes, [3; 32]);
    assert_eq!(to_fetch[1].bytes, [4; 32]);
}

#[test]
fn purge_keeps_the_recoverable_blocks() {
    let info = get_purge_info(Some(100), 40, 6).unwrap();
    assert_eq!(info.from_block_height_to_purge, 40);
    assert_eq!(info.to_block_height_to_purge, 94);
    assert!(get_purge_info(Some(5), 0, 6).is_none());
    assert!(get_purge_info(None, 0, 6).is_none());
    assert_eq!(
        get_purge_info(Some(6), 0, 6).unwrap().to_block_height_to_purge,
        0
    );
}

fn options() -> Options {
    Options {
        bitcoin_rpc_password: None,
        bitcoin_rpc_url: "http://localhost:8332".to_string(),
        bitcoin_rpc_username: Some("alice".to_string()),
        bitcoin_rpc_limit: 12,
        bitcoin_rpc_pool_size: 500,
        chain: Chain::Regtest,
        config: None,
        cookie_file: None,
        data_dir: "./data".to_string(),
        no_index_inscriptions: false,
        index_bitcoin_transactions: true,
        index_spent_outputs: true,
        index_addresses: true,
        commit_interval: 50,
        enable_zmq_listener: false,
        zmq_endpoint: "tcp://127.0.0.1:28332".to_string(),
        http_listen: "0.0.0.0:3030".to_string(),
        csp_origin: None,
        decompress: false,
        main_loop_interval: 500,
        enable_webhook_subscriptions: false,
        enable_tcp_subscriptions: true,
        tcp_address: "127.0.0.1:8080".to_string(),
        enable_file_logging: false,
    }
}

#[test]
fn authentication_prefers_the_cookie_file() {
    let mut o = options();
    match o.get_bitcoin_rpc_auth() {
        RpcAuth::UserPass(user, password) => {
            assert_eq!(user, "alice");
            assert_eq!(password, "");
        }
        _ => panic!("expected a user name"),
    }
    o.bitcoin_rpc_password = Some("secret".to_string());
    match o.get_bitcoin_rpc_auth() {
        RpcAuth::UserPass(_, password) => assert_eq!(password, "secret"),
        _ => panic!("expected a user name"),
    }
    o.cookie_file = Some("/tmp/.cookie".to_string());
    match o.get_bitcoin_rpc_auth() {
        RpcAuth::CookieFile(path) => assert_eq!(path, "/tmp/.cookie"),
        _ => panic!("expected a cookie file"),
    }
    o.cookie_file = None;
    o.bitcoin_rpc_username = None;
    assert!(matches!(o.get_bitcoin_rpc_auth(), RpcAuth::NoAuth));
}

#[test]
fn cache_settings_follow_the_settings() {
    let settings = Settings::from_options(options(), 6);
    assert_eq!(settings.max_recoverable_reorg_depth(), 6);
    assert_eq!(settings.commit_interval, 50);
    let updater = UpdaterCacheSettings::new(&settings, true);
    assert!(updater.mempool);
    assert_eq!(updater.max_recoverable_reorg_depth, 6);
    assert_eq!(updater.max_async_batches, 8);
    assert_eq!(updater.read_cache.txouts, 100_000);
    assert_eq!(updater.chain, Chain::Regtest);
    let block = BlockCacheSettings::new(&settings);
    assert_eq!(block.rune_cache_size, 1000);
    assert_eq!(block.outpoint_cache_size, 10_000_000);
    assert!(block.index_addresses);
    assert_eq!(block.bg_writer_settings().max_async_batches, 8);
    let mempool = MempoolCacheSettings::new(&settings);
    assert!(mempool.index_addresses);
    let tx = TransactionUpdaterSettings::from_settings(&settings);
    assert!(tx.index_bitcoin_transactions);
    let read = ReadCacheSettings::default();
    assert_eq!(read.transactions, 16_384);
    assert_eq!(read.blocks, 4_096);
    let subs = SubscriptionConfig::from_options(options());
    assert!(subs.enable_tcp_subscriptions);
    assert_eq!(subs.tcp_address, "127.0.0.1:8080");
}

struct Counter;

impl RpcClientProvider<u32> for Counter {
    fn get_new_rpc_client(&self) -> Result<u32, String> {
        Ok(99)
    }
}

struct Broken;

impl RpcClientProvider<u32> for Broken {
    fn get_new_rpc_client(&self) -> Result<u32, String> {
        Err("no connection".to_string())
    }
}

#[test]
fn pool_reuses_idle_clients_and_keeps_at_most_its_capacity() {
    let mut pool: RpcClientPool<u32> = RpcClientPool::new(2);
    assert_eq!(pool.get(&Counter).unwrap(), 99);
    pool.release(1);
    pool.release(2);
    pool.release(3);
    assert_eq!(pool.len(), 2);
    assert_eq!(pool.get(&Broken).unwrap(), 1);
    assert_eq!(pool.get(&Broken).unwrap(), 2);
    match pool.get(&Broken) {
        Err(RpcClientPoolError::Provider(e)) => assert_eq!(e, "no connection"),
        _ => panic!("expected the provider's error"),
    }
}

fn tid(b: u8) -> Txid {
    Txid { bytes: [b; 32] }
}

#[test]
fn a_notification_round_checks_the_tip_only_when_something_changed() {
    let nothing = TransactionChangeSet { removed: TxidSet::new(), added: TxidSet::new() };
    assert!(!needs_tip_check(false, &nothing));
    let some = TransactionChangeSet { removed: TxidSet::new(), added: TxidSet::from_vec(&vec![tid(1)]) };
    assert!(needs_tip_check(false, &some));
    assert!(!needs_tip_check(true, &some));
    assert!(tip_matches(Some(800), 800));
    assert!(!tip_matches(Some(799), 800));
    assert!(!tip_matches(None, 800));
}

#[test]
fn removed_transactions_that_were_mined_are_not_reported_as_replaced() {
    let mut chain = IndexState::new(0);
    chain.transactions.insert(tid(2), TransactionData { input: vec![], output: vec![] });
    let store = Store { chain, mempool: IndexState::new(0) };
    let change = TransactionChangeSet {
        removed: TxidSet::from_vec(&vec![tid(1), tid(2)]),
        added: TxidSet::from_vec(&vec![tid(3)]),
    };
    let n = tx_notices(&store, &change);
    assert_eq!(n.replaced.len(), 1);
    assert_eq!(n.replaced[0].bytes, [1; 32]);
    assert_eq!(n.added.len(), 1);
    assert_eq!(n.added[0].bytes, [3; 32]);
    let (exists, not_exists) = store.partition_transactions_by_existence(&vec![tid(2), tid(5), tid(2)]);
    assert_eq!(exists.len(), 2);
    assert_eq!(not_exists.len(), 1);
}

#[test]
fn the_pool_passes_on_the_providers_own_error() {
    match from_provider::<u32>(Err("refused".to_string())) {
        Err(RpcClientPoolError::Provider(e)) => assert_eq!(e, "refused"),
        _ => panic!("expected the provider's error"),
    }
    assert!(matches!(from_provider::<u32>(Ok(4)), Ok(4)));
}
