use vstd::prelude::*;
use crate::chain::Chain;

verus! {

/// How the indexer authenticates to Bitcoin Core's RPC interface.
#[derive(Clone, Debug)]
pub enum RpcAuth {
    NoAuth,
    UserPass(String, String),
    CookieFile(String),
}

/// The command-line options of the indexer, paths held as text.
#[derive(Clone, Debug)]
pub struct Options {
    pub bitcoin_rpc_password: Option<String>,
    pub bitcoin_rpc_url: String,
    pub bitcoin_rpc_username: Option<String>,
    pub bitcoin_rpc_limit: u32,
    pub bitcoin_rpc_pool_size: u32,
    pub chain: Chain,
    pub config: Option<String>,
    pub cookie_file: Option<String>,
    pub data_dir: String,
    pub no_index_inscriptions: bool,
    pub index_bitcoin_transactions: bool,
    pub index_spent_outputs: bool,
    pub index_addresses: bool,
    pub commit_interval: u64,
    pub enable_zmq_listener: bool,
    pub zmq_endpoint: String,
    pub http_listen: String,
    pub csp_origin: Option<String>,
    pub decompress: bool,
    pub main_loop_interval: u64,
    pub enable_webhook_subscriptions: bool,
    pub enable_tcp_subscriptions: bool,
    pub tcp_address: String,
    pub enable_file_logging: bool,
}

/// What an authentication holds, as text.
pub enum RpcAuthView {
    NoAuth,
    UserPass(Seq<char>, Seq<char>),
    CookieFile(Seq<char>),
}

impl View for RpcAuth {
    type V = RpcAuthView;

    open spec fn view(&self) -> RpcAuthView {
        match self {
            RpcAuth::NoAuth => RpcAuthView::NoAuth,
            RpcAuth::UserPass(u, p) => RpcAuthView::UserPass(u@, p@),
            RpcAuth::CookieFile(f) => RpcAuthView::CookieFile(f@),
        }
    }
}

/// The authentication that options select: a cookie file wins, then a user name (with the
/// password, or an empty one), else none.
pub open spec fn spec_rpc_auth(o: Options) -> RpcAuthView {
    match o.cookie_file {
        Some(f) => RpcAuthView::CookieFile(f@),
        None => match o.bitcoin_rpc_username {
            Some(u) => match o.bitcoin_rpc_password {
                Some(p) => RpcAuthView::UserPass(u@, p@),
                None => RpcAuthView::UserPass(u@, Seq::empty()),
            },
            None => RpcAuthView::NoAuth,
        },
    }
}

fn clone_text(s: &String) -> (c: String)
    ensures
        c@ == s@,
{
    s.clone()
}

impl Options {
    /// The authentication to use with Bitcoin Core: the cookie file when one is given, else
    /// the user name with its password (empty when none is given), else none.
    pub fn get_bitcoin_rpc_auth(&self) -> (a: RpcAuth)
        ensures
            a@ == spec_rpc_auth(*self),
    {
        match &self.cookie_file {
            Some(f) => RpcAuth::CookieFile(clone_text(f)),
            None => match &self.bitcoin_rpc_username {
                Some(u) => {
                    let p = match &self.bitcoin_rpc_password {
                        Some(p) => clone_text(p),
                        None => String::new(),
                    };
                    RpcAuth::UserPass(clone_text(u), p)
                },
                None => RpcAuth::NoAuth,
            },
        }
    }
}

/// The indexer's settings.
#[derive(Clone, Debug)]
pub struct Settings {
    pub data_dir: String,
    pub zmq_endpoint: String,
    pub bitcoin_rpc_limit: u32,
    pub bitcoin_rpc_url: String,
    pub bitcoin_rpc_auth: RpcAuth,
    pub chain: Chain,
    pub no_index_inscriptions: bool,
    pub index_bitcoin_transactions: bool,
    pub index_spent_outputs: bool,
    pub index_addresses: bool,
    pub commit_interval: u64,
    pub main_loop_interval: u64,
    /// How many blocks below the tip are kept so that a reorganisation can be undone.
    pub reorg_depth: u64,
}

impl Settings {
    /// Settings taken from the options, keeping `reorg_depth` blocks for reorganisations.
    pub fn from_options(options: Options, reorg_depth: u64) -> (s: Settings)
        ensures
            s.data_dir@ == options.data_dir@,
            s.zmq_endpoint@ == options.zmq_endpoint@,
            s.bitcoin_rpc_limit == options.bitcoin_rpc_limit,
            s.bitcoin_rpc_url@ == options.bitcoin_rpc_url@,
            s.bitcoin_rpc_auth@ == spec_rpc_auth(options),
            s.chain == options.chain,
            s.no_index_inscriptions == options.no_index_inscriptions,
            s.index_bitcoin_transactions == options.index_bitcoin_transactions,
            s.index_spent_outputs == options.index_spent_outputs,
            s.index_addresses == options.index_addresses,
            s.commit_interval == options.commit_interval,
            s.main_loop_interval == options.main_loop_interval,
            s.reorg_depth == reorg_depth,
    {
        let bitcoin_rpc_auth = options.get_bitcoin_rpc_auth();
        Settings {
            data_dir: options.data_dir,
            zmq_endpoint: options.zmq_endpoint,
            bitcoin_rpc_limit: options.bitcoin_rpc_limit,
            bitcoin_rpc_url: options.bitcoin_rpc_url,
            bitcoin_rpc_auth,
            chain: options.chain,
            no_index_inscriptions: options.no_index_inscriptions,
            index_bitcoin_transactions: options.index_bitcoin_transactions,
            index_spent_outputs: options.index_spent_outputs,
            index_addresses: options.index_addresses,
            commit_interval: options.commit_interval,
            main_loop_interval: options.main_loop_interval,
            reorg_depth,
        }
    }

    /// How many blocks below the tip stay recoverable after a reorganisation.
    pub fn max_recoverable_reorg_depth(&self) -> (d: u64)
        ensures
            d == self.reorg_depth,
    {
        self.reorg_depth
    }
}

/// Which subscription services run, and where the TCP service listens.
#[derive(Clone, Debug)]
pub struct SubscriptionConfig {
    pub enable_webhook_subscriptions: bool,
    pub enable_tcp_subscriptions: bool,
    pub tcp_address: String,
    pub enable_file_logging: bool,
}

impl SubscriptionConfig {
    /// The subscription settings of the options.
    pub fn from_options(options: Options) -> (c: SubscriptionConfig)
        ensures
            c.enable_webhook_subscriptions == options.enable_webhook_subscriptions,
            c.enable_tcp_subscriptions == options.enable_tcp_subscriptions,
            c.tcp_address == options.tcp_address,
            c.enable_file_logging == options.enable_file_logging,
    {
        SubscriptionConfig {
            enable_webhook_subscriptions: options.enable_webhook_subscriptions,
            enable_tcp_subscriptions: options.enable_tcp_subscriptions,
            tcp_address: options.tcp_address,
            enable_file_logging: options.enable_file_logging,
        }
    }
}

/// Capacities for each segment of the read cache.
#[derive(Clone, Copy, Debug)]
pub struct ReadCacheSettings {
    pub txouts: usize,
    pub blocks: usize,
    pub block_hashes: usize,
    pub transactions: usize,
    pub runes: usize,
    pub rune_ids: usize,
}

impl Default for ReadCacheSettings {
    fn default() -> (s: Self)
        ensures
            s.txouts == 100_000,
            s.blocks == 4_096,
            s.block_hashes == 4_096,
            s.transactions == 16_384,
            s.runes == 4_096,
            s.rune_ids == 4_096,
    {
        ReadCacheSettings {
            txouts: 100_000,
            blocks: 4_096,
            block_hashes: 4_096,
            transactions: 16_384,
            runes: 4_096,
            rune_ids: 4_096,
        }
    }
}

/// Settings of the cache used while indexing.
#[derive(Clone, Copy, Debug)]
pub struct UpdaterCacheSettings {
    pub max_recoverable_reorg_depth: u64,
    pub mempool: bool,
    pub chain: Chain,
    pub read_cache: ReadCacheSettings,
    pub max_async_batches: usize,
}

impl UpdaterCacheSettings {
    /// Cache settings for indexing blocks or, when `mempool` is set, the mempool; the read
    /// cache has its default capacities and at most eight batches are written at once.
    pub fn new(settings: &Settings, mempool: bool) -> (s: UpdaterCacheSettings)
        ensures
            s.max_recoverable_reorg_depth == settings.reorg_depth,
            s.mempool == mempool,
            s.chain == settings.chain,
            s.read_cache.txouts == 100_000,
            s.read_cache.blocks == 4_096,
            s.read_cache.block_hashes == 4_096,
            s.read_cache.transactions == 16_384,
            s.read_cache.runes == 4_096,
            s.read_cache.rune_ids == 4_096,
            s.max_async_batches == 8,
    {
        UpdaterCacheSettings {
            max_recoverable_reorg_depth: settings.max_recoverable_reorg_depth(),
            mempool,
            chain: settings.chain,
            read_cache: ReadCacheSettings::default(),
            max_async_batches: 8,
        }
    }
}

/// Settings of the background writer: how many batches may be in flight.
#[derive(Clone, Copy, Debug)]
pub struct BgWriterSettings {
    pub max_async_batches: usize,
}

/// Settings of the cache used while indexing blocks.
#[derive(Clone, Copy, Debug)]
pub struct BlockCacheSettings {
    pub max_recoverable_reorg_depth: u64,
    pub chain: Chain,
    pub max_async_batches: usize,
    pub index_addresses: bool,
    pub index_spent_outputs: bool,
    pub rune_cache_size: usize,
    pub outpoint_cache_size: usize,
}

impl BlockCacheSettings {
    /// Block cache settings: eight batches in flight, a thousand runes and ten million
    /// outputs cached.
    pub fn new(settings: &Settings) -> (s: BlockCacheSettings)
        ensures
            s.max_recoverable_reorg_depth == settings.reorg_depth,
            s.chain == settings.chain,
            s.index_addresses == settings.index_addresses,
            s.index_spent_outputs == settings.index_spent_outputs,
            s.max_async_batches == 8,
            s.rune_cache_size == 1000,
            s.outpoint_cache_size == 10_000_000,
    {
        BlockCacheSettings {
            max_recoverable_reorg_depth: settings.max_recoverable_reorg_depth(),
            chain: settings.chain,
            index_addresses: settings.index_addresses,
            index_spent_outputs: settings.index_spent_outputs,
            max_async_batches: 8,
            rune_cache_size: 1000,
            outpoint_cache_size: 10_000_000,
        }
    }

    /// The settings of the background writer that the block cache starts.
    pub fn bg_writer_settings(&self) -> (w: BgWriterSettings)
        ensures
            w.max_async_batches == self.max_async_batches,
    {
        BgWriterSettings { max_async_batches: self.max_async_batches }
    }
}

/// Settings of the cache used while indexing the mempool.
#[derive(Clone, Copy, Debug)]
pub struct MempoolCacheSettings {
    pub chain: Chain,
    pub index_addresses: bool,
}

impl MempoolCacheSettings {
    /// Mempool cache settings: the chain and whether addresses are indexed.
    pub fn new(settings: &Settings) -> (s: MempoolCacheSettings)
        ensures
            s.chain == settings.chain,
            s.index_addresses == settings.index_addresses,
    {
        MempoolCacheSettings { chain: settings.chain, index_addresses: settings.index_addresses }
    }
}

/// Settings of the transaction updater.
#[derive(Clone, Copy, Debug)]
pub struct TransactionUpdaterSettings {
    pub index_addresses: bool,
    pub index_bitcoin_transactions: bool,
}

impl TransactionUpdaterSettings {
    /// The transaction updater settings of the indexer's settings.
    pub fn from_settings(settings: &Settings) -> (s: TransactionUpdaterSettings)
        ensures
            s.index_addresses == settings.index_addresses,
            s.index_bitcoin_transactions == settings.index_bitcoin_transactions,
    {
        TransactionUpdaterSettings {
            index_addresses: settings.index_addresses,
            index_bitcoin_transactions: settings.index_bitcoin_transactions,
        }
    }
}

/// The heights whose undo data can be dropped: `[from_block_height_to_purge,
/// to_block_height_to_purge)`.
#[derive(Clone, Copy, Debug)]
pub struct PurgeInfo {
    pub from_block_height_to_purge: u64,
    pub to_block_height_to_purge: u64,
}

/// The range of heights to purge once block `last_block_height` is indexed, when one was:
/// from the first height not purged yet up to `max_recoverable_reorg_depth` below the last
/// block; none when the chain is not that deep yet.
pub fn get_purge_info(
    last_block_height: Option<u64>,
    purged_blocks_count: u64,
    max_recoverable_reorg_depth: u64,
) -> (p: Option<PurgeInfo>)
    ensures
        p is Some <==> (last_block_height matches Some(h) && h >= max_recoverable_reorg_depth),
        p matches Some(info) ==> info.from_block_height_to_purge == purged_blocks_count
            && info.to_block_height_to_purge == last_block_height->0 - max_recoverable_reorg_depth,
{
    match last_block_height {
        Some(h) => match h.checked_sub(max_recoverable_reorg_depth) {
            Some(to) => Some(
                PurgeInfo { from_block_height_to_purge: purged_blocks_count, to_block_height_to_purge: to },
            ),
            None => None,
        },
        None => None,
    }
}

} // verus!
