//! The start-up plan of a validator.

use crate::keys::same_bytes;
use crate::text::{hex, hex_text, join2};
use crate::validator::budget::{BudgetFault, UploadBudget};
use crate::validator::consumer::MAX_FINALIZED_QUEUE_UPLOADS;
use vstd::prelude::*;

verus! {

/// Requests that a validator's mempool queues.
pub const MEMPOOL_MAILBOX_SIZE: usize = 65_536;

/// Messages that one network channel may hold over all retained peers.
pub const NETWORK_CHANNEL_MAILBOX_BUDGET: usize = 1_024;

/// How a validator catches up when it starts.
#[derive(Clone, Copy, Debug, PartialEq, Eq, Structural)]
pub enum StartupModeConfig {
    MarshalSync,
    StateSync,
}

impl Default for StartupModeConfig {
    fn default() -> (mode: Self)
        ensures
            mode == StartupModeConfig::MarshalSync,
    {
        StartupModeConfig::MarshalSync
    }
}

impl StartupModeConfig {
    /// The name of this mode.
    pub open spec fn name(self) -> Seq<char> {
        match self {
            StartupModeConfig::MarshalSync => "marshal_sync"@,
            StartupModeConfig::StateSync => "state_sync"@,
        }
    }

    /// The name of this mode as text.
    pub fn to_text(self) -> (text: String)
        ensures
            text@ == self.name(),
    {
        match self {
            StartupModeConfig::MarshalSync => "marshal_sync".to_owned(),
            StartupModeConfig::StateSync => "state_sync".to_owned(),
        }
    }
}

/// Where and how a secondary uploads index data.
#[derive(Debug)]
pub struct IndexerConfig {
    pub chain_indexer_url: String,
    pub api_key: Option<String>,
    pub publisher_rayon_threads: usize,
    pub upload_max_in_flight: usize,
    pub upload_budget_bytes: u64,
}

/// A validator's configuration, as far as its start-up plan depends on it.
#[derive(Debug)]
pub struct LoadedConfig {
    pub public_key: Vec<u8>,
    pub primary_participants: Vec<Vec<u8>>,
    pub secondary_participants: Vec<Vec<u8>>,
    /// How many bootstrappers are configured.
    pub bootstrappers: usize,
    pub partition_prefix: String,
    /// Whether the validator holds a share of the threshold key.
    pub has_share: bool,
    pub startup: StartupModeConfig,
    pub worker_threads: usize,
    pub rayon_threads: usize,
    pub public_key_cache_size: usize,
    pub deployer_managed: bool,
    pub indexer: Option<IndexerConfig>,
    /// Whether a relayer is configured.
    pub relayer: bool,
    /// Address that the HTTP server listens on.
    pub http_listen: String,
    /// Most bytes of transactions that a block proposes.
    pub max_propose_bytes: usize,
}

/// What the runtime and the network fix before a plan is made.
#[derive(Clone, Copy, Debug, PartialEq, Eq, Structural)]
pub struct RuntimeLimits {
    pub max_blocking_threads: usize,
    pub tracked_peer_sets: usize,
}

/// Which peer discovery profile a network uses.
#[derive(Clone, Copy, Debug, PartialEq, Eq, Structural)]
pub enum DiscoveryProfile {
    Recommended,
    Local,
}

/// What a validator serves over HTTP, and where. A relayer takes no batch of
/// more bytes than a block proposes.
#[derive(Debug)]
pub enum HttpRole {
    Mempool { listen: String },
    Relayer { listen: String, max_batch_bytes: usize },
    Nothing,
}

/// Threads that share each buffer pool.
#[derive(Clone, Copy, Debug, PartialEq, Eq, Structural)]
pub struct BufferPools {
    pub network_parallelism: usize,
    pub storage_parallelism: usize,
}

/// How index data is uploaded.
#[derive(Debug)]
pub struct IndexerPlan {
    pub chain_indexer_url: String,
    pub api_key: Option<String>,
    pub publisher_rayon_threads: usize,
    pub max_active_uploads: usize,
    pub upload_budget_bytes: u64,
    pub records_partition: String,
    pub payloads_partition: String,
    pub receipt_partition: String,
}

/// The start-up plan of a validator.
#[derive(Debug)]
pub struct RunPlan {
    /// Directory that the storage directory lies in.
    pub storage_parent: String,
    /// Name of the storage directory.
    pub storage_name: String,
    /// The validator's public key in hexadecimal.
    pub validator: String,
    pub buffer_pools: BufferPools,
    pub discovery: DiscoveryProfile,
    pub max_peers_per_set: usize,
    pub retained_peer_bound: usize,
    /// Burst that every network channel allows a peer.
    pub channel_burst: u32,
    pub mempool_drop_grace_blocks: u64,
    pub http: HttpRole,
    pub startup_mode: String,
    pub indexer: Option<IndexerPlan>,
    /// Whether consensus activity is reported to the relayer's view clock.
    pub relayer_observer: bool,
    /// Whether finalized blocks are reported to the local mempool.
    pub mempool_reporter: bool,
}

/// A configuration that no validator starts from.
#[derive(Clone, Copy, Debug, PartialEq, Eq, Structural)]
pub enum RunFault {
    StorageParallelismOverflow,
    NoWorkerThreads,
    NoRayonThreads,
    NoPublicKeyCache,
    TooManyPeers,
    RetainedPeerOverflow,
    DropGraceOverflow,
    DuplicatePrimary,
    DuplicateSecondary,
}

/// The default finalized-block window before a proposed mempool batch is marked
/// dropped: two full primary-validator rotations after the batch's proposed
/// height. This gives late-finalizing proposals time to land before the
/// submitting client retries the batch.
pub fn default_mempool_drop_grace_blocks(num_validators: usize) -> (blocks: u64)
    requires
        num_validators * 2 <= u64::MAX,
    ensures
        blocks == 2 * num_validators,
{
    (num_validators as u64) * 2
}

/// Whether `key` is one of `keys`.
pub open spec fn lists_key(keys: Seq<Vec<u8>>, key: Seq<u8>) -> bool {
    exists|i: int| 0 <= i < keys.len() && (#[trigger] keys[i])@ == key
}

/// Whether two of `keys` are the same.
pub open spec fn repeats_key(keys: Seq<Vec<u8>>) -> bool {
    exists|i: int, j: int|
        0 <= i < j < keys.len() && (#[trigger] keys[i])@ == (#[trigger] keys[j])@
}

/// `commonware_p2p::authenticated::peer_set_limit` counts the participants,
/// and the local identity beside them where it is none of them.
#[verifier::external_body]
fn peer_set_limit(primary: &Vec<Vec<u8>>, secondary: &Vec<Vec<u8>>, local: &Vec<u8>) -> (limit:
    usize)
    requires
        primary.len() + secondary.len() < usize::MAX,
    ensures
        limit == primary.len() + secondary.len() + (if lists_key(primary@, local@) || lists_key(
            secondary@,
            local@,
        ) {
            0int
        } else {
            1int
        }),
{
    commonware_p2p::authenticated::peer_set_limit(primary.iter().chain(secondary), local).get()
}

fn has_repeated_key(keys: &Vec<Vec<u8>>) -> (repeats: bool)
    ensures
        repeats == repeats_key(keys@),
{
    let mut i: usize = 0;
    while i < keys.len()
        invariant
            i <= keys.len(),
            forall|a: int, b: int|
                0 <= a < i && a < b < keys.len() ==> (#[trigger] keys[a])@ != (#[trigger] keys[b])@,
        decreases keys.len() - i,
    {
        let mut j: usize = i + 1;
        while j < keys.len()
            invariant
                i < j <= keys.len(),
                forall|b: int| i < b < j ==> keys[i as int]@ != (#[trigger] keys[b])@,
            decreases keys.len() - j,
        {
            if same_bytes(&keys[i], &keys[j]) {
                return true;
            }
            j = j + 1;
        }
        i = i + 1;
    }
    false
}

/// Threads that share the network and storage buffer pools.
///
/// Storage I/O can run on blocking threads, so those share the storage pool.
pub fn buffer_pool_configs(worker_threads: usize, max_blocking_threads: usize) -> (result: Result<
    BufferPools,
    RunFault,
>)
    ensures
        worker_threads + max_blocking_threads > usize::MAX ==> result == Err::<
            BufferPools,
            RunFault,
        >(RunFault::StorageParallelismOverflow),
        worker_threads + max_blocking_threads <= usize::MAX && worker_threads == 0 ==> result
            == Err::<BufferPools, RunFault>(RunFault::NoWorkerThreads),
        worker_threads + max_blocking_threads <= usize::MAX && worker_threads > 0 ==> result
            == Ok::<BufferPools, RunFault>(
            BufferPools {
                network_parallelism: worker_threads,
                storage_parallelism: (worker_threads + max_blocking_threads) as usize,
            },
        ),
{
    match worker_threads.checked_add(max_blocking_threads) {
        None => Err(RunFault::StorageParallelismOverflow),
        Some(storage_parallelism) => {
            if worker_threads == 0 {
                return Err(RunFault::NoWorkerThreads);
            }
            Ok(BufferPools { network_parallelism: worker_threads, storage_parallelism })
        },
    }
}

/// Burst that a channel allows each of `retained_peer_bound` peers: an equal
/// part of the channel's budget, and at least one message.
pub open spec fn burst_of(retained_peer_bound: nat) -> nat {
    let part = NETWORK_CHANNEL_MAILBOX_BUDGET as nat / retained_peer_bound;
    if part == 0 {
        1
    } else {
        part
    }
}

/// Burst that a channel allows each of `retained_peer_bound` peers.
///
/// Registration multiplies the burst by the retained-peer bound, so the
/// channel's budget is divided across peers to keep every mailbox bounded.
pub fn channel_burst(retained_peer_bound: usize) -> (burst: u32)
    requires
        retained_peer_bound > 0,
    ensures
        burst as nat == burst_of(retained_peer_bound as nat),
{
    let part: usize = NETWORK_CHANNEL_MAILBOX_BUDGET / retained_peer_bound;
    proof {
        vstd::arithmetic::div_mod::lemma_div_is_ordered_by_denominator(
            1024,
            1,
            retained_peer_bound as int,
        );
    }
    if part == 0 {
        1
    } else {
        part as u32
    }
}

/// A channel holds no more than its budget over all retained peers, or one
/// message per peer where there are more peers than that.
pub proof fn channel_mailbox_is_bounded(retained_peer_bound: nat)
    requires
        retained_peer_bound > 0,
    ensures
        burst_of(retained_peer_bound) >= 1,
        burst_of(retained_peer_bound) * retained_peer_bound <= (if retained_peer_bound
            > NETWORK_CHANNEL_MAILBOX_BUDGET {
            retained_peer_bound
        } else {
            NETWORK_CHANNEL_MAILBOX_BUDGET as nat
        }),
{
    let part = 1024nat / retained_peer_bound;
    vstd::arithmetic::div_mod::lemma_fundamental_div_mod(1024, retained_peer_bound as int);
    assert(part * retained_peer_bound <= 1024) by (nonlinear_arith)
        requires
            1024 == retained_peer_bound * part + 1024nat % retained_peer_bound,
            retained_peer_bound > 0,
    ;
    if part == 0 {
        assert(retained_peer_bound > 1024) by (nonlinear_arith)
            requires
                1024 == retained_peer_bound * part + 1024nat % retained_peer_bound,
                part == 0,
                retained_peer_bound > 0,
        ;
    }
}

/// `n`, but at least one and no more than the most uploads that run at once.
pub open spec fn clamp_uploads(n: usize) -> usize {
    if n < 1 {
        1
    } else if n > MAX_FINALIZED_QUEUE_UPLOADS {
        MAX_FINALIZED_QUEUE_UPLOADS
    } else {
        n
    }
}

/// How index data is uploaded under `cfg` with storage under `prefix`.
pub open spec fn is_indexer_plan(plan: IndexerPlan, cfg: IndexerConfig, prefix: Seq<char>) -> bool {
    &&& plan.chain_indexer_url@ == cfg.chain_indexer_url@
    &&& plan.api_key == cfg.api_key
    &&& plan.publisher_rayon_threads == cfg.publisher_rayon_threads
    &&& plan.max_active_uploads == clamp_uploads(cfg.upload_max_in_flight)
    &&& plan.upload_budget_bytes == cfg.upload_budget_bytes
    &&& plan.records_partition@ == prefix + "-finalized-index-records"@
    &&& plan.payloads_partition@ == prefix + "-finalized-index-payloads"@
    &&& plan.receipt_partition@ == prefix + "-finalized-capture-receipt"@
}

/// The indexer wiring, if and only if a secondary validator opted in.
pub fn maybe_build_indexer(
    is_primary: bool,
    indexer: Option<IndexerConfig>,
    partition_prefix: &str,
) -> (plan: Option<IndexerPlan>)
    ensures
        plan is Some <==> indexer is Some && !is_primary,
        plan matches Some(plan) ==> is_indexer_plan(plan, indexer->0, partition_prefix@),
{
    match indexer {
        None => None,
        Some(cfg) => {
            if is_primary {
                return None;
            }
            let max_active_uploads: usize = if cfg.upload_max_in_flight < 1 {
                1
            } else if cfg.upload_max_in_flight > MAX_FINALIZED_QUEUE_UPLOADS {
                MAX_FINALIZED_QUEUE_UPLOADS
            } else {
                cfg.upload_max_in_flight
            };
            Some(
                IndexerPlan {
                    chain_indexer_url: cfg.chain_indexer_url,
                    api_key: cfg.api_key,
                    publisher_rayon_threads: cfg.publisher_rayon_threads,
                    max_active_uploads,
                    upload_budget_bytes: cfg.upload_budget_bytes,
                    records_partition: join2(partition_prefix, "-finalized-index-records"),
                    payloads_partition: join2(partition_prefix, "-finalized-index-payloads"),
                    receipt_partition: join2(partition_prefix, "-finalized-capture-receipt"),
                },
            )
        },
    }
}

/// Why no client of the chain indexer could be built.
#[derive(Debug)]
pub enum ClientFault {
    /// The API key cannot be sent.
    InvalidApiKey,
    Refused(String),
}

/// The indexer wiring once its client was built or refused.
pub open spec fn with_client(plan: Option<IndexerPlan>, client: Result<(), ClientFault>) -> Result<
    Option<IndexerPlan>,
    ClientFault,
> {
    match (plan, client) {
        (Some(_), Err(fault)) => Err(fault),
        _ => Ok(plan),
    }
}

/// The indexer wiring once its client was built or refused. A refusal ends the
/// start of a validator that uploads; one that does not upload builds no client.
pub fn indexer_client_built(plan: Option<IndexerPlan>, client: Result<(), ClientFault>) -> (result:
    Result<Option<IndexerPlan>, ClientFault>)
    ensures
        result == with_client(plan, client),
{
    match plan {
        None => Ok(None),
        Some(plan) => match client {
            Ok(()) => Ok(Some(plan)),
            Err(fault) => Err(fault),
        },
    }
}

impl IndexerPlan {
    /// The byte budget of this plan.
    pub fn budget(&self) -> (result: Result<UploadBudget, BudgetFault>)
        ensures
            result matches Ok(budget) ==> budget == UploadBudget::fresh(self.upload_budget_bytes)
                && budget.wf(),
            result is Ok <==> self.upload_budget_bytes > 0
                && crate::validator::budget::budget_units(self.upload_budget_bytes) <= u32::MAX,
    {
        UploadBudget::check_new(self.upload_budget_bytes)
    }
}

/// Peers in one set: every participant, and the validator itself.
pub open spec fn peers_per_set(config: LoadedConfig) -> nat {
    config.primary_participants@.len() + config.secondary_participants@.len() + (if lists_key(
        config.primary_participants@,
        config.public_key@,
    ) || lists_key(config.secondary_participants@, config.public_key@) {
        0nat
    } else {
        1nat
    })
}

/// Peers that a network retains at most.
pub open spec fn retained_peers(config: LoadedConfig, limits: RuntimeLimits) -> nat {
    peers_per_set(config) * limits.tracked_peer_sets as nat + config.bootstrappers as nat
}

/// The fault of a configuration.
pub open spec fn run_fault(config: LoadedConfig, limits: RuntimeLimits) -> Option<RunFault> {
    if config.worker_threads + limits.max_blocking_threads > usize::MAX {
        Some(RunFault::StorageParallelismOverflow)
    } else if config.worker_threads == 0 {
        Some(RunFault::NoWorkerThreads)
    } else if config.rayon_threads == 0 {
        Some(RunFault::NoRayonThreads)
    } else if config.public_key_cache_size == 0 {
        Some(RunFault::NoPublicKeyCache)
    } else if config.primary_participants.len() + config.secondary_participants.len()
        >= usize::MAX {
        Some(RunFault::TooManyPeers)
    } else if retained_peers(config, limits) > usize::MAX {
        Some(RunFault::RetainedPeerOverflow)
    } else if config.primary_participants.len() * 2 > u64::MAX {
        Some(RunFault::DropGraceOverflow)
    } else if repeats_key(config.primary_participants@) {
        Some(RunFault::DuplicatePrimary)
    } else if repeats_key(config.secondary_participants@) {
        Some(RunFault::DuplicateSecondary)
    } else {
        None
    }
}

/// Whether `role` is what a validator of `config` serves: the mempool where it
/// holds a share, else the relayer where one is configured.
pub open spec fn is_http_role(role: HttpRole, config: LoadedConfig) -> bool {
    match role {
        HttpRole::Mempool { listen } => config.has_share && listen@ == config.http_listen@,
        HttpRole::Relayer { listen, max_batch_bytes } => !config.has_share && config.relayer
            && listen@ == config.http_listen@ && max_batch_bytes == config.max_propose_bytes,
        HttpRole::Nothing => !config.has_share && !config.relayer,
    }
}

/// Whether `plan` is the start-up plan of `config` in `config_dir`.
pub open spec fn is_run_plan(
    plan: RunPlan,
    config: LoadedConfig,
    config_dir: Seq<char>,
    limits: RuntimeLimits,
) -> bool {
    &&& plan.storage_parent@ == config_dir
    &&& plan.storage_name@ == config.partition_prefix@
    &&& plan.validator@ == hex_text(config.public_key@)
    &&& plan.buffer_pools.network_parallelism == config.worker_threads
    &&& plan.buffer_pools.storage_parallelism == config.worker_threads
        + limits.max_blocking_threads
    &&& plan.discovery == (if config.deployer_managed {
        DiscoveryProfile::Recommended
    } else {
        DiscoveryProfile::Local
    })
    &&& plan.max_peers_per_set as nat == peers_per_set(config)
    &&& plan.retained_peer_bound as nat == retained_peers(config, limits)
    &&& plan.channel_burst as nat == burst_of(retained_peers(config, limits))
    &&& plan.mempool_drop_grace_blocks == 2 * config.primary_participants.len()
    &&& is_http_role(plan.http, config)
    &&& plan.startup_mode@ == config.startup.name()
    &&& plan.indexer is Some <==> config.indexer is Some && !config.has_share
    &&& plan.indexer matches Some(indexer) ==> is_indexer_plan(
        indexer,
        config.indexer->0,
        config.partition_prefix@,
    )
    &&& plan.relayer_observer == config.relayer
    &&& plan.mempool_reporter == config.has_share
}

/// The start-up plan of a validator whose configuration file lies in
/// `config_dir`, or why it cannot start.
///
/// A validator with a share is a primary: it serves the mempool and reports to
/// it. A secondary serves the relayer where one is configured, and is the only
/// kind that uploads index data.
fn run_with_config(config: LoadedConfig, config_dir: &str, limits: RuntimeLimits) -> (result:
    Result<RunPlan, RunFault>)
    requires
        limits.tracked_peer_sets > 0,
    ensures
        match run_fault(config, limits) {
            Some(fault) => result == Err::<RunPlan, RunFault>(fault),
            None => result matches Ok(plan) && is_run_plan(plan, config, config_dir@, limits),
        },
{
    let buffer_pools = match buffer_pool_configs(
        config.worker_threads,
        limits.max_blocking_threads,
    ) {
        Err(fault) => {
            return Err(fault);
        },
        Ok(pools) => pools,
    };
    if config.rayon_threads == 0 {
        return Err(RunFault::NoRayonThreads);
    }
    if config.public_key_cache_size == 0 {
        return Err(RunFault::NoPublicKeyCache);
    }
    let participants: Option<usize> = config.primary_participants.len().checked_add(
        config.secondary_participants.len(),
    );
    match participants {
        None => {
            return Err(RunFault::TooManyPeers);
        },
        Some(count) => {
            if count == usize::MAX {
                return Err(RunFault::TooManyPeers);
            }
        },
    }
    let max_peers_per_set: usize = peer_set_limit(
        &config.primary_participants,
        &config.secondary_participants,
        &config.public_key,
    );
    proof {
        assert(peers_per_set(config) == max_peers_per_set);
        if config.primary_participants.len() + config.secondary_participants.len() == 0 {
            assert(!lists_key(config.primary_participants@, config.public_key@));
            assert(!lists_key(config.secondary_participants@, config.public_key@));
        }
        assert(max_peers_per_set > 0);
        assert(max_peers_per_set * limits.tracked_peer_sets >= max_peers_per_set)
            by (nonlinear_arith)
            requires
                limits.tracked_peer_sets > 0,
                max_peers_per_set > 0,
        ;
    }
    let in_sets: Option<usize> = max_peers_per_set.checked_mul(limits.tracked_peer_sets);
    let retained_peer_bound: usize = match in_sets {
        None => {
            return Err(RunFault::RetainedPeerOverflow);
        },
        Some(total) => match total.checked_add(config.bootstrappers) {
            None => {
                return Err(RunFault::RetainedPeerOverflow);
            },
            Some(bound) => bound,
        },
    };
    let burst: u32 = channel_burst(retained_peer_bound);
    if config.primary_participants.len() as u64 > 0x7fff_ffff_ffff_ffff {
        return Err(RunFault::DropGraceOverflow);
    }
    let mempool_drop_grace_blocks: u64 = default_mempool_drop_grace_blocks(
        config.primary_participants.len(),
    );
    if has_repeated_key(&config.primary_participants) {
        return Err(RunFault::DuplicatePrimary);
    }
    if has_repeated_key(&config.secondary_participants) {
        return Err(RunFault::DuplicateSecondary);
    }
    let http = if config.has_share {
        HttpRole::Mempool { listen: config.http_listen }
    } else if config.relayer {
        HttpRole::Relayer {
            listen: config.http_listen,
            max_batch_bytes: config.max_propose_bytes,
        }
    } else {
        HttpRole::Nothing
    };
    let indexer = maybe_build_indexer(
        config.has_share,
        config.indexer,
        config.partition_prefix.as_str(),
    );
    Ok(
        RunPlan {
            storage_parent: config_dir.to_owned(),
            storage_name: config.partition_prefix.clone(),
            validator: hex(config.public_key.as_slice()),
            buffer_pools,
            discovery: if config.deployer_managed {
                DiscoveryProfile::Recommended
            } else {
                DiscoveryProfile::Local
            },
            max_peers_per_set,
            retained_peer_bound,
            channel_burst: burst,
            mempool_drop_grace_blocks,
            http,
            startup_mode: config.startup.to_text(),
            indexer,
            relayer_observer: config.relayer,
            mempool_reporter: config.has_share,
        },
    )
}

/// The start-up plan of a validator in a local bundle.
pub fn run_local(config: LoadedConfig, config_dir: &str, limits: RuntimeLimits) -> (result: Result<
    RunPlan,
    RunFault,
>)
    requires
        limits.tracked_peer_sets > 0,
    ensures
        match run_fault(config, limits) {
            Some(fault) => result == Err::<RunPlan, RunFault>(fault),
            None => result matches Ok(plan) && is_run_plan(plan, config, config_dir@, limits),
        },
{
    run_with_config(config, config_dir, limits)
}

/// The start-up plan of a validator on a deployed host.
pub fn run_deployer(config: LoadedConfig, config_dir: &str, limits: RuntimeLimits) -> (result:
    Result<RunPlan, RunFault>)
    requires
        limits.tracked_peer_sets > 0,
    ensures
        match run_fault(config, limits) {
            Some(fault) => result == Err::<RunPlan, RunFault>(fault),
            None => result matches Ok(plan) && is_run_plan(plan, config, config_dir@, limits),
        },
{
    run_with_config(config, config_dir, limits)
}

/// Only one of the mempool and the index uploader runs in a validator: a
/// primary reports to its mempool and uploads nothing, a secondary never
/// serves a mempool.
pub proof fn primaries_do_not_upload(
    plan: RunPlan,
    config: LoadedConfig,
    config_dir: Seq<char>,
    limits: RuntimeLimits,
)
    requires
        is_run_plan(plan, config, config_dir, limits),
    ensures
        plan.mempool_reporter <==> plan.http is Mempool,
        plan.indexer is Some ==> !plan.mempool_reporter,
        plan.http is Relayer ==> plan.relayer_observer,
{
}

/// How a validator that joins late fetches and applies state.
#[derive(Clone, Copy, Debug, PartialEq, Eq, Structural)]
pub struct SyncEngineConfig {
    pub fetch_batch_size: u64,
    pub apply_batch_size: u64,
    pub max_outstanding_requests: usize,
    pub update_channel_size: usize,
    pub max_retained_roots: usize,
}

/// How validators sync in production.
pub fn production_sync_config() -> (config: SyncEngineConfig)
    ensures
        config == (SyncEngineConfig {
            fetch_batch_size: 1024,
            apply_batch_size: 1024,
            max_outstanding_requests: 8,
            update_channel_size: 256,
            max_retained_roots: 32,
        }),
{
    SyncEngineConfig {
        fetch_batch_size: 1024,
        apply_batch_size: 1024,
        max_outstanding_requests: 8,
        update_channel_size: 256,
        max_retained_roots: 32,
    }
}

/// A validator runs under its own configuration: its storage lies beside its
/// configuration file under the partition's name, storage work may use the
/// blocking threads beside the workers, and a proposed batch is given two rounds
/// of the primaries before it counts as dropped.
pub proof fn plans_follow_the_configuration(
    plan: RunPlan,
    config: LoadedConfig,
    config_dir: Seq<char>,
    limits: RuntimeLimits,
)
    requires
        is_run_plan(plan, config, config_dir, limits),
    ensures
        plan.storage_parent@ == config_dir,
        plan.storage_name@ == config.partition_prefix@,
        plan.validator@ == hex_text(config.public_key@),
        plan.buffer_pools.network_parallelism == config.worker_threads,
        plan.buffer_pools.storage_parallelism - plan.buffer_pools.network_parallelism
            == limits.max_blocking_threads,
        config.deployer_managed <==> plan.discovery == DiscoveryProfile::Recommended,
        plan.mempool_drop_grace_blocks == config.primary_participants@.len()
            + config.primary_participants@.len(),
        config.startup == StartupModeConfig::StateSync ==> plan.startup_mode@ == "state_sync"@,
        config.startup == StartupModeConfig::MarshalSync ==> plan.startup_mode@ == "marshal_sync"@,
{
}

/// A network makes room for every participant, and for the validator itself
/// where it is none of them, in each set that is tracked, and for the
/// bootstrappers. The channels' budget of 1024 messages is shared out among
/// them as evenly as whole messages go.
pub proof fn networks_make_room_for_their_peers(
    plan: RunPlan,
    config: LoadedConfig,
    config_dir: Seq<char>,
    limits: RuntimeLimits,
)
    requires
        is_run_plan(plan, config, config_dir, limits),
        plan.retained_peer_bound > 0,
    ensures
        ({
            let participants = config.primary_participants@.len()
                + config.secondary_participants@.len();
            let known = lists_key(config.primary_participants@, config.public_key@) || lists_key(
                config.secondary_participants@,
                config.public_key@,
            );
            &&& known ==> plan.max_peers_per_set == participants
            &&& !known ==> plan.max_peers_per_set == participants + 1
        }),
        plan.retained_peer_bound == plan.max_peers_per_set * limits.tracked_peer_sets
            + config.bootstrappers,
        plan.retained_peer_bound <= 1024 ==> plan.channel_burst * plan.retained_peer_bound <= 1024
            && (plan.channel_burst + 1) * plan.retained_peer_bound > 1024,
        plan.retained_peer_bound > 1024 ==> plan.channel_burst == 1,
{
    let bound = plan.retained_peer_bound as int;
    vstd::arithmetic::div_mod::lemma_fundamental_div_mod(1024, bound);
    vstd::arithmetic::div_mod::lemma_mod_bound(1024, bound);
    let part = 1024int / bound;
    assert(part * bound <= 1024 < (part + 1) * bound) by (nonlinear_arith)
        requires
            1024 == bound * part + 1024int % bound,
            0 <= 1024int % bound < bound,
    ;
    if bound <= 1024 {
        assert(part >= 1) by (nonlinear_arith)
            requires
                1024 < (part + 1) * bound,
                0 < bound <= 1024,
        ;
    } else {
        assert(part == 0) by (nonlinear_arith)
            requires
                part * bound <= 1024 < (part + 1) * bound,
                bound > 1024,
        ;
    }
}

/// A validator with a share serves its mempool and nothing else; one without
/// serves the relayer if one is configured, and takes batches as large as a
/// block proposes. It listens where it is configured to.
pub proof fn shares_decide_what_is_served(
    plan: RunPlan,
    config: LoadedConfig,
    config_dir: Seq<char>,
    limits: RuntimeLimits,
)
    requires
        is_run_plan(plan, config, config_dir, limits),
    ensures
        config.has_share <==> plan.http is Mempool,
        !config.has_share && config.relayer <==> plan.http is Relayer,
        plan.http matches HttpRole::Mempool { listen } ==> listen@ == config.http_listen@,
        plan.http matches HttpRole::Relayer { listen, max_batch_bytes } ==> listen@
            == config.http_listen@ && max_batch_bytes == config.max_propose_bytes,
        config.has_share <==> plan.mempool_reporter,
        config.relayer <==> plan.relayer_observer,
{
}

/// What is uploaded goes where the configuration says, with as many uploads at
/// once as it asks for, from one up to 64. The three partitions lie under the
/// validator's own and differ from each other.
pub proof fn uploads_follow_the_configuration(
    plan: IndexerPlan,
    cfg: IndexerConfig,
    prefix: Seq<char>,
)
    requires
        is_indexer_plan(plan, cfg, prefix),
    ensures
        plan.chain_indexer_url@ == cfg.chain_indexer_url@,
        plan.api_key == cfg.api_key,
        plan.publisher_rayon_threads == cfg.publisher_rayon_threads,
        plan.upload_budget_bytes == cfg.upload_budget_bytes,
        1 <= plan.max_active_uploads <= 64,
        1 <= cfg.upload_max_in_flight <= 64 ==> plan.max_active_uploads
            == cfg.upload_max_in_flight,
        cfg.upload_max_in_flight > 64 ==> plan.max_active_uploads == 64,
        plan.records_partition@.take(prefix.len() as int) == prefix,
        plan.payloads_partition@.take(prefix.len() as int) == prefix,
        plan.receipt_partition@.take(prefix.len() as int) == prefix,
        plan.records_partition@ != plan.payloads_partition@,
        plan.records_partition@ != plan.receipt_partition@,
        plan.payloads_partition@ != plan.receipt_partition@,
{
    reveal_strlit("-finalized-index-records");
    reveal_strlit("-finalized-index-payloads");
    reveal_strlit("-finalized-capture-receipt");
    let n = prefix.len() as int;
    assert(plan.records_partition@.take(n) =~= prefix);
    assert(plan.payloads_partition@.take(n) =~= prefix);
    assert(plan.receipt_partition@.take(n) =~= prefix);
    assert(plan.records_partition@[n + 17] == 'r');
    assert(plan.payloads_partition@[n + 17] == 'p');
    assert(plan.records_partition@[n + 11] == 'i');
    assert(plan.payloads_partition@[n + 11] == 'i');
    assert(plan.receipt_partition@[n + 11] == 'c');
}

/// A validator starts exactly if it has worker and other threads and a key
/// cache, its counts do not run over, and no participant is listed twice in one
/// role.
pub proof fn starts_need_threads_and_distinct_participants(
    config: LoadedConfig,
    limits: RuntimeLimits,
)
    ensures
        run_fault(config, limits) is None ==> {
            &&& config.worker_threads > 0
            &&& config.rayon_threads > 0
            &&& config.public_key_cache_size > 0
            &&& forall|i: int, j: int|
                0 <= i < j < config.primary_participants@.len() ==> (
                #[trigger] config.primary_participants@[i])@ != (
                #[trigger] config.primary_participants@[j])@
            &&& forall|i: int, j: int|
                0 <= i < j < config.secondary_participants@.len() ==> (
                #[trigger] config.secondary_participants@[i])@ != (
                #[trigger] config.secondary_participants@[j])@
        },
        config.worker_threads > 0 && config.rayon_threads > 0 && config.public_key_cache_size > 0
            && config.worker_threads + limits.max_blocking_threads <= usize::MAX
            && config.primary_participants.len() + config.secondary_participants.len() < usize::MAX
            && peers_per_set(config) * limits.tracked_peer_sets + config.bootstrappers <= usize::MAX
            && config.primary_participants.len() * 2 <= u64::MAX && !repeats_key(
            config.primary_participants@,
        ) && !repeats_key(config.secondary_participants@) ==> run_fault(config, limits) is None,
{
}

/// A refused client ends the start only of a validator that uploads, with the
/// refusal; otherwise the wiring stays as planned.
pub proof fn refused_clients_stop_uploaders(
    plan: Option<IndexerPlan>,
    client: Result<(), ClientFault>,
)
    ensures
        with_client(plan, client) is Err <==> plan is Some && client is Err,
        with_client(plan, client) matches Err(fault) ==> client == Err::<(), ClientFault>(fault),
        with_client(plan, client) matches Ok(built) ==> built == plan,
{
}

} // verus!
