//! A deployment on rented machines: node configurations, services, open ports
//! and instances.

use crate::deploy::config::{
    copy_texts, has_common_settings, hex_all, indexer_enabled, is_hex_of, join_path, node_config,
    numbered, path_in, roles_of, same_texts, secondary_roles, validate_generate_args,
    ClusterMaterial, GenerateArgs, IndexerConfig, NodeIdentity, RelayerConfig, SecondaryRole,
    UploadLimits, ValidatorConfig, CHAIN_INDEXER_BINARY_FILE, CHAIN_INDEXER_DATA_DIR,
    METADATA_INDEXER_BINARY_FILE, QMDB_INDEXER_BINARY_FILE, SPAMMER_BINARY_FILE,
};
use crate::deploy::local::runs_with;
use crate::text::{copy, decimal, decimal_u64, hex, hex_text};
use crate::validator::leaders::RelayerLeaderConfig;
use vstd::prelude::*;

verus! {

/// Binary of a node.
pub const VALIDATOR_BINARY_FILE: &'static str = "constantinople";

/// Host name of the shared Store.
pub const CHAIN_INDEXER_HOST: &'static str = "chain-indexer";

/// Host name of the SQL facade.
pub const METADATA_INDEXER_HOST: &'static str = "metadata-indexer";

/// Host name of the proof facade.
pub const QMDB_INDEXER_HOST: &'static str = "qmdb-indexer";

/// Host name of the spammer.
pub const SPAMMER_HOST: &'static str = "spammer";

/// Configuration file of the shared Store.
pub const CHAIN_INDEXER_CONFIG_FILE: &'static str = "chain-indexer.yaml";

/// Configuration file of the SQL facade.
pub const METADATA_INDEXER_CONFIG_FILE: &'static str = "metadata-indexer.yaml";

/// Configuration file of the proof facade.
pub const QMDB_INDEXER_CONFIG_FILE: &'static str = "qmdb-indexer.yaml";

/// Configuration file of the spammer.
pub const SPAMMER_CONFIG_FILE: &'static str = "spammer.yaml";

/// Storage class of all instances but the shared Store.
pub const STORAGE_CLASS: &'static str = "gp3";

/// Storage class of the shared Store.
pub const CHAIN_INDEXER_STORAGE_CLASS: &'static str = "io2";

/// Group whose instances share an availability zone with the Store.
pub const EXOWARE_AVAILABILITY_ZONE_GROUP: &'static str = "exoware";

/// Uploads that a remote secondary has in flight.
pub const INDEXER_UPLOAD_MAX_IN_FLIGHT: usize = 12;

/// Bytes that a remote secondary's uploads may hold.
pub const INDEXER_UPLOAD_BUDGET_BYTES: u64 = 3221225472;

/// Port on which every remote instance serves metrics.
pub const REMOTE_METRICS_PORT: u16 = 9090;

/// `commonware_deployer::aws::METRICS_PORT`, the port that the deployer scrapes,
/// is 9090.
#[verifier::external_body]
fn metrics_port() -> (port: u16)
    ensures
        port == REMOTE_METRICS_PORT,
{
    commonware_deployer::aws::METRICS_PORT
}

/// What a remote deployment is generated from. Fractions are decimal texts.
#[derive(Debug)]
pub struct RemoteArgs {
    pub regions: Vec<String>,
    pub instance_type: String,
    pub indexer_instance_type: Option<String>,
    pub storage_size: i32,
    pub storage_iops: Option<i32>,
    pub storage_throughput: Option<i32>,
    pub chain_indexer_url: Option<String>,
    pub metadata_indexer_url: Option<String>,
    pub qmdb_indexer_url: Option<String>,
    pub chain_indexer_api_key: Option<String>,
    pub adapter_store_api_key: Option<String>,
    pub chain_indexer_instance_type: String,
    pub chain_indexer_storage_size: i32,
    pub chain_indexer_storage_iops: i32,
    pub monitoring_instance_type: String,
    pub monitoring_storage_size: i32,
    pub listen_port: u16,
    pub http_port: u16,
    pub http_cidrs: Vec<String>,
    pub chain_indexer_port: u16,
    pub chain_indexer_db_parallelism: Option<usize>,
    pub metadata_indexer_port: u16,
    pub qmdb_indexer_port: u16,
    pub profiling: bool,
    pub traces: String,
    pub spammer_instance_type: Option<String>,
    pub spammer_storage_size: i32,
}

/// A node of a remote deployment.
#[derive(Debug)]
pub struct GeneratedValidator {
    pub public_key_hex: String,
    pub config_name: String,
    pub config_file: String,
    pub config: ValidatorConfig,
}

/// The text that an option holds.
pub open spec fn opt(text: Option<String>) -> Option<Seq<char>> {
    match text {
        Some(text) => Some(text@),
        None => None,
    }
}

fn copy_opt(text: &Option<String>) -> (copied: Option<String>)
    ensures
        opt(copied) == opt(*text),
{
    match text {
        Some(text) => Some(copy(text.as_str())),
        None => None,
    }
}

/// Where the Store is reached: at the external one, or at the one that is
/// deployed along.
pub open spec fn store_of(remote: &RemoteArgs) -> Seq<char> {
    match remote.chain_indexer_url {
        Some(url) => url@,
        None => "http://"@ + CHAIN_INDEXER_HOST@ + ":"@ + decimal(remote.chain_indexer_port as nat),
    }
}

/// Where the Store is reached.
pub fn store_url(remote: &RemoteArgs) -> (url: String)
    ensures
        url@ == store_of(remote),
{
    match &remote.chain_indexer_url {
        Some(url) => copy(url.as_str()),
        None => {
            let port = decimal_u64(remote.chain_indexer_port as u64);
            let mut url = copy("http://");
            url.append(CHAIN_INDEXER_HOST);
            url.append(":");
            url.append(port.as_str());
            url
        },
    }
}

/// Whether the Store is deployed along.
pub fn local_chain_indexer(args: &GenerateArgs, remote: &RemoteArgs) -> (local: bool)
    ensures
        local == (args.indexer && remote.chain_indexer_url is None),
{
    indexer_enabled(args) && remote.chain_indexer_url.is_none()
}

/// Whether the SQL facade is deployed along.
pub fn local_metadata_indexer(args: &GenerateArgs, remote: &RemoteArgs) -> (local: bool)
    ensures
        local == (args.indexer && remote.metadata_indexer_url is None),
{
    indexer_enabled(args) && remote.metadata_indexer_url.is_none()
}

/// Whether the proof facade is deployed along.
pub fn local_qmdb_indexer(args: &GenerateArgs, remote: &RemoteArgs) -> (local: bool)
    ensures
        local == (args.indexer && remote.qmdb_indexer_url is None),
{
    indexer_enabled(args) && remote.qmdb_indexer_url.is_none()
}

/// `item` where `present`.
pub open spec fn given<A>(present: bool, item: A) -> Seq<A> {
    if present {
        seq![item]
    } else {
        Seq::empty()
    }
}

/// The binaries of a deployment.
pub open spec fn binaries_of(args: &GenerateArgs, remote: &RemoteArgs) -> Seq<Seq<char>> {
    seq![VALIDATOR_BINARY_FILE@] + given(
        args.indexer && remote.chain_indexer_url is None,
        CHAIN_INDEXER_BINARY_FILE@,
    ) + given(
        args.indexer && remote.metadata_indexer_url is None,
        METADATA_INDEXER_BINARY_FILE@,
    ) + given(args.indexer && remote.qmdb_indexer_url is None, QMDB_INDEXER_BINARY_FILE@) + given(
        args.spammer,
        SPAMMER_BINARY_FILE@,
    )
}

/// The binaries that a deployment needs, in the order in which they are listed.
pub fn expected_binary_files(args: &GenerateArgs, remote: &RemoteArgs) -> (binaries: Vec<String>)
    ensures
        binaries@.map_values(|b: String| b@) == binaries_of(args, remote),
{
    let mut binaries: Vec<String> = Vec::new();
    binaries.push(copy(VALIDATOR_BINARY_FILE));
    if local_chain_indexer(args, remote) {
        binaries.push(copy(CHAIN_INDEXER_BINARY_FILE));
    }
    if local_metadata_indexer(args, remote) {
        binaries.push(copy(METADATA_INDEXER_BINARY_FILE));
    }
    if local_qmdb_indexer(args, remote) {
        binaries.push(copy(QMDB_INDEXER_BINARY_FILE));
    }
    if args.spammer {
        binaries.push(copy(SPAMMER_BINARY_FILE));
    }
    assert(binaries@.map_values(|b: String| b@) =~= binaries_of(args, remote));
    binaries
}

/// Whether `config` is the wiring of the secondary that uploads.
pub open spec fn is_remote_indexer(config: IndexerConfig, remote: &RemoteArgs) -> bool {
    &&& config.chain_indexer_url@ == store_of(remote)
    &&& opt(config.api_key) == opt(remote.chain_indexer_api_key)
    &&& config.limits == UploadLimits::Budget {
        max_in_flight: INDEXER_UPLOAD_MAX_IN_FLIGHT,
        budget_bytes: INDEXER_UPLOAD_BUDGET_BYTES,
    }
}

/// The wiring of the secondary that uploads.
pub fn remote_indexer_config(remote: &RemoteArgs) -> (config: IndexerConfig)
    ensures
        is_remote_indexer(config, remote),
{
    IndexerConfig {
        chain_indexer_url: store_url(remote),
        api_key: copy_opt(&remote.chain_indexer_api_key),
        limits: UploadLimits::Budget {
            max_in_flight: INDEXER_UPLOAD_MAX_IN_FLIGHT,
            budget_bytes: INDEXER_UPLOAD_BUDGET_BYTES,
        },
    }
}

/// The URL of the node with that key, whose host is named by the key.
pub open spec fn node_url(key: Seq<u8>, remote: &RemoteArgs) -> Seq<char> {
    "http://"@ + hex_text(key) + ":"@ + decimal(remote.http_port as nat)
}

fn url_of(key: &Vec<u8>, remote: &RemoteArgs) -> (url: String)
    ensures
        url@ == node_url(key@, remote),
{
    let host = hex(key.as_slice());
    let port = decimal_u64(remote.http_port as u64);
    let mut url = copy("http://");
    url.append(host.as_str());
    url.append(":");
    url.append(port.as_str());
    url
}

/// Whether a relayer forwards to every validator, in order.
pub open spec fn relays_to_validators(
    config: RelayerConfig,
    remote: &RemoteArgs,
    material: &ClusterMaterial,
) -> bool {
    &&& config.leaders@.len() == material.public_keys@.len()
    &&& forall|i: int|
        0 <= i < config.leaders@.len() ==> {
            let leader = #[trigger] config.leaders@[i];
            &&& leader.public_key@ == hex_text(material.public_keys@[i]@)
            &&& leader.url@ == node_url(material.public_keys@[i]@, remote)
        }
}

/// A relayer that forwards to every validator, in order.
pub fn remote_relayer_config(remote: &RemoteArgs, material: &ClusterMaterial) -> (config:
    RelayerConfig)
    ensures
        relays_to_validators(config, remote, material),
{
    let mut leaders: Vec<RelayerLeaderConfig> = Vec::new();
    let mut i: usize = 0;
    while i < material.public_keys.len()
        invariant
            i <= material.public_keys.len(),
            leaders@.len() == i,
            forall|j: int|
                0 <= j < i ==> {
                    let leader = #[trigger] leaders@[j];
                    &&& leader.public_key@ == hex_text(material.public_keys@[j]@)
                    &&& leader.url@ == node_url(material.public_keys@[j]@, remote)
                },
        decreases material.public_keys.len() - i,
    {
        let key = &material.public_keys[i];
        leaders.push(
            RelayerLeaderConfig { public_key: hex(key.as_slice()), url: url_of(key, remote) },
        );
        i = i + 1;
    }
    RelayerConfig { leaders }
}

/// Whether `node` is named by its key and configured as a node with that key.
pub open spec fn is_remote_node(
    node: GeneratedValidator,
    args: &GenerateArgs,
    remote: &RemoteArgs,
    dir: Seq<char>,
    material: &ClusterMaterial,
    bootstrappers: Seq<String>,
    key: Seq<u8>,
) -> bool {
    let config = node.config;
    let name = hex_text(key) + ".yaml"@;
    &&& node.public_key_hex@ == hex_text(key)
    &&& node.config_name@ == name
    &&& node.config_file@ == path_in(dir, name)
    &&& has_common_settings(config, args, material)
    &&& config.listen_port == remote.listen_port
    &&& config.http_port == remote.http_port
    &&& config.metrics_port == REMOTE_METRICS_PORT
    &&& config.traces@ == remote.traces@
    &&& same_texts(config.peers@, bootstrappers)
}

/// Whether `node` is the `i`-th validator of a remote deployment.
pub open spec fn is_remote_validator(
    node: GeneratedValidator,
    args: &GenerateArgs,
    remote: &RemoteArgs,
    dir: Seq<char>,
    material: &ClusterMaterial,
    bootstrappers: Seq<String>,
    i: int,
) -> bool {
    let config = node.config;
    &&& is_remote_node(node, args, remote, dir, material, bootstrappers, material.public_keys@[i]@)
    &&& config.private_key@ == hex_text(material.signers@[i]@)
    &&& exists|k: int| #[trigger]
        material.is_share(material.public_keys@[i]@, k) && config.dkg_share@ == hex_text(
            material.shares@[k].share@,
        )
    &&& config.partition_prefix@ == "validator-"@ + decimal(i as nat)
    &&& config.indexer is None
    &&& config.relayer is None
}

/// Whether `node` is the `i`-th secondary of a remote deployment.
pub open spec fn is_remote_secondary(
    node: GeneratedValidator,
    args: &GenerateArgs,
    remote: &RemoteArgs,
    dir: Seq<char>,
    material: &ClusterMaterial,
    bootstrappers: Seq<String>,
    i: int,
) -> bool {
    let config = node.config;
    &&& is_remote_node(
        node,
        args,
        remote,
        dir,
        material,
        bootstrappers,
        material.secondary_public_keys@[i]@,
    )
    &&& config.private_key@ == hex_text(material.secondary_signers@[i]@)
    &&& config.dkg_share@ == Seq::<char>::empty()
    &&& config.partition_prefix@ == "secondary-"@ + decimal(i as nat)
    &&& match roles_of(args)[i] {
        SecondaryRole::Indexer => config.relayer is None && (config.indexer matches Some(indexer)
            && is_remote_indexer(indexer, remote)),
        SecondaryRole::Relayer => config.indexer is None && (config.relayer matches Some(relayer)
            && relays_to_validators(relayer, remote, material)),
    }
}

fn generated(
    dir: &str,
    key: &Vec<u8>,
    config: ValidatorConfig,
) -> (node: GeneratedValidator)
    ensures
        node.public_key_hex@ == hex_text(key@),
        node.config_name@ == hex_text(key@) + ".yaml"@,
        node.config_file@ == path_in(dir@, hex_text(key@) + ".yaml"@),
        node.config == config,
{
    let public_key_hex = hex(key.as_slice());
    let mut config_name = copy(public_key_hex.as_str());
    config_name.append(".yaml");
    let config_file = join_path(dir, config_name.as_str());
    GeneratedValidator { public_key_hex, config_name, config_file, config }
}

fn remote_identity(
    remote: &RemoteArgs,
    private_key: String,
    dkg_share: String,
    partition_prefix: String,
    bootstrappers: &Vec<String>,
) -> (node: NodeIdentity)
    ensures
        node.private_key == private_key,
        node.dkg_share == dkg_share,
        node.partition_prefix == partition_prefix,
        node.listen_port == remote.listen_port,
        node.http_port == remote.http_port,
        node.metrics_port == REMOTE_METRICS_PORT,
        node.traces@ == remote.traces@,
        same_texts(node.peers@, bootstrappers@),
{
    NodeIdentity {
        private_key,
        dkg_share,
        partition_prefix,
        listen_port: remote.listen_port,
        http_port: remote.http_port,
        metrics_port: metrics_port(),
        traces: copy(remote.traces.as_str()),
        peers: copy_texts(bootstrappers),
    }
}

/// The validators of a remote deployment, or that one has no share.
pub fn build_validators(
    args: &GenerateArgs,
    remote: &RemoteArgs,
    dir: &str,
    material: &ClusterMaterial,
    bootstrappers: &Vec<String>,
) -> (validators: Result<Vec<GeneratedValidator>, String>)
    requires
        material.covers(args),
    ensures
        match validators {
            Ok(nodes) => nodes@.len() == args.validators && forall|i: int|
                0 <= i < nodes@.len() ==> is_remote_validator(
                    #[trigger] nodes@[i],
                    args,
                    remote,
                    dir@,
                    material,
                    bootstrappers@,
                    i,
                ),
            Err(e) => e@ == "missing share for validator"@ && exists|i: int|
                0 <= i < args.validators && !material.has_share(
                    (#[trigger] material.public_keys@[i])@,
                ),
        },
{
    let mut nodes: Vec<GeneratedValidator> = Vec::new();
    let mut index: u32 = 0;
    while index < args.validators
        invariant
            index <= args.validators,
            material.covers(args),
            nodes@.len() == index,
            forall|i: int|
                0 <= i < index ==> is_remote_validator(
                    #[trigger] nodes@[i],
                    args,
                    remote,
                    dir@,
                    material,
                    bootstrappers@,
                    i,
                ),
        decreases args.validators - index,
    {
        let count: usize = material.public_keys.len();
        let at: usize = index as usize;
        let key = &material.public_keys[at];
        let dkg_share = match material.share_hex(key) {
            Some(share) => share,
            None => return Err(copy("missing share for validator")),
        };
        let identity = remote_identity(
            remote,
            hex(material.signers[at].as_slice()),
            dkg_share,
            numbered("validator-", index as u64),
            bootstrappers,
        );
        let config = node_config(args, material, identity, None, None);
        nodes.push(generated(dir, key, config));
        index = index + 1;
    }
    Ok(nodes)
}

/// The secondaries of a remote deployment.
pub fn build_secondaries(
    args: &GenerateArgs,
    remote: &RemoteArgs,
    dir: &str,
    material: &ClusterMaterial,
    bootstrappers: &Vec<String>,
) -> (secondaries: Vec<GeneratedValidator>)
    requires
        material.covers(args),
    ensures
        secondaries@.len() == roles_of(args).len(),
        forall|i: int|
            0 <= i < secondaries@.len() ==> is_remote_secondary(
                #[trigger] secondaries@[i],
                args,
                remote,
                dir@,
                material,
                bootstrappers@,
                i,
            ),
{
    let roles = secondary_roles(args);
    let mut nodes: Vec<GeneratedValidator> = Vec::new();
    let mut index: usize = 0;
    while index < roles.len()
        invariant
            index <= roles.len(),
            roles@ == roles_of(args),
            material.covers(args),
            nodes@.len() == index,
            forall|i: int|
                0 <= i < index ==> is_remote_secondary(
                    #[trigger] nodes@[i],
                    args,
                    remote,
                    dir@,
                    material,
                    bootstrappers@,
                    i,
                ),
        decreases roles.len() - index,
    {
        let key = &material.secondary_public_keys[index];
        let indexer = match roles[index] {
            SecondaryRole::Indexer => Some(remote_indexer_config(remote)),
            SecondaryRole::Relayer => None,
        };
        let relayer = match roles[index] {
            SecondaryRole::Relayer => Some(remote_relayer_config(remote, material)),
            SecondaryRole::Indexer => None,
        };
        let identity = remote_identity(
            remote,
            hex(material.secondary_signers[index].as_slice()),
            String::new(),
            numbered("secondary-", index as u64),
            bootstrappers,
        );
        let config = node_config(args, material, identity, indexer, relayer);
        nodes.push(generated(dir, key, config));
        index = index + 1;
    }
    nodes
}

/// The spammer's configuration.
#[derive(Debug)]
pub struct SpammerConfig {
    pub accounts: usize,
    pub value: u64,
    pub seed_offset: Option<u64>,
    pub rayon_threads: usize,
    pub http_port: u16,
    pub relayer_url: String,
    pub relayer_submitters: usize,
    pub presigned_batches: usize,
    pub primary_validators: Vec<String>,
    pub accounts_jitter: String,
}

/// Which secondary runs the relayer.
pub open spec fn relayer_index(args: &GenerateArgs) -> int {
    if args.indexer {
        1
    } else {
        0
    }
}

/// Where the relayer is reached.
pub fn relayer_url(args: &GenerateArgs, remote: &RemoteArgs, material: &ClusterMaterial) -> (url:
    String)
    requires
        relayer_index(args) < material.secondary_public_keys@.len(),
    ensures
        url@ == node_url(material.secondary_public_keys@[relayer_index(args)]@, remote),
{
    let index: usize = if args.indexer {
        1
    } else {
        0
    };
    url_of(&material.secondary_public_keys[index], remote)
}

/// Whether `config` is the spammer's configuration.
pub open spec fn is_remote_spammer(
    config: SpammerConfig,
    args: &GenerateArgs,
    remote: &RemoteArgs,
    material: &ClusterMaterial,
) -> bool {
    &&& config.accounts == args.spammer_accounts
    &&& config.value == args.spammer_value
    &&& config.seed_offset == args.spammer_seed_offset
    &&& config.rayon_threads == args.spammer_rayon_threads
    &&& config.http_port == remote.http_port
    &&& config.relayer_url@ == node_url(
        material.secondary_public_keys@[relayer_index(args)]@,
        remote,
    )
    &&& config.relayer_submitters == (match args.spammer_submitters {
        Some(submitters) => submitters as int,
        None => args.validators as int,
    })
    &&& config.presigned_batches == args.spammer_presigned_batches
    &&& is_hex_of(config.primary_validators@, material.public_keys@)
    &&& config.accounts_jitter@ == args.spammer_accounts_jitter@
}

/// The spammer's configuration. Unless told otherwise it has as many submitters
/// as there are validators.
pub fn remote_spammer_config(
    args: &GenerateArgs,
    remote: &RemoteArgs,
    material: &ClusterMaterial,
) -> (config: SpammerConfig)
    requires
        relayer_index(args) < material.secondary_public_keys@.len(),
    ensures
        is_remote_spammer(config, args, remote, material),
{
    let submitters: usize = match args.spammer_submitters {
        Some(submitters) => submitters,
        None => args.validators as usize,
    };
    SpammerConfig {
        accounts: args.spammer_accounts,
        value: args.spammer_value,
        seed_offset: args.spammer_seed_offset,
        rayon_threads: args.spammer_rayon_threads,
        http_port: remote.http_port,
        relayer_url: relayer_url(args, remote, material),
        relayer_submitters: submitters,
        presigned_batches: args.spammer_presigned_batches,
        primary_validators: hex_all(&material.public_keys),
        accounts_jitter: copy(args.spammer_accounts_jitter.as_str()),
    }
}

/// The shared Store's configuration.
#[derive(Debug)]
pub struct ChainIndexerConfig {
    pub port: u16,
    pub data_dir: String,
    pub db_parallelism: Option<usize>,
}

/// A facade's configuration.
#[derive(Debug)]
pub struct AdapterConfig {
    pub port: u16,
    pub chain_indexer_url: String,
    pub api_key: Option<String>,
}

/// Whether `config` is the Store's.
pub open spec fn is_store_config(config: ChainIndexerConfig, remote: &RemoteArgs) -> bool {
    &&& config.port == remote.chain_indexer_port
    &&& config.data_dir@ == CHAIN_INDEXER_DATA_DIR@
    &&& config.db_parallelism == remote.chain_indexer_db_parallelism
}

/// The Store's configuration, where it is deployed along.
pub fn chain_indexer_config(args: &GenerateArgs, remote: &RemoteArgs) -> (config: Option<
    ChainIndexerConfig,
>)
    ensures
        match config {
            Some(c) => args.indexer && remote.chain_indexer_url is None && is_store_config(
                c,
                remote,
            ),
            None => !(args.indexer && remote.chain_indexer_url is None),
        },
{
    if !local_chain_indexer(args, remote) {
        return None;
    }
    Some(
        ChainIndexerConfig {
            port: remote.chain_indexer_port,
            data_dir: copy(CHAIN_INDEXER_DATA_DIR),
            db_parallelism: remote.chain_indexer_db_parallelism,
        },
    )
}

/// Whether `config` is that of a facade on `port`: it reads the Store.
pub open spec fn is_adapter(config: AdapterConfig, remote: &RemoteArgs, port: u16) -> bool {
    &&& config.port == port
    &&& config.chain_indexer_url@ == store_of(remote)
    &&& opt(config.api_key) == opt(remote.adapter_store_api_key)
}

fn adapter_config(remote: &RemoteArgs, port: u16) -> (config: AdapterConfig)
    ensures
        is_adapter(config, remote, port),
{
    AdapterConfig {
        port,
        chain_indexer_url: store_url(remote),
        api_key: copy_opt(&remote.adapter_store_api_key),
    }
}

/// The SQL facade's configuration, where it is deployed along.
pub fn metadata_indexer_config(args: &GenerateArgs, remote: &RemoteArgs) -> (config: Option<
    AdapterConfig,
>)
    ensures
        match config {
            Some(c) => args.indexer && remote.metadata_indexer_url is None && is_adapter(
                c,
                remote,
                remote.metadata_indexer_port,
            ),
            None => !(args.indexer && remote.metadata_indexer_url is None),
        },
{
    if local_metadata_indexer(args, remote) {
        Some(adapter_config(remote, remote.metadata_indexer_port))
    } else {
        None
    }
}

/// The proof facade's configuration, where it is deployed along.
pub fn qmdb_indexer_config(args: &GenerateArgs, remote: &RemoteArgs) -> (config: Option<
    AdapterConfig,
>)
    ensures
        match config {
            Some(c) => args.indexer && remote.qmdb_indexer_url is None && is_adapter(
                c,
                remote,
                remote.qmdb_indexer_port,
            ),
            None => !(args.indexer && remote.qmdb_indexer_url is None),
        },
{
    if local_qmdb_indexer(args, remote) {
        Some(adapter_config(remote, remote.qmdb_indexer_port))
    } else {
        None
    }
}

/// An instance to rent.
#[derive(Debug)]
pub struct InstanceConfig {
    pub name: String,
    pub region: String,
    pub availability_zone_group: Option<String>,
    pub instance_type: String,
    pub storage_size: i32,
    pub storage_class: String,
    pub storage_iops: Option<i32>,
    pub storage_throughput: Option<i32>,
    pub binary: String,
    pub config: String,
    pub profiling: bool,
}

/// What an instance is.
pub ghost struct Instance {
    pub name: Seq<char>,
    pub region: Seq<char>,
    pub zone_group: Option<Seq<char>>,
    pub instance_type: Seq<char>,
    pub storage_size: i32,
    pub storage_class: Seq<char>,
    pub storage_iops: Option<i32>,
    pub storage_throughput: Option<i32>,
    pub binary: Seq<char>,
    pub config: Seq<char>,
    pub profiling: bool,
}

impl View for InstanceConfig {
    type V = Instance;

    open spec fn view(&self) -> Instance {
        Instance {
            name: self.name@,
            region: self.region@,
            zone_group: opt(self.availability_zone_group),
            instance_type: self.instance_type@,
            storage_size: self.storage_size,
            storage_class: self.storage_class@,
            storage_iops: self.storage_iops,
            storage_throughput: self.storage_throughput,
            binary: self.binary@,
            config: self.config@,
            profiling: self.profiling,
        }
    }
}

/// The region of the `i`-th of several instances that are spread over all.
pub open spec fn spread_region(remote: &RemoteArgs, i: int) -> Seq<char> {
    remote.regions@[i % remote.regions@.len() as int]@
}

/// The instance of a node.
pub open spec fn node_instance(
    remote: &RemoteArgs,
    node: GeneratedValidator,
    binary: Seq<char>,
    region: Seq<char>,
) -> Instance {
    let uploads = node.config.indexer is Some;
    Instance {
        name: node.public_key_hex@,
        region,
        zone_group: if uploads {
            Some(EXOWARE_AVAILABILITY_ZONE_GROUP@)
        } else {
            None
        },
        instance_type: match remote.indexer_instance_type {
            Some(own) => if uploads {
                own@
            } else {
                remote.instance_type@
            },
            None => remote.instance_type@,
        },
        storage_size: remote.storage_size,
        storage_class: STORAGE_CLASS@,
        storage_iops: remote.storage_iops,
        storage_throughput: remote.storage_throughput,
        binary,
        config: node.config_name@,
        profiling: remote.profiling,
    }
}

/// The instance of a validator.
pub open spec fn validator_instance(
    remote: &RemoteArgs,
    node: GeneratedValidator,
    binary: Seq<char>,
    i: int,
) -> Instance {
    Instance {
        zone_group: None,
        instance_type: remote.instance_type@,
        ..node_instance(remote, node, binary, spread_region(remote, i))
    }
}

/// The instance of a secondary. With an indexer stack all secondaries stand in
/// its region.
pub open spec fn secondary_instance(
    args: &GenerateArgs,
    remote: &RemoteArgs,
    node: GeneratedValidator,
    binary: Seq<char>,
    i: int,
) -> Instance {
    node_instance(
        remote,
        node,
        binary,
        if args.indexer {
            remote.regions@[0]@
        } else {
            spread_region(remote, i)
        },
    )
}

/// The instance of a service other than the Store.
pub open spec fn service_instance(
    remote: &RemoteArgs,
    name: Seq<char>,
    zone_group: Option<Seq<char>>,
    instance_type: Seq<char>,
    storage_size: i32,
    binary: Seq<char>,
    config: Seq<char>,
) -> Instance {
    Instance {
        name,
        region: remote.regions@[0]@,
        zone_group,
        instance_type,
        storage_size,
        storage_class: STORAGE_CLASS@,
        storage_iops: None,
        storage_throughput: None,
        binary,
        config,
        profiling: false,
    }
}

/// The Store's instance.
pub open spec fn store_instance(remote: &RemoteArgs) -> Instance {
    Instance {
        name: CHAIN_INDEXER_HOST@,
        region: remote.regions@[0]@,
        zone_group: Some(EXOWARE_AVAILABILITY_ZONE_GROUP@),
        instance_type: remote.chain_indexer_instance_type@,
        storage_size: remote.chain_indexer_storage_size,
        storage_class: CHAIN_INDEXER_STORAGE_CLASS@,
        storage_iops: Some(remote.chain_indexer_storage_iops),
        storage_throughput: None,
        binary: CHAIN_INDEXER_BINARY_FILE@,
        config: CHAIN_INDEXER_CONFIG_FILE@,
        profiling: false,
    }
}

/// The spammer's instance.
pub open spec fn spammer_instance(remote: &RemoteArgs) -> Instance {
    service_instance(
        remote,
        SPAMMER_HOST@,
        None,
        match remote.spammer_instance_type {
            Some(own) => own@,
            None => remote.instance_type@,
        },
        remote.spammer_storage_size,
        SPAMMER_BINARY_FILE@,
        SPAMMER_CONFIG_FILE@,
    )
}

/// The instance of a facade, which shares the Store's zone.
pub open spec fn facade_instance(
    remote: &RemoteArgs,
    name: Seq<char>,
    binary: Seq<char>,
    config: Seq<char>,
) -> Instance {
    service_instance(
        remote,
        name,
        Some(EXOWARE_AVAILABILITY_ZONE_GROUP@),
        remote.instance_type@,
        remote.storage_size,
        binary,
        config,
    )
}

/// The instances of the services that are deployed along.
pub open spec fn service_instances(args: &GenerateArgs, remote: &RemoteArgs) -> Seq<Instance> {
    given(args.indexer && remote.chain_indexer_url is None, store_instance(remote)) + given(
        args.indexer && remote.metadata_indexer_url is None,
        facade_instance(
            remote,
            METADATA_INDEXER_HOST@,
            METADATA_INDEXER_BINARY_FILE@,
            METADATA_INDEXER_CONFIG_FILE@,
        ),
    ) + given(
        args.indexer && remote.qmdb_indexer_url is None,
        facade_instance(
            remote,
            QMDB_INDEXER_HOST@,
            QMDB_INDEXER_BINARY_FILE@,
            QMDB_INDEXER_CONFIG_FILE@,
        ),
    ) + given(args.spammer, spammer_instance(remote))
}

/// All instances: the validators, the secondaries, the services.
pub open spec fn all_instances(
    args: &GenerateArgs,
    remote: &RemoteArgs,
    binary: Seq<char>,
    validators: Seq<GeneratedValidator>,
    secondaries: Seq<GeneratedValidator>,
) -> Seq<Instance> {
    Seq::new(
        validators.len(),
        |i: int| validator_instance(remote, validators[i], binary, i),
    ) + Seq::new(
        secondaries.len(),
        |i: int| secondary_instance(args, remote, secondaries[i], binary, i),
    ) + service_instances(args, remote)
}

/// The views of some instances.
pub open spec fn instances_of(list: Seq<InstanceConfig>) -> Seq<Instance> {
    list.map_values(|i: InstanceConfig| i@)
}

/// The machine that watches the others.
#[derive(Debug)]
pub struct MonitoringConfig {
    pub instance_type: String,
    pub storage_size: i32,
    pub storage_class: String,
    pub storage_iops: Option<i32>,
    pub storage_throughput: Option<i32>,
    pub dashboard: String,
}

/// A port that is open to an address range.
#[derive(Debug)]
pub struct PortConfig {
    pub protocol: String,
    pub port: u16,
    pub cidr: String,
}

/// A port that is open to an address range.
pub ghost struct OpenPort {
    pub protocol: Seq<char>,
    pub port: u16,
    pub cidr: Seq<char>,
}

impl View for PortConfig {
    type V = OpenPort;

    open spec fn view(&self) -> OpenPort {
        OpenPort { protocol: self.protocol@, port: self.port, cidr: self.cidr@ }
    }
}

/// A port that is open to everybody.
pub open spec fn open_to_all(port: u16) -> OpenPort {
    OpenPort { protocol: "tcp"@, port, cidr: "0.0.0.0/0"@ }
}

/// The ports that are open to everybody: those of the nodes' peers and of the
/// services that are deployed along.
pub open spec fn open_services(args: &GenerateArgs, remote: &RemoteArgs) -> Seq<OpenPort> {
    seq![open_to_all(remote.listen_port)] + given(
        args.indexer && remote.chain_indexer_url is None,
        open_to_all(remote.chain_indexer_port),
    ) + given(
        args.indexer && remote.metadata_indexer_url is None,
        open_to_all(remote.metadata_indexer_port),
    ) + given(
        args.indexer && remote.qmdb_indexer_url is None,
        open_to_all(remote.qmdb_indexer_port),
    )
}

/// The ports that are open: to everybody, and HTTP to the given ranges.
pub open spec fn open_ports(args: &GenerateArgs, remote: &RemoteArgs) -> Seq<OpenPort> {
    open_services(args, remote) + Seq::new(
        remote.http_cidrs@.len(),
        |i: int|
            OpenPort { protocol: "tcp"@, port: remote.http_port, cidr: remote.http_cidrs@[i]@ },
    )
}

/// The views of some ports.
pub open spec fn ports_of(list: Seq<PortConfig>) -> Seq<OpenPort> {
    list.map_values(|p: PortConfig| p@)
}

fn public_port(port: u16) -> (config: PortConfig)
    ensures
        config@ == open_to_all(port),
{
    PortConfig { protocol: copy("tcp"), port, cidr: copy("0.0.0.0/0") }
}

/// The ports that are open.
pub fn port_configs(args: &GenerateArgs, remote: &RemoteArgs) -> (ports: Vec<PortConfig>)
    ensures
        ports_of(ports@) == open_ports(args, remote),
{
    let mut ports: Vec<PortConfig> = Vec::new();
    ports.push(public_port(remote.listen_port));
    if local_chain_indexer(args, remote) {
        ports.push(public_port(remote.chain_indexer_port));
    }
    if local_metadata_indexer(args, remote) {
        ports.push(public_port(remote.metadata_indexer_port));
    }
    if local_qmdb_indexer(args, remote) {
        ports.push(public_port(remote.qmdb_indexer_port));
    }
    let ghost services = ports@;
    assert(ports_of(services) =~= open_services(args, remote));
    let mut i: usize = 0;
    while i < remote.http_cidrs.len()
        invariant
            i <= remote.http_cidrs.len(),
            ports@.len() == services.len() + i,
            ports@.take(services.len() as int) == services,
            forall|j: int|
                services.len() <= j < ports@.len() ==> (#[trigger] ports@[j])@ == (OpenPort {
                    protocol: "tcp"@,
                    port: remote.http_port,
                    cidr: remote.http_cidrs@[j - services.len()]@,
                }),
        decreases remote.http_cidrs.len() - i,
    {
        ports.push(
            PortConfig {
                protocol: copy("tcp"),
                port: remote.http_port,
                cidr: copy(remote.http_cidrs[i].as_str()),
            },
        );
        i = i + 1;
        assert(ports@.take(services.len() as int) =~= services);
    }
    proof {
        assert forall|j: int| 0 <= j < services.len() implies ports@[j]@ == open_services(
            args,
            remote,
        )[j] by {
            assert(ports@.take(services.len() as int)[j] == ports@[j]);
            assert(ports_of(services)[j] == services[j]@);
        }
        assert(ports_of(ports@) =~= open_ports(args, remote));
    }
    ports
}

/// What the deployer is told.
#[derive(Debug)]
pub struct DeployerConfig {
    pub tag: String,
    pub monitoring: MonitoringConfig,
    pub instances: Vec<InstanceConfig>,
    pub ports: Vec<PortConfig>,
}

fn zone_group() -> (group: Option<String>)
    ensures
        opt(group) == Some(EXOWARE_AVAILABILITY_ZONE_GROUP@),
{
    Some(copy(EXOWARE_AVAILABILITY_ZONE_GROUP))
}

fn instance_of_node(
    remote: &RemoteArgs,
    node: &GeneratedValidator,
    binary: &str,
    region: &str,
    secondary: bool,
) -> (instance: InstanceConfig)
    ensures
        secondary ==> instance@ == node_instance(remote, *node, binary@, region@),
        !secondary ==> instance@ == (Instance {
            zone_group: None,
            instance_type: remote.instance_type@,
            ..node_instance(remote, *node, binary@, region@)
        }),
{
    let uploads = secondary && node.config.indexer.is_some();
    let instance_type = match &remote.indexer_instance_type {
        Some(own) => if uploads {
            copy(own.as_str())
        } else {
            copy(remote.instance_type.as_str())
        },
        None => copy(remote.instance_type.as_str()),
    };
    let availability_zone_group = if uploads {
        zone_group()
    } else {
        None
    };
    InstanceConfig {
        name: copy(node.public_key_hex.as_str()),
        region: copy(region),
        availability_zone_group,
        instance_type,
        storage_size: remote.storage_size,
        storage_class: copy(STORAGE_CLASS),
        storage_iops: remote.storage_iops,
        storage_throughput: remote.storage_throughput,
        binary: copy(binary),
        config: copy(node.config_name.as_str()),
        profiling: remote.profiling,
    }
}

fn instance_of_facade(remote: &RemoteArgs, name: &str, binary: &str, config: &str) -> (instance:
    InstanceConfig)
    requires
        remote.regions@.len() > 0,
    ensures
        instance@ == facade_instance(remote, name@, binary@, config@),
{
    InstanceConfig {
        name: copy(name),
        region: copy(remote.regions[0].as_str()),
        availability_zone_group: zone_group(),
        instance_type: copy(remote.instance_type.as_str()),
        storage_size: remote.storage_size,
        storage_class: copy(STORAGE_CLASS),
        storage_iops: None,
        storage_throughput: None,
        binary: copy(binary),
        config: copy(config),
        profiling: false,
    }
}

fn instance_of_store(remote: &RemoteArgs) -> (instance: InstanceConfig)
    requires
        remote.regions@.len() > 0,
    ensures
        instance@ == store_instance(remote),
{
    InstanceConfig {
        name: copy(CHAIN_INDEXER_HOST),
        region: copy(remote.regions[0].as_str()),
        availability_zone_group: zone_group(),
        instance_type: copy(remote.chain_indexer_instance_type.as_str()),
        storage_size: remote.chain_indexer_storage_size,
        storage_class: copy(CHAIN_INDEXER_STORAGE_CLASS),
        storage_iops: Some(remote.chain_indexer_storage_iops),
        storage_throughput: None,
        binary: copy(CHAIN_INDEXER_BINARY_FILE),
        config: copy(CHAIN_INDEXER_CONFIG_FILE),
        profiling: false,
    }
}

fn instance_of_spammer(remote: &RemoteArgs) -> (instance: InstanceConfig)
    requires
        remote.regions@.len() > 0,
    ensures
        instance@ == spammer_instance(remote),
{
    let instance_type = match &remote.spammer_instance_type {
        Some(own) => copy(own.as_str()),
        None => copy(remote.instance_type.as_str()),
    };
    InstanceConfig {
        name: copy(SPAMMER_HOST),
        region: copy(remote.regions[0].as_str()),
        availability_zone_group: None,
        instance_type,
        storage_size: remote.spammer_storage_size,
        storage_class: copy(STORAGE_CLASS),
        storage_iops: None,
        storage_throughput: None,
        binary: copy(SPAMMER_BINARY_FILE),
        config: copy(SPAMMER_CONFIG_FILE),
        profiling: false,
    }
}

fn node_instances(
    args: &GenerateArgs,
    remote: &RemoteArgs,
    binary: &str,
    validators: &Vec<GeneratedValidator>,
    secondaries: &Vec<GeneratedValidator>,
) -> (instances: Vec<InstanceConfig>)
    requires
        remote.regions@.len() > 0,
    ensures
        instances_of(instances@) == Seq::new(
            validators@.len(),
            |i: int| validator_instance(remote, validators@[i], binary@, i),
        ) + Seq::new(
            secondaries@.len(),
            |i: int| secondary_instance(args, remote, secondaries@[i], binary@, i),
        ),
{
    let mut instances: Vec<InstanceConfig> = Vec::new();
    let mut i: usize = 0;
    while i < validators.len()
        invariant
            i <= validators.len(),
            remote.regions@.len() > 0,
            instances@.len() == i,
            forall|j: int|
                0 <= j < i ==> (#[trigger] instances@[j])@ == validator_instance(
                    remote,
                    validators@[j],
                    binary@,
                    j,
                ),
        decreases validators.len() - i,
    {
        let region = remote.regions[i % remote.regions.len()].as_str();
        instances.push(instance_of_node(remote, &validators[i], binary, region, false));
        i = i + 1;
    }
    let first: usize = i;
    let mut k: usize = 0;
    while k < secondaries.len()
        invariant
            k <= secondaries.len(),
            first == validators@.len(),
            remote.regions@.len() > 0,
            instances@.len() == first + k,
            forall|j: int|
                0 <= j < first ==> (#[trigger] instances@[j])@ == validator_instance(
                    remote,
                    validators@[j],
                    binary@,
                    j,
                ),
            forall|j: int|
                first <= j < first + k ==> (#[trigger] instances@[j])@ == secondary_instance(
                    args,
                    remote,
                    secondaries@[j - first],
                    binary@,
                    j - first,
                ),
        decreases secondaries.len() - k,
    {
        let region = if indexer_enabled(args) {
            remote.regions[0].as_str()
        } else {
            remote.regions[k % remote.regions.len()].as_str()
        };
        instances.push(instance_of_node(remote, &secondaries[k], binary, region, true));
        k = k + 1;
    }
    assert(instances_of(instances@) =~= Seq::new(
        validators@.len(),
        |i: int| validator_instance(remote, validators@[i], binary@, i),
    ) + Seq::new(
        secondaries@.len(),
        |i: int| secondary_instance(args, remote, secondaries@[i], binary@, i),
    ));
    instances
}

/// Whether `config` is what the deployer is told of a deployment.
pub open spec fn is_deployer_config(
    config: DeployerConfig,
    args: &GenerateArgs,
    remote: &RemoteArgs,
    binary: Seq<char>,
    dashboard: Seq<char>,
    validators: Seq<GeneratedValidator>,
    secondaries: Seq<GeneratedValidator>,
) -> bool {
    &&& config.monitoring.instance_type@ == remote.monitoring_instance_type@
    &&& config.monitoring.storage_size == remote.monitoring_storage_size
    &&& config.monitoring.storage_class@ == STORAGE_CLASS@
    &&& config.monitoring.storage_iops is None
    &&& config.monitoring.storage_throughput is None
    &&& config.monitoring.dashboard@ == dashboard
    &&& instances_of(config.instances@) == all_instances(
        args,
        remote,
        binary,
        validators,
        secondaries,
    )
    &&& ports_of(config.ports@) == open_ports(args, remote)
}

/// What the deployer is told of a deployment that is tagged `tag`.
pub fn build_deployer_config(
    args: &GenerateArgs,
    remote: &RemoteArgs,
    validator_binary: &str,
    dashboard: &str,
    tag: String,
    validators: &Vec<GeneratedValidator>,
    secondaries: &Vec<GeneratedValidator>,
) -> (config: DeployerConfig)
    requires
        remote.regions@.len() > 0,
    ensures
        config.tag == tag,
        is_deployer_config(
            config,
            args,
            remote,
            validator_binary@,
            dashboard@,
            validators@,
            secondaries@,
        ),
{
    let mut instances = node_instances(args, remote, validator_binary, validators, secondaries);
    let ghost nodes = instances@;
    if local_chain_indexer(args, remote) {
        instances.push(instance_of_store(remote));
    }
    if local_metadata_indexer(args, remote) {
        instances.push(
            instance_of_facade(
                remote,
                METADATA_INDEXER_HOST,
                METADATA_INDEXER_BINARY_FILE,
                METADATA_INDEXER_CONFIG_FILE,
            ),
        );
    }
    if local_qmdb_indexer(args, remote) {
        instances.push(
            instance_of_facade(
                remote,
                QMDB_INDEXER_HOST,
                QMDB_INDEXER_BINARY_FILE,
                QMDB_INDEXER_CONFIG_FILE,
            ),
        );
    }
    if args.spammer {
        instances.push(instance_of_spammer(remote));
    }
    assert(instances_of(instances@) =~= instances_of(nodes) + service_instances(args, remote));
    DeployerConfig {
        tag,
        monitoring: MonitoringConfig {
            instance_type: copy(remote.monitoring_instance_type.as_str()),
            storage_size: remote.monitoring_storage_size,
            storage_class: copy(STORAGE_CLASS),
            storage_iops: None,
            storage_throughput: None,
            dashboard: copy(dashboard),
        },
        instances,
        ports: port_configs(args, remote),
    }
}

/// What keeps a remote deployment from being generated.
pub open spec fn remote_fault(args: &GenerateArgs, remote: &RemoteArgs) -> Option<Seq<char>> {
    if args.spammer && !args.relayer {
        Some("--spammer requires --relayer"@)
    } else if args.validators < 1 {
        Some("need at least one validator"@)
    } else if remote.regions@.len() == 0 {
        Some("need at least one region"@)
    } else if remote.regions@.len() > args.validators {
        Some("need at least one validator per region"@)
    } else {
        None
    }
}

/// Whether a remote deployment can be generated.
pub fn validate_remote(args: &GenerateArgs, remote: &RemoteArgs) -> (valid: Result<(), String>)
    ensures
        match remote_fault(args, remote) {
            None => valid is Ok,
            Some(text) => valid matches Err(e) && e@ == text,
        },
{
    if let Err(e) = validate_generate_args(args) {
        return Err(e);
    }
    if args.validators < 1 {
        return Err(copy("need at least one validator"));
    }
    if remote.regions.len() == 0 {
        return Err(copy("need at least one region"));
    }
    if remote.regions.len() as u64 > args.validators as u64 {
        return Err(copy("need at least one validator per region"));
    }
    Ok(())
}

/// Everything that is written for a remote deployment.
#[derive(Debug)]
pub struct RemoteBundle {
    pub validators: Vec<GeneratedValidator>,
    pub secondaries: Vec<GeneratedValidator>,
    pub chain_indexer: Option<ChainIndexerConfig>,
    pub metadata_indexer: Option<AdapterConfig>,
    pub qmdb_indexer: Option<AdapterConfig>,
    pub spammer: Option<SpammerConfig>,
    pub deployer: DeployerConfig,
}

/// Whether `bundle` is that of a remote deployment.
pub open spec fn is_remote_bundle(
    bundle: RemoteBundle,
    args: &GenerateArgs,
    remote: &RemoteArgs,
    dir: Seq<char>,
    material: &ClusterMaterial,
    bootstrappers: Seq<String>,
    dashboard: Seq<char>,
) -> bool {
    &&& bundle.validators@.len() == args.validators
    &&& forall|i: int|
        0 <= i < bundle.validators@.len() ==> is_remote_validator(
            #[trigger] bundle.validators@[i],
            args,
            remote,
            dir,
            material,
            bootstrappers,
            i,
        )
    &&& bundle.secondaries@.len() == roles_of(args).len()
    &&& forall|i: int|
        0 <= i < bundle.secondaries@.len() ==> is_remote_secondary(
            #[trigger] bundle.secondaries@[i],
            args,
            remote,
            dir,
            material,
            bootstrappers,
            i,
        )
    &&& match bundle.chain_indexer {
        Some(c) => args.indexer && remote.chain_indexer_url is None && is_store_config(c, remote),
        None => !(args.indexer && remote.chain_indexer_url is None),
    }
    &&& match bundle.metadata_indexer {
        Some(c) => args.indexer && remote.metadata_indexer_url is None && is_adapter(
            c,
            remote,
            remote.metadata_indexer_port,
        ),
        None => !(args.indexer && remote.metadata_indexer_url is None),
    }
    &&& match bundle.qmdb_indexer {
        Some(c) => args.indexer && remote.qmdb_indexer_url is None && is_adapter(
            c,
            remote,
            remote.qmdb_indexer_port,
        ),
        None => !(args.indexer && remote.qmdb_indexer_url is None),
    }
    &&& match bundle.spammer {
        Some(c) => args.spammer && is_remote_spammer(c, args, remote, material),
        None => !args.spammer,
    }
    &&& is_deployer_config(
        bundle.deployer,
        args,
        remote,
        VALIDATOR_BINARY_FILE@,
        dashboard,
        bundle.validators@,
        bundle.secondaries@,
    )
}

/// Generates a remote deployment for a cluster, or says why there is none.
pub fn generate(
    args: &GenerateArgs,
    remote: &RemoteArgs,
    dir: &str,
    material: &ClusterMaterial,
    bootstrappers: &Vec<String>,
    dashboard: &str,
    tag: String,
) -> (bundle: Result<RemoteBundle, String>)
    requires
        material.covers(args),
    ensures
        match remote_fault(args, remote) {
            Some(text) => bundle matches Err(e) && e@ == text,
            None => match bundle {
                Ok(bundle) => bundle.deployer.tag == tag && is_remote_bundle(
                    bundle,
                    args,
                    remote,
                    dir@,
                    material,
                    bootstrappers@,
                    dashboard@,
                ),
                Err(e) => e@ == "missing share for validator"@ && exists|i: int|
                    0 <= i < args.validators && !material.has_share(
                        (#[trigger] material.public_keys@[i])@,
                    ),
            },
        },
{
    if let Err(e) = validate_remote(args, remote) {
        return Err(e);
    }
    let validators = match build_validators(args, remote, dir, material, bootstrappers) {
        Ok(validators) => validators,
        Err(e) => return Err(e),
    };
    let secondaries = build_secondaries(args, remote, dir, material, bootstrappers);
    let spammer = if args.spammer {
        Some(remote_spammer_config(args, remote, material))
    } else {
        None
    };
    let deployer = build_deployer_config(
        args,
        remote,
        VALIDATOR_BINARY_FILE,
        dashboard,
        tag,
        &validators,
        &secondaries,
    );
    Ok(
        RemoteBundle {
            validators,
            secondaries,
            chain_indexer: chain_indexer_config(args, remote),
            metadata_indexer: metadata_indexer_config(args, remote),
            qmdb_indexer: qmdb_indexer_config(args, remote),
            spammer,
            deployer,
        },
    )
}

/// An external Store replaces the one that would be deployed along: everybody
/// who reads or writes the Store goes to its URL, and no instance, binary or
/// configuration serves the other one.
pub proof fn external_store_replaces_the_chain_indexer(
    args: &GenerateArgs,
    remote: &RemoteArgs,
    i: int,
    k: int,
)
    requires
        remote.chain_indexer_url is Some,
        0 <= i < service_instances(args, remote).len(),
        0 <= k < binaries_of(args, remote).len(),
    ensures
        store_of(remote) == remote.chain_indexer_url->0@,
        service_instances(args, remote)[i].name != CHAIN_INDEXER_HOST@,
        binaries_of(args, remote)[k] != CHAIN_INDEXER_BINARY_FILE@,
{
    reveal_strlit("constantinople");
    reveal_strlit("chain-indexer");
    reveal_strlit("metadata-indexer");
    reveal_strlit("qmdb-indexer");
    reveal_strlit("constantinople-spammer");
    reveal_strlit("spammer");
    assert(CHAIN_INDEXER_HOST@.len() == 13);
    assert(CHAIN_INDEXER_BINARY_FILE@.len() == 13);
    assert(VALIDATOR_BINARY_FILE@.len() == 14);
    assert(METADATA_INDEXER_HOST@.len() == 16);
    assert(METADATA_INDEXER_BINARY_FILE@.len() == 16);
    assert(QMDB_INDEXER_HOST@.len() == 12);
    assert(QMDB_INDEXER_BINARY_FILE@.len() == 12);
    assert(SPAMMER_HOST@.len() == 7);
    assert(SPAMMER_BINARY_FILE@.len() == 22);
}

/// HTTP is open to the given address ranges alone, unless another service that
/// is open to everybody has the same port.
pub proof fn http_is_open_to_given_ranges_alone(args: &GenerateArgs, remote: &RemoteArgs, i: int)
    requires
        0 <= i < open_ports(args, remote).len(),
        open_ports(args, remote)[i].port == remote.http_port,
        remote.http_port != remote.listen_port,
        remote.http_port != remote.chain_indexer_port,
        remote.http_port != remote.metadata_indexer_port,
        remote.http_port != remote.qmdb_indexer_port,
    ensures
        exists|k: int|
            0 <= k < remote.http_cidrs@.len() && open_ports(args, remote)[i].cidr == (
            #[trigger] remote.http_cidrs@[k])@,
{
    let services = open_services(args, remote).len();
    assert(i >= services);
    let k = i - services;
    assert(open_ports(args, remote)[i].cidr == remote.http_cidrs@[k]@);
}

/// Every node is named by its key, its file by its name, and it runs with the
/// settings that were asked for, each under its own name. It serves the ports
/// that were asked for, and metrics where the deployer scrapes them.
pub proof fn remote_nodes_run_with_the_given_settings(
    bundle: RemoteBundle,
    args: &GenerateArgs,
    remote: &RemoteArgs,
    dir: Seq<char>,
    material: &ClusterMaterial,
    bootstrappers: Seq<String>,
    dashboard: Seq<char>,
    i: int,
)
    requires
        is_remote_bundle(bundle, args, remote, dir, material, bootstrappers, dashboard),
    ensures
        0 <= i < bundle.validators@.len() ==> {
            let node = bundle.validators@[i];
            &&& node.public_key_hex@ == hex_text(material.public_keys@[i]@)
            &&& node.config.private_key@ == hex_text(material.signers@[i]@)
            &&& exists|k: int|
                0 <= k < material.shares@.len() && (#[trigger] material.shares@[k]).public_key@
                    == material.public_keys@[i]@ && node.config.dkg_share@ == hex_text(
                    material.shares@[k].share@,
                )
            &&& node.config.indexer is None
            &&& node.config.relayer is None
            &&& stands_remotely(node, args, remote, dir, material, bootstrappers)
        },
        0 <= i < bundle.secondaries@.len() ==> {
            let node = bundle.secondaries@[i];
            &&& node.public_key_hex@ == hex_text(material.secondary_public_keys@[i]@)
            &&& node.config.private_key@ == hex_text(material.secondary_signers@[i]@)
            &&& node.config.dkg_share@.len() == 0
            &&& node.config.indexer is Some != node.config.relayer is Some
            &&& stands_remotely(node, args, remote, dir, material, bootstrappers)
        },
        args.indexer ==> bundle.secondaries@[0].config.indexer is Some,
        args.relayer ==> bundle.secondaries@.last().config.relayer is Some,
{
    if 0 <= i < bundle.validators@.len() {
        let node = bundle.validators@[i];
        assert(is_remote_validator(node, args, remote, dir, material, bootstrappers, i));
        let k = choose|k: int| #[trigger]
            material.is_share(material.public_keys@[i]@, k) && node.config.dkg_share@ == hex_text(
                material.shares@[k].share@,
            );
        assert(material.shares@[k].public_key@ == material.public_keys@[i]@);
    }
    if 0 <= i < bundle.secondaries@.len() {
        assert(is_remote_secondary(
            bundle.secondaries@[i],
            args,
            remote,
            dir,
            material,
            bootstrappers,
            i,
        ));
        let role = roles_of(args)[i];
        assert(role == SecondaryRole::Indexer || role == SecondaryRole::Relayer);
    }
    if args.indexer {
        assert(roles_of(args)[0] == SecondaryRole::Indexer);
        assert(is_remote_secondary(
            bundle.secondaries@[0],
            args,
            remote,
            dir,
            material,
            bootstrappers,
            0,
        ));
    }
    if args.relayer {
        let last = bundle.secondaries@.len() - 1;
        assert(roles_of(args)[last] == SecondaryRole::Relayer);
        assert(is_remote_secondary(
            bundle.secondaries@[last],
            args,
            remote,
            dir,
            material,
            bootstrappers,
            last,
        ));
    }
}

/// Whether `node` is named by its key and has the settings of `args` and the
/// ports of `remote`.
pub open spec fn stands_remotely(
    node: GeneratedValidator,
    args: &GenerateArgs,
    remote: &RemoteArgs,
    dir: Seq<char>,
    material: &ClusterMaterial,
    bootstrappers: Seq<String>,
) -> bool {
    &&& runs_with(node.config, args, material)
    &&& node.config_name@ == node.public_key_hex@ + ".yaml"@
    &&& node.config_file@ == path_in(dir, node.config_name@)
    &&& node.config.listen_port == remote.listen_port
    &&& node.config.http_port == remote.http_port
    &&& node.config.metrics_port == 9090
    &&& node.config.traces@ == remote.traces@
    &&& node.config.peers@.len() == bootstrappers.len()
    &&& forall|j: int|
        0 <= j < bootstrappers.len() ==> (#[trigger] node.config.peers@[j])@ == bootstrappers[j]@
}

/// The relayer forwards to every validator under its name, at the host of that
/// name and the port where the validator serves HTTP. The spammer submits to the
/// relayer in the same way, with each setting under its own name.
pub proof fn remote_relayer_reaches_the_validators(
    bundle: RemoteBundle,
    args: &GenerateArgs,
    remote: &RemoteArgs,
    dir: Seq<char>,
    material: &ClusterMaterial,
    bootstrappers: Seq<String>,
    dashboard: Seq<char>,
    j: int,
)
    requires
        is_remote_bundle(bundle, args, remote, dir, material, bootstrappers, dashboard),
        material.public_keys@.len() == args.validators,
        args.relayer,
    ensures
        ({
            let relayer = bundle.secondaries@.last();
            let leaders = relayer.config.relayer->0.leaders@;
            &&& leaders.len() == bundle.validators@.len()
            &&& 0 <= j < leaders.len() ==> {
                let node = bundle.validators@[j];
                &&& leaders[j].public_key@ == node.public_key_hex@
                &&& leaders[j].url@ == "http://"@ + node.public_key_hex@ + ":"@ + decimal(
                    node.config.http_port as nat,
                )
            }
            &&& bundle.spammer matches Some(spammer) ==> {
                &&& spammer.relayer_url@ == "http://"@ + relayer.public_key_hex@ + ":"@ + decimal(
                    relayer.config.http_port as nat,
                )
                &&& spammer.http_port == relayer.config.http_port
                &&& spammer.accounts == args.spammer_accounts
                &&& spammer.value == args.spammer_value
                &&& spammer.seed_offset == args.spammer_seed_offset
                &&& spammer.rayon_threads == args.spammer_rayon_threads
                &&& spammer.presigned_batches == args.spammer_presigned_batches
                &&& spammer.accounts_jitter@ == args.spammer_accounts_jitter@
                &&& args.spammer_submitters is None ==> spammer.relayer_submitters
                    == bundle.validators@.len()
                &&& args.spammer_submitters matches Some(submitters) ==> spammer.relayer_submitters
                    == submitters
                &&& spammer.primary_validators@.len() == bundle.validators@.len()
                &&& 0 <= j < bundle.validators@.len() ==> spammer.primary_validators@[j]@
                    == bundle.validators@[j].public_key_hex@
            }
            &&& bundle.spammer is Some == args.spammer
        }),
{
    let last = bundle.secondaries@.len() - 1;
    assert(last == relayer_index(args));
    assert(roles_of(args)[last] == SecondaryRole::Relayer);
    assert(is_remote_secondary(
        bundle.secondaries@[last],
        args,
        remote,
        dir,
        material,
        bootstrappers,
        last,
    ));
    if 0 <= j < bundle.validators@.len() {
        assert(is_remote_validator(
            bundle.validators@[j],
            args,
            remote,
            dir,
            material,
            bootstrappers,
            j,
        ));
    }
}

/// What uploads to the Store and what reads from it find it at one address: the
/// external one if there is one, and otherwise the host of the Store's instance
/// and the port on which the Store is configured to listen. Uploads and reads
/// each use their own API key.
pub proof fn remote_store_is_found(
    bundle: RemoteBundle,
    args: &GenerateArgs,
    remote: &RemoteArgs,
    dir: Seq<char>,
    material: &ClusterMaterial,
    bootstrappers: Seq<String>,
    dashboard: Seq<char>,
)
    requires
        is_remote_bundle(bundle, args, remote, dir, material, bootstrappers, dashboard),
        args.indexer,
    ensures
        ({
            let uploader = bundle.secondaries@[0].config.indexer->0;
            let url = uploader.chain_indexer_url@;
            &&& remote.chain_indexer_url matches Some(external) ==> url == external@
                && bundle.chain_indexer is None
            &&& remote.chain_indexer_url is None ==> {
                &&& bundle.chain_indexer matches Some(store)
                &&& store.port == remote.chain_indexer_port
                &&& store.data_dir@ == "chain-indexer"@
                &&& store.db_parallelism == remote.chain_indexer_db_parallelism
                &&& url == "http://"@ + "chain-indexer"@ + ":"@ + decimal(store.port as nat)
            }
            &&& opt(uploader.api_key) == opt(remote.chain_indexer_api_key)
            &&& uploader.limits == (UploadLimits::Budget {
                max_in_flight: 12,
                budget_bytes: 3_221_225_472,
            })
            &&& bundle.metadata_indexer is Some == remote.metadata_indexer_url is None
            &&& bundle.qmdb_indexer is Some == remote.qmdb_indexer_url is None
            &&& bundle.metadata_indexer matches Some(facade) ==> {
                &&& facade.port == remote.metadata_indexer_port
                &&& facade.chain_indexer_url@ == url
                &&& opt(facade.api_key) == opt(remote.adapter_store_api_key)
            }
            &&& bundle.qmdb_indexer matches Some(facade) ==> {
                &&& facade.port == remote.qmdb_indexer_port
                &&& facade.chain_indexer_url@ == url
                &&& opt(facade.api_key) == opt(remote.adapter_store_api_key)
            }
        }),
{
    assert(roles_of(args)[0] == SecondaryRole::Indexer);
    assert(is_remote_secondary(
        bundle.secondaries@[0],
        args,
        remote,
        dir,
        material,
        bootstrappers,
        0,
    ));
}

/// Each node has an instance: it is named by the node's key, runs the node's
/// file, and has the machine that was asked for. Validators go round the
/// regions. With an indexer stack the secondaries stand in its region, and the
/// one that uploads shares the Store's zone and may have a machine of its own
/// kind.
pub proof fn instances_run_the_generated_files(
    bundle: RemoteBundle,
    args: &GenerateArgs,
    remote: &RemoteArgs,
    dir: Seq<char>,
    material: &ClusterMaterial,
    bootstrappers: Seq<String>,
    dashboard: Seq<char>,
    i: int,
)
    requires
        is_remote_bundle(bundle, args, remote, dir, material, bootstrappers, dashboard),
        remote.regions@.len() > 0,
    ensures
        0 <= i < bundle.validators@.len() ==> {
            let node = bundle.validators@[i];
            let instance = bundle.deployer.instances@[i];
            &&& hosts_node(instance, node, remote)
            &&& instance.availability_zone_group is None
            &&& instance.instance_type@ == remote.instance_type@
            &&& i < remote.regions@.len() ==> instance.region@ == remote.regions@[i]@
            &&& i >= remote.regions@.len() ==> instance.region@ == bundle.deployer.instances@[i
                - remote.regions@.len()].region@
        },
        0 <= i < bundle.secondaries@.len() ==> {
            let node = bundle.secondaries@[i];
            let instance = bundle.deployer.instances@[bundle.validators@.len() + i];
            &&& hosts_node(instance, node, remote)
            &&& args.indexer ==> instance.region@ == remote.regions@[0]@
            &&& !args.indexer && i < remote.regions@.len() ==> instance.region@
                == remote.regions@[i]@
            &&& node.config.indexer is Some ==> opt(instance.availability_zone_group) == Some(
                "exoware"@,
            )
            &&& node.config.indexer is None ==> instance.availability_zone_group is None
            &&& node.config.indexer is Some && remote.indexer_instance_type is Some
                ==> instance.instance_type@ == remote.indexer_instance_type->0@
            &&& node.config.indexer is None || remote.indexer_instance_type is None
                ==> instance.instance_type@ == remote.instance_type@
        },
{
    let instances = bundle.deployer.instances@;
    let all = instances_of(instances);
    let n = bundle.validators@.len() as int;
    let r = remote.regions@.len() as int;
    assert(all.len() == instances.len());
    if 0 <= i < n {
        assert(all[i] == instances[i]@);
        assert(all[i] == validator_instance(
            remote,
            bundle.validators@[i],
            VALIDATOR_BINARY_FILE@,
            i,
        ));
        if i < r {
            vstd::arithmetic::div_mod::lemma_small_mod(i as nat, r as nat);
        } else {
            vstd::arithmetic::div_mod::lemma_mod_sub_multiples_vanish(i, r);
            assert(all[i - r] == instances[i - r]@);
            assert(all[i - r] == validator_instance(
                remote,
                bundle.validators@[i - r],
                VALIDATOR_BINARY_FILE@,
                i - r,
            ));
            assert((i - r) % r == i % r);
        }
    }
    if 0 <= i < bundle.secondaries@.len() {
        assert(all[n + i] == instances[n + i]@);
        assert(all[n + i] == secondary_instance(
            args,
            remote,
            bundle.secondaries@[i],
            VALIDATOR_BINARY_FILE@,
            i,
        ));
        if i < r {
            vstd::arithmetic::div_mod::lemma_small_mod(i as nat, r as nat);
        }
    }
}

/// Whether `instance` runs `node` on the storage that was asked for.
pub open spec fn hosts_node(
    instance: InstanceConfig,
    node: GeneratedValidator,
    remote: &RemoteArgs,
) -> bool {
    &&& instance.name@ == node.public_key_hex@
    &&& instance.config@ == node.config_name@
    &&& instance.binary@ == "constantinople"@
    &&& instance.storage_size == remote.storage_size
    &&& instance.storage_class@ == "gp3"@
    &&& instance.storage_iops == remote.storage_iops
    &&& instance.storage_throughput == remote.storage_throughput
    &&& instance.profiling == remote.profiling
}

/// Each service that is deployed along has one instance, behind those of the
/// nodes, in the first region: the Store and the facades in one zone, each
/// running its own binary with its own file.
pub proof fn services_have_their_instances(
    bundle: RemoteBundle,
    args: &GenerateArgs,
    remote: &RemoteArgs,
    dir: Seq<char>,
    material: &ClusterMaterial,
    bootstrappers: Seq<String>,
    dashboard: Seq<char>,
)
    requires
        is_remote_bundle(bundle, args, remote, dir, material, bootstrappers, dashboard),
    ensures
        bundle.deployer.instances@.len() == bundle.validators@.len() + bundle.secondaries@.len()
            + one_if(bundle.chain_indexer is Some) + one_if(bundle.metadata_indexer is Some)
            + one_if(bundle.qmdb_indexer is Some) + one_if(bundle.spammer is Some),
        ({
            let store = bundle.validators@.len() + bundle.secondaries@.len();
            let metadata = store + one_if(bundle.chain_indexer is Some);
            let qmdb = metadata + one_if(bundle.metadata_indexer is Some);
            let spammer = qmdb + one_if(bundle.qmdb_indexer is Some);
            let instances = bundle.deployer.instances@;
            &&& bundle.chain_indexer is Some ==> {
                let instance = instances[store as int];
                &&& instance.name@ == "chain-indexer"@
                &&& instance.binary@ == "chain-indexer"@
                &&& instance.config@ == "chain-indexer.yaml"@
                &&& instance.region@ == remote.regions@[0]@
                &&& opt(instance.availability_zone_group) == Some("exoware"@)
                &&& instance.instance_type@ == remote.chain_indexer_instance_type@
                &&& instance.storage_size == remote.chain_indexer_storage_size
                &&& instance.storage_class@ == "io2"@
                &&& instance.storage_iops == Some(remote.chain_indexer_storage_iops)
                &&& instance.storage_throughput is None
                &&& !instance.profiling
            }
            &&& bundle.metadata_indexer is Some ==> {
                let instance = instances[metadata];
                &&& instance.name@ == "metadata-indexer"@
                &&& instance.binary@ == "metadata-indexer"@
                &&& instance.config@ == "metadata-indexer.yaml"@
                &&& stands_by_the_store(instance, remote)
            }
            &&& bundle.qmdb_indexer is Some ==> {
                let instance = instances[qmdb];
                &&& instance.name@ == "qmdb-indexer"@
                &&& instance.binary@ == "qmdb-indexer"@
                &&& instance.config@ == "qmdb-indexer.yaml"@
                &&& stands_by_the_store(instance, remote)
            }
            &&& bundle.spammer is Some ==> {
                let instance = instances[spammer];
                &&& instance.name@ == "spammer"@
                &&& instance.binary@ == "constantinople-spammer"@
                &&& instance.config@ == "spammer.yaml"@
                &&& instance.region@ == remote.regions@[0]@
                &&& instance.availability_zone_group is None
                &&& remote.spammer_instance_type matches Some(own) ==> instance.instance_type@
                    == own@
                &&& remote.spammer_instance_type is None ==> instance.instance_type@
                    == remote.instance_type@
                &&& instance.storage_size == remote.spammer_storage_size
                &&& instance.storage_class@ == "gp3"@
                &&& instance.storage_iops is None
                &&& instance.storage_throughput is None
                &&& !instance.profiling
            }
        }),
        bundle.deployer.monitoring.instance_type@ == remote.monitoring_instance_type@,
        bundle.deployer.monitoring.storage_size == remote.monitoring_storage_size,
        bundle.deployer.monitoring.storage_class@ == "gp3"@,
        bundle.deployer.monitoring.dashboard@ == dashboard,
{
    let instances = bundle.deployer.instances@;
    let all = instances_of(instances);
    let services = service_instances(args, remote);
    let n = (bundle.validators@.len() + bundle.secondaries@.len()) as int;
    assert(all.len() == instances.len());
    assert(all.len() == n + services.len());
    assert forall|k: int| 0 <= k < services.len() implies services[k] == (
    #[trigger] instances[n + k])@ by {
        assert(all[n + k] == services[k]);
        assert(all[n + k] == instances[n + k]@);
    }
    let metadata = one_if(bundle.chain_indexer is Some);
    let qmdb = metadata + one_if(bundle.metadata_indexer is Some);
    let spammer = qmdb + one_if(bundle.qmdb_indexer is Some);
    assert(services.len() == spammer + one_if(bundle.spammer is Some));
    if bundle.chain_indexer is Some {
        assert(services[0] == store_instance(remote));
        assert(services[0] == instances[n + 0]@);
    }
    if bundle.metadata_indexer is Some {
        assert(services[metadata] == instances[n + metadata]@);
    }
    if bundle.qmdb_indexer is Some {
        assert(services[qmdb] == instances[n + qmdb]@);
    }
    if bundle.spammer is Some {
        assert(services[spammer] == instances[n + spammer]@);
    }
}

/// One where `present`, else zero.
pub open spec fn one_if(present: bool) -> int {
    if present {
        1
    } else {
        0
    }
}

/// Whether `instance` stands in the Store's zone, on a machine like the nodes'.
pub open spec fn stands_by_the_store(instance: InstanceConfig, remote: &RemoteArgs) -> bool {
    &&& instance.region@ == remote.regions@[0]@
    &&& opt(instance.availability_zone_group) == Some("exoware"@)
    &&& instance.instance_type@ == remote.instance_type@
    &&& instance.storage_size == remote.storage_size
    &&& instance.storage_class@ == "gp3"@
    &&& instance.storage_iops is None
    &&& instance.storage_throughput is None
    &&& !instance.profiling
}

/// The port on which nodes listen is open to everybody, as is that of every
/// service that is deployed along, and no other; HTTP is open to exactly the
/// given ranges.
pub proof fn open_ports_are_those_served(
    bundle: RemoteBundle,
    args: &GenerateArgs,
    remote: &RemoteArgs,
    dir: Seq<char>,
    material: &ClusterMaterial,
    bootstrappers: Seq<String>,
    dashboard: Seq<char>,
    k: int,
)
    requires
        is_remote_bundle(bundle, args, remote, dir, material, bootstrappers, dashboard),
    ensures
        ({
            let ports = bundle.deployer.ports@;
            let metadata = 1 + one_if(bundle.chain_indexer is Some);
            let qmdb = metadata + one_if(bundle.metadata_indexer is Some);
            let http = qmdb + one_if(bundle.qmdb_indexer is Some);
            &&& ports.len() == http + remote.http_cidrs@.len()
            &&& 0 <= k < ports.len() ==> ports[k].protocol@ == "tcp"@
            &&& ports[0].port == remote.listen_port
            &&& bundle.chain_indexer matches Some(store) ==> ports[1].port == store.port
            &&& bundle.metadata_indexer matches Some(facade) ==> ports[metadata].port
                == facade.port
            &&& bundle.qmdb_indexer matches Some(facade) ==> ports[qmdb].port == facade.port
            &&& 0 <= k < http ==> ports[k].cidr@ == "0.0.0.0/0"@
            &&& http <= k < ports.len() ==> ports[k].port == remote.http_port && ports[k].cidr@
                == remote.http_cidrs@[k - http]@
        }),
{
    let ports = bundle.deployer.ports@;
    let all = ports_of(ports);
    let services = open_services(args, remote);
    let metadata = 1 + one_if(bundle.chain_indexer is Some);
    let qmdb = metadata + one_if(bundle.metadata_indexer is Some);
    let http = qmdb + one_if(bundle.qmdb_indexer is Some);
    assert(all.len() == ports.len());
    assert(services.len() == http);
    assert forall|j: int| 0 <= j < ports.len() implies all[j] == (#[trigger] ports[j])@ by {}
    assert(all[0] == services[0] && all[0] == ports[0]@);
    if bundle.chain_indexer is Some {
        assert(all[1] == services[1] && all[1] == ports[1]@);
    }
    if bundle.metadata_indexer is Some {
        assert(all[metadata] == services[metadata] && all[metadata] == ports[metadata]@);
    }
    if bundle.qmdb_indexer is Some {
        assert(all[qmdb] == services[qmdb] && all[qmdb] == ports[qmdb]@);
    }
    if 0 <= k < http {
        assert(all[k] == services[k] && all[k] == ports[k]@);
    }
    if http <= k < ports.len() {
        assert(all[k] == ports[k]@);
    }
}

/// A remote deployment can be made exactly of at least one validator for each of
/// at least one region, with a relayer wherever there is a spammer.
pub proof fn remote_deployments_have_what_they_need(args: &GenerateArgs, remote: &RemoteArgs)
    ensures
        remote_fault(args, remote) is None <==> (args.spammer ==> args.relayer)
            && args.validators >= 1 && 1 <= remote.regions@.len() <= args.validators,
{
}

/// Every instance runs a binary that is shipped along, and every binary that is
/// shipped is run by one, the nodes' first.
pub proof fn shipped_binaries_are_those_run(
    bundle: RemoteBundle,
    args: &GenerateArgs,
    remote: &RemoteArgs,
    dir: Seq<char>,
    material: &ClusterMaterial,
    bootstrappers: Seq<String>,
    dashboard: Seq<char>,
)
    requires
        is_remote_bundle(bundle, args, remote, dir, material, bootstrappers, dashboard),
    ensures
        binaries_of(args, remote)[0] == "constantinople"@,
        binaries_of(args, remote).len() == 1 + one_if(bundle.chain_indexer is Some) + one_if(
            bundle.metadata_indexer is Some,
        ) + one_if(bundle.qmdb_indexer is Some) + one_if(bundle.spammer is Some),
        bundle.chain_indexer is Some ==> binaries_of(args, remote).contains("chain-indexer"@),
        bundle.metadata_indexer is Some ==> binaries_of(args, remote).contains(
            "metadata-indexer"@,
        ),
        bundle.qmdb_indexer is Some ==> binaries_of(args, remote).contains("qmdb-indexer"@),
        bundle.spammer is Some ==> binaries_of(args, remote).contains("constantinople-spammer"@),
{
    let binaries = binaries_of(args, remote);
    let metadata = 1 + one_if(bundle.chain_indexer is Some);
    let qmdb = metadata + one_if(bundle.metadata_indexer is Some);
    let spammer = qmdb + one_if(bundle.qmdb_indexer is Some);
    if bundle.chain_indexer is Some {
        assert(binaries[1] == "chain-indexer"@);
    }
    if bundle.metadata_indexer is Some {
        assert(binaries[metadata] == "metadata-indexer"@);
    }
    if bundle.qmdb_indexer is Some {
        assert(binaries[qmdb] == "qmdb-indexer"@);
    }
    if bundle.spammer is Some {
        assert(binaries[spammer] == "constantinople-spammer"@);
    }
}

} // verus!
