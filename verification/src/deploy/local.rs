//! A deployment on one machine: node configurations, peers and run commands.

use crate::deploy::config::{
    extend, has_common_settings, hex_all, join_path, node_config, node_file,
    node_path, numbered, path_in, roles_of, secondary_roles, total_secondaries,
    ClusterMaterial, GenerateArgs, IndexerConfig, NodeIdentity, RelayerConfig, SecondaryRole,
    UploadLimits, ValidatorConfig, CHAIN_INDEXER_BINARY_FILE, CHAIN_INDEXER_DATA_DIR,
    METADATA_INDEXER_BINARY_FILE, PEERS_CONFIG_FILE, QMDB_INDEXER_BINARY_FILE,
    SPAMMER_BINARY_FILE,
};
use crate::deploy::port_plan::{
    bundle_fault, enabled_services_have_ports, node_count, plan_bundle,
    ports_are_listed_under_their_owners, LocalArgs, LocalPortPlan,
};
use crate::text::{copy, decimal, decimal_u64, hex, hex_text};
use crate::validator::leaders::RelayerLeaderConfig;
use vstd::prelude::*;

verus! {

/// Blocks that may wait for upload in a local deployment.
pub const INDEXER_UPLOAD_BUFFER: usize = 64;

/// File that lists the ports of a local deployment.
pub const LOCAL_PORTS_FILE: &'static str = "local-ports.yaml";

/// How a node is reached.
#[derive(Debug)]
pub struct PeerEntry {
    pub name: String,
    pub p2p: String,
    pub http: String,
}

/// A node of a local deployment: where its configuration is written, the
/// configuration, and how the node is reached.
#[derive(Debug)]
pub struct GeneratedValidator {
    pub config_file: String,
    pub config: ValidatorConfig,
    pub peer: PeerEntry,
}

/// A loopback address.
pub open spec fn loopback(port: u16) -> Seq<char> {
    "127.0.0.1:"@ + decimal(port as nat)
}

/// A loopback URL.
pub open spec fn loopback_url(port: u16) -> Seq<char> {
    "http://127.0.0.1:"@ + decimal(port as nat)
}

/// A loopback address.
pub fn loopback_address(port: u16) -> (address: String)
    ensures
        address@ == loopback(port),
{
    numbered("127.0.0.1:", port as u64)
}

/// A loopback URL.
pub fn loopback_base(port: u16) -> (url: String)
    ensures
        url@ == loopback_url(port),
{
    numbered("http://127.0.0.1:", port as u64)
}

/// The indexer wiring of the secondary that owns it. All rows go through the
/// shared Store.
pub fn local_indexer_config(indexer_port: u16) -> (config: IndexerConfig)
    ensures
        config.chain_indexer_url@ == loopback_url(indexer_port),
        config.api_key is None,
        config.limits == UploadLimits::Buffer(INDEXER_UPLOAD_BUFFER),
{
    IndexerConfig {
        chain_indexer_url: loopback_base(indexer_port),
        api_key: None,
        limits: UploadLimits::Buffer(INDEXER_UPLOAD_BUFFER),
    }
}

/// The key of the `i`-th node: the validators, then the secondaries.
pub open spec fn node_key(material: &ClusterMaterial, i: int) -> Seq<u8> {
    if i < material.public_keys@.len() {
        material.public_keys@[i]@
    } else {
        material.secondary_public_keys@[i - material.public_keys@.len()]@
    }
}

/// Keys of a cluster.
pub open spec fn key_count(material: &ClusterMaterial) -> nat {
    material.public_keys@.len() + material.secondary_public_keys@.len()
}

/// Whether a relayer forwards to every node of the cluster, in order.
pub open spec fn relays_to_all(
    config: RelayerConfig,
    ports: &LocalPortPlan,
    material: &ClusterMaterial,
) -> bool {
    &&& config.leaders@.len() == key_count(material)
    &&& forall|i: int|
        0 <= i < config.leaders@.len() ==> {
            let leader = #[trigger] config.leaders@[i];
            &&& leader.public_key@ == hex_text(node_key(material, i))
            &&& leader.url@ == loopback_url(ports.nodes@[i].http)
        }
}

/// A relayer that forwards to every node of the cluster, in order.
pub fn local_relayer_config(ports: &LocalPortPlan, material: &ClusterMaterial) -> (config:
    RelayerConfig)
    requires
        key_count(material) <= ports.nodes@.len(),
    ensures
        relays_to_all(config, ports, material),
{
    let mut leaders: Vec<RelayerLeaderConfig> = Vec::new();
    let mut i: usize = 0;
    while i < material.public_keys.len()
        invariant
            i <= material.public_keys.len(),
            key_count(material) <= ports.nodes@.len(),
            leaders@.len() == i,
            forall|j: int|
                0 <= j < i ==> {
                    let leader = #[trigger] leaders@[j];
                    &&& leader.public_key@ == hex_text(node_key(material, j))
                    &&& leader.url@ == loopback_url(ports.nodes@[j].http)
                },
        decreases material.public_keys.len() - i,
    {
        leaders.push(
            RelayerLeaderConfig {
                public_key: hex(material.public_keys[i].as_slice()),
                url: loopback_base(ports.nodes[i].http),
            },
        );
        i = i + 1;
    }
    let first: usize = i;
    let mut k: usize = 0;
    while k < material.secondary_public_keys.len()
        invariant
            first == material.public_keys@.len(),
            k <= material.secondary_public_keys.len(),
            key_count(material) <= ports.nodes@.len(),
            leaders@.len() == first + k,
            forall|j: int|
                0 <= j < first + k ==> {
                    let leader = #[trigger] leaders@[j];
                    &&& leader.public_key@ == hex_text(node_key(material, j))
                    &&& leader.url@ == loopback_url(ports.nodes@[j].http)
                },
        decreases material.secondary_public_keys.len() - k,
    {
        let count: usize = ports.nodes.len();
        leaders.push(
            RelayerLeaderConfig {
                public_key: hex(material.secondary_public_keys[k].as_slice()),
                url: loopback_base(ports.nodes[first + k].http),
            },
        );
        k = k + 1;
    }
    RelayerConfig { leaders }
}

/// Whether `peers` lists every node's key, in order.
pub open spec fn lists_all_keys(peers: Seq<String>, material: &ClusterMaterial) -> bool {
    &&& peers.len() == key_count(material)
    &&& forall|i: int|
        0 <= i < peers.len() ==> (#[trigger] peers[i])@ == hex_text(node_key(material, i))
}

/// Every node's key, in order: the nodes that may join the cluster.
pub fn eligible_peer_entries(material: &ClusterMaterial) -> (peers: Vec<String>)
    ensures
        lists_all_keys(peers@, material),
{
    let primaries = hex_all(&material.public_keys);
    let secondaries = hex_all(&material.secondary_public_keys);
    let ghost first = primaries@;
    let peers = extend(primaries, &secondaries);
    proof {
        assert forall|i: int| 0 <= i < peers@.len() implies (#[trigger] peers@[i])@ == hex_text(
            node_key(material, i),
        ) by {
            if i < first.len() {
                assert(peers@.take(first.len() as int)[i] == first[i]);
            } else {
                assert(peers@.skip(first.len() as int)[i - first.len()] == peers@[i]);
            }
        }
    }
    peers
}

/// Whether `peer` says how a node is reached.
pub open spec fn is_peer(peer: PeerEntry, key: Seq<u8>, p2p: u16, http: u16) -> bool {
    &&& peer.name@ == hex_text(key)
    &&& peer.p2p@ == loopback(p2p)
    &&& peer.http@ == loopback(http)
}

/// Whether `node` is the `i`-th validator of a local deployment.
pub open spec fn is_local_validator(
    node: GeneratedValidator,
    args: &GenerateArgs,
    ports: &LocalPortPlan,
    dir: Seq<char>,
    material: &ClusterMaterial,
    i: int,
) -> bool {
    let config = node.config;
    let own = ports.nodes@[i];
    &&& node.config_file@ == path_in(dir, node_file("validator-"@, i as nat))
    &&& has_common_settings(config, args, material)
    &&& config.private_key@ == hex_text(material.signers@[i]@)
    &&& exists|k: int| #[trigger]
        material.is_share(material.public_keys@[i]@, k) && config.dkg_share@ == hex_text(
            material.shares@[k].share@,
        )
    &&& config.partition_prefix@ == "validator-"@ + decimal(i as nat)
    &&& config.listen_port == own.p2p
    &&& config.http_port == own.http
    &&& config.metrics_port == own.metrics
    &&& config.traces@ == "0"@
    &&& lists_all_keys(config.peers@, material)
    &&& config.indexer is None
    &&& config.relayer is None
    &&& is_peer(node.peer, material.public_keys@[i]@, own.p2p, own.http)
}

/// The validators of a local deployment, or that one has no share.
pub fn build_validators(
    args: &GenerateArgs,
    ports: &LocalPortPlan,
    dir: &str,
    material: &ClusterMaterial,
) -> (validators: Result<Vec<GeneratedValidator>, String>)
    requires
        material.covers(args),
        args.validators <= ports.nodes@.len(),
    ensures
        match validators {
            Ok(nodes) => nodes@.len() == args.validators && forall|i: int|
                0 <= i < nodes@.len() ==> is_local_validator(
                    #[trigger] nodes@[i],
                    args,
                    ports,
                    dir@,
                    material,
                    i,
                ),
            Err(e) => e@ == "missing share for validator"@ && exists|i: int|
                0 <= i < args.validators && !material.has_share(
                    (#[trigger] material.public_keys@[i])@,
                ),
        },
{
    let mut nodes: Vec<GeneratedValidator> = Vec::new();
    let mut index: u32 = 0;
    while index < args.validators
        invariant
            index <= args.validators,
            material.covers(args),
            args.validators <= ports.nodes@.len(),
            nodes@.len() == index,
            forall|i: int|
                0 <= i < index ==> is_local_validator(
                    #[trigger] nodes@[i],
                    args,
                    ports,
                    dir@,
                    material,
                    i,
                ),
        decreases args.validators - index,
    {
        let at: usize = index as usize;
        let count: usize = ports.nodes.len();
        let dkg_share = match material.share_hex(&material.public_keys[at]) {
            Some(share) => share,
            None => return Err(copy("missing share for validator")),
        };
        let own = ports.validator(index);
        let config = node_config(
            args,
            material,
            NodeIdentity {
                private_key: hex(material.signers[at].as_slice()),
                dkg_share,
                partition_prefix: numbered("validator-", index as u64),
                listen_port: own.p2p,
                http_port: own.http,
                metrics_port: own.metrics,
                traces: copy("0"),
                peers: eligible_peer_entries(material),
            },
            None,
            None,
        );
        let node = GeneratedValidator {
            config_file: node_path(dir, "validator-", index as u64),
            config,
            peer: PeerEntry {
                name: hex(material.public_keys[at].as_slice()),
                p2p: loopback_address(own.p2p),
                http: loopback_address(own.http),
            },
        };
        nodes.push(node);
        index = index + 1;
    }
    Ok(nodes)
}

/// Whether a secondary's wiring is that of its role.
pub open spec fn is_wired_for(
    config: ValidatorConfig,
    role: SecondaryRole,
    ports: &LocalPortPlan,
    material: &ClusterMaterial,
) -> bool {
    match role {
        SecondaryRole::Indexer => config.relayer is None && (config.indexer matches Some(indexer)
            && ports.chain_indexer matches Some(port) && indexer.chain_indexer_url@
            == loopback_url(port) && indexer.api_key is None && indexer.limits
            == UploadLimits::Buffer(INDEXER_UPLOAD_BUFFER)),
        SecondaryRole::Relayer => config.indexer is None && (config.relayer matches Some(relayer)
            && relays_to_all(relayer, ports, material)),
    }
}

/// Whether `node` is the `i`-th secondary of a local deployment.
pub open spec fn is_local_secondary(
    node: GeneratedValidator,
    args: &GenerateArgs,
    ports: &LocalPortPlan,
    dir: Seq<char>,
    material: &ClusterMaterial,
    i: int,
) -> bool {
    let config = node.config;
    let own = ports.nodes@[args.validators + i];
    &&& node.config_file@ == path_in(dir, node_file("secondary-"@, i as nat))
    &&& has_common_settings(config, args, material)
    &&& config.private_key@ == hex_text(material.secondary_signers@[i]@)
    &&& config.dkg_share@ == Seq::<char>::empty()
    &&& config.partition_prefix@ == "secondary-"@ + decimal(i as nat)
    &&& config.listen_port == own.p2p
    &&& config.http_port == own.http
    &&& config.metrics_port == own.metrics
    &&& config.traces@ == "0"@
    &&& lists_all_keys(config.peers@, material)
    &&& is_wired_for(config, roles_of(args)[i], ports, material)
    &&& is_peer(node.peer, material.secondary_public_keys@[i]@, own.p2p, own.http)
}

/// The secondaries of a local deployment.
pub fn build_secondaries(
    args: &GenerateArgs,
    ports: &LocalPortPlan,
    dir: &str,
    material: &ClusterMaterial,
) -> (secondaries: Vec<GeneratedValidator>)
    requires
        material.covers(args),
        key_count(material) <= ports.nodes@.len(),
        args.validators + roles_of(args).len() <= ports.nodes@.len(),
        args.indexer ==> ports.chain_indexer is Some,
    ensures
        secondaries@.len() == roles_of(args).len(),
        forall|i: int|
            0 <= i < secondaries@.len() ==> is_local_secondary(
                #[trigger] secondaries@[i],
                args,
                ports,
                dir@,
                material,
                i,
            ),
{
    let roles = secondary_roles(args);
    let mut nodes: Vec<GeneratedValidator> = Vec::new();
    let mut index: usize = 0;
    while index < roles.len()
        invariant
            index <= roles.len(),
            roles@ == roles_of(args),
            material.covers(args),
            key_count(material) <= ports.nodes@.len(),
            args.validators + roles_of(args).len() <= ports.nodes@.len(),
            args.indexer ==> ports.chain_indexer is Some,
            nodes@.len() == index,
            forall|i: int|
                0 <= i < index ==> is_local_secondary(
                    #[trigger] nodes@[i],
                    args,
                    ports,
                    dir@,
                    material,
                    i,
                ),
        decreases roles.len() - index,
    {
        let own = ports.secondary(args.validators, index);
        let indexer = match (roles[index], ports.chain_indexer) {
            (SecondaryRole::Indexer, Some(port)) => Some(local_indexer_config(port)),
            _ => None,
        };
        let relayer = match roles[index] {
            SecondaryRole::Relayer => Some(local_relayer_config(ports, material)),
            SecondaryRole::Indexer => None,
        };
        let config = node_config(
            args,
            material,
            NodeIdentity {
                private_key: hex(material.secondary_signers[index].as_slice()),
                dkg_share: String::new(),
                partition_prefix: numbered("secondary-", index as u64),
                listen_port: own.p2p,
                http_port: own.http,
                metrics_port: own.metrics,
                traces: copy("0"),
                peers: eligible_peer_entries(material),
            },
            indexer,
            relayer,
        );
        let node = GeneratedValidator {
            config_file: node_path(dir, "secondary-", index as u64),
            config,
            peer: PeerEntry {
                name: hex(material.secondary_public_keys[index].as_slice()),
                p2p: loopback_address(own.p2p),
                http: loopback_address(own.http),
            },
        };
        nodes.push(node);
        index = index + 1;
    }
    nodes
}

/// The command that runs a node.
pub open spec fn node_command(dir: Seq<char>, kind: Seq<char>, index: nat) -> Seq<char> {
    "cargo run --release --bin constantinople -- --config "@ + path_in(dir, node_file(kind, index))
        + " --peers "@ + path_in(dir, PEERS_CONFIG_FILE@)
}

fn run_node(dir: &str, kind: &str, index: u64) -> (command: String)
    ensures
        command@ == node_command(dir@, kind@, index as nat),
{
    let path = node_path(dir, kind, index);
    let peers = join_path(dir, PEERS_CONFIG_FILE);
    let mut command = copy("cargo run --release --bin constantinople -- --config ");
    command.append(path.as_str());
    command.append(" --peers ");
    command.append(peers.as_str());
    command
}

/// A flag with the number it is given, where it is given one.
pub open spec fn optional_flag(flag: Seq<char>, value: Option<usize>) -> Seq<char> {
    match value {
        Some(n) => flag + decimal(n as nat),
        None => Seq::empty(),
    }
}

/// The command that runs the shared Store.
pub open spec fn chain_indexer_command(
    dir: Seq<char>,
    port: u16,
    metrics: u16,
    parallelism: Option<usize>,
) -> Seq<char> {
    "cargo run --release -p constantinople-indexer --bin "@ + CHAIN_INDEXER_BINARY_FILE@
        + " -- --port "@ + decimal(port as nat) + " --metrics-port "@ + decimal(metrics as nat)
        + " --data-dir "@ + path_in(dir, CHAIN_INDEXER_DATA_DIR@) + optional_flag(
        " --db-parallelism "@,
        parallelism,
    )
}

fn run_chain_indexer(dir: &str, port: u16, metrics: u16, parallelism: Option<usize>) -> (command:
    String)
    ensures
        command@ == chain_indexer_command(dir@, port, metrics, parallelism),
{
    let data = join_path(dir, CHAIN_INDEXER_DATA_DIR);
    let port_text = decimal_u64(port as u64);
    let metrics_text = decimal_u64(metrics as u64);
    let mut command = copy("cargo run --release -p constantinople-indexer --bin ");
    command.append(CHAIN_INDEXER_BINARY_FILE);
    command.append(" -- --port ");
    command.append(port_text.as_str());
    command.append(" --metrics-port ");
    command.append(metrics_text.as_str());
    command.append(" --data-dir ");
    command.append(data.as_str());
    match parallelism {
        Some(n) => {
            let flag = numbered(" --db-parallelism ", n as u64);
            command.append(flag.as_str());
        },
        None => {
            command.append("");
            proof {
                reveal_strlit("");
                assert(""@ =~= Seq::<char>::empty());
            }
        },
    }
    command
}

/// The command that runs a facade of the shared Store.
pub open spec fn facade_command(binary: Seq<char>, store: u16, port: u16) -> Seq<char> {
    "cargo run --release -p constantinople-indexer --bin "@ + binary
        + " -- --store-url http://127.0.0.1:"@ + decimal(store as nat) + " --port "@ + decimal(
        port as nat,
    )
}

fn run_facade(binary: &str, store: u16, port: u16) -> (command: String)
    ensures
        command@ == facade_command(binary@, store, port),
{
    let store_text = decimal_u64(store as u64);
    let port_text = decimal_u64(port as u64);
    let mut command = copy("cargo run --release -p constantinople-indexer --bin ");
    command.append(binary);
    command.append(" -- --store-url http://127.0.0.1:");
    command.append(store_text.as_str());
    command.append(" --port ");
    command.append(port_text.as_str());
    command
}

/// What tells the explorer of a relayer, where there is one.
pub open spec fn mempool_env(relayer: Option<u16>) -> Seq<char> {
    match relayer {
        Some(port) => " VITE_MEMPOOL_URL=http://127.0.0.1:"@ + decimal(port as nat),
        None => Seq::empty(),
    }
}

/// The command that runs the explorer. All URLs are passed, so that it finds
/// services that moved.
pub open spec fn explorer_command(
    metadata: u16,
    qmdb: u16,
    store: u16,
    material: Seq<char>,
    relayer: Option<u16>,
    port: u16,
) -> Seq<char> {
    "VITE_SQL_URL=http://127.0.0.1:"@ + decimal(metadata as nat)
        + " VITE_QMDB_URL=http://127.0.0.1:"@ + decimal(qmdb as nat)
        + " VITE_STORE_URL=http://127.0.0.1:"@ + decimal(store as nat)
        + " VITE_SIMPLEX_VERIFICATION_MATERIAL="@ + material + mempool_env(relayer)
        + " npm --prefix explorer run dev -- --port "@ + decimal(port as nat)
}

fn run_explorer(
    metadata: u16,
    qmdb: u16,
    store: u16,
    material: &str,
    relayer: Option<u16>,
    port: u16,
) -> (command: String)
    ensures
        command@ == explorer_command(metadata, qmdb, store, material@, relayer, port),
{
    let metadata_text = decimal_u64(metadata as u64);
    let qmdb_text = decimal_u64(qmdb as u64);
    let store_text = decimal_u64(store as u64);
    let port_text = decimal_u64(port as u64);
    let mut command = copy("VITE_SQL_URL=http://127.0.0.1:");
    command.append(metadata_text.as_str());
    command.append(" VITE_QMDB_URL=http://127.0.0.1:");
    command.append(qmdb_text.as_str());
    command.append(" VITE_STORE_URL=http://127.0.0.1:");
    command.append(store_text.as_str());
    command.append(" VITE_SIMPLEX_VERIFICATION_MATERIAL=");
    command.append(material);
    match relayer {
        Some(relayer_port) => {
            let env = numbered(" VITE_MEMPOOL_URL=http://127.0.0.1:", relayer_port as u64);
            command.append(env.as_str());
        },
        None => {
            command.append("");
            proof {
                reveal_strlit("");
                assert(""@ =~= Seq::<char>::empty());
            }
        },
    }
    command.append(" npm --prefix explorer run dev -- --port ");
    command.append(port_text.as_str());
    command
}

/// The texts of a list with commas between them.
pub open spec fn comma_joined(texts: Seq<String>) -> Seq<char>
    decreases texts.len(),
{
    if texts.len() == 0 {
        Seq::empty()
    } else if texts.len() == 1 {
        texts[0]@
    } else {
        comma_joined(texts.drop_last()) + ","@ + texts.last()@
    }
}

fn join_commas(texts: &Vec<String>) -> (joined: String)
    ensures
        joined@ == comma_joined(texts@),
{
    let mut joined = String::new();
    let mut i: usize = 0;
    assert(texts@.take(0) =~= Seq::<String>::empty());
    while i < texts.len()
        invariant
            i <= texts.len(),
            joined@ == comma_joined(texts@.take(i as int)),
        decreases texts.len() - i,
    {
        assert(texts@.take(i + 1).drop_last() =~= texts@.take(i as int));
        if i > 0 {
            joined.append(",");
            joined.append(texts[i].as_str());
        } else {
            joined = copy(texts[i].as_str());
        }
        i = i + 1;
    }
    assert(texts@.take(texts@.len() as int) =~= texts@);
    joined
}

/// The flag that names the relayer's targets, where there are any.
pub open spec fn targets_flag(targets: Seq<String>) -> Seq<char> {
    if targets.len() == 0 {
        Seq::empty()
    } else {
        " --relayer-targets "@ + comma_joined(targets)
    }
}

/// The flag that fixes the spammer's seed offset, where it is fixed.
pub open spec fn seed_flag(offset: Option<u64>) -> Seq<char> {
    match offset {
        Some(offset) => " --seed-offset "@ + decimal(offset as nat),
        None => Seq::empty(),
    }
}

/// The command that runs the spammer.
pub open spec fn spammer_command(
    args: &GenerateArgs,
    relayer: u16,
    targets: Seq<String>,
    metrics: u16,
) -> Seq<char> {
    "cargo run --release --bin "@ + SPAMMER_BINARY_FILE@
        + " -- --relayer-url http://127.0.0.1:"@ + decimal(relayer as nat)
        + " --relayer-submitters "@ + decimal(args.validators as nat) + targets_flag(targets)
        + " --accounts "@ + decimal(args.spammer_accounts as nat) + " --value "@ + decimal(
        args.spammer_value as nat,
    ) + seed_flag(args.spammer_seed_offset) + " --rayon-threads "@ + decimal(
        args.spammer_rayon_threads as nat,
    ) + " --accounts-jitter "@ + args.spammer_accounts_jitter@ + " --presigned-batches "@ + decimal(
        args.spammer_presigned_batches as nat,
    ) + " --metrics-port "@ + decimal(metrics as nat)
}

fn run_spammer(args: &GenerateArgs, relayer: u16, targets: &Vec<String>, metrics: u16) -> (command:
    String)
    ensures
        command@ == spammer_command(args, relayer, targets@, metrics),
{
    let relayer_text = decimal_u64(relayer as u64);
    let submitters = decimal_u64(args.validators as u64);
    let accounts = decimal_u64(args.spammer_accounts as u64);
    let value = decimal_u64(args.spammer_value);
    let seed = match args.spammer_seed_offset {
        Some(offset) => numbered(" --seed-offset ", offset),
        None => {
            proof {
                reveal_strlit("");
                assert(""@ =~= Seq::<char>::empty());
            }
            copy("")
        },
    };
    let threads = decimal_u64(args.spammer_rayon_threads as u64);
    let batches = decimal_u64(args.spammer_presigned_batches as u64);
    let metrics_text = decimal_u64(metrics as u64);
    let mut command = copy("cargo run --release --bin ");
    command.append(SPAMMER_BINARY_FILE);
    command.append(" -- --relayer-url http://127.0.0.1:");
    command.append(relayer_text.as_str());
    command.append(" --relayer-submitters ");
    command.append(submitters.as_str());
    if targets.len() > 0 {
        let list = join_commas(targets);
        let mut flag = copy(" --relayer-targets ");
        flag.append(list.as_str());
        command.append(flag.as_str());
    } else {
        command.append("");
        proof {
            reveal_strlit("");
            assert(""@ =~= Seq::<char>::empty());
        }
    }
    command.append(" --accounts ");
    command.append(accounts.as_str());
    command.append(" --value ");
    command.append(value.as_str());
    command.append(seed.as_str());
    command.append(" --rayon-threads ");
    command.append(threads.as_str());
    command.append(" --accounts-jitter ");
    command.append(args.spammer_accounts_jitter.as_str());
    command.append(" --presigned-batches ");
    command.append(batches.as_str());
    command.append(" --metrics-port ");
    command.append(metrics_text.as_str());
    command
}

/// The texts of a list.
pub open spec fn texts_of(list: Seq<String>) -> Seq<Seq<char>> {
    list.map_values(|s: String| s@)
}

/// The commands that run the nodes: the validators, then the secondaries.
pub open spec fn node_commands(dir: Seq<char>, args: &GenerateArgs) -> Seq<Seq<char>> {
    Seq::new(args.validators as nat, |i: int| node_command(dir, "validator-"@, i as nat))
        + Seq::new(roles_of(args).len(), |i: int| node_command(dir, "secondary-"@, i as nat))
}

/// The commands that run the indexer stack, where it is enabled.
pub open spec fn indexer_commands(
    dir: Seq<char>,
    args: &GenerateArgs,
    local: LocalArgs,
    ports: &LocalPortPlan,
    material: Seq<char>,
) -> Seq<Seq<char>> {
    if args.indexer {
        let store = ports.chain_indexer->0;
        let metadata = ports.metadata_indexer->0;
        let qmdb = ports.qmdb_indexer->0;
        seq![
            chain_indexer_command(
                dir,
                store,
                ports.chain_indexer_metrics->0,
                local.chain_indexer_db_parallelism,
            ),
            facade_command(METADATA_INDEXER_BINARY_FILE@, store, metadata),
            facade_command(QMDB_INDEXER_BINARY_FILE@, store, qmdb),
            explorer_command(
                metadata,
                qmdb,
                store,
                material,
                ports.relayer_http,
                ports.explorer->0,
            ),
        ]
    } else {
        Seq::empty()
    }
}

/// The command that runs the spammer, where it is enabled.
pub open spec fn spammer_commands(
    args: &GenerateArgs,
    ports: &LocalPortPlan,
    targets: Seq<String>,
) -> Seq<Seq<char>> {
    if args.spammer {
        seq![
            spammer_command(args, ports.relayer_http->0, targets, ports.spammer_metrics->0),
        ]
    } else {
        Seq::empty()
    }
}

/// All commands of a deployment, in the order in which they are started.
pub open spec fn all_commands(
    dir: Seq<char>,
    args: &GenerateArgs,
    local: LocalArgs,
    ports: &LocalPortPlan,
    targets: Seq<String>,
    material: Seq<char>,
) -> Seq<Seq<char>> {
    node_commands(dir, args) + indexer_commands(dir, args, local, ports, material)
        + spammer_commands(args, ports, targets)
}

proof fn lemma_push_text(list: Seq<String>, text: String)
    ensures
        texts_of(list.push(text)) == texts_of(list).push(text@),
{
    assert(texts_of(list.push(text)) =~= texts_of(list).push(text@));
}

fn run_nodes(dir: &str, args: &GenerateArgs) -> (commands: Vec<String>)
    ensures
        texts_of(commands@) == node_commands(dir@, args),
{
    let secondaries: u32 = total_secondaries(args);
    let mut commands: Vec<String> = Vec::new();
    let mut index: u32 = 0;
    while index < args.validators
        invariant
            index <= args.validators,
            commands@.len() == index,
            forall|i: int|
                0 <= i < index ==> (#[trigger] commands@[i])@ == node_command(
                    dir@,
                    "validator-"@,
                    i as nat,
                ),
        decreases args.validators - index,
    {
        commands.push(run_node(dir, "validator-", index as u64));
        index = index + 1;
    }
    let mut index: u32 = 0;
    while index < secondaries
        invariant
            index <= secondaries,
            secondaries == roles_of(args).len(),
            commands@.len() == args.validators + index,
            forall|i: int|
                0 <= i < args.validators ==> (#[trigger] commands@[i])@ == node_command(
                    dir@,
                    "validator-"@,
                    i as nat,
                ),
            forall|i: int|
                args.validators <= i < commands@.len() ==> (#[trigger] commands@[i])@
                    == node_command(dir@, "secondary-"@, (i - args.validators) as nat),
        decreases secondaries - index,
    {
        commands.push(run_node(dir, "secondary-", index as u64));
        index = index + 1;
    }
    assert(texts_of(commands@) =~= node_commands(dir@, args));
    commands
}

/// The commands that start a local deployment, or that a spammer has no relayer.
pub fn run_commands(
    ports: &LocalPortPlan,
    dir: &str,
    args: &GenerateArgs,
    local: &LocalArgs,
    targets: &Vec<String>,
    material: &str,
) -> (commands: Result<Vec<String>, String>)
    requires
        ports.is_for(args, *local),
    ensures
        match commands {
            Ok(commands) => (args.spammer ==> args.relayer) && texts_of(commands@) == all_commands(
                dir@,
                args,
                *local,
                ports,
                targets@,
                material@,
            ),
            Err(e) => args.spammer && !args.relayer && e@
                == "--spammer requires a relayer secondary"@,
        },
{
    proof {
        enabled_services_have_ports(args, *local);
        assert(ports.services()[0] is Some == args.spammer);
        assert forall|k: int| 1 <= k < 6 implies ports.services()[k] is Some == args.indexer by {}
        assert(ports.services()[1] is Some == args.indexer);
        assert(ports.services()[2] is Some == args.indexer);
        assert(ports.services()[3] is Some == args.indexer);
        assert(ports.services()[4] is Some == args.indexer);
        assert(ports.services()[5] is Some == args.indexer);
    }
    let mut commands = run_nodes(dir, args);
    let ghost nodes = texts_of(commands@);
    if let (Some(store), Some(metrics), Some(metadata), Some(qmdb), Some(explorer)) = (
        ports.chain_indexer,
        ports.chain_indexer_metrics,
        ports.metadata_indexer,
        ports.qmdb_indexer,
        ports.explorer,
    ) {
        let chain = run_chain_indexer(dir, store, metrics, local.chain_indexer_db_parallelism);
        let sql = run_facade(METADATA_INDEXER_BINARY_FILE, store, metadata);
        let proofs = run_facade(QMDB_INDEXER_BINARY_FILE, store, qmdb);
        let browser = run_explorer(metadata, qmdb, store, material, ports.relayer_http, explorer);
        proof {
            lemma_push_text(commands@, chain);
            lemma_push_text(commands@.push(chain), sql);
            lemma_push_text(commands@.push(chain).push(sql), proofs);
            lemma_push_text(commands@.push(chain).push(sql).push(proofs), browser);
        }
        commands.push(chain);
        commands.push(sql);
        commands.push(proofs);
        commands.push(browser);
    }
    assert(texts_of(commands@) =~= nodes + indexer_commands(dir@, args, *local, ports, material@));
    let ghost stack = texts_of(commands@);
    if args.spammer {
        let relayer: u16 = match ports.relayer_http {
            Some(port) => port,
            None => return Err(copy("--spammer requires a relayer secondary")),
        };
        if let Some(metrics) = ports.spammer_metrics {
            let spammer = run_spammer(args, relayer, targets, metrics);
            proof {
                lemma_push_text(commands@, spammer);
            }
            commands.push(spammer);
        }
    }
    assert(texts_of(commands@) =~= stack + spammer_commands(args, ports, targets@));
    Ok(commands)
}

/// The commands that start a local deployment, or why it cannot be planned.
pub fn local_run_commands(
    dir: &str,
    args: &GenerateArgs,
    local: &LocalArgs,
    targets: &Vec<String>,
    material: &str,
) -> (commands: Result<Vec<String>, String>)
    ensures
        match crate::deploy::port_plan::planned(args, *local) {
            Err(text) => commands matches Err(e) && e@ == text,
            Ok(_) => match commands {
                Ok(commands) => (args.spammer ==> args.relayer) && exists|ports: LocalPortPlan|
                    #[trigger] ports.is_for(args, *local) && texts_of(commands@) == all_commands(
                        dir@,
                        args,
                        *local,
                        &ports,
                        targets@,
                        material@,
                    ),
                Err(e) => args.spammer && !args.relayer && e@
                    == "--spammer requires a relayer secondary"@,
            },
        },
{
    let ports = match LocalPortPlan::new(args, local) {
        Ok(ports) => ports,
        Err(e) => return Err(e),
    };
    assert(ports.is_for(args, *local));
    run_commands(&ports, dir, args, local, targets, material)
}

/// The line that starts all commands in one terminal.
pub open spec fn mprocs_line(commands: Seq<String>) -> Seq<char>
    decreases commands.len(),
{
    if commands.len() == 0 {
        "mprocs "@
    } else if commands.len() == 1 {
        "mprocs "@ + "\""@ + commands[0]@ + "\""@
    } else {
        mprocs_line(commands.drop_last()) + " "@ + "\""@ + commands.last()@ + "\""@
    }
}

/// The line that starts all commands in one terminal.
pub fn mprocs_command(commands: &Vec<String>) -> (line: String)
    ensures
        line@ == mprocs_line(commands@),
{
    let mut line = copy("mprocs ");
    let mut i: usize = 0;
    assert(commands@.take(0) =~= Seq::<String>::empty());
    while i < commands.len()
        invariant
            i <= commands.len(),
            line@ == mprocs_line(commands@.take(i as int)),
        decreases commands.len() - i,
    {
        assert(commands@.take(i + 1).drop_last() =~= commands@.take(i as int));
        if i > 0 {
            line.append(" ");
        }
        line.append("\"");
        line.append(commands[i].as_str());
        line.append("\"");
        i = i + 1;
    }
    assert(commands@.take(commands@.len() as int) =~= commands@);
    line
}

/// Everything that is written for a local deployment, and the commands that
/// start it. The peers are the nodes' own entries; the manifest is the plan's
/// reserved ports.
#[derive(Debug)]
pub struct LocalBundle {
    pub ports: LocalPortPlan,
    pub validators: Vec<GeneratedValidator>,
    pub secondaries: Vec<GeneratedValidator>,
    pub commands: Vec<String>,
}

/// Whether `bundle` is that of a deployment.
pub open spec fn is_bundle(
    bundle: LocalBundle,
    args: &GenerateArgs,
    local: LocalArgs,
    dir: Seq<char>,
    material: &ClusterMaterial,
    verification: Seq<char>,
) -> bool {
    &&& bundle.ports.is_for(args, local)
    &&& bundle.validators@.len() == args.validators
    &&& forall|i: int|
        0 <= i < bundle.validators@.len() ==> is_local_validator(
            #[trigger] bundle.validators@[i],
            args,
            &bundle.ports,
            dir,
            material,
            i,
        )
    &&& bundle.secondaries@.len() == roles_of(args).len()
    &&& forall|i: int|
        0 <= i < bundle.secondaries@.len() ==> is_local_secondary(
            #[trigger] bundle.secondaries@[i],
            args,
            &bundle.ports,
            dir,
            material,
            i,
        )
    &&& texts_of(bundle.commands@) == all_commands(
        dir,
        args,
        local,
        &bundle.ports,
        Seq::empty(),
        verification,
    )
}

/// Generates a local deployment for a cluster, or says why there is none: the
/// ports are settled before anything is written.
pub fn generate(
    args: &GenerateArgs,
    local: &LocalArgs,
    dir: &str,
    material: &ClusterMaterial,
    verification: &str,
) -> (bundle: Result<LocalBundle, String>)
    requires
        material.covers(args),
        key_count(material) == node_count(args),
    ensures
        match bundle_fault(args, *local) {
            Some(text) => bundle matches Err(e) && e@ == text,
            None => match bundle {
                Ok(bundle) => is_bundle(bundle, args, *local, dir@, material, verification@),
                Err(e) => e@ == "missing share for validator"@ && exists|i: int|
                    0 <= i < args.validators && !material.has_share(
                        (#[trigger] material.public_keys@[i])@,
                    ),
            },
        },
{
    let ports = match plan_bundle(args, local) {
        Ok(ports) => ports,
        Err(e) => return Err(e),
    };
    proof {
        enabled_services_have_ports(args, *local);
        assert(ports.services()[2] is Some == args.indexer);
    }
    let validators = match build_validators(args, &ports, dir, material) {
        Ok(validators) => validators,
        Err(e) => return Err(e),
    };
    let secondaries = build_secondaries(args, &ports, dir, material);
    let targets: Vec<String> = Vec::new();
    let commands = match run_commands(&ports, dir, args, local, &targets, verification) {
        Ok(commands) => commands,
        Err(e) => return Err(e),
    };
    assert(targets@ =~= Seq::<String>::empty());
    Ok(LocalBundle { ports, validators, secondaries, commands })
}

/// Every generated node listens where its peer entry says it is reached, and
/// node `i` has the `i`-th port of each range, the secondaries after the
/// validators.
pub proof fn nodes_listen_where_they_are_reached(
    bundle: LocalBundle,
    args: &GenerateArgs,
    local: LocalArgs,
    dir: Seq<char>,
    material: &ClusterMaterial,
    verification: Seq<char>,
    i: int,
)
    requires
        is_bundle(bundle, args, local, dir, material, verification),
    ensures
        0 <= i < bundle.validators@.len() ==> {
            let node = bundle.validators@[i];
            &&& node.peer.p2p@ == "127.0.0.1:"@ + decimal(node.config.listen_port as nat)
            &&& node.peer.http@ == "127.0.0.1:"@ + decimal(node.config.http_port as nat)
            &&& node.config.listen_port == local.base_port + i
            &&& node.config.http_port == local.base_http_port + i
            &&& node.config.metrics_port == local.base_metrics_port + i
        },
        0 <= i < bundle.secondaries@.len() ==> {
            let node = bundle.secondaries@[i];
            &&& node.peer.p2p@ == "127.0.0.1:"@ + decimal(node.config.listen_port as nat)
            &&& node.peer.http@ == "127.0.0.1:"@ + decimal(node.config.http_port as nat)
            &&& node.config.listen_port == local.base_port + bundle.validators@.len() + i
            &&& node.config.http_port == local.base_http_port + bundle.validators@.len() + i
            &&& node.config.metrics_port == local.base_metrics_port + bundle.validators@.len() + i
        },
{
    ports_are_listed_under_their_owners(&bundle.ports, args, local);
    if 0 <= i < bundle.validators@.len() {
        assert(is_local_validator(bundle.validators@[i], args, &bundle.ports, dir, material, i));
        assert(bundle.ports.nodes@[i].p2p == local.base_port + i);
    }
    if 0 <= i < bundle.secondaries@.len() {
        assert(is_local_secondary(bundle.secondaries@[i], args, &bundle.ports, dir, material, i));
        assert(bundle.ports.nodes@[args.validators + i].p2p == local.base_port + args.validators
            + i);
    }
}

/// Every node runs with the settings that were asked for, each under its own
/// name, and under its own key: a validator with the share of its public key, a
/// secondary with none.
pub proof fn nodes_run_with_the_given_settings(
    bundle: LocalBundle,
    args: &GenerateArgs,
    local: LocalArgs,
    dir: Seq<char>,
    material: &ClusterMaterial,
    verification: Seq<char>,
    i: int,
)
    requires
        is_bundle(bundle, args, local, dir, material, verification),
    ensures
        0 <= i < bundle.validators@.len() ==> {
            let node = bundle.validators@[i];
            &&& runs_with(node.config, args, material)
            &&& node.config.private_key@ == hex_text(material.signers@[i]@)
            &&& node.peer.name@ == hex_text(material.public_keys@[i]@)
            &&& exists|k: int|
                0 <= k < material.shares@.len() && (#[trigger] material.shares@[k]).public_key@
                    == material.public_keys@[i]@ && node.config.dkg_share@ == hex_text(
                    material.shares@[k].share@,
                )
            &&& node.config.indexer is None
            &&& node.config.relayer is None
        },
        0 <= i < bundle.secondaries@.len() ==> {
            let node = bundle.secondaries@[i];
            &&& runs_with(node.config, args, material)
            &&& node.config.private_key@ == hex_text(material.secondary_signers@[i]@)
            &&& node.peer.name@ == hex_text(material.secondary_public_keys@[i]@)
            &&& node.config.dkg_share@.len() == 0
            &&& node.config.indexer is Some != node.config.relayer is Some
        },
        bundle.secondaries@.len() == (if args.indexer {
            1int
        } else {
            0
        }) + (if args.relayer {
            1int
        } else {
            0
        }),
        args.indexer ==> bundle.secondaries@[0].config.indexer is Some,
        args.relayer ==> bundle.secondaries@.last().config.relayer is Some,
{
    if 0 <= i < bundle.validators@.len() {
        let node = bundle.validators@[i];
        assert(is_local_validator(node, args, &bundle.ports, dir, material, i));
        let k = choose|k: int| #[trigger]
            material.is_share(material.public_keys@[i]@, k) && node.config.dkg_share@ == hex_text(
                material.shares@[k].share@,
            );
        assert(material.shares@[k].public_key@ == material.public_keys@[i]@);
    }
    if 0 <= i < bundle.secondaries@.len() {
        assert(is_local_secondary(bundle.secondaries@[i], args, &bundle.ports, dir, material, i));
        assert(is_wired_for(
            bundle.secondaries@[i].config,
            roles_of(args)[i],
            &bundle.ports,
            material,
        ));
    }
    if args.indexer {
        assert(roles_of(args)[0] == SecondaryRole::Indexer);
        assert(is_local_secondary(bundle.secondaries@[0], args, &bundle.ports, dir, material, 0));
    }
    if args.relayer {
        let last = bundle.secondaries@.len() - 1;
        assert(roles_of(args)[last] == SecondaryRole::Relayer);
        assert(is_local_secondary(
            bundle.secondaries@[last],
            args,
            &bundle.ports,
            dir,
            material,
            last,
        ));
    }
}

/// Whether `config` holds the settings of `args` and the keys of the cluster.
pub open spec fn runs_with(
    config: ValidatorConfig,
    args: &GenerateArgs,
    material: &ClusterMaterial,
) -> bool {
    &&& config.log_level@ == args.log_level@
    &&& config.worker_threads == args.worker_threads
    &&& config.rayon_threads == args.rayon_threads
    &&& config.public_key_cache_size == args.public_key_cache_size
    &&& config.max_propose_bytes == args.max_propose_bytes
    &&& config.max_pool_bytes == args.max_pool_bytes
    &&& config.state_page_cache_bytes == args.state_page_cache_bytes
    &&& config.other_page_cache_bytes == args.other_page_cache_bytes
    &&& config.startup == args.startup
    &&& config.num_validators == args.validators
    &&& config.genesis_leader@ == material.genesis_leader@
    &&& config.dkg_output@ == hex_text(material.dkg_output@)
    &&& config.primary_validators@.len() == material.public_keys@.len()
    &&& forall|j: int|
        0 <= j < material.public_keys@.len() ==> (#[trigger] config.primary_validators@[j])@
            == hex_text(material.public_keys@[j]@)
    &&& config.secondary_validators@.len() == material.secondary_public_keys@.len()
    &&& forall|j: int|
        0 <= j < material.secondary_public_keys@.len() ==> (
        #[trigger] config.secondary_validators@[j])@ == hex_text(
            material.secondary_public_keys@[j]@,
        )
}

/// The `j`-th node of a bundle: the validators, then the secondaries.
pub open spec fn node_of(bundle: LocalBundle, j: int) -> GeneratedValidator {
    if j < bundle.validators@.len() {
        bundle.validators@[j]
    } else {
        bundle.secondaries@[j - bundle.validators@.len()]
    }
}

/// A relayer forwards to every node of the deployment, in order, by the node's
/// name and at the address where the node serves HTTP. Every node lists all
/// nodes' names, in the same order.
pub proof fn relayers_reach_every_node(
    bundle: LocalBundle,
    args: &GenerateArgs,
    local: LocalArgs,
    dir: Seq<char>,
    material: &ClusterMaterial,
    verification: Seq<char>,
    i: int,
    v: int,
    j: int,
)
    requires
        is_bundle(bundle, args, local, dir, material, verification),
        material.covers(args),
        key_count(material) == node_count(args),
        0 <= j < bundle.validators@.len() + bundle.secondaries@.len(),
    ensures
        0 <= i < bundle.secondaries@.len() ==> (bundle.secondaries@[i].config.relayer matches Some(
            relayer,
        ) ==> {
            &&& relayer.leaders@.len() == bundle.validators@.len() + bundle.secondaries@.len()
            &&& relayer.leaders@[j].public_key@ == node_of(bundle, j).peer.name@
            &&& relayer.leaders@[j].url@ == "http://"@ + node_of(bundle, j).peer.http@
        }),
        0 <= i < bundle.secondaries@.len() ==> bundle.secondaries@[i].config.peers@.len()
            == bundle.validators@.len() + bundle.secondaries@.len()
            && bundle.secondaries@[i].config.peers@[j]@ == node_of(bundle, j).peer.name@,
        0 <= v < bundle.validators@.len() ==> bundle.validators@[v].config.peers@.len()
            == bundle.validators@.len() + bundle.secondaries@.len()
            && bundle.validators@[v].config.peers@[j]@ == node_of(bundle, j).peer.name@,
{
    if 0 <= i < bundle.secondaries@.len() {
        assert(is_local_secondary(bundle.secondaries@[i], args, &bundle.ports, dir, material, i));
    }
    if 0 <= v < bundle.validators@.len() {
        assert(is_local_validator(bundle.validators@[v], args, &bundle.ports, dir, material, v));
    }
    if j < bundle.validators@.len() {
        assert(is_local_validator(bundle.validators@[j], args, &bundle.ports, dir, material, j));
    } else {
        let s = j - bundle.validators@.len();
        assert(is_local_secondary(bundle.secondaries@[s], args, &bundle.ports, dir, material, s));
    }
    let http = bundle.ports.nodes@[j].http;
    reveal_strlit("http://");
    reveal_strlit("127.0.0.1:");
    reveal_strlit("http://127.0.0.1:");
    assert("http://127.0.0.1:"@ =~= "http://"@ + "127.0.0.1:"@);
    assert(loopback_url(http) =~= "http://"@ + loopback(http));
}

/// Each node has a command, and it runs the file in which the node's
/// configuration is written.
pub proof fn commands_run_the_generated_files(
    bundle: LocalBundle,
    args: &GenerateArgs,
    local: LocalArgs,
    dir: Seq<char>,
    material: &ClusterMaterial,
    verification: Seq<char>,
    j: int,
)
    requires
        is_bundle(bundle, args, local, dir, material, verification),
        0 <= j < bundle.validators@.len() + bundle.secondaries@.len(),
    ensures
        bundle.commands@.len() == bundle.validators@.len() + bundle.secondaries@.len() + (
        if args.indexer {
            4int
        } else {
            0
        }) + (if args.spammer {
            1int
        } else {
            0
        }),
        bundle.commands@[j]@ == "cargo run --release --bin constantinople -- --config "@ + node_of(
            bundle,
            j,
        ).config_file@ + " --peers "@ + path_in(dir, "peers.yaml"@),
        j < bundle.validators@.len() ==> node_of(bundle, j).config_file@ == path_in(
            dir,
            "validator-"@ + decimal(j as nat) + ".yaml"@,
        ) && node_of(bundle, j).config.partition_prefix@ == "validator-"@ + decimal(j as nat),
        j >= bundle.validators@.len() ==> node_of(bundle, j).config_file@ == path_in(
            dir,
            "secondary-"@ + decimal((j - bundle.validators@.len()) as nat) + ".yaml"@,
        ) && node_of(bundle, j).config.partition_prefix@ == "secondary-"@ + decimal(
            (j - bundle.validators@.len()) as nat,
        ),
{
    let commands = texts_of(bundle.commands@);
    assert(commands.len() == bundle.commands@.len());
    assert(commands[j] == bundle.commands@[j]@);
    if j < bundle.validators@.len() {
        assert(is_local_validator(bundle.validators@[j], args, &bundle.ports, dir, material, j));
        assert(commands[j] == node_command(dir, "validator-"@, j as nat));
    } else {
        let s = j - bundle.validators@.len();
        assert(is_local_secondary(bundle.secondaries@[s], args, &bundle.ports, dir, material, s));
        assert(commands[j] == node_command(dir, "secondary-"@, s as nat));
    }
}

/// The indexer stack fits together: the secondary uploads to the address that
/// the Store serves, both facades read from there, and the explorer is pointed
/// at the facades, at the Store and at the relayer's HTTP address.
pub proof fn indexer_stack_is_connected(
    bundle: LocalBundle,
    args: &GenerateArgs,
    local: LocalArgs,
    dir: Seq<char>,
    material: &ClusterMaterial,
    verification: Seq<char>,
)
    requires
        is_bundle(bundle, args, local, dir, material, verification),
        args.indexer,
    ensures
        ({
            let n = (bundle.validators@.len() + bundle.secondaries@.len()) as int;
            let store = bundle.ports.chain_indexer->0;
            let metadata = bundle.ports.metadata_indexer->0;
            let qmdb = bundle.ports.qmdb_indexer->0;
            let url = bundle.secondaries@[0].config.indexer->0.chain_indexer_url@;
            &&& url == "http://127.0.0.1:"@ + decimal(store as nat)
            &&& bundle.commands@[n]@
                == "cargo run --release -p constantinople-indexer --bin chain-indexer -- --port "@
                + decimal(store as nat) + " --metrics-port "@ + decimal(
                bundle.ports.chain_indexer_metrics->0 as nat,
            ) + " --data-dir "@ + path_in(dir, "chain-indexer"@) + (
            match local.chain_indexer_db_parallelism {
                Some(parallelism) => " --db-parallelism "@ + decimal(parallelism as nat),
                None => Seq::<char>::empty(),
            })
            &&& bundle.commands@[n + 1]@
                == "cargo run --release -p constantinople-indexer --bin metadata-indexer -- --store-url "@
                + url + " --port "@ + decimal(metadata as nat)
            &&& bundle.commands@[n + 2]@
                == "cargo run --release -p constantinople-indexer --bin qmdb-indexer -- --store-url "@
                + url + " --port "@ + decimal(qmdb as nat)
            &&& bundle.commands@[n + 3]@ == "VITE_SQL_URL=http://127.0.0.1:"@ + decimal(
                metadata as nat,
            ) + " VITE_QMDB_URL=http://127.0.0.1:"@ + decimal(qmdb as nat) + " VITE_STORE_URL="@
                + url + " VITE_SIMPLEX_VERIFICATION_MATERIAL="@ + verification + (if args.relayer {
                " VITE_MEMPOOL_URL=http://"@ + bundle.secondaries@.last().peer.http@
            } else {
                Seq::<char>::empty()
            }) + " npm --prefix explorer run dev -- --port "@ + decimal(
                bundle.ports.explorer->0 as nat,
            )
        }),
{
    let n = (bundle.validators@.len() + bundle.secondaries@.len()) as int;
    let store = bundle.ports.chain_indexer->0;
    let commands = texts_of(bundle.commands@);
    assert(roles_of(args)[0] == SecondaryRole::Indexer);
    assert(is_local_secondary(bundle.secondaries@[0], args, &bundle.ports, dir, material, 0));
    let url = loopback_url(store);
    let stack = indexer_commands(dir, args, local, &bundle.ports, verification);
    let nodes = node_commands(dir, args);
    let spammers = spammer_commands(args, &bundle.ports, Seq::empty());
    assert(nodes.len() == n);
    assert(stack.len() == 4);
    assert(commands == nodes + stack + spammers);
    assert(commands.len() == bundle.commands@.len());
    assert(commands[n] == bundle.commands@[n]@ && commands[n] == stack[0]);
    assert(commands[n + 1] == bundle.commands@[n + 1]@ && commands[n + 1] == stack[1]);
    assert(commands[n + 2] == bundle.commands@[n + 2]@ && commands[n + 2] == stack[2]);
    assert(commands[n + 3] == bundle.commands@[n + 3]@ && commands[n + 3] == stack[3]);
    lemma_store_texts();
    lemma_facade_text(METADATA_INDEXER_BINARY_FILE@, store, bundle.ports.metadata_indexer->0);
    lemma_facade_text(QMDB_INDEXER_BINARY_FILE@, store, bundle.ports.qmdb_indexer->0);
    reveal_strlit(" VITE_STORE_URL=");
    reveal_strlit(" VITE_STORE_URL=http://127.0.0.1:");
    reveal_strlit("http://127.0.0.1:");
    let head = "VITE_SQL_URL=http://127.0.0.1:"@ + decimal(
        bundle.ports.metadata_indexer->0 as nat,
    ) + " VITE_QMDB_URL=http://127.0.0.1:"@ + decimal(bundle.ports.qmdb_indexer->0 as nat);
    assert(" VITE_STORE_URL=http://127.0.0.1:"@ =~= " VITE_STORE_URL="@ + "http://127.0.0.1:"@);
    assert(head + " VITE_STORE_URL=http://127.0.0.1:"@ + decimal(store as nat) =~= head
        + " VITE_STORE_URL="@ + url);
    if args.relayer {
        let last = bundle.secondaries@.len() - 1;
        ports_are_listed_under_their_owners(&bundle.ports, args, local);
        assert(is_local_secondary(
            bundle.secondaries@[last],
            args,
            &bundle.ports,
            dir,
            material,
            last,
        ));
        lemma_mempool_text(bundle.ports.relayer_http->0);
    }
}

proof fn lemma_store_texts()
    ensures
        "cargo run --release -p constantinople-indexer --bin "@ + CHAIN_INDEXER_BINARY_FILE@
            + " -- --port "@
            == "cargo run --release -p constantinople-indexer --bin chain-indexer -- --port "@,
        "cargo run --release -p constantinople-indexer --bin "@ + METADATA_INDEXER_BINARY_FILE@
            + " -- --store-url "@
            == "cargo run --release -p constantinople-indexer --bin metadata-indexer -- --store-url "@,
        "cargo run --release -p constantinople-indexer --bin "@ + QMDB_INDEXER_BINARY_FILE@
            + " -- --store-url "@
            == "cargo run --release -p constantinople-indexer --bin qmdb-indexer -- --store-url "@,
{
    reveal_strlit("cargo run --release -p constantinople-indexer --bin ");
    reveal_strlit("chain-indexer");
    reveal_strlit("metadata-indexer");
    reveal_strlit("qmdb-indexer");
    reveal_strlit(" -- --port ");
    reveal_strlit(" -- --store-url ");
    reveal_strlit("cargo run --release -p constantinople-indexer --bin chain-indexer -- --port ");
    reveal_strlit(
        "cargo run --release -p constantinople-indexer --bin metadata-indexer -- --store-url ",
    );
    reveal_strlit(
        "cargo run --release -p constantinople-indexer --bin qmdb-indexer -- --store-url ",
    );
    assert("cargo run --release -p constantinople-indexer --bin "@ + CHAIN_INDEXER_BINARY_FILE@
        + " -- --port "@
        =~= "cargo run --release -p constantinople-indexer --bin chain-indexer -- --port "@);
    assert("cargo run --release -p constantinople-indexer --bin "@ + METADATA_INDEXER_BINARY_FILE@
        + " -- --store-url "@
        =~= "cargo run --release -p constantinople-indexer --bin metadata-indexer -- --store-url "@);
    assert("cargo run --release -p constantinople-indexer --bin "@ + QMDB_INDEXER_BINARY_FILE@
        + " -- --store-url "@
        =~= "cargo run --release -p constantinople-indexer --bin qmdb-indexer -- --store-url "@);
}

proof fn lemma_facade_text(binary: Seq<char>, store: u16, port: u16)
    ensures
        facade_command(binary, store, port)
            == "cargo run --release -p constantinople-indexer --bin "@ + binary
            + " -- --store-url "@ + loopback_url(store) + " --port "@ + decimal(port as nat),
{
    reveal_strlit(" -- --store-url ");
    reveal_strlit("http://127.0.0.1:");
    reveal_strlit(" -- --store-url http://127.0.0.1:");
    let head = "cargo run --release -p constantinople-indexer --bin "@ + binary;
    assert(" -- --store-url http://127.0.0.1:"@ =~= " -- --store-url "@ + "http://127.0.0.1:"@);
    assert(head + " -- --store-url http://127.0.0.1:"@ + decimal(store as nat) =~= head
        + " -- --store-url "@ + loopback_url(store));
}

proof fn lemma_mempool_text(port: u16)
    ensures
        mempool_env(Some(port)) == " VITE_MEMPOOL_URL=http://"@ + loopback(port),
{
    reveal_strlit(" VITE_MEMPOOL_URL=http://");
    reveal_strlit("127.0.0.1:");
    reveal_strlit(" VITE_MEMPOOL_URL=http://127.0.0.1:");
    assert(" VITE_MEMPOOL_URL=http://127.0.0.1:"@ =~= " VITE_MEMPOOL_URL=http://"@ + "127.0.0.1:"@);
    assert(mempool_env(Some(port)) =~= " VITE_MEMPOOL_URL=http://"@ + loopback(port));
}

/// The spammer submits to the relayer's HTTP address, with each setting that was
/// asked for behind its own flag.
pub proof fn spammer_submits_to_the_relayer(
    bundle: LocalBundle,
    args: &GenerateArgs,
    local: LocalArgs,
    dir: Seq<char>,
    material: &ClusterMaterial,
    verification: Seq<char>,
)
    requires
        is_bundle(bundle, args, local, dir, material, verification),
        args.spammer,
        args.relayer,
    ensures
        bundle.secondaries@.last().config.relayer is Some,
        bundle.commands@.last()@
            == "cargo run --release --bin constantinople-spammer -- --relayer-url http://"@
            + bundle.secondaries@.last().peer.http@ + " --relayer-submitters "@ + decimal(
            bundle.validators@.len(),
        ) + " --accounts "@ + decimal(args.spammer_accounts as nat) + " --value "@ + decimal(
            args.spammer_value as nat,
        ) + (match args.spammer_seed_offset {
            Some(offset) => " --seed-offset "@ + decimal(offset as nat),
            None => Seq::<char>::empty(),
        }) + " --rayon-threads "@ + decimal(args.spammer_rayon_threads as nat)
            + " --accounts-jitter "@ + args.spammer_accounts_jitter@ + " --presigned-batches "@
            + decimal(args.spammer_presigned_batches as nat) + " --metrics-port "@ + decimal(
            bundle.ports.spammer_metrics->0 as nat,
        ),
{
    let commands = texts_of(bundle.commands@);
    let last = bundle.secondaries@.len() - 1;
    let relayer = bundle.ports.relayer_http->0;
    ports_are_listed_under_their_owners(&bundle.ports, args, local);
    assert(roles_of(args)[last] == SecondaryRole::Relayer);
    assert(is_local_secondary(bundle.secondaries@[last], args, &bundle.ports, dir, material, last));
    assert(commands.last() == bundle.commands@.last()@);
    assert(spammer_commands(args, &bundle.ports, Seq::empty()).len() == 1);
    assert(commands.last() == spammer_commands(args, &bundle.ports, Seq::empty())[0]);
    reveal_strlit("cargo run --release --bin ");
    reveal_strlit("constantinople-spammer");
    reveal_strlit(" -- --relayer-url http://127.0.0.1:");
    reveal_strlit("127.0.0.1:");
    reveal_strlit("cargo run --release --bin constantinople-spammer -- --relayer-url http://");
    assert("cargo run --release --bin "@ + SPAMMER_BINARY_FILE@
        + " -- --relayer-url http://127.0.0.1:"@
        =~= "cargo run --release --bin constantinople-spammer -- --relayer-url http://"@
        + "127.0.0.1:"@);
    assert("cargo run --release --bin "@ + SPAMMER_BINARY_FILE@
        + " -- --relayer-url http://127.0.0.1:"@ + decimal(relayer as nat)
        =~= "cargo run --release --bin constantinople-spammer -- --relayer-url http://"@ + loopback(
        relayer,
    ));
    let targets = Seq::<String>::empty();
    let head = "cargo run --release --bin "@ + SPAMMER_BINARY_FILE@
        + " -- --relayer-url http://127.0.0.1:"@ + decimal(relayer as nat)
        + " --relayer-submitters "@ + decimal(args.validators as nat);
    assert(head + targets_flag(targets) =~= head);
}

/// A list is joined item by item, with a comma before each but the first, and
/// commands are quoted one by one behind each other.
pub proof fn lists_are_joined_in_order(texts: Seq<String>, text: String)
    ensures
        comma_joined(Seq::empty()) == Seq::<char>::empty(),
        comma_joined(seq![text]) == text@,
        texts.len() > 0 ==> comma_joined(texts.push(text)) == comma_joined(texts) + ","@ + text@,
        targets_flag(Seq::empty()) == Seq::<char>::empty(),
        texts.len() > 0 ==> targets_flag(texts) == " --relayer-targets "@ + comma_joined(texts),
        mprocs_line(Seq::empty()) == "mprocs "@,
        mprocs_line(seq![text]) == "mprocs "@ + "\""@ + text@ + "\""@,
        texts.len() > 0 ==> mprocs_line(texts.push(text)) == mprocs_line(texts) + " "@ + "\""@
            + text@ + "\""@,
{
    assert(texts.push(text).drop_last() =~= texts);
}

} // verus!
