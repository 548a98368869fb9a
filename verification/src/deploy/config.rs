//! What a deployment is generated from, and the configuration of a node.

use crate::text::{copy, decimal, decimal_u64, hex, hex_text};
use crate::validator::leaders::RelayerLeaderConfig;
use crate::validator::run::StartupModeConfig;
use vstd::prelude::*;

verus! {

/// File that lists a local deployment's peers.
pub const PEERS_CONFIG_FILE: &'static str = "peers.yaml";

/// Binary and host name of the shared Store.
pub const CHAIN_INDEXER_BINARY_FILE: &'static str = "chain-indexer";

/// Directory of the shared Store's data.
pub const CHAIN_INDEXER_DATA_DIR: &'static str = "chain-indexer";

/// Binary of the SQL facade.
pub const METADATA_INDEXER_BINARY_FILE: &'static str = "metadata-indexer";

/// Binary of the proof facade.
pub const QMDB_INDEXER_BINARY_FILE: &'static str = "qmdb-indexer";

/// Binary of the load generator.
pub const SPAMMER_BINARY_FILE: &'static str = "constantinople-spammer";

/// Rayon threads of a spammer that was not told otherwise.
pub const DEFAULT_SPAMMER_RAYON_THREADS: usize = 2;

/// Batches a spammer signs ahead when it was not told otherwise.
pub const DEFAULT_SPAMMER_PRESIGNED_BATCHES: usize = 16;

/// What every deployment is generated from. Fractions are decimal texts.
#[derive(Debug)]
pub struct GenerateArgs {
    pub validators: u32,
    pub indexer: bool,
    pub relayer: bool,
    pub log_level: String,
    pub worker_threads: usize,
    pub rayon_threads: usize,
    pub public_key_cache_size: usize,
    pub max_propose_bytes: usize,
    pub max_pool_bytes: usize,
    pub state_page_cache_bytes: usize,
    pub other_page_cache_bytes: usize,
    pub startup: StartupModeConfig,
    pub spammer: bool,
    pub spammer_accounts: usize,
    pub spammer_value: u64,
    pub spammer_seed_offset: Option<u64>,
    pub spammer_rayon_threads: usize,
    pub spammer_accounts_jitter: String,
    pub spammer_submitters: Option<usize>,
    pub spammer_presigned_batches: usize,
}

/// How a secondary bounds its uploads.
#[derive(Clone, Copy, Debug, PartialEq, Eq, Structural)]
pub enum UploadLimits {
    /// Blocks that may wait for upload.
    Buffer(usize),
    /// Uploads in flight, and the bytes they may hold.
    Budget { max_in_flight: usize, budget_bytes: u64 },
}

/// The indexer wiring of the secondary that owns it.
#[derive(Debug)]
pub struct IndexerConfig {
    pub chain_indexer_url: String,
    pub api_key: Option<String>,
    pub limits: UploadLimits,
}

/// The validators that a relayer forwards to.
#[derive(Debug)]
pub struct RelayerConfig {
    pub leaders: Vec<RelayerLeaderConfig>,
}

/// The configuration of one node.
#[derive(Debug)]
pub struct ValidatorConfig {
    pub private_key: String,
    pub dkg_output: String,
    pub dkg_share: String,
    pub startup: StartupModeConfig,
    pub listen_port: u16,
    pub genesis_leader: String,
    pub partition_prefix: String,
    pub num_validators: u32,
    pub primary_validators: Vec<String>,
    pub secondary_validators: Vec<String>,
    pub log_level: String,
    pub worker_threads: usize,
    pub rayon_threads: usize,
    pub http_port: u16,
    pub metrics_port: u16,
    pub max_propose_bytes: usize,
    pub max_pool_bytes: usize,
    pub state_page_cache_bytes: usize,
    pub other_page_cache_bytes: usize,
    pub public_key_cache_size: usize,
    /// Share of requests that are traced, as a decimal text.
    pub traces: String,
    /// Public keys of the peers that a node dials first.
    pub peers: Vec<String>,
    pub indexer: Option<IndexerConfig>,
    pub relayer: Option<RelayerConfig>,
}

/// What a secondary does beside following the chain.
#[derive(Clone, Copy, Debug, PartialEq, Eq, Structural)]
pub enum SecondaryRole {
    Indexer,
    Relayer,
}

/// A validator's share of the group key.
#[derive(Debug)]
pub struct Share {
    pub public_key: Vec<u8>,
    pub share: Vec<u8>,
}

/// Encoded keys and shares of a cluster.
#[derive(Debug)]
pub struct ClusterMaterial {
    pub signers: Vec<Vec<u8>>,
    pub public_keys: Vec<Vec<u8>>,
    pub secondary_signers: Vec<Vec<u8>>,
    pub secondary_public_keys: Vec<Vec<u8>>,
    pub shares: Vec<Share>,
    pub dkg_output: Vec<u8>,
    pub genesis_leader: String,
}

/// Whether the deployment has an indexer stack.
pub fn indexer_enabled(args: &GenerateArgs) -> (enabled: bool)
    ensures
        enabled == args.indexer,
{
    args.indexer
}

/// The secondaries' roles, in order: an indexer before a relayer.
pub open spec fn roles_of(args: &GenerateArgs) -> Seq<SecondaryRole> {
    (if args.indexer {
        seq![SecondaryRole::Indexer]
    } else {
        Seq::empty()
    }) + (if args.relayer {
        seq![SecondaryRole::Relayer]
    } else {
        Seq::empty()
    })
}

/// The secondaries' roles, in order: an indexer before a relayer.
pub fn secondary_roles(args: &GenerateArgs) -> (roles: Vec<SecondaryRole>)
    ensures
        roles@ == roles_of(args),
{
    let mut roles: Vec<SecondaryRole> = Vec::new();
    if args.indexer {
        roles.push(SecondaryRole::Indexer);
    }
    if args.relayer {
        roles.push(SecondaryRole::Relayer);
    }
    assert(roles@ =~= roles_of(args));
    roles
}

/// How many secondaries there are.
pub fn total_secondaries(args: &GenerateArgs) -> (total: u32)
    ensures
        total == roles_of(args).len(),
{
    secondary_roles(args).len() as u32
}

/// Whether the arguments fit together.
pub fn validate_generate_args(args: &GenerateArgs) -> (valid: Result<(), String>)
    ensures
        match valid {
            Ok(()) => !args.spammer || args.relayer,
            Err(e) => args.spammer && !args.relayer && e@ == "--spammer requires --relayer"@,
        },
{
    if args.spammer && !args.relayer {
        return Err(copy("--spammer requires --relayer"));
    }
    Ok(())
}

/// Whether two lists hold the same texts.
pub open spec fn same_texts(a: Seq<String>, b: Seq<String>) -> bool {
    &&& a.len() == b.len()
    &&& forall|i: int| 0 <= i < a.len() ==> (#[trigger] a[i])@ == b[i]@
}

/// A copy of a list of texts.
pub fn copy_texts(texts: &Vec<String>) -> (copied: Vec<String>)
    ensures
        same_texts(copied@, texts@),
{
    let mut copied: Vec<String> = Vec::new();
    let mut i: usize = 0;
    while i < texts.len()
        invariant
            i <= texts.len(),
            copied@.len() == i,
            forall|j: int| 0 <= j < i ==> (#[trigger] copied@[j])@ == texts@[j]@,
        decreases texts.len() - i,
    {
        copied.push(copy(texts[i].as_str()));
        i = i + 1;
    }
    copied
}

/// Whether `texts` holds the hexadecimal texts of `keys`, in order.
pub open spec fn is_hex_of(texts: Seq<String>, keys: Seq<Vec<u8>>) -> bool {
    &&& texts.len() == keys.len()
    &&& forall|i: int| 0 <= i < texts.len() ==> (#[trigger] texts[i])@ == hex_text(keys[i]@)
}

/// The hexadecimal texts of `keys`, in order.
pub fn hex_all(keys: &Vec<Vec<u8>>) -> (texts: Vec<String>)
    ensures
        is_hex_of(texts@, keys@),
{
    let mut texts: Vec<String> = Vec::new();
    let mut i: usize = 0;
    while i < keys.len()
        invariant
            i <= keys.len(),
            texts@.len() == i,
            forall|j: int| 0 <= j < i ==> (#[trigger] texts@[j])@ == hex_text(keys@[j]@),
        decreases keys.len() - i,
    {
        texts.push(hex(keys[i].as_slice()));
        i = i + 1;
    }
    texts
}

/// `list` with `more` behind it.
pub fn extend(list: Vec<String>, more: &Vec<String>) -> (all: Vec<String>)
    ensures
        all@.len() == list@.len() + more@.len(),
        all@.take(list@.len() as int) == list@,
        same_texts(all@.skip(list@.len() as int), more@),
{
    let ghost first = list@;
    let mut all = list;
    let mut i: usize = 0;
    while i < more.len()
        invariant
            i <= more.len(),
            all@.len() == first.len() + i,
            all@.take(first.len() as int) == first,
            forall|j: int|
                first.len() <= j < all@.len() ==> (#[trigger] all@[j])@ == more@[j - first.len()]@,
        decreases more.len() - i,
    {
        all.push(copy(more[i].as_str()));
        i = i + 1;
        assert(all@.take(first.len() as int) =~= first);
    }
    assert(all@.take(first.len() as int) =~= first);
    all
}

impl ClusterMaterial {
    /// The material covers every node: a signer for each public key, and at
    /// least as many of both as there are nodes.
    pub open spec fn covers(&self, args: &GenerateArgs) -> bool {
        &&& self.public_keys@.len() >= args.validators
        &&& self.signers@.len() >= args.validators
        &&& self.secondary_public_keys@.len() >= roles_of(args).len()
        &&& self.secondary_signers@.len() >= roles_of(args).len()
    }

    /// Whether `i` is the first share of `public_key`.
    pub open spec fn is_share(&self, public_key: Seq<u8>, i: int) -> bool {
        &&& 0 <= i < self.shares@.len()
        &&& self.shares@[i].public_key@ == public_key
        &&& forall|j: int| 0 <= j < i ==> (#[trigger] self.shares@[j]).public_key@ != public_key
    }

    /// Whether `public_key` has a share.
    pub open spec fn has_share(&self, public_key: Seq<u8>) -> bool {
        exists|i: int| self.is_share(public_key, i)
    }

    /// The hexadecimal text of a public key's share.
    pub fn share_hex(&self, public_key: &Vec<u8>) -> (text: Option<String>)
        ensures
            match text {
                Some(text) => exists|i: int| #[trigger]
                    self.is_share(public_key@, i) && text@ == hex_text(self.shares@[i].share@),
                None => !self.has_share(public_key@),
            },
    {
        let mut i: usize = 0;
        while i < self.shares.len()
            invariant
                i <= self.shares.len(),
                forall|j: int|
                    0 <= j < i ==> (#[trigger] self.shares@[j]).public_key@ != public_key@,
            decreases self.shares.len() - i,
        {
            if crate::keys::same_bytes(&self.shares[i].public_key, public_key) {
                assert(self.is_share(public_key@, i as int));
                return Some(hex(self.shares[i].share.as_slice()));
            }
            i = i + 1;
        }
        None
    }
}

/// Whether `config` holds what all nodes of a deployment share.
pub open spec fn has_common_settings(
    config: ValidatorConfig,
    args: &GenerateArgs,
    material: &ClusterMaterial,
) -> bool {
    &&& config.dkg_output@ == hex_text(material.dkg_output@)
    &&& config.startup == args.startup
    &&& config.genesis_leader@ == material.genesis_leader@
    &&& config.num_validators == args.validators
    &&& is_hex_of(config.primary_validators@, material.public_keys@)
    &&& is_hex_of(config.secondary_validators@, material.secondary_public_keys@)
    &&& config.log_level@ == args.log_level@
    &&& config.worker_threads == args.worker_threads
    &&& config.rayon_threads == args.rayon_threads
    &&& config.max_propose_bytes == args.max_propose_bytes
    &&& config.max_pool_bytes == args.max_pool_bytes
    &&& config.state_page_cache_bytes == args.state_page_cache_bytes
    &&& config.other_page_cache_bytes == args.other_page_cache_bytes
    &&& config.public_key_cache_size == args.public_key_cache_size
}

/// What tells one node from another.
#[derive(Debug)]
pub struct NodeIdentity {
    pub private_key: String,
    pub dkg_share: String,
    pub partition_prefix: String,
    pub listen_port: u16,
    pub http_port: u16,
    pub metrics_port: u16,
    pub traces: String,
    pub peers: Vec<String>,
}

/// The configuration of a node: what all share, and what is its own.
pub fn node_config(
    args: &GenerateArgs,
    material: &ClusterMaterial,
    node: NodeIdentity,
    indexer: Option<IndexerConfig>,
    relayer: Option<RelayerConfig>,
) -> (config: ValidatorConfig)
    ensures
        has_common_settings(config, args, material),
        config.private_key == node.private_key,
        config.dkg_share == node.dkg_share,
        config.partition_prefix == node.partition_prefix,
        config.listen_port == node.listen_port,
        config.http_port == node.http_port,
        config.metrics_port == node.metrics_port,
        config.traces == node.traces,
        config.peers == node.peers,
        config.indexer == indexer,
        config.relayer == relayer,
{
    ValidatorConfig {
        private_key: node.private_key,
        dkg_output: hex(material.dkg_output.as_slice()),
        dkg_share: node.dkg_share,
        startup: args.startup,
        listen_port: node.listen_port,
        genesis_leader: copy(material.genesis_leader.as_str()),
        partition_prefix: node.partition_prefix,
        num_validators: args.validators,
        primary_validators: hex_all(&material.public_keys),
        secondary_validators: hex_all(&material.secondary_public_keys),
        log_level: copy(args.log_level.as_str()),
        worker_threads: args.worker_threads,
        rayon_threads: args.rayon_threads,
        http_port: node.http_port,
        metrics_port: node.metrics_port,
        max_propose_bytes: args.max_propose_bytes,
        max_pool_bytes: args.max_pool_bytes,
        state_page_cache_bytes: args.state_page_cache_bytes,
        other_page_cache_bytes: args.other_page_cache_bytes,
        public_key_cache_size: args.public_key_cache_size,
        traces: node.traces,
        peers: node.peers,
        indexer,
        relayer,
    }
}

/// `dir` and the file `name` in it.
pub open spec fn path_in(dir: Seq<char>, name: Seq<char>) -> Seq<char> {
    if dir.len() == 0 || dir.last() == '/' {
        dir + name
    } else {
        dir + "/"@ + name
    }
}

/// `dir` and the file `name` in it.
pub fn join_path(dir: &str, name: &str) -> (path: String)
    ensures
        path@ == path_in(dir@, name@),
{
    let chars = crate::text::chars_of(dir);
    let count: usize = chars.len();
    let mut path = copy(dir);
    if count > 0 && chars[count - 1] != '/' {
        path.append("/");
    }
    path.append(name);
    path
}

/// The file of the `index`-th node of a kind.
pub open spec fn node_file(kind: Seq<char>, index: nat) -> Seq<char> {
    kind + decimal(index) + ".yaml"@
}

/// `kind` and `index` put together.
pub fn numbered(kind: &str, index: u64) -> (name: String)
    ensures
        name@ == kind@ + decimal(index as nat),
{
    let number = decimal_u64(index);
    let mut name = copy(kind);
    name.append(number.as_str());
    name
}

/// The file of the `index`-th node of a kind, in `dir`.
pub fn node_path(dir: &str, kind: &str, index: u64) -> (path: String)
    ensures
        path@ == path_in(dir@, node_file(kind@, index as nat)),
{
    let mut name = numbered(kind, index);
    name.append(".yaml");
    join_path(dir, name.as_str())
}

/// A path is its directory and its name with exactly one slash between them,
/// where there is a directory.
pub proof fn paths_join_with_one_slash(dir: Seq<char>, name: Seq<char>)
    ensures
        path_in(Seq::empty(), name) == name,
        path_in(dir, name).take(dir.len() as int) == dir,
        path_in(dir, name).skip(path_in(dir, name).len() - name.len()) == name,
        dir.len() > 0 && dir.last() == '/' ==> path_in(dir, name) == dir + name,
        dir.len() > 0 && dir.last() != '/' ==> path_in(dir, name).len() == dir.len() + 1
            + name.len() && path_in(dir, name)[dir.len() as int] == '/',
        dir.len() > 0 && dir.last() != '/' ==> path_in(dir.push('/'), name) == path_in(dir, name),
{
    reveal_strlit("/");
    let path = path_in(dir, name);
    assert(Seq::<char>::empty() + name =~= name);
    assert(path.take(dir.len() as int) =~= dir);
    assert(path.skip(path.len() - name.len()) =~= name);
    assert(dir.push('/') + name =~= dir + "/"@ + name);
}

/// A deployment has a secondary for the indexer and one for the relayer, each
/// exactly if it is asked for, the indexer first.
pub proof fn secondaries_are_those_asked_for(args: &GenerateArgs)
    ensures
        roles_of(args).contains(SecondaryRole::Indexer) <==> args.indexer,
        roles_of(args).contains(SecondaryRole::Relayer) <==> args.relayer,
        args.indexer ==> roles_of(args)[0] == SecondaryRole::Indexer,
        args.relayer ==> roles_of(args).last() == SecondaryRole::Relayer,
        roles_of(args).len() <= 2,
        args.indexer && args.relayer <==> roles_of(args).len() == 2,
{
    if args.indexer {
        assert(roles_of(args)[0] == SecondaryRole::Indexer);
    }
    if args.relayer {
        let last = roles_of(args).len() - 1;
        assert(roles_of(args)[last] == SecondaryRole::Relayer);
    }
}

} // verus!
