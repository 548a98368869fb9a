//! Extending a local deployment with a validator that joins after genesis.

use crate::deploy::config::{
    join_path, node_file, numbered, path_in, PEERS_CONFIG_FILE, ValidatorConfig,
};
use crate::deploy::local::{
    loopback, loopback_address, loopback_base, loopback_url, texts_of, PeerEntry,
    LOCAL_PORTS_FILE,
};
use crate::deploy::port_map::{exhausted, exhausted_text, least_free, prefer, reserve, PortMap};
use crate::deploy::port_plan::{LocalNodePorts, DEFAULT_EXPLORER_PORT};
use crate::keys::{public_key, public_key_of, random_private_key};
use crate::lex::{before, code_points, rank_chars, Rank};
use crate::text::{
    chars_of, copy, decimal, decimal_is_read_back, decimal_u64, ends_with, ends_with_seq, from_chars, hex, hex_text,
    parse_nat, parse_number, same_text, starts_with, starts_with_seq,
};
use crate::validator::leaders::RelayerLeaderConfig;
use crate::validator::run::StartupModeConfig;
use vstd::prelude::*;

verus! {

/// First port tried for a joining validator's peers.
pub const DEFAULT_JOINING_P2P_PORT: u16 = 9000;

/// First port tried for a joining validator's HTTP service.
pub const DEFAULT_JOINING_HTTP_PORT: u16 = 8080;

/// First port tried for a joining validator's metrics.
pub const DEFAULT_JOINING_METRICS_PORT: u16 = 9090;

/// File that holds an update until all of it is written.
pub const PENDING_VALIDATOR_FILE: &'static str = ".joining-validator.pending.yaml";

/// Ports and whom they belong to.
pub type Owners = Map<u16, Seq<char>>;

/// A socket address, as far as it matters here.
#[derive(Clone, Copy, Debug, PartialEq, Eq, Structural)]
pub struct ParsedAddress {
    pub is_loopback: bool,
    pub port: u16,
}

/// An address as it is written, and what it parses to.
#[derive(Debug)]
pub struct PeerAddress {
    pub raw: String,
    pub parsed: Result<ParsedAddress, String>,
}

/// A peer of an existing deployment.
#[derive(Debug)]
pub struct ListedPeer {
    pub name: String,
    pub p2p: PeerAddress,
    pub http: PeerAddress,
}

/// A node configuration of an existing deployment, as far as it takes ports.
#[derive(Debug)]
pub struct ExistingConfig {
    pub file_name: String,
    pub path: String,
    pub metrics_port: u16,
    pub chain_indexer_url: Option<String>,
}

/// A port of the manifest and its owner.
#[derive(Debug)]
pub struct ManifestPort {
    pub port: u16,
    pub owner: String,
}

/// Taking a peer's address.
pub open spec fn take_address(
    used: Owners,
    name: Seq<char>,
    kind: Seq<char>,
    address: PeerAddress,
) -> Result<Owners, Seq<char>> {
    match address.parsed {
        Err(e) => Err(
            "peer '"@ + name + "' has invalid "@ + kind + " address '"@ + address.raw@ + "': "@
                + e@,
        ),
        Ok(parsed) => if !parsed.is_loopback {
            Err(
                "peer '"@ + name + "' has non-loopback "@ + kind + " address '"@ + address.raw@
                    + "'; generate-validator is local-only"@,
            )
        } else {
            reserve(used, parsed.port, "peer "@ + name + " "@ + kind)
        },
    }
}

/// Whether one of the first `n` peers is called `name`.
pub open spec fn is_named(peers: Seq<ListedPeer>, n: int, name: Seq<char>) -> bool {
    exists|i: int| 0 <= i < n && (#[trigger] peers[i]).name@ == name
}

/// Taking the addresses of the first `n` peers, whose names must differ.
pub open spec fn peer_ports(peers: Seq<ListedPeer>, n: nat) -> Result<Owners, Seq<char>>
    decreases n,
{
    if n == 0 {
        Ok(Map::empty())
    } else {
        let peer = peers[n - 1];
        match peer_ports(peers, (n - 1) as nat) {
            Err(e) => Err(e),
            Ok(used) => if is_named(peers, n - 1, peer.name@) {
                Err("duplicate peer name '"@ + peer.name@ + "'"@)
            } else {
                match take_address(used, peer.name@, "p2p"@, peer.p2p) {
                    Err(e) => Err(e),
                    Ok(one) => take_address(one, peer.name@, "HTTP"@, peer.http),
                }
            },
        }
    }
}

proof fn lemma_peer_fault_stays(peers: Seq<ListedPeer>, at: nat, n: nat)
    requires
        at <= n,
        peer_ports(peers, at) is Err,
    ensures
        peer_ports(peers, n) == peer_ports(peers, at),
    decreases n,
{
    if at < n {
        lemma_peer_fault_stays(peers, at, (n - 1) as nat);
    }
}

fn claim_address(used: &mut PortMap, name: &str, kind: &str, address: &PeerAddress) -> (claimed:
    Result<(), String>)
    ensures
        match take_address(old(used)@, name@, kind@, *address) {
            Ok(after) => claimed is Ok && final(used)@ == after,
            Err(text) => claimed matches Err(e) && e@ == text,
        },
{
    match &address.parsed {
        Err(cause) => {
            let mut text = copy("peer '");
            text.append(name);
            text.append("' has invalid ");
            text.append(kind);
            text.append(" address '");
            text.append(address.raw.as_str());
            text.append("': ");
            text.append(cause.as_str());
            Err(text)
        },
        Ok(parsed) => {
            if !parsed.is_loopback {
                let mut text = copy("peer '");
                text.append(name);
                text.append("' has non-loopback ");
                text.append(kind);
                text.append(" address '");
                text.append(address.raw.as_str());
                text.append("'; generate-validator is local-only");
                return Err(text);
            }
            let mut owner = copy("peer ");
            owner.append(name);
            owner.append(" ");
            owner.append(kind);
            used.reserve_exact(parsed.port, owner)
        },
    }
}

fn name_is_taken(peers: &Vec<ListedPeer>, n: usize, name: &str) -> (taken: bool)
    requires
        n <= peers@.len(),
    ensures
        taken == is_named(peers@, n as int, name@),
{
    let mut i: usize = 0;
    while i < n
        invariant
            i <= n <= peers@.len(),
            forall|j: int| 0 <= j < i ==> (#[trigger] peers@[j]).name@ != name@,
        decreases n - i,
    {
        if same_text(peers[i].name.as_str(), name) {
            return true;
        }
        i = i + 1;
    }
    false
}

/// The ports that the peers of a deployment take. A deployment that is not on
/// this machine alone is refused, as is one that names a peer or takes a port
/// twice.
pub fn validate_local_peers_and_collect_ports(peers: &Vec<ListedPeer>) -> (used: Result<
    PortMap,
    String,
>)
    ensures
        match peer_ports(peers@, peers@.len()) {
            Ok(ports) => used matches Ok(u) && u@ == ports,
            Err(text) => used matches Err(e) && e@ == text,
        },
{
    let mut used = PortMap::new();
    let mut i: usize = 0;
    while i < peers.len()
        invariant
            i <= peers.len(),
            peer_ports(peers@, i as nat) == Ok::<Owners, Seq<char>>(used@),
        decreases peers.len() - i,
    {
        let peer = &peers[i];
        if name_is_taken(peers, i, peer.name.as_str()) {
            proof {
                lemma_peer_fault_stays(peers@, (i + 1) as nat, peers@.len());
            }
            let mut text = copy("duplicate peer name '");
            text.append(peer.name.as_str());
            text.append("'");
            return Err(text);
        }
        if let Err(e) = claim_address(&mut used, peer.name.as_str(), "p2p", &peer.p2p) {
            proof {
                lemma_peer_fault_stays(peers@, (i + 1) as nat, peers@.len());
            }
            return Err(e);
        }
        if let Err(e) = claim_address(&mut used, peer.name.as_str(), "HTTP", &peer.http) {
            proof {
                lemma_peer_fault_stays(peers@, (i + 1) as nat, peers@.len());
            }
            return Err(e);
        }
        i = i + 1;
    }
    Ok(used)
}

/// The port of a loopback URL that has nothing behind the port.
pub open spec fn url_port(url: Seq<char>) -> Option<u16> {
    let prefix = "http://127.0.0.1:"@;
    if starts_with_seq(url, prefix) {
        match parse_nat(url.skip(prefix.len() as int)) {
            Some(n) => if n <= u16::MAX {
                Some(n as u16)
            } else {
                None
            },
            None => None,
        }
    } else {
        None
    }
}

/// The port of a loopback URL that has nothing behind the port.
pub fn local_url_port(url: &str) -> (port: Option<u16>)
    ensures
        port == url_port(url@),
{
    let prefix = "http://127.0.0.1:";
    if !starts_with(url, prefix) {
        return None;
    }
    let chars = chars_of(url);
    let start: usize = chars_of(prefix).len();
    let rest = vstd::slice::slice_subrange(chars.as_slice(), start, chars.len());
    let text = from_chars(rest);
    assert(text@ =~= url@.skip(start as int));
    match parse_number(text.as_str(), u16::MAX as u64) {
        Some(n) => Some(n as u16),
        None => None,
    }
}

/// Whether a configuration belongs to a validator that joined after genesis.
pub open spec fn is_joining(config: ExistingConfig) -> bool {
    starts_with_seq(config.file_name@, "joining-validator-"@)
}

/// `used` with `port` given to `owner` unless it has one.
pub open spec fn entered(used: Owners, port: u16, owner: Seq<char>) -> Owners {
    if used.contains_key(port) {
        used
    } else {
        used.insert(port, owner)
    }
}

/// Taking the ports of the first `n` node configurations.
pub open spec fn config_ports(used: Owners, configs: Seq<ExistingConfig>, n: nat) -> Result<
    Owners,
    Seq<char>,
>
    decreases n,
{
    if n == 0 {
        Ok(used)
    } else {
        let config = configs[n - 1];
        match config_ports(used, configs, (n - 1) as nat) {
            Err(e) => Err(e),
            Ok(earlier) => match reserve(earlier, config.metrics_port, config.path@ + " metrics"@) {
                Err(e) => Err(e),
                Ok(taken) => match config.chain_indexer_url {
                    None => Ok(taken),
                    Some(url) => match url_port(url@) {
                        None => Ok(taken),
                        Some(port) => Ok(entered(taken, port, "legacy chain-indexer service"@)),
                    },
                },
            },
        }
    }
}

/// The metrics ports of the first `n` configurations that were there at genesis.
pub open spec fn genesis_metrics(configs: Seq<ExistingConfig>, n: nat) -> Seq<u16>
    decreases n,
{
    if n == 0 {
        Seq::empty()
    } else {
        let earlier = genesis_metrics(configs, (n - 1) as nat);
        if is_joining(configs[n - 1]) {
            earlier
        } else {
            earlier.push(configs[n - 1].metrics_port)
        }
    }
}

/// Whether one of the configurations uploads to an indexer.
pub open spec fn uploads(configs: Seq<ExistingConfig>) -> bool {
    exists|i: int| 0 <= i < configs.len() && (#[trigger] configs[i]).chain_indexer_url is Some
}

proof fn lemma_config_fault_stays(used: Owners, configs: Seq<ExistingConfig>, at: nat, n: nat)
    requires
        at <= n,
        config_ports(used, configs, at) is Err,
    ensures
        config_ports(used, configs, n) == config_ports(used, configs, at),
    decreases n,
{
    if at < n {
        lemma_config_fault_stays(used, configs, at, (n - 1) as nat);
    }
}

struct Scan {
    genesis: Vec<u16>,
    has_indexer: bool,
}

fn scan_configs(used: &mut PortMap, configs: &Vec<ExistingConfig>) -> (scan: Result<Scan, String>)
    ensures
        match config_ports(old(used)@, configs@, configs@.len()) {
            Err(text) => scan matches Err(e) && e@ == text,
            Ok(after) => (scan matches Ok(s) && s.genesis@ == genesis_metrics(
                configs@,
                configs@.len(),
            ) && s.has_indexer == uploads(configs@)) && final(used)@ == after,
        },
{
    let ghost initial = used@;
    let mut genesis: Vec<u16> = Vec::new();
    let mut has_indexer: bool = false;
    let mut i: usize = 0;
    while i < configs.len()
        invariant
            i <= configs.len(),
            initial == old(used)@,
            config_ports(initial, configs@, i as nat) == Ok::<Owners, Seq<char>>(used@),
            genesis@ == genesis_metrics(configs@, i as nat),
            has_indexer == exists|j: int|
                0 <= j < i && (#[trigger] configs@[j]).chain_indexer_url is Some,
        decreases configs.len() - i,
    {
        let config = &configs[i];
        let mut owner = copy(config.path.as_str());
        owner.append(" metrics");
        if let Err(e) = used.reserve_exact(config.metrics_port, owner) {
            proof {
                lemma_config_fault_stays(initial, configs@, (i + 1) as nat, configs@.len());
            }
            return Err(e);
        }
        if !starts_with(config.file_name.as_str(), "joining-validator-") {
            genesis.push(config.metrics_port);
        }
        if let Some(url) = &config.chain_indexer_url {
            has_indexer = true;
            assert(configs@[i as int].chain_indexer_url is Some);
            if let Some(port) = local_url_port(url.as_str()) {
                used.reserve_if_free(port, copy("legacy chain-indexer service"));
            }
        }
        i = i + 1;
    }
    Ok(Scan { genesis, has_indexer })
}

/// Entering the first `n` ports of a manifest where they are free.
pub open spec fn manifest_ports(used: Owners, manifest: Seq<ManifestPort>, n: nat) -> Owners
    decreases n,
{
    if n == 0 {
        used
    } else {
        entered(
            manifest_ports(used, manifest, (n - 1) as nat),
            manifest[n - 1].port,
            manifest[n - 1].owner@,
        )
    }
}

fn enter_manifest(used: &mut PortMap, manifest: &Vec<ManifestPort>)
    ensures
        final(used)@ == manifest_ports(old(used)@, manifest@, manifest@.len()),
{
    let ghost initial = used@;
    let mut i: usize = 0;
    while i < manifest.len()
        invariant
            i <= manifest.len(),
            initial == old(used)@,
            used@ == manifest_ports(initial, manifest@, i as nat),
        decreases manifest.len() - i,
    {
        used.reserve_if_free(manifest[i].port, copy(manifest[i].owner.as_str()));
        i = i + 1;
    }
}

/// The greatest of some numbers.
pub open spec fn greatest(numbers: Seq<u16>) -> Option<u16>
    decreases numbers.len(),
{
    if numbers.len() == 0 {
        None
    } else {
        match greatest(numbers.drop_last()) {
            None => Some(numbers.last()),
            Some(n) => Some(
                if n <= numbers.last() {
                    numbers.last()
                } else {
                    n
                },
            ),
        }
    }
}

fn greatest_of(numbers: &Vec<u16>) -> (most: Option<u16>)
    ensures
        most == greatest(numbers@),
{
    let mut most: Option<u16> = None;
    let mut i: usize = 0;
    assert(numbers@.take(0) =~= Seq::<u16>::empty());
    while i < numbers.len()
        invariant
            i <= numbers.len(),
            most == greatest(numbers@.take(i as int)),
        decreases numbers.len() - i,
    {
        assert(numbers@.take(i + 1).drop_last() =~= numbers@.take(i as int));
        most = match most {
            None => Some(numbers[i]),
            Some(n) => if n <= numbers[i] {
                Some(numbers[i])
            } else {
                Some(n)
            },
        };
        i = i + 1;
    }
    assert(numbers@.take(numbers@.len() as int) =~= numbers@);
    most
}

/// The first free port at or above `candidate` given to `owner`.
pub open spec fn claim_from(used: Owners, candidate: u16, owner: Seq<char>) -> Result<
    (Owners, u16),
    Seq<char>,
> {
    match least_free(used, candidate) {
        Some(port) => Ok((used.insert(port, owner), port)),
        None => Err("local metrics range is exhausted"@),
    }
}

/// The two metrics ports that may lie right above the genesis nodes'.
pub open spec fn possible_metrics(used: Owners, last: u16) -> Result<Owners, Seq<char>> {
    if last == u16::MAX {
        Err("local metrics range is exhausted"@)
    } else {
        match claim_from(used, (last + 1) as u16, "possible spammer metrics"@) {
            Err(e) => Err(e),
            Ok((one, port)) => match claim_from(
                one,
                if port == u16::MAX {
                    port
                } else {
                    (port + 1) as u16
                },
                "possible chain-indexer metrics"@,
            ) {
                Err(e) => Err(e),
                Ok((two, _)) => Ok(two),
            },
        }
    }
}

/// A service that may hold a port, and the first port it may hold.
pub open spec fn legacy_service(used: Result<Owners, Seq<char>>, preferred: u16, owner: Seq<char>) -> Result<
    Owners,
    Seq<char>,
> {
    match used {
        Err(e) => Err(e),
        Ok(ports) => match prefer(ports, preferred, owner) {
            Err(e) => Err(e),
            Ok((after, _)) => Ok(after),
        },
    }
}

/// The ports that a deployment without a manifest may hold.
pub open spec fn legacy_ports(used: Owners, metrics: Seq<u16>, has_indexer: bool) -> Result<
    Owners,
    Seq<char>,
> {
    let claimed = match greatest(metrics) {
        None => Ok(used),
        Some(last) => possible_metrics(used, last),
    };
    if has_indexer {
        legacy_service(
            legacy_service(
                legacy_service(
                    legacy_service(claimed, 8090, "legacy chain-indexer service"@),
                    8091,
                    "legacy metadata-indexer service"@,
                ),
                8092,
                "legacy qmdb-indexer service"@,
            ),
            DEFAULT_EXPLORER_PORT,
            "legacy explorer service"@,
        )
    } else {
        claimed
    }
}

fn claim(used: &mut PortMap, candidate: u16, owner: &str) -> (port: Result<u16, String>)
    requires
        candidate != 0,
    ensures
        match claim_from(old(used)@, candidate, owner@) {
            Ok((after, given)) => port == Ok::<u16, String>(given) && final(used)@ == after,
            Err(text) => port matches Err(e) && e@ == text,
        },
{
    match used.first_free(candidate) {
        Some(port) => {
            used.reserve_if_free(port, copy(owner));
            Ok(port)
        },
        None => Err(copy("local metrics range is exhausted")),
    }
}

/// Reserves the ports that a deployment without a manifest may hold: the two
/// metrics ports right above the genesis nodes', and those of the indexer
/// stack.
pub fn reserve_legacy_service_ports(
    used: &mut PortMap,
    genesis_node_metrics: &Vec<u16>,
    has_indexer: bool,
) -> (reserved: Result<(), String>)
    ensures
        match legacy_ports(old(used)@, genesis_node_metrics@, has_indexer) {
            Ok(after) => reserved is Ok && final(used)@ == after,
            Err(text) => reserved matches Err(e) && e@ == text,
        },
{
    if let Some(last) = greatest_of(genesis_node_metrics) {
        if last == u16::MAX {
            return Err(copy("local metrics range is exhausted"));
        }
        let port: u16 = match claim(used, last + 1, "possible spammer metrics") {
            Ok(port) => port,
            Err(e) => return Err(e),
        };
        let next: u16 = if port == u16::MAX {
            port
        } else {
            port + 1
        };
        if let Err(e) = claim(used, next, "possible chain-indexer metrics") {
            return Err(e);
        }
    }
    if has_indexer {
        if let Err(e) = used.reserve_preferred(8090, "legacy chain-indexer service") {
            return Err(e);
        }
        if let Err(e) = used.reserve_preferred(8091, "legacy metadata-indexer service") {
            return Err(e);
        }
        if let Err(e) = used.reserve_preferred(8092, "legacy qmdb-indexer service") {
            return Err(e);
        }
        if let Err(e) = used.reserve_preferred(DEFAULT_EXPLORER_PORT, "legacy explorer service") {
            return Err(e);
        }
    }
    Ok(())
}

/// The ports that a deployment takes: those of its peers, of its nodes, and
/// those in its manifest or, where it has none, those it may hold.
pub open spec fn used_ports(
    peers: Seq<ListedPeer>,
    configs: Seq<ExistingConfig>,
    manifest: Option<Vec<ManifestPort>>,
) -> Result<Owners, Seq<char>> {
    match peer_ports(peers, peers.len()) {
        Err(e) => Err(e),
        Ok(peered) => match config_ports(peered, configs, configs.len()) {
            Err(e) => Err(e),
            Ok(configured) => match manifest {
                Some(listed) => Ok(manifest_ports(configured, listed@, listed@.len())),
                None => legacy_ports(
                    configured,
                    genesis_metrics(configs, configs.len()),
                    uploads(configs),
                ),
            },
        },
    }
}

/// The ports that a deployment takes.
pub fn collect_used_ports(
    peers: &Vec<ListedPeer>,
    configs: &Vec<ExistingConfig>,
    manifest: &Option<Vec<ManifestPort>>,
) -> (used: Result<PortMap, String>)
    ensures
        match used_ports(peers@, configs@, *manifest) {
            Ok(ports) => used matches Ok(u) && u@ == ports,
            Err(text) => used matches Err(e) && e@ == text,
        },
{
    let mut used = match validate_local_peers_and_collect_ports(peers) {
        Ok(used) => used,
        Err(e) => return Err(e),
    };
    let scan = match scan_configs(&mut used, configs) {
        Ok(scan) => scan,
        Err(e) => return Err(e),
    };
    match manifest {
        Some(listed) => enter_manifest(&mut used, listed),
        None => {
            if let Err(e) = reserve_legacy_service_ports(
                &mut used,
                &scan.genesis,
                scan.has_indexer,
            ) {
                return Err(e);
            }
        },
    }
    Ok(used)
}

/// What a joining validator's port is called.
pub open spec fn joining_owner(kind: Seq<char>) -> Seq<char> {
    "joining validator "@ + kind
}

/// Whether `port` cannot be given: it has an owner, or the machine said that it
/// is bound.
pub open spec fn is_unusable<F: Fn(u16) -> bool>(used: Owners, available: F, port: u16) -> bool {
    used.contains_key(port) || call_ensures(available, (port,), false)
}

/// Why no port is given to a joining validator: the port it asks for is bound,
/// or zero, or has an owner; or none is left.
pub open spec fn is_refused<F: Fn(u16) -> bool>(
    used: Owners,
    requested: Option<u16>,
    preferred: u16,
    kind: Seq<char>,
    available: F,
    text: Seq<char>,
) -> bool {
    match requested {
        Some(asked) => {
            ||| call_ensures(available, (asked,), false) && text == "local port "@ + decimal(
                asked as nat,
            ) + " is already bound"@
            ||| call_ensures(available, (asked,), true) && reserve(
                used,
                asked,
                joining_owner(kind),
            ) == Err::<Owners, Seq<char>>(text)
        },
        None => text == exhausted_text(joining_owner(kind), preferred) && forall|q: u16|
            preferred <= q ==> #[trigger] is_unusable(used, available, q),
    }
}

/// Whether `port` is given to a joining validator: it is the one that is asked
/// for, which can be reserved and which the machine has to give; or, where none
/// is asked for, the first one at or above `preferred` that has no owner and
/// that the machine has to give.
pub open spec fn is_allocated<F: Fn(u16) -> bool>(
    used: Owners,
    after: Owners,
    requested: Option<u16>,
    preferred: u16,
    kind: Seq<char>,
    available: F,
    port: u16,
) -> bool {
    &&& call_ensures(available, (port,), true)
    &&& match requested {
        Some(asked) => port == asked && reserve(used, asked, joining_owner(kind)) == Ok::<
            Owners,
            Seq<char>,
        >(after),
        None => {
            &&& preferred <= port
            &&& !used.contains_key(port)
            &&& after == used.insert(port, joining_owner(kind))
            &&& forall|q: u16|
                preferred <= q < port ==> #[trigger] is_unusable(used, available, q)
        },
    }
}

/// A port that is not asked for lies above an unbroken range of taken ones that
/// starts at its default.
pub proof fn joining_port_lies_above<F: Fn(u16) -> bool>(
    used: Owners,
    after: Owners,
    preferred: u16,
    kind: Seq<char>,
    available: F,
    port: u16,
    last: u16,
)
    requires
        is_allocated(used, after, None, preferred, kind, available, port),
        preferred <= last,
        forall|q: u16| preferred <= q <= last ==> #[trigger] used.contains_key(q),
    ensures
        port > last,
{
}

/// A port for a joining validator: the one that is asked for, which must be
/// nonzero, without an owner and not bound; or else the first one at or above
/// `preferred` that has no owner and is not bound. `available` says whether the
/// machine has a port to give.
pub fn allocate_joining_port<F: Fn(u16) -> bool>(
    used: &mut PortMap,
    requested: Option<u16>,
    preferred: u16,
    kind: &str,
    available: &F,
) -> (port: Result<u16, String>)
    requires
        forall|p: u16| call_requires(*available, (p,)),
    ensures
        match port {
            Ok(p) => is_allocated(
                old(used)@,
                final(used)@,
                requested,
                preferred,
                kind@,
                *available,
                p,
            ),
            Err(e) => final(used)@ == old(used)@ && is_refused(
                old(used)@,
                requested,
                preferred,
                kind@,
                *available,
                e@,
            ),
        },
{
    let mut owner = copy("joining validator ");
    owner.append(kind);
    if let Some(asked) = requested {
        if !available(asked) {
            let number = decimal_u64(asked as u64);
            let mut text = copy("local port ");
            text.append(number.as_str());
            text.append(" is already bound");
            return Err(text);
        }
        return match used.reserve_exact(asked, owner) {
            Ok(()) => Ok(asked),
            Err(e) => Err(e),
        };
    }
    let ghost initial = used@;
    let mut port: u16 = preferred;
    loop
        invariant
            preferred <= port,
            initial == old(used)@,
            used@ == initial,
            owner@ == joining_owner(kind@),
            requested is None,
            forall|p: u16| call_requires(*available, (p,)),
            forall|q: u16|
                preferred <= q < port ==> #[trigger] is_unusable(initial, *available, q),
        decreases u16::MAX - port,
    {
        let free = available(port);
        if free && !used.contains(port) {
            used.reserve_if_free(port, owner);
            return Ok(port);
        }
        assert(is_unusable(initial, *available, port));
        if port == u16::MAX {
            return Err(exhausted(owner.as_str(), preferred));
        }
        port = port + 1;
    }
}

/// The ports that a joining validator asks for.
#[derive(Clone, Copy, Debug, PartialEq, Eq, Structural)]
pub struct RequestedPorts {
    pub p2p: Option<u16>,
    pub http: Option<u16>,
    pub metrics: Option<u16>,
}

/// Whether a port was given without taking one that had an owner.
pub open spec fn is_given(before: Owners, after: Owners, kind: Seq<char>, port: u16) -> bool {
    !before.contains_key(port) && port != 0 && after == before.insert(port, joining_owner(kind))
}

/// Whether the three ports of a joining validator were given one after another.
pub open spec fn are_given(before: Owners, after: Owners, ports: LocalNodePorts) -> bool {
    let one = before.insert(ports.p2p, joining_owner("p2p"@));
    let two = one.insert(ports.http, joining_owner("HTTP"@));
    &&& is_given(before, one, "p2p"@, ports.p2p)
    &&& is_given(one, two, "HTTP"@, ports.http)
    &&& is_given(two, after, "metrics"@, ports.metrics)
}

/// Whether the three ports of a joining validator are the ones that it asks for
/// or the first usable ones from their defaults on, given one after another.
pub open spec fn are_allocated<F: Fn(u16) -> bool>(
    before: Owners,
    after: Owners,
    requested: RequestedPorts,
    available: F,
    ports: LocalNodePorts,
) -> bool {
    let one = before.insert(ports.p2p, joining_owner("p2p"@));
    let two = one.insert(ports.http, joining_owner("HTTP"@));
    &&& is_allocated(
        before,
        one,
        requested.p2p,
        DEFAULT_JOINING_P2P_PORT,
        "p2p"@,
        available,
        ports.p2p,
    )
    &&& is_allocated(
        one,
        two,
        requested.http,
        DEFAULT_JOINING_HTTP_PORT,
        "HTTP"@,
        available,
        ports.http,
    )
    &&& is_allocated(
        two,
        after,
        requested.metrics,
        DEFAULT_JOINING_METRICS_PORT,
        "metrics"@,
        available,
        ports.metrics,
    )
}

/// Whether the joining validator got its peer port, but no HTTP port.
pub open spec fn stops_at_http<F: Fn(u16) -> bool>(
    used: Owners,
    requested: RequestedPorts,
    available: F,
    text: Seq<char>,
) -> bool {
    exists|p2p: u16, one: Owners| #[trigger]
        is_allocated(
            used,
            one,
            requested.p2p,
            DEFAULT_JOINING_P2P_PORT,
            "p2p"@,
            available,
            p2p,
        ) && is_refused(
            one,
            requested.http,
            DEFAULT_JOINING_HTTP_PORT,
            "HTTP"@,
            available,
            text,
        )
}

/// Whether the joining validator got all but a metrics port.
pub open spec fn stops_at_metrics<F: Fn(u16) -> bool>(
    used: Owners,
    requested: RequestedPorts,
    available: F,
    text: Seq<char>,
) -> bool {
    exists|p2p: u16, one: Owners, http: u16, two: Owners| #[trigger]
        is_allocated(
            used,
            one,
            requested.p2p,
            DEFAULT_JOINING_P2P_PORT,
            "p2p"@,
            available,
            p2p,
        ) && #[trigger] is_allocated(
            one,
            two,
            requested.http,
            DEFAULT_JOINING_HTTP_PORT,
            "HTTP"@,
            available,
            http,
        ) && is_refused(
            two,
            requested.metrics,
            DEFAULT_JOINING_METRICS_PORT,
            "metrics"@,
            available,
            text,
        )
}

/// Why no ports are given to a joining validator.
pub open spec fn has_no_ports<F: Fn(u16) -> bool>(
    used: Owners,
    requested: RequestedPorts,
    available: F,
    text: Seq<char>,
) -> bool {
    ||| is_refused(used, requested.p2p, DEFAULT_JOINING_P2P_PORT, "p2p"@, available, text)
    ||| stops_at_http(used, requested, available, text)
    ||| stops_at_metrics(used, requested, available, text)
}

/// The ports of a joining validator, none of which the deployment takes.
pub fn allocate_joining_ports<F: Fn(u16) -> bool>(
    used: &mut PortMap,
    requested: RequestedPorts,
    available: &F,
) -> (ports: Result<LocalNodePorts, String>)
    requires
        forall|p: u16| call_requires(*available, (p,)),
    ensures
        match ports {
            Ok(ports) => {
                &&& are_given(old(used)@, final(used)@, ports)
                &&& are_allocated(old(used)@, final(used)@, requested, *available, ports)
            },
            Err(e) => has_no_ports(old(used)@, requested, *available, e@),
        },
{
    let ghost initial = used@;
    let p2p: u16 = match allocate_joining_port(
        used,
        requested.p2p,
        DEFAULT_JOINING_P2P_PORT,
        "p2p",
        available,
    ) {
        Ok(port) => port,
        Err(e) => return Err(e),
    };
    let ghost one = used@;
    assert(is_given(initial, one, "p2p"@, p2p));
    let http: u16 = match allocate_joining_port(
        used,
        requested.http,
        DEFAULT_JOINING_HTTP_PORT,
        "HTTP",
        available,
    ) {
        Ok(port) => port,
        Err(e) => return Err(e),
    };
    assert(is_given(one, used@, "HTTP"@, http));
    let metrics: u16 = match allocate_joining_port(
        used,
        requested.metrics,
        DEFAULT_JOINING_METRICS_PORT,
        "metrics",
        available,
    ) {
        Ok(port) => port,
        Err(e) => return Err(e),
    };
    Ok(LocalNodePorts { p2p, http, metrics })
}

/// A joining validator's ports are unused before, differ from each other, and
/// leave every other owner in place.
pub proof fn joining_ports_are_fresh(before: Owners, after: Owners, ports: LocalNodePorts)
    requires
        are_given(before, after, ports),
    ensures
        !before.contains_key(ports.p2p),
        !before.contains_key(ports.http),
        !before.contains_key(ports.metrics),
        ports.p2p != ports.http,
        ports.p2p != ports.metrics,
        ports.http != ports.metrics,
        forall|port: u16|
            before.contains_key(port) ==> #[trigger] after.contains_key(port) && after[port]
                == before[port],
{
}

/// Whether a file of a deployment configures a node.
pub open spec fn is_config_name(name: Seq<char>) -> bool {
    ends_with_seq(name, ".yaml"@) && (starts_with_seq(name, "validator-"@) || starts_with_seq(
        name,
        "secondary-"@,
    ) || starts_with_seq(name, "joining-validator-"@))
}

/// Whether names stand in dictionary order.
pub open spec fn in_order(names: Seq<String>) -> bool {
    forall|i: int, j: int|
        0 <= i < j < names.len() ==> !before(
            code_points((#[trigger] names[j])@),
            code_points((#[trigger] names[i])@),
        )
}

fn place(sorted: &mut Vec<String>, name: String)
    requires
        in_order(old(sorted)@),
    ensures
        in_order(final(sorted)@),
        texts_of(final(sorted)@).to_multiset() == texts_of(old(sorted)@).to_multiset().insert(
            name@,
        ),
{
    let chars = chars_of(name.as_str());
    let ghost list = sorted@;
    let mut at: usize = sorted.len();
    let mut searching: bool = at > 0;
    while searching
        invariant
            at <= sorted.len(),
            sorted@ == list,
            in_order(list),
            chars@ == name@,
            searching ==> at > 0,
            !searching ==> at == 0 || !before(code_points(name@), code_points(list[at - 1]@)),
            forall|j: int|
                at <= j < list.len() ==> before(code_points(name@), code_points(
                    (#[trigger] list[j])@,
                )),
        decreases at + if searching {
                1int
            } else {
                0
            },
    {
        let other = chars_of(sorted[at - 1].as_str());
        match rank_chars(chars.as_slice(), other.as_slice()) {
            Rank::Before => {
                at = at - 1;
                searching = at > 0;
            },
            Rank::Same => {
                proof {
                    let x = code_points(name@);
                    if before(x, x) {
                        crate::lex::before_is_asymmetric(x, x);
                    }
                }
                searching = false;
            },
            Rank::After => {
                proof {
                    crate::lex::before_is_asymmetric(
                        code_points(list[at - 1]@),
                        code_points(name@),
                    );
                }
                searching = false;
            },
        }
    }
    sorted.insert(at, name);
    proof {
        let all = sorted@;
        assert(all == list.insert(at as int, name));
        assert forall|i: int, j: int| 0 <= i < j < all.len() implies !before(
            code_points((#[trigger] all[j])@),
            code_points((#[trigger] all[i])@),
        ) by {
            let x = if i < at {
                i
            } else {
                i - 1
            };
            let y = if j < at {
                j
            } else {
                j - 1
            };
            if i != at && j != at {
                assert(all[i] == list[x] && all[j] == list[y]);
            } else if i == at {
                assert(all[j] == list[y]);
                crate::lex::before_is_asymmetric(code_points(name@), code_points(list[y]@));
            } else {
                assert(all[i] == list[x]);
                let last = list[at - 1]@;
                if x < at - 1 {
                    assert(!before(code_points(last), code_points(list[x]@)));
                } else {
                    assert(last == list[x]@);
                }
                if before(code_points(name@), code_points(list[x]@)) {
                    crate::lex::before_is_total(code_points(last), code_points(name@));
                    if before(code_points(last), code_points(name@)) {
                        crate::lex::before_is_transitive(
                            code_points(last),
                            code_points(name@),
                            code_points(list[x]@),
                        );
                        if x == at - 1 {
                            crate::lex::before_is_asymmetric(
                                code_points(last),
                                code_points(last),
                            );
                        }
                    } else {
                        crate::lex::code_points_are_injective(last, name@);
                    }
                }
            }
        }
        assert(texts_of(all) =~= texts_of(list).insert(at as int, name@));
        vstd::seq_lib::to_multiset_insert(texts_of(list), at as int, name@);
    }
}

/// The node configurations among the files of a deployment, in dictionary
/// order.
pub fn validator_config_names(names: &Vec<String>) -> (sorted: Vec<String>)
    ensures
        in_order(sorted@),
        texts_of(sorted@).to_multiset() == texts_of(names@).filter(
            |name: Seq<char>| is_config_name(name),
        ).to_multiset(),
{
    let ghost chosen = |name: Seq<char>| is_config_name(name);
    let ghost all = texts_of(names@);
    let mut sorted: Vec<String> = Vec::new();
    let mut i: usize = 0;
    proof {
        reveal(Seq::filter);
        assert(all.take(0).filter(chosen) =~= Seq::<Seq<char>>::empty());
        assert(texts_of(sorted@) =~= Seq::<Seq<char>>::empty());
    }
    while i < names.len()
        invariant
            i <= names.len(),
            all == texts_of(names@),
            chosen == (|name: Seq<char>| is_config_name(name)),
            in_order(sorted@),
            texts_of(sorted@).to_multiset() == all.take(i as int).filter(chosen).to_multiset(),
        decreases names.len() - i,
    {
        let name = names[i].as_str();
        proof {
            reveal(Seq::filter);
            let longer = all.take(i + 1);
            assert(longer.drop_last() =~= all.take(i as int));
            assert(longer.last() == name@);
            all.take(i as int).filter(chosen).to_multiset_ensures();
        }
        if ends_with(name, ".yaml") && (starts_with(name, "validator-") || starts_with(
            name,
            "secondary-",
        ) || starts_with(name, "joining-validator-")) {
            place(&mut sorted, copy(name));
        }
        i = i + 1;
    }
    assert(all.take(all.len() as int) =~= all);
    sorted
}

/// The file of the `index`-th joining validator.
pub open spec fn joining_file(index: nat) -> Seq<char> {
    node_file("joining-validator-"@, index)
}

/// Whether a file of that name is there.
pub open spec fn is_present(names: Seq<String>, name: Seq<char>) -> bool {
    exists|i: int| 0 <= i < names.len() && (#[trigger] names[i])@ == name
}

fn contains_name(names: &Vec<String>, name: &str) -> (present: bool)
    ensures
        present == is_present(names@, name@),
{
    let mut i: usize = 0;
    while i < names.len()
        invariant
            i <= names.len(),
            forall|j: int| 0 <= j < i ==> (#[trigger] names@[j])@ != name@,
        decreases names.len() - i,
    {
        if same_text(names[i].as_str(), name) {
            return true;
        }
        i = i + 1;
    }
    false
}

/// The first joining validator whose file is not there yet.
pub fn first_joining_index(names: &Vec<String>) -> (index: Option<u32>)
    ensures
        match index {
            Some(index) => !is_present(names@, joining_file(index as nat)) && forall|i: nat|
                i < index ==> is_present(names@, #[trigger] joining_file(i)),
            None => forall|i: nat|
                i <= u32::MAX ==> is_present(names@, #[trigger] joining_file(i)),
        },
{
    let mut index: u32 = 0;
    loop
        invariant
            forall|i: nat| i < index ==> is_present(names@, #[trigger] joining_file(i)),
        decreases u32::MAX - index,
    {
        let mut name = numbered("joining-validator-", index as u64);
        name.append(".yaml");
        if !contains_name(names, name.as_str()) {
            return Some(index);
        }
        assert(is_present(names@, joining_file(index as nat)));
        if index == u32::MAX {
            return None;
        }
        index = index + 1;
    }
}

/// A validator that joins: its configuration, how it is reached, and how
/// relayers forward to it.
#[derive(Debug)]
pub struct JoiningValidator {
    pub config_file: String,
    pub config: ValidatorConfig,
    pub peer: PeerEntry,
    pub leader: RelayerLeaderConfig,
}

/// Whether a configuration is the template's but for what is a joining
/// validator's own. Everything settled at genesis stays as it is.
pub open spec fn joins_as(
    config: ValidatorConfig,
    template: ValidatorConfig,
    private_key: Seq<u8>,
    index: u32,
    ports: LocalNodePorts,
) -> bool {
    &&& config.private_key@ == hex_text(private_key)
    &&& config.dkg_output == template.dkg_output
    &&& config.dkg_share@ == Seq::<char>::empty()
    &&& config.startup == StartupModeConfig::StateSync
    &&& config.listen_port == ports.p2p
    &&& config.genesis_leader == template.genesis_leader
    &&& config.partition_prefix@ == "joining-validator-"@ + decimal(index as nat)
    &&& config.num_validators == template.num_validators
    &&& config.primary_validators == template.primary_validators
    &&& config.secondary_validators == template.secondary_validators
    &&& config.log_level == template.log_level
    &&& config.worker_threads == template.worker_threads
    &&& config.rayon_threads == template.rayon_threads
    &&& config.http_port == ports.http
    &&& config.metrics_port == ports.metrics
    &&& config.max_propose_bytes == template.max_propose_bytes
    &&& config.max_pool_bytes == template.max_pool_bytes
    &&& config.state_page_cache_bytes == template.state_page_cache_bytes
    &&& config.other_page_cache_bytes == template.other_page_cache_bytes
    &&& config.public_key_cache_size == template.public_key_cache_size
    &&& config.traces == template.traces
    &&& config.peers == template.peers
    &&& config.indexer is None
    &&& config.relayer is None
}

/// Whether `joining` is the `index`-th joining validator, with that private key.
pub open spec fn is_joining_validator(
    joining: JoiningValidator,
    template: ValidatorConfig,
    private_key: Seq<u8>,
    index: u32,
    ports: LocalNodePorts,
) -> bool {
    &&& joining.config_file@ == joining_file(index as nat)
    &&& joins_as(joining.config, template, private_key, index, ports)
    &&& joining.peer.name@ == hex_text(public_key(private_key))
    &&& joining.peer.p2p@ == loopback(ports.p2p)
    &&& joining.peer.http@ == loopback(ports.http)
    &&& joining.leader.public_key@ == hex_text(public_key(private_key))
    &&& joining.leader.url@ == loopback_url(ports.http)
}

/// The `index`-th joining validator, with a given private key.
pub fn join_with_key(
    template: ValidatorConfig,
    private_key: &Vec<u8>,
    index: u32,
    ports: LocalNodePorts,
) -> (joining: JoiningValidator)
    requires
        private_key@.len() == crate::keys::PRIVATE_KEY_SIZE,
    ensures
        is_joining_validator(joining, template, private_key@, index, ports),
{
    let public = public_key_of(private_key.as_slice());
    let mut config_file = numbered("joining-validator-", index as u64);
    config_file.append(".yaml");
    let mut config = template;
    config.private_key = hex(private_key.as_slice());
    config.dkg_share = String::new();
    config.startup = StartupModeConfig::StateSync;
    config.listen_port = ports.p2p;
    config.partition_prefix = numbered("joining-validator-", index as u64);
    config.http_port = ports.http;
    config.metrics_port = ports.metrics;
    config.indexer = None;
    config.relayer = None;
    JoiningValidator {
        config_file,
        config,
        peer: PeerEntry {
            name: hex(public.as_slice()),
            p2p: loopback_address(ports.p2p),
            http: loopback_address(ports.http),
        },
        leader: RelayerLeaderConfig {
            public_key: hex(public.as_slice()),
            url: loopback_base(ports.http),
        },
    }
}

/// What is read of a deployment before a validator is added to it.
#[derive(Debug)]
pub struct ExistingBundle {
    /// The validators' and then the secondaries' entries in the peers file.
    pub peers: Vec<ListedPeer>,
    pub configs: Vec<ExistingConfig>,
    pub manifest: Option<Vec<ManifestPort>>,
    /// The names of all files.
    pub names: Vec<String>,
}

/// A validator that is added, and the ports that are taken with it.
#[derive(Debug)]
pub struct Extension {
    pub joining: JoiningValidator,
    pub index: u32,
    pub ports: LocalNodePorts,
    pub used: PortMap,
}

/// Whether `extension` adds a validator, with that private key, under the first
/// free name and on ports that nobody takes: those that it asks for, or else the
/// first usable ones.
pub open spec fn extends<F: Fn(u16) -> bool>(
    extension: Extension,
    bundle: &ExistingBundle,
    template: ValidatorConfig,
    requested: RequestedPorts,
    available: F,
    private_key: Seq<u8>,
) -> bool {
    &&& used_ports(bundle.peers@, bundle.configs@, bundle.manifest) is Ok
    &&& are_given(
        used_ports(bundle.peers@, bundle.configs@, bundle.manifest)->Ok_0,
        extension.used@,
        extension.ports,
    )
    &&& are_allocated(
        used_ports(bundle.peers@, bundle.configs@, bundle.manifest)->Ok_0,
        extension.used@,
        requested,
        available,
        extension.ports,
    )
    &&& !is_present(bundle.names@, joining_file(extension.index as nat))
    &&& forall|i: nat|
        i < extension.index ==> is_present(bundle.names@, #[trigger] joining_file(i))
    &&& is_joining_validator(
        extension.joining,
        template,
        private_key,
        extension.index,
        extension.ports,
    )
}

/// Adds a validator that was not there at genesis to a deployment, or says why
/// that cannot be: the deployment's ports clash, none can be given, or no name
/// is left. Nothing is written.
pub fn generate_validator<F: Fn(u16) -> bool>(
    bundle: &ExistingBundle,
    template: ValidatorConfig,
    requested: RequestedPorts,
    available: &F,
) -> (extension: Result<Extension, String>)
    requires
        forall|p: u16| call_requires(*available, (p,)),
    ensures
        match extension {
            Ok(added) => exists|private_key: Seq<u8>|
                private_key.len() == crate::keys::PRIVATE_KEY_SIZE && #[trigger] extends(
                    added,
                    bundle,
                    template,
                    requested,
                    *available,
                    private_key,
                ),
            Err(e) => match used_ports(bundle.peers@, bundle.configs@, bundle.manifest) {
                Err(text) => e@ == text,
                Ok(used) => {
                    ||| has_no_ports(used, requested, *available, e@)
                    ||| e@ == "all joining validator config names are occupied"@ && forall|i: nat|
                        i <= u32::MAX ==> is_present(bundle.names@, #[trigger] joining_file(i))
                },
            },
        },
{
    let mut used = match collect_used_ports(&bundle.peers, &bundle.configs, &bundle.manifest) {
        Ok(used) => used,
        Err(e) => return Err(e),
    };
    let ports = match allocate_joining_ports(&mut used, requested, available) {
        Ok(ports) => ports,
        Err(e) => return Err(e),
    };
    let index: u32 = match first_joining_index(&bundle.names) {
        Some(index) => index,
        None => return Err(copy("all joining validator config names are occupied")),
    };
    let private_key = random_private_key();
    let joining = join_with_key(template, &private_key, index, ports);
    let extension = Extension { joining, index, ports, used };
    assert(extends(extension, bundle, template, requested, *available, private_key@));
    Ok(extension)
}

/// Whether `after` is `before` with the joining validator's entry last.
pub open spec fn lists_last(
    before: Seq<PeerEntry>,
    after: Seq<PeerEntry>,
    joining: JoiningValidator,
) -> bool {
    &&& after.len() == before.len() + 1
    &&& after.drop_last() == before
    &&& after.last().name@ == joining.peer.name@
    &&& after.last().p2p@ == joining.peer.p2p@
    &&& after.last().http@ == joining.peer.http@
}

/// Whether `after` is `before` with the joining validator as its last leader.
pub open spec fn leads_last(
    before: Seq<RelayerLeaderConfig>,
    after: Seq<RelayerLeaderConfig>,
    joining: JoiningValidator,
) -> bool {
    &&& after.len() == before.len() + 1
    &&& after.drop_last() == before
    &&& after.last().public_key@ == joining.leader.public_key@
    &&& after.last().url@ == joining.leader.url@
}

/// The secondaries of a deployment and the leaders of each of its relayers with
/// the joining validator added at the end of every list.
pub fn add_joining(
    secondaries: Vec<PeerEntry>,
    relayers: Vec<Vec<RelayerLeaderConfig>>,
    joining: &JoiningValidator,
) -> (added: (Vec<PeerEntry>, Vec<Vec<RelayerLeaderConfig>>))
    ensures
        lists_last(secondaries@, added.0@, *joining),
        added.1@.len() == relayers@.len(),
        forall|i: int|
            0 <= i < relayers@.len() ==> leads_last(
                relayers@[i]@,
                (#[trigger] added.1@[i])@,
                *joining,
            ),
{
    let ghost listed = secondaries@;
    let ghost leading = relayers@;
    let mut secondaries = secondaries;
    secondaries.push(
        PeerEntry {
            name: copy(joining.peer.name.as_str()),
            p2p: copy(joining.peer.p2p.as_str()),
            http: copy(joining.peer.http.as_str()),
        },
    );
    assert(secondaries@.drop_last() =~= listed);
    let mut extended: Vec<Vec<RelayerLeaderConfig>> = Vec::new();
    for leaders in it: relayers.into_iter()
        invariant
            it.seq() == leading,
            extended@.len() == it.index(),
            forall|i: int|
                0 <= i < extended@.len() ==> leads_last(
                    leading[i]@,
                    (#[trigger] extended@[i])@,
                    *joining,
                ),
    {
        let ghost before = leaders@;
        let mut leaders = leaders;
        leaders.push(
            RelayerLeaderConfig {
                public_key: copy(joining.leader.public_key.as_str()),
                url: copy(joining.leader.url.as_str()),
            },
        );
        assert(leaders@.drop_last() =~= before);
        extended.push(leaders);
    }
    (secondaries, extended)
}

/// A file of a deployment with what it is to hold.
#[derive(Debug, PartialEq, Eq)]
pub struct PendingBundleFile {
    pub name: String,
    pub contents: String,
}

/// An update of a deployment that is written as a whole or, after a crash,
/// again.
#[derive(Debug, PartialEq, Eq)]
pub struct PendingValidatorGeneration {
    pub public_key: String,
    pub p2p: String,
    pub config_file: String,
    pub files: Vec<PendingBundleFile>,
}

/// Whether `pending` is the update that adds `joining`.
pub open spec fn is_update(
    pending: PendingValidatorGeneration,
    joining: JoiningValidator,
    config: String,
    peers: String,
    relayers: Seq<PendingBundleFile>,
    manifest: String,
) -> bool {
    &&& pending.public_key@ == joining.peer.name@
    &&& pending.p2p@ == joining.peer.p2p@
    &&& pending.config_file@ == joining.config_file@
    &&& pending.files@.len() == relayers.len() + 3
    &&& pending.files@[0].name@ == joining.config_file@
    &&& pending.files@[0].contents == config
    &&& pending.files@[1].name@ == PEERS_CONFIG_FILE@
    &&& pending.files@[1].contents == peers
    &&& pending.files@.subrange(2, 2 + relayers.len() as int) == relayers
    &&& pending.files@.last().name@ == LOCAL_PORTS_FILE@
    &&& pending.files@.last().contents == manifest
}

/// The update that adds a validator: its configuration, the peers, the relayers
/// and the port manifest, in that order.
pub fn pending_update(
    joining: &JoiningValidator,
    config: String,
    peers: String,
    relayers: Vec<PendingBundleFile>,
    manifest: String,
) -> (pending: PendingValidatorGeneration)
    ensures
        pending.public_key@ == joining.peer.name@,
        pending.p2p@ == joining.peer.p2p@,
        pending.config_file@ == joining.config_file@,
        pending.files@.len() == relayers@.len() + 3,
        pending.files@[0].name@ == joining.config_file@,
        pending.files@[0].contents == config,
        pending.files@[1].name@ == PEERS_CONFIG_FILE@,
        pending.files@[1].contents == peers,
        pending.files@.subrange(2, 2 + relayers@.len() as int) == relayers@,
        pending.files@.last().name@ == LOCAL_PORTS_FILE@,
        pending.files@.last().contents == manifest,
        is_update(pending, *joining, config, peers, relayers@, manifest),
{
    let ghost listed = relayers@;
    let mut relayers = relayers;
    let mut files: Vec<PendingBundleFile> = Vec::new();
    files.push(PendingBundleFile { name: copy(joining.config_file.as_str()), contents: config });
    files.push(PendingBundleFile { name: copy(PEERS_CONFIG_FILE), contents: peers });
    files.append(&mut relayers);
    files.push(PendingBundleFile { name: copy(LOCAL_PORTS_FILE), contents: manifest });
    assert(files@.subrange(2, 2 + listed.len() as int) =~= listed);
    PendingValidatorGeneration {
        public_key: copy(joining.peer.name.as_str()),
        p2p: copy(joining.peer.p2p.as_str()),
        config_file: copy(joining.config_file.as_str()),
        files,
    }
}

/// Whether a name is that of a file in the same directory.
pub open spec fn is_local_name(name: Seq<char>) -> bool {
    &&& name.len() > 0
    &&& forall|i: int| 0 <= i < name.len() ==> #[trigger] name[i] != '/'
    &&& name != "."@
    &&& name != ".."@
}

/// Whether a name is that of a file in the same directory.
pub fn names_local_file(name: &str) -> (local: bool)
    ensures
        local == is_local_name(name@),
{
    let chars = chars_of(name);
    if chars.len() == 0 || same_text(name, ".") || same_text(name, "..") {
        return false;
    }
    let mut i: usize = 0;
    while i < chars.len()
        invariant
            i <= chars.len(),
            chars@ == name@,
            forall|j: int| 0 <= j < i ==> #[trigger] chars@[j] != '/',
        decreases chars.len() - i,
    {
        if chars[i] == '/' {
            return false;
        }
        i = i + 1;
    }
    true
}

/// How many files of an update may be written: those before the first one whose
/// name points out of the directory.
pub open spec fn writable(files: Seq<PendingBundleFile>) -> nat
    decreases files.len(),
{
    if files.len() == 0 || !is_local_name(files[0].name@) {
        0
    } else {
        1 + writable(files.skip(1))
    }
}

/// How many files of an update may be written: those before the first one whose
/// name points out of the directory. An update that has such a file is not
/// applied further.
pub fn writable_files(files: &Vec<PendingBundleFile>) -> (count: usize)
    ensures
        count == writable(files@),
        count <= files@.len(),
        forall|i: int| 0 <= i < count ==> is_local_name((#[trigger] files@[i]).name@),
        count < files@.len() ==> !is_local_name(files@[count as int].name@),
{
    let mut i: usize = 0;
    assert(files@.skip(0) =~= files@);
    while i < files.len()
        invariant
            i <= files.len(),
            i + writable(files@.skip(i as int)) == writable(files@),
            forall|j: int| 0 <= j < i ==> is_local_name((#[trigger] files@[j]).name@),
        decreases files.len() - i,
    {
        assert(files@.skip(i as int)[0] == files@[i as int]);
        assert(files@.skip(i as int).skip(1) =~= files@.skip(i + 1));
        if !names_local_file(files[i].name.as_str()) {
            return i;
        }
        i = i + 1;
    }
    i
}

/// One step of applying an update.
#[derive(Clone, Copy, Debug, PartialEq, Eq, Structural)]
pub enum UpdateStep {
    /// Writes and syncs the file of this index.
    Write(usize),
    /// Syncs the directory.
    SyncDirectory,
    /// Removes the file that holds the update.
    ClearPending,
    /// Fails: a file's name points out of the directory.
    Refuse,
}

/// The steps that apply an update: every file is written and synced before the
/// update itself is removed.
pub open spec fn update_steps(files: Seq<PendingBundleFile>) -> Seq<UpdateStep> {
    Seq::new(writable(files), |i: int| UpdateStep::Write(i as usize)) + (if writable(files)
        == files.len() {
        seq![UpdateStep::SyncDirectory, UpdateStep::ClearPending, UpdateStep::SyncDirectory]
    } else {
        seq![UpdateStep::Refuse]
    })
}

/// The steps that apply an update.
pub fn apply_pending_validator(pending: &PendingValidatorGeneration) -> (steps: Vec<UpdateStep>)
    ensures
        steps@ == update_steps(pending.files@),
{
    let count: usize = writable_files(&pending.files);
    let mut steps: Vec<UpdateStep> = Vec::new();
    let mut i: usize = 0;
    while i < count
        invariant
            i <= count,
            steps@ =~= Seq::new(i as nat, |k: int| UpdateStep::Write(k as usize)),
        decreases count - i,
    {
        steps.push(UpdateStep::Write(i));
        i = i + 1;
    }
    if count == pending.files.len() {
        steps.push(UpdateStep::SyncDirectory);
        steps.push(UpdateStep::ClearPending);
        steps.push(UpdateStep::SyncDirectory);
    } else {
        steps.push(UpdateStep::Refuse);
    }
    assert(steps@ =~= update_steps(pending.files@));
    steps
}

/// Whether a crash left an update behind, and the steps that apply it again.
pub fn recover_pending_validator(pending: Option<&PendingValidatorGeneration>) -> (recovery: (
    bool,
    Vec<UpdateStep>,
))
    ensures
        recovery.0 == (pending is Some),
        recovery.1@ == (match pending {
            Some(pending) => update_steps(pending.files@),
            None => Seq::empty(),
        }),
{
    match pending {
        None => (false, Vec::new()),
        Some(pending) => (true, apply_pending_validator(pending)),
    }
}

/// The files of a directory after the first `n` files of an update are written.
pub open spec fn written(
    dir: Map<Seq<char>, Seq<char>>,
    files: Seq<PendingBundleFile>,
    n: nat,
) -> Map<Seq<char>, Seq<char>>
    decreases n,
{
    if n == 0 {
        dir
    } else {
        written(dir, files, (n - 1) as nat).insert(files[n - 1].name@, files[n - 1].contents@)
    }
}

proof fn lemma_written(
    a: Map<Seq<char>, Seq<char>>,
    b: Map<Seq<char>, Seq<char>>,
    files: Seq<PendingBundleFile>,
    n: nat,
)
    requires
        n <= files.len(),
    ensures
        forall|name: Seq<char>|
            (exists|i: int| 0 <= i < n && (#[trigger] files[i]).name@ == name)
                ==> #[trigger] written(a, files, n).contains_key(name) && written(
                b,
                files,
                n,
            ).contains_key(name) && written(a, files, n)[name] == written(b, files, n)[name],
        forall|name: Seq<char>|
            !(exists|i: int| 0 <= i < n && (#[trigger] files[i]).name@ == name) ==> (
            #[trigger] written(a, files, n).contains_key(name) == a.contains_key(name) && (
            a.contains_key(name) ==> written(a, files, n)[name] == a[name])),
    decreases n,
{
    if n > 0 {
        lemma_written(a, b, files, (n - 1) as nat);
        let last = files[n - 1].name@;
        assert forall|name: Seq<char>|
            (exists|i: int| 0 <= i < n && (#[trigger] files[i]).name@ == name) implies #[trigger]
            written(a, files, n).contains_key(name) && written(b, files, n).contains_key(name)
            && written(a, files, n)[name] == written(b, files, n)[name] by {
            if name != last {
                let i = choose|i: int| 0 <= i < n && (#[trigger] files[i]).name@ == name;
                assert(0 <= i < n - 1 && files[i].name@ == name);
                assert(written(a, files, (n - 1) as nat).contains_key(name));
            }
        }
        assert forall|name: Seq<char>|
            !(exists|i: int| 0 <= i < n && (#[trigger] files[i]).name@ == name) implies (
        #[trigger] written(a, files, n).contains_key(name) == a.contains_key(name) && (
        a.contains_key(name) ==> written(a, files, n)[name] == a[name])) by {
            assert(files[n - 1].name@ != name);
            assert(!(exists|i: int| 0 <= i < n - 1 && (#[trigger] files[i]).name@ == name));
            assert(written(a, files, (n - 1) as nat).contains_key(name) == a.contains_key(name));
        }
    }
}

/// An update that was written in part, up to any file, leads to the same files
/// once it is written again: a crash loses nothing and adds nothing.
pub proof fn recovery_completes_the_update(
    dir: Map<Seq<char>, Seq<char>>,
    files: Seq<PendingBundleFile>,
    part: nat,
)
    requires
        part <= files.len(),
    ensures
        written(written(dir, files, part), files, files.len()) == written(
            dir,
            files,
            files.len(),
        ),
{
    let half = written(dir, files, part);
    let n = files.len();
    lemma_written(half, dir, files, n);
    lemma_written(dir, half, files, n);
    lemma_written(dir, dir, files, part);
    assert forall|name: Seq<char>| #[trigger]
        written(half, files, n).contains_key(name) == written(dir, files, n).contains_key(name) && (
        written(half, files, n).contains_key(name) ==> written(half, files, n)[name]
            == written(dir, files, n)[name]) by {
        if exists|i: int| 0 <= i < n && (#[trigger] files[i]).name@ == name {
            assert(written(half, files, n).contains_key(name));
        } else {
            assert(!(exists|i: int| 0 <= i < part && (#[trigger] files[i]).name@ == name));
            assert(half.contains_key(name) == dir.contains_key(name));
            assert(written(dir, files, n).contains_key(name) == dir.contains_key(name));
        }
    }
    assert(written(half, files, n) =~= written(dir, files, n));
}

/// The files of a directory after the first `n` of `steps` apply an update of
/// `files`.
pub open spec fn stepped(
    dir: Map<Seq<char>, Seq<char>>,
    files: Seq<PendingBundleFile>,
    steps: Seq<UpdateStep>,
    n: nat,
) -> Map<Seq<char>, Seq<char>>
    decreases n,
{
    if n == 0 {
        dir
    } else {
        let before = stepped(dir, files, steps, (n - 1) as nat);
        match steps[n - 1] {
            UpdateStep::Write(i) => before.insert(files[i as int].name@, files[i as int].contents@),
            UpdateStep::ClearPending => before.remove(PENDING_VALIDATOR_FILE@),
            UpdateStep::SyncDirectory | UpdateStep::Refuse => before,
        }
    }
}

/// Whether a directory holds an update.
pub open spec fn has_pending(dir: Map<Seq<char>, Seq<char>>) -> bool {
    dir.contains_key(PENDING_VALIDATOR_FILE@)
}

/// The files of a directory after a recovery, where `files` are those of the
/// update that it holds, if it holds one.
pub open spec fn recovered(
    dir: Map<Seq<char>, Seq<char>>,
    files: Seq<PendingBundleFile>,
) -> Map<Seq<char>, Seq<char>> {
    if has_pending(dir) {
        stepped(dir, files, update_steps(files), update_steps(files).len())
    } else {
        dir
    }
}

proof fn lemma_writable(files: Seq<PendingBundleFile>)
    ensures
        writable(files) <= files.len(),
        (forall|i: int| 0 <= i < files.len() ==> is_local_name((#[trigger] files[i]).name@))
            ==> writable(files) == files.len(),
    decreases files.len(),
{
    if files.len() > 0 {
        lemma_writable(files.skip(1));
        assert(forall|i: int| 0 <= i < files.len() - 1 ==> files.skip(1)[i] == files[i + 1]);
    }
}

proof fn lemma_stepped(dir: Map<Seq<char>, Seq<char>>, files: Seq<PendingBundleFile>, n: nat)
    requires
        files.len() <= usize::MAX,
        n <= writable(files),
    ensures
        stepped(dir, files, update_steps(files), n) == written(dir, files, n),
    decreases n,
{
    if n > 0 {
        lemma_writable(files);
        lemma_stepped(dir, files, (n - 1) as nat);
        assert(update_steps(files)[n - 1] == UpdateStep::Write((n - 1) as usize));
    }
}

proof fn lemma_cleared(dir: Map<Seq<char>, Seq<char>>, files: Seq<PendingBundleFile>)
    requires
        files.len() <= usize::MAX,
        writable(files) == files.len(),
    ensures
        update_steps(files).len() == files.len() + 3,
        stepped(dir, files, update_steps(files), files.len() + 1) == written(
            dir,
            files,
            files.len(),
        ),
        stepped(dir, files, update_steps(files), files.len() + 2) == written(
            dir,
            files,
            files.len(),
        ).remove(PENDING_VALIDATOR_FILE@),
        stepped(dir, files, update_steps(files), files.len() + 3) == written(
            dir,
            files,
            files.len(),
        ).remove(PENDING_VALIDATOR_FILE@),
{
    let n = files.len();
    let steps = update_steps(files);
    lemma_stepped(dir, files, n);
    assert(steps[n as int] == UpdateStep::SyncDirectory);
    assert(steps[n as int + 1] == UpdateStep::ClearPending);
    assert(steps[n as int + 2] == UpdateStep::SyncDirectory);
    assert(stepped(dir, files, steps, n + 1) == stepped(dir, files, steps, n));
    assert(stepped(dir, files, steps, n + 2) == stepped(dir, files, steps, n + 1).remove(
        PENDING_VALIDATOR_FILE@,
    ));
    assert(stepped(dir, files, steps, n + 3) == stepped(dir, files, steps, n + 2));
}

proof fn lemma_last_contents(
    dir: Map<Seq<char>, Seq<char>>,
    files: Seq<PendingBundleFile>,
    n: nat,
    i: int,
)
    requires
        0 <= i < n <= files.len(),
        forall|j: int| i < j < n ==> (#[trigger] files[j]).name@ != files[i].name@,
    ensures
        written(dir, files, n).contains_key(files[i].name@),
        written(dir, files, n)[files[i].name@] == files[i].contents@,
    decreases n,
{
    if i < n - 1 {
        lemma_last_contents(dir, files, (n - 1) as nat, i);
        assert(files[n - 1].name@ != files[i].name@);
    }
}

/// A recovery leaves the whole update: every file of it holds the contents that
/// the update lists last for that name, no update is left behind, and every
/// other file is as it was. A second recovery finds nothing to do.
pub proof fn recovery_applies_the_whole_update(
    dir: Map<Seq<char>, Seq<char>>,
    files: Seq<PendingBundleFile>,
    later: Seq<PendingBundleFile>,
)
    requires
        has_pending(dir),
        files.len() <= usize::MAX,
        forall|i: int| 0 <= i < files.len() ==> is_local_name((#[trigger] files[i]).name@),
    ensures
        forall|i: int|
            0 <= i < files.len() && (#[trigger] files[i]).name@ != PENDING_VALIDATOR_FILE@ && (
            forall|j: int| i < j < files.len() ==> (#[trigger] files[j]).name@ != files[i].name@)
                ==> recovered(dir, files).contains_key(files[i].name@) && recovered(
                dir,
                files,
            )[files[i].name@] == files[i].contents@,
        !has_pending(recovered(dir, files)),
        forall|name: Seq<char>|
            name != PENDING_VALIDATOR_FILE@ && !(exists|i: int|
                0 <= i < files.len() && (#[trigger] files[i]).name@ == name) ==> (
            #[trigger] recovered(dir, files).contains_key(name) == dir.contains_key(name) && (
            dir.contains_key(name) ==> recovered(dir, files)[name] == dir[name])),
        recovered(recovered(dir, files), later) == recovered(dir, files),
{
    let n = files.len();
    lemma_writable(files);
    lemma_cleared(dir, files);
    lemma_written(dir, dir, files, n);
    assert forall|i: int|
        0 <= i < n && (#[trigger] files[i]).name@ != PENDING_VALIDATOR_FILE@ && (forall|j: int|
            i < j < n ==> (#[trigger] files[j]).name@ != files[i].name@) implies recovered(
        dir,
        files,
    ).contains_key(files[i].name@) && recovered(dir, files)[files[i].name@]
        == files[i].contents@ by {
        lemma_last_contents(dir, files, n, i);
    }
    assert forall|name: Seq<char>|
        name != PENDING_VALIDATOR_FILE@ && !(exists|i: int|
            0 <= i < n && (#[trigger] files[i]).name@ == name) implies (#[trigger] recovered(
        dir,
        files,
    ).contains_key(name) == dir.contains_key(name) && (dir.contains_key(name) ==> recovered(
        dir,
        files,
    )[name] == dir[name])) by {
        assert(written(dir, files, n).contains_key(name) == dir.contains_key(name));
    }
}

/// A crash after any step of an update loses nothing: recovering from there
/// leads to the same files as applying the update without a crash. The file
/// that holds the update is none of those that it lists.
pub proof fn recovery_resumes_after_a_crash(
    dir: Map<Seq<char>, Seq<char>>,
    files: Seq<PendingBundleFile>,
    done: nat,
)
    requires
        has_pending(dir),
        files.len() <= usize::MAX,
        forall|i: int|
            0 <= i < files.len() ==> is_local_name((#[trigger] files[i]).name@)
                && files[i].name@ != PENDING_VALIDATOR_FILE@,
        done <= update_steps(files).len(),
    ensures
        recovered(stepped(dir, files, update_steps(files), done), files) == recovered(dir, files),
{
    let n = files.len();
    let crashed = stepped(dir, files, update_steps(files), done);
    lemma_writable(files);
    lemma_cleared(dir, files);
    if done <= n + 1 {
        let part = if done <= n {
            done
        } else {
            n
        };
        lemma_stepped(dir, files, part);
        assert(crashed == written(dir, files, part));
        lemma_written(dir, dir, files, part);
        assert(!(exists|i: int|
            0 <= i < part && (#[trigger] files[i]).name@ == PENDING_VALIDATOR_FILE@));
        assert(crashed.contains_key(PENDING_VALIDATOR_FILE@));
        lemma_cleared(crashed, files);
        recovery_completes_the_update(dir, files, part);
    }
}

/// An update that lists a name out of the directory stays where it is, with the
/// files before that name written.
pub proof fn refused_update_stays(
    dir: Map<Seq<char>, Seq<char>>,
    files: Seq<PendingBundleFile>,
)
    requires
        has_pending(dir),
        files.len() <= usize::MAX,
        writable(files) < files.len(),
    ensures
        recovered(dir, files) == written(dir, files, writable(files)),
        has_pending(recovered(dir, files)),
{
    let n = writable(files);
    lemma_stepped(dir, files, n);
    lemma_written(dir, dir, files, n);
    assert(update_steps(files)[n as int] == UpdateStep::Refuse);
    assert(update_steps(files).len() == n + 1);
    if exists|i: int| 0 <= i < n && (#[trigger] files[i]).name@ == PENDING_VALIDATOR_FILE@ {
        assert(written(dir, files, n).contains_key(PENDING_VALIDATOR_FILE@));
    } else {
        assert(written(dir, files, n).contains_key(PENDING_VALIDATOR_FILE@));
    }
}

/// Whether `lines` are what is said of a validator that was added.
pub open spec fn tells_of(
    lines: Seq<Seq<char>>,
    dir: Seq<char>,
    pending: PendingValidatorGeneration,
) -> bool {
    lines == seq![
        "public key: "@ + pending.public_key@,
        "p2p address: "@ + pending.p2p@,
        "config path: "@ + path_in(dir, pending.config_file@),
        "run: cargo run --release --bin constantinople -- --config "@ + path_in(
            dir,
            pending.config_file@,
        ) + " --peers "@ + path_in(dir, PEERS_CONFIG_FILE@),
    ]
}

/// What is said of a validator that was added.
pub fn joined_lines(dir: &str, pending: &PendingValidatorGeneration) -> (lines: Vec<String>)
    ensures
        texts_of(lines@) == seq![
            "public key: "@ + pending.public_key@,
            "p2p address: "@ + pending.p2p@,
            "config path: "@ + path_in(dir@, pending.config_file@),
            "run: cargo run --release --bin constantinople -- --config "@ + path_in(
                dir@,
                pending.config_file@,
            ) + " --peers "@ + path_in(dir@, PEERS_CONFIG_FILE@),
        ],
        tells_of(texts_of(lines@), dir@, *pending),
{
    let config = join_path(dir, pending.config_file.as_str());
    let peers = join_path(dir, PEERS_CONFIG_FILE);
    let mut run = copy("run: cargo run --release --bin constantinople -- --config ");
    run.append(config.as_str());
    run.append(" --peers ");
    run.append(peers.as_str());
    let mut lines: Vec<String> = Vec::new();
    lines.push(crate::text::join2("public key: ", pending.public_key.as_str()));
    lines.push(crate::text::join2("p2p address: ", pending.p2p.as_str()));
    lines.push(crate::text::join2("config path: ", config.as_str()));
    lines.push(run);
    assert(texts_of(lines@) =~= seq![
        "public key: "@ + pending.public_key@,
        "p2p address: "@ + pending.p2p@,
        "config path: "@ + path_in(dir@, pending.config_file@),
        "run: cargo run --release --bin constantinople -- --config "@ + path_in(
            dir@,
            pending.config_file@,
        ) + " --peers "@ + path_in(dir@, PEERS_CONFIG_FILE@),
    ]);
    lines
}

/// A joining validator listens where its peer entry says it is reached, and
/// relayers forward to it under its own name, at the address where it serves
/// HTTP. It has its own key, no share and no role, and starts from a synced
/// state.
pub proof fn joining_validator_is_reached_where_it_listens(
    joining: JoiningValidator,
    template: ValidatorConfig,
    private_key: Seq<u8>,
    index: u32,
    ports: LocalNodePorts,
)
    requires
        is_joining_validator(joining, template, private_key, index, ports),
    ensures
        joining.config.listen_port == ports.p2p,
        joining.config.http_port == ports.http,
        joining.config.metrics_port == ports.metrics,
        joining.peer.p2p@ == "127.0.0.1:"@ + decimal(joining.config.listen_port as nat),
        joining.peer.http@ == "127.0.0.1:"@ + decimal(joining.config.http_port as nat),
        joining.leader.url@ == "http://"@ + joining.peer.http@,
        joining.leader.public_key@ == joining.peer.name@,
        joining.peer.name@ == hex_text(public_key(private_key)),
        joining.config.private_key@ == hex_text(private_key),
        joining.config.dkg_share@.len() == 0,
        joining.config.startup == StartupModeConfig::StateSync,
        joining.config.indexer is None,
        joining.config.relayer is None,
        joining.config_file@ == "joining-validator-"@ + decimal(index as nat) + ".yaml"@,
        joining.config.partition_prefix@ == "joining-validator-"@ + decimal(index as nat),
{
    reveal_strlit("http://");
    reveal_strlit("127.0.0.1:");
    reveal_strlit("http://127.0.0.1:");
    assert("http://127.0.0.1:"@ =~= "http://"@ + "127.0.0.1:"@);
    assert(loopback_url(ports.http) =~= "http://"@ + loopback(ports.http));
}

/// A joining validator agrees with the deployment it joins on all that was
/// settled at genesis, and runs with the template's settings, each under its own
/// name.
pub proof fn joining_keeps_what_was_settled(
    joining: JoiningValidator,
    template: ValidatorConfig,
    private_key: Seq<u8>,
    index: u32,
    ports: LocalNodePorts,
)
    requires
        is_joining_validator(joining, template, private_key, index, ports),
    ensures
        joining.config.dkg_output@ == template.dkg_output@,
        joining.config.genesis_leader@ == template.genesis_leader@,
        joining.config.num_validators == template.num_validators,
        joining.config.primary_validators@ == template.primary_validators@,
        joining.config.secondary_validators@ == template.secondary_validators@,
        joining.config.peers@ == template.peers@,
        joining.config.log_level@ == template.log_level@,
        joining.config.traces@ == template.traces@,
        joining.config.worker_threads == template.worker_threads,
        joining.config.rayon_threads == template.rayon_threads,
        joining.config.max_propose_bytes == template.max_propose_bytes,
        joining.config.max_pool_bytes == template.max_pool_bytes,
        joining.config.state_page_cache_bytes == template.state_page_cache_bytes,
        joining.config.other_page_cache_bytes == template.other_page_cache_bytes,
        joining.config.public_key_cache_size == template.public_key_cache_size,
{
}

/// A joining validator gets each port that it asks for. A port that it does not
/// ask for starts at 9000 for peers, at 8080 for HTTP and at 9090 for metrics.
/// The machine has all of them to give.
pub proof fn requested_ports_are_honored<F: Fn(u16) -> bool>(
    before: Owners,
    after: Owners,
    requested: RequestedPorts,
    available: F,
    ports: LocalNodePorts,
)
    requires
        are_allocated(before, after, requested, available, ports),
    ensures
        requested.p2p matches Some(port) ==> ports.p2p == port,
        requested.http matches Some(port) ==> ports.http == port,
        requested.metrics matches Some(port) ==> ports.metrics == port,
        requested.p2p is None ==> ports.p2p >= 9000,
        requested.http is None ==> ports.http >= 8080,
        requested.metrics is None ==> ports.metrics >= 9090,
        call_ensures(available, (ports.p2p,), true),
        call_ensures(available, (ports.http,), true),
        call_ensures(available, (ports.metrics,), true),
        after.contains_key(ports.p2p) && after[ports.p2p] == "joining validator "@ + "p2p"@,
        after.contains_key(ports.http) && after[ports.http] == "joining validator "@ + "HTTP"@,
        after.contains_key(ports.metrics) && after[ports.metrics] == "joining validator "@
            + "metrics"@,
{
}

proof fn lemma_peers_are_taken(peers: Seq<ListedPeer>, n: nat)
    requires
        n <= peers.len(),
        peer_ports(peers, n) is Ok,
    ensures
        forall|i: int|
            0 <= i < n ==> {
                let peer = #[trigger] peers[i];
                let used = peer_ports(peers, n)->Ok_0;
                &&& peer.p2p.parsed matches Ok(address) && address.is_loopback && used.contains_key(
                    address.port,
                ) && used[address.port] == "peer "@ + peer.name@ + " p2p"@
                &&& peer.http.parsed matches Ok(address) && address.is_loopback
                    && used.contains_key(address.port) && used[address.port] == "peer "@
                    + peer.name@ + " HTTP"@
            },
        forall|i: int, j: int|
            0 <= i < j < n ==> (#[trigger] peers[i]).name@ != (#[trigger] peers[j]).name@,
    decreases n,
{
    if n > 0 {
        lemma_peers_are_taken(peers, (n - 1) as nat);
        let peer = peers[n - 1];
        reveal_strlit(" ");
        reveal_strlit("p2p");
        reveal_strlit("HTTP");
        reveal_strlit(" p2p");
        reveal_strlit(" HTTP");
        assert("peer "@ + peer.name@ + " "@ + "p2p"@ =~= "peer "@ + peer.name@ + " p2p"@);
        assert("peer "@ + peer.name@ + " "@ + "HTTP"@ =~= "peer "@ + peer.name@ + " HTTP"@);
        let used = peer_ports(peers, (n - 1) as nat)->Ok_0;
        let one = take_address(used, peer.name@, "p2p"@, peer.p2p)->Ok_0;
        let p2p = peer.p2p.parsed->Ok_0.port;
        let http = peer.http.parsed->Ok_0.port;
        assert(one == used.insert(p2p, "peer "@ + peer.name@ + " p2p"@));
        assert(peer_ports(peers, n)->Ok_0 == one.insert(http, "peer "@ + peer.name@ + " HTTP"@));
        assert forall|i: int| 0 <= i < n implies {
            let peer = #[trigger] peers[i];
            let used = peer_ports(peers, n)->Ok_0;
            &&& peer.p2p.parsed matches Ok(address) && address.is_loopback && used.contains_key(
                address.port,
            ) && used[address.port] == "peer "@ + peer.name@ + " p2p"@
            &&& peer.http.parsed matches Ok(address) && address.is_loopback && used.contains_key(
                address.port,
            ) && used[address.port] == "peer "@ + peer.name@ + " HTTP"@
        } by {
            if i < n - 1 {
                assert(peers[i].p2p.parsed is Ok);
            }
        }
    }
}

proof fn lemma_configs_are_taken(used: Owners, configs: Seq<ExistingConfig>, n: nat)
    requires
        n <= configs.len(),
        config_ports(used, configs, n) is Ok,
    ensures
        ({
            let after = config_ports(used, configs, n)->Ok_0;
            &&& forall|port: u16| #[trigger]
                used.contains_key(port) ==> after.contains_key(port) && after[port] == used[port]
            &&& forall|i: int|
                0 <= i < n ==> after.contains_key((#[trigger] configs[i]).metrics_port)
                    && !used.contains_key(configs[i].metrics_port)
            &&& forall|i: int|
                0 <= i < n ==> ((#[trigger] configs[i]).chain_indexer_url matches Some(url) ==> (
                url_port(url@) matches Some(port) ==> after.contains_key(port)))
        }),
    decreases n,
{
    if n > 0 {
        lemma_configs_are_taken(used, configs, (n - 1) as nat);
    }
}

proof fn lemma_manifest_is_taken(used: Owners, manifest: Seq<ManifestPort>, n: nat)
    requires
        n <= manifest.len(),
    ensures
        ({
            let after = manifest_ports(used, manifest, n);
            &&& forall|port: u16| #[trigger]
                used.contains_key(port) ==> after.contains_key(port) && after[port] == used[port]
            &&& forall|i: int|
                0 <= i < n ==> after.contains_key((#[trigger] manifest[i]).port)
        }),
    decreases n,
{
    if n > 0 {
        lemma_manifest_is_taken(used, manifest, (n - 1) as nat);
    }
}

proof fn lemma_legacy_is_taken(used: Owners, metrics: Seq<u16>, has_indexer: bool)
    requires
        legacy_ports(used, metrics, has_indexer) is Ok,
    ensures
        ({
            let after = legacy_ports(used, metrics, has_indexer)->Ok_0;
            &&& forall|port: u16| #[trigger] used.contains_key(port) ==> after.contains_key(port)
            &&& greatest(metrics) matches Some(last) ==> {
                &&& last < u16::MAX
                &&& after.contains_key((last + 1) as u16)
                &&& last + 2 <= u16::MAX ==> after.contains_key((last + 2) as u16)
            }
            &&& has_indexer ==> {
                &&& after.contains_key(8090)
                &&& after.contains_key(8091)
                &&& after.contains_key(8092)
                &&& after.contains_key(5173)
            }
        }),
{
    let claimed = match greatest(metrics) {
        None => Ok::<Owners, Seq<char>>(used),
        Some(last) => possible_metrics(used, last),
    };
    assert(claimed is Ok);
    if let Some(last) = greatest(metrics) {
        let first = (last + 1) as u16;
        let (one, port) = claim_from(used, first, "possible spammer metrics"@)->Ok_0;
        assert(crate::deploy::port_map::is_least_free(used, first, port));
        assert(one.contains_key(first));
        let second = if port == u16::MAX {
            port
        } else {
            (port + 1) as u16
        };
        let (two, given) = claim_from(one, second, "possible chain-indexer metrics"@)->Ok_0;
        assert(crate::deploy::port_map::is_least_free(one, second, given));
        assert(claimed == Ok::<Owners, Seq<char>>(two));
        if last + 2 <= u16::MAX {
            let next = (last + 2) as u16;
            if port == first {
                assert(second == next);
                assert(two.contains_key(next));
            } else {
                assert(one.contains_key(next)) by {
                    if next < port {
                        assert(used.contains_key(next));
                    }
                }
            }
        }
    }
    if has_indexer {
        let a = legacy_service(claimed, 8090, "legacy chain-indexer service"@);
        let b = legacy_service(a, 8091, "legacy metadata-indexer service"@);
        let c = legacy_service(b, 8092, "legacy qmdb-indexer service"@);
        let d = legacy_service(c, DEFAULT_EXPLORER_PORT, "legacy explorer service"@);
        lemma_legacy_service(claimed, 8090, "legacy chain-indexer service"@);
        lemma_legacy_service(a, 8091, "legacy metadata-indexer service"@);
        lemma_legacy_service(b, 8092, "legacy qmdb-indexer service"@);
        lemma_legacy_service(c, DEFAULT_EXPLORER_PORT, "legacy explorer service"@);
        assert(d->Ok_0.contains_key(8090));
    }
}

proof fn lemma_legacy_service(used: Result<Owners, Seq<char>>, preferred: u16, owner: Seq<char>)
    ensures
        legacy_service(used, preferred, owner) is Ok ==> {
            let after = legacy_service(used, preferred, owner)->Ok_0;
            &&& used is Ok
            &&& after.contains_key(preferred)
            &&& forall|port: u16| #[trigger]
                used->Ok_0.contains_key(port) ==> after.contains_key(port)
        },
{
    if legacy_service(used, preferred, owner) is Ok {
        let ports = used->Ok_0;
        let port = prefer(ports, preferred, owner)->Ok_0.1;
        assert(crate::deploy::port_map::is_least_free(ports, preferred, port));
        if port != preferred {
            assert(ports.contains_key(preferred));
        }
    }
}

/// The greatest of some numbers is one of them, and none is above it.
pub proof fn greatest_is_above_all(numbers: Seq<u16>)
    ensures
        greatest(numbers) is None <==> numbers.len() == 0,
        greatest(numbers) matches Some(most) ==> numbers.contains(most) && forall|i: int|
            0 <= i < numbers.len() ==> #[trigger] numbers[i] <= most,
    decreases numbers.len(),
{
    if numbers.len() > 0 {
        let init = numbers.drop_last();
        greatest_is_above_all(init);
        let most = greatest(numbers)->0;
        assert forall|i: int| 0 <= i < numbers.len() implies #[trigger] numbers[i] <= most by {
            if i < init.len() {
                assert(init[i] == numbers[i]);
            }
        }
        if init.len() > 0 && most != numbers.last() {
            let k = choose|k: int| 0 <= k < init.len() && init[k] == most;
            assert(numbers[k] == most);
        } else {
            assert(numbers[numbers.len() - 1] == numbers.last());
        }
    }
}

proof fn lemma_genesis_metrics(configs: Seq<ExistingConfig>, n: nat)
    requires
        n <= configs.len(),
    ensures
        forall|i: int|
            0 <= i < n && !is_joining(#[trigger] configs[i]) ==> genesis_metrics(
                configs,
                n,
            ).contains(configs[i].metrics_port),
    decreases n,
{
    if n > 0 {
        lemma_genesis_metrics(configs, (n - 1) as nat);
        let earlier = genesis_metrics(configs, (n - 1) as nat);
        let all = genesis_metrics(configs, n);
        assert forall|i: int| 0 <= i < n && !is_joining(#[trigger] configs[i]) implies all.contains(
            configs[i].metrics_port,
        ) by {
            if i == n - 1 {
                assert(all.last() == configs[i].metrics_port);
            } else {
                let k = choose|k: int|
                    0 <= k < earlier.len() && earlier[k] == configs[i].metrics_port;
                assert(all[k] == configs[i].metrics_port);
            }
        }
    }
}

/// All that a deployment holds counts as taken: the addresses of its peers, which
/// are of this machine and listed under their names; the metrics port of every
/// node; every port of its manifest. Without a manifest, so are the two ports
/// above the highest metrics port that was there at genesis and, where
/// something is uploaded, the ports that the indexer stack starts from.
pub proof fn deployed_ports_are_taken(
    peers: Seq<ListedPeer>,
    configs: Seq<ExistingConfig>,
    manifest: Option<Vec<ManifestPort>>,
)
    requires
        used_ports(peers, configs, manifest) is Ok,
    ensures
        ({
            let used = used_ports(peers, configs, manifest)->Ok_0;
            &&& forall|i: int|
                0 <= i < peers.len() ==> {
                    let peer = #[trigger] peers[i];
                    &&& peer.p2p.parsed matches Ok(address) && address.is_loopback
                        && used.contains_key(address.port)
                    &&& peer.http.parsed matches Ok(address) && address.is_loopback
                        && used.contains_key(address.port)
                }
            &&& forall|i: int, j: int|
                0 <= i < j < peers.len() ==> (#[trigger] peers[i]).name@ != (
                #[trigger] peers[j]).name@
            &&& forall|i: int|
                0 <= i < configs.len() ==> used.contains_key(
                    (#[trigger] configs[i]).metrics_port,
                )
            &&& manifest matches Some(listed) ==> forall|i: int|
                0 <= i < listed@.len() ==> used.contains_key((#[trigger] listed@[i]).port)
            &&& manifest is None ==> forall|i: int|
                0 <= i < configs.len() && !is_joining(#[trigger] configs[i]) && (forall|j: int|
                    0 <= j < configs.len() && !is_joining(#[trigger] configs[j])
                        ==> configs[j].metrics_port <= configs[i].metrics_port)
                    ==> used.contains_key((configs[i].metrics_port + 1) as u16) && (
                configs[i].metrics_port + 2 <= u16::MAX ==> used.contains_key(
                    (configs[i].metrics_port + 2) as u16,
                ))
            &&& manifest is None && uploads(configs) ==> used.contains_key(8090)
                && used.contains_key(8091) && used.contains_key(8092) && used.contains_key(5173)
        }),
{
    let peered = peer_ports(peers, peers.len())->Ok_0;
    let configured = config_ports(peered, configs, configs.len())->Ok_0;
    lemma_peers_are_taken(peers, peers.len());
    lemma_configs_are_taken(peered, configs, configs.len());
    let used = used_ports(peers, configs, manifest)->Ok_0;
    match manifest {
        Some(listed) => {
            lemma_manifest_is_taken(configured, listed@, listed@.len());
        },
        None => {
            let metrics = genesis_metrics(configs, configs.len());
            lemma_legacy_is_taken(configured, metrics, uploads(configs));
            lemma_genesis_metrics(configs, configs.len());
            greatest_is_above_all(metrics);
            assert forall|i: int|
                0 <= i < configs.len() && !is_joining(#[trigger] configs[i]) && (forall|j: int|
                    0 <= j < configs.len() && !is_joining(#[trigger] configs[j])
                        ==> configs[j].metrics_port
                        <= configs[i].metrics_port) implies used.contains_key(
                (configs[i].metrics_port + 1) as u16,
            ) && (configs[i].metrics_port + 2 <= u16::MAX ==> used.contains_key(
                (configs[i].metrics_port + 2) as u16,
            )) by {
                let most = greatest(metrics)->0;
                assert(metrics.contains(configs[i].metrics_port));
                let k = choose|k: int|
                    0 <= k < metrics.len() && metrics[k] == configs[i].metrics_port;
                lemma_genesis_has_config(configs, configs.len(), most);
                assert(most == configs[i].metrics_port);
            }
        },
    }
    assert forall|i: int| 0 <= i < peers.len() implies {
        let peer = #[trigger] peers[i];
        &&& peer.p2p.parsed matches Ok(address) && address.is_loopback && used.contains_key(
            address.port,
        )
        &&& peer.http.parsed matches Ok(address) && address.is_loopback && used.contains_key(
            address.port,
        )
    } by {
        let p2p = peers[i].p2p.parsed->Ok_0.port;
        let http = peers[i].http.parsed->Ok_0.port;
        assert(peered.contains_key(p2p) && peered.contains_key(http));
        assert(configured.contains_key(p2p) && configured.contains_key(http));
    }
    assert forall|i: int| 0 <= i < configs.len() implies used.contains_key(
        (#[trigger] configs[i]).metrics_port,
    ) by {
        assert(configured.contains_key(configs[i].metrics_port));
    }
}

proof fn lemma_genesis_has_config(configs: Seq<ExistingConfig>, n: nat, port: u16)
    requires
        n <= configs.len(),
        genesis_metrics(configs, n).contains(port),
    ensures
        exists|j: int|
            0 <= j < n && !is_joining(#[trigger] configs[j]) && configs[j].metrics_port == port,
    decreases n,
{
    if n > 0 {
        let earlier = genesis_metrics(configs, (n - 1) as nat);
        let all = genesis_metrics(configs, n);
        let k = choose|k: int| 0 <= k < all.len() && all[k] == port;
        if is_joining(configs[n - 1]) || k < earlier.len() {
            assert(earlier[k] == port);
            lemma_genesis_has_config(configs, (n - 1) as nat, port);
        } else {
            assert(configs[n - 1].metrics_port == port);
        }
    }
}

/// The configurations that a deployment is generated with are found again among
/// its files, as are those of validators that joined; the list of peers is none.
pub proof fn generated_configs_are_found(index: nat)
    ensures
        is_config_name(node_file("validator-"@, index)),
        is_config_name(node_file("secondary-"@, index)),
        is_config_name(joining_file(index)),
        !is_config_name(PEERS_CONFIG_FILE@),
        !is_config_name(LOCAL_PORTS_FILE@),
        !is_config_name(PENDING_VALIDATOR_FILE@),
{
    lemma_found("validator-"@, index);
    lemma_found("secondary-"@, index);
    lemma_found("joining-validator-"@, index);
    reveal_strlit("validator-");
    reveal_strlit("secondary-");
    reveal_strlit("joining-validator-");
    reveal_strlit("peers.yaml");
    reveal_strlit("local-ports.yaml");
    reveal_strlit(".joining-validator.pending.yaml");
    assert(PEERS_CONFIG_FILE@[0] == 'p');
    assert(LOCAL_PORTS_FILE@[0] == 'l');
    assert(PENDING_VALIDATOR_FILE@[0] == '.');
    assert(forall|name: Seq<char>| #[trigger]
        starts_with_seq(name, "validator-"@) ==> name.take("validator-"@.len() as int)[0] == 'v');
    assert(forall|name: Seq<char>| #[trigger]
        starts_with_seq(name, "secondary-"@) ==> name.take("secondary-"@.len() as int)[0] == 's');
    assert(forall|name: Seq<char>| #[trigger]
        starts_with_seq(name, "joining-validator-"@) ==> name.take(
            "joining-validator-"@.len() as int,
        )[0] == 'j');
}

proof fn lemma_found(kind: Seq<char>, index: nat)
    ensures
        starts_with_seq(node_file(kind, index), kind),
        ends_with_seq(node_file(kind, index), ".yaml"@),
{
    let name = node_file(kind, index);
    assert(name.take(kind.len() as int) =~= kind);
    assert(name.skip(name.len() - ".yaml"@.len()) =~= ".yaml"@);
}

/// The port is read back from the loopback URL that a port is written as.
pub proof fn loopback_urls_are_read_back(port: u16)
    ensures
        url_port(loopback_url(port)) == Some(port),
{
    let prefix = "http://127.0.0.1:"@;
    let url = loopback_url(port);
    decimal_is_read_back(port as nat);
    assert(url.take(prefix.len() as int) =~= prefix);
    assert(url.skip(prefix.len() as int) =~= decimal(port as nat));
}

/// Once an update is applied, the directory holds the joining validator's
/// configuration in its own file, the peers and the port manifest in theirs, and
/// every relayer's file, and the update is gone.
pub proof fn update_puts_every_part_in_its_file(
    dir: Map<Seq<char>, Seq<char>>,
    pending: PendingValidatorGeneration,
    joining: JoiningValidator,
    config: String,
    peers: String,
    relayers: Seq<PendingBundleFile>,
    manifest: String,
    index: nat,
    k: int,
)
    requires
        has_pending(dir),
        is_update(pending, joining, config, peers, relayers, manifest),
        pending.files@.len() <= usize::MAX,
        joining.config_file@ == joining_file(index),
        forall|i: int|
            0 <= i < pending.files@.len() ==> is_local_name((#[trigger] pending.files@[i]).name@),
        forall|i: int|
            0 <= i < relayers.len() ==> (#[trigger] relayers[i]).name@ != joining.config_file@
                && relayers[i].name@ != "peers.yaml"@ && relayers[i].name@ != "local-ports.yaml"@
                && relayers[i].name@ != PENDING_VALIDATOR_FILE@,
        forall|i: int, j: int|
            0 <= i < j < relayers.len() ==> (#[trigger] relayers[i]).name@ != (
            #[trigger] relayers[j]).name@,
    ensures
        ({
            let after = recovered(dir, pending.files@);
            &&& after[joining.config_file@] == config@
            &&& after["peers.yaml"@] == peers@
            &&& after["local-ports.yaml"@] == manifest@
            &&& 0 <= k < relayers.len() ==> after[relayers[k].name@] == relayers[k].contents@
            &&& !has_pending(after)
            &&& pending.config_file@ == joining.config_file@
            &&& pending.public_key@ == joining.peer.name@
            &&& pending.p2p@ == joining.peer.p2p@
        }),
{
    let files = pending.files@;
    let n = relayers.len() as int;
    recovery_applies_the_whole_update(dir, files, Seq::empty());
    generated_configs_are_found(index);
    reveal_strlit("peers.yaml");
    reveal_strlit("local-ports.yaml");
    reveal_strlit(".joining-validator.pending.yaml");
    assert("peers.yaml"@[0] != "local-ports.yaml"@[0]);
    assert("peers.yaml"@[0] != PENDING_VALIDATOR_FILE@[0]);
    assert("local-ports.yaml"@[0] != PENDING_VALIDATOR_FILE@[0]);
    assert forall|j: int| 2 <= j < 2 + n implies files[j] == relayers[j - 2] by {
        assert(files.subrange(2, 2 + n)[j - 2] == files[j]);
    }
    assert(files[n + 2] == files.last());
    assert(forall|j: int| 0 < j < files.len() ==> (#[trigger] files[j]).name@ != files[0].name@);
    assert(forall|j: int| 1 < j < files.len() ==> (#[trigger] files[j]).name@ != files[1].name@);
    if 0 <= k < n {
        assert(files[k + 2] == relayers[k]);
        assert(forall|j: int|
            k + 2 < j < files.len() ==> (#[trigger] files[j]).name@ != files[k + 2].name@);
    }
}

/// What is said of an added validator is its name, where it listens, and how the
/// file with its configuration is run.
pub proof fn added_validators_are_told_of(
    lines: Seq<Seq<char>>,
    dir: Seq<char>,
    pending: PendingValidatorGeneration,
    joining: JoiningValidator,
    template: ValidatorConfig,
    private_key: Seq<u8>,
    index: u32,
    ports: LocalNodePorts,
)
    requires
        is_joining_validator(joining, template, private_key, index, ports),
        pending.public_key@ == joining.peer.name@,
        pending.p2p@ == joining.peer.p2p@,
        pending.config_file@ == joining.config_file@,
        tells_of(lines, dir, pending),
    ensures
        lines.len() == 4,
        lines[0] == "public key: "@ + hex_text(public_key(private_key)),
        lines[1] == "p2p address: "@ + "127.0.0.1:"@ + decimal(joining.config.listen_port as nat),
        lines[2] == "config path: "@ + path_in(dir, joining.config_file@),
        lines[3] == "run: cargo run --release --bin constantinople -- --config "@ + path_in(
            dir,
            joining.config_file@,
        ) + " --peers "@ + path_in(dir, "peers.yaml"@),
{
    let port = decimal(joining.config.listen_port as nat);
    assert("p2p address: "@ + ("127.0.0.1:"@ + port) =~= "p2p address: "@ + "127.0.0.1:"@ + port);
}

/// An update stays in its directory: a name that is empty, that holds a slash or
/// that stands for the directory or the one above it is not written, nor is
/// anything behind it.
pub proof fn updates_stay_in_their_directory(files: Seq<PendingBundleFile>, i: int, k: int)
    requires
        0 <= i < files.len(),
        files[i].name@.len() == 0 || (0 <= k < files[i].name@.len() && files[i].name@[k] == '/')
            || files[i].name@ == "."@ || files[i].name@ == ".."@,
    ensures
        !is_local_name(files[i].name@),
        writable(files) <= i,
        forall|j: int|
            0 <= j < update_steps(files).len() ==> (#[trigger] update_steps(files)[j]
                matches UpdateStep::Write(at) ==> at < i),
        !update_steps(files).contains(UpdateStep::ClearPending),
        update_steps(files).last() == UpdateStep::Refuse,
{
    lemma_writable_stops(files, i);
    assert forall|j: int| 0 <= j < update_steps(files).len() implies (#[trigger] update_steps(
        files,
    )[j] matches UpdateStep::Write(at) ==> at < i) by {
        if j < writable(files) {
            assert(update_steps(files)[j] == UpdateStep::Write(j as usize));
        }
    }
}

proof fn lemma_writable_stops(files: Seq<PendingBundleFile>, i: int)
    requires
        0 <= i < files.len(),
        !is_local_name(files[i].name@),
    ensures
        writable(files) <= i,
    decreases files.len(),
{
    if i > 0 && is_local_name(files[0].name@) {
        assert(files.skip(1)[i - 1] == files[i]);
        lemma_writable_stops(files.skip(1), i - 1);
    }
}

/// A validator that is added gets a name that no file has, the first such one,
/// and ports that none of the deployment's peers and nodes has.
pub proof fn extensions_take_nothing_away<F: Fn(u16) -> bool>(
    extension: Extension,
    bundle: &ExistingBundle,
    template: ValidatorConfig,
    requested: RequestedPorts,
    available: F,
    private_key: Seq<u8>,
    i: int,
    n: nat,
)
    requires
        extends(extension, bundle, template, requested, available, private_key),
    ensures
        ({
            let config = extension.joining.config;
            let own = set![config.listen_port, config.http_port, config.metrics_port];
            &&& config.listen_port != config.http_port
            &&& config.listen_port != config.metrics_port
            &&& config.http_port != config.metrics_port
            &&& 0 <= i < bundle.peers@.len() ==> {
                &&& bundle.peers@[i].p2p.parsed matches Ok(address) && !own.contains(address.port)
                &&& bundle.peers@[i].http.parsed matches Ok(address) && !own.contains(address.port)
            }
            &&& 0 <= i < bundle.configs@.len() ==> !own.contains(bundle.configs@[i].metrics_port)
            &&& bundle.manifest matches Some(listed) ==> (0 <= i < listed@.len() ==> !own.contains(
                listed@[i].port,
            ))
        }),
        0 <= i < bundle.names@.len() ==> bundle.names@[i]@ != extension.joining.config_file@,
        n < extension.index ==> exists|k: int|
            0 <= k < bundle.names@.len() && (#[trigger] bundle.names@[k])@ == "joining-validator-"@
                + decimal(n) + ".yaml"@,
        requested.p2p matches Some(port) ==> extension.joining.config.listen_port == port,
        requested.http matches Some(port) ==> extension.joining.config.http_port == port,
        requested.metrics matches Some(port) ==> extension.joining.config.metrics_port == port,
{
    let used = used_ports(bundle.peers@, bundle.configs@, bundle.manifest)->Ok_0;
    deployed_ports_are_taken(bundle.peers@, bundle.configs@, bundle.manifest);
    joining_ports_are_fresh(used, extension.used@, extension.ports);
    requested_ports_are_honored(used, extension.used@, requested, available, extension.ports);
    if 0 <= i < bundle.names@.len() && bundle.names@[i]@ == extension.joining.config_file@ {
        assert(is_present(bundle.names@, joining_file(extension.index as nat)));
    }
    if n < extension.index {
        assert(is_present(bundle.names@, joining_file(n)));
    }
    if 0 <= i < bundle.peers@.len() {
        assert(bundle.peers@[i].p2p.parsed is Ok);
    }
    if 0 <= i < bundle.configs@.len() {
        assert(used.contains_key(bundle.configs@[i].metrics_port));
    }
    if let Some(listed) = bundle.manifest {
        if 0 <= i < listed@.len() {
            assert(used.contains_key(listed@[i].port));
        }
    }
}

/// Adding a validator to the lists of a deployment leaves every entry at its
/// place and puts the validator last, as a peer and as a leader of every relayer
/// alike: under one name, and at one address.
pub proof fn joining_validators_are_listed_last(
    peers: Seq<PeerEntry>,
    listed: Seq<PeerEntry>,
    leaders: Seq<RelayerLeaderConfig>,
    led: Seq<RelayerLeaderConfig>,
    joining: JoiningValidator,
    template: ValidatorConfig,
    private_key: Seq<u8>,
    index: u32,
    ports: LocalNodePorts,
    i: int,
)
    requires
        lists_last(peers, listed, joining),
        leads_last(leaders, led, joining),
        is_joining_validator(joining, template, private_key, index, ports),
    ensures
        listed.len() == peers.len() + 1,
        led.len() == leaders.len() + 1,
        0 <= i < peers.len() ==> listed[i] == peers[i],
        0 <= i < leaders.len() ==> led[i] == leaders[i],
        led.last().public_key@ == listed.last().name@,
        led.last().url@ == "http://"@ + listed.last().http@,
        listed.last().p2p@ == "127.0.0.1:"@ + decimal(joining.config.listen_port as nat),
        listed.last().http@ == "127.0.0.1:"@ + decimal(joining.config.http_port as nat),
        listed.last().name@ == hex_text(public_key(private_key)),
{
    joining_validator_is_reached_where_it_listens(joining, template, private_key, index, ports);
    if 0 <= i < peers.len() {
        assert(listed.drop_last()[i] == listed[i]);
    }
    if 0 <= i < leaders.len() {
        assert(led.drop_last()[i] == led[i]);
    }
}

/// A port that is asked for is refused only if the machine has it bound, or it is
/// zero, or it has an owner; and a validator that asks for none is refused only
/// if no port from the default on can be given.
pub proof fn refused_ports_cannot_be_given<F: Fn(u16) -> bool>(
    used: Owners,
    requested: Option<u16>,
    preferred: u16,
    kind: Seq<char>,
    available: F,
    text: Seq<char>,
    port: u16,
)
    requires
        is_refused(used, requested, preferred, kind, available, text),
    ensures
        requested matches Some(asked) ==> call_ensures(available, (asked,), false) || asked == 0
            || used.contains_key(asked),
        requested is None && preferred <= port ==> used.contains_key(port) || call_ensures(
            available,
            (port,),
            false,
        ),
{
    if requested is None && preferred <= port {
        assert(is_unusable(used, available, port));
    }
}

/// Configurations are listed in dictionary order: of two names, the one with the
/// smaller character where they first differ is listed first.
pub proof fn names_are_listed_in_order(names: Seq<String>, i: int, j: int, k: int)
    requires
        in_order(names),
        0 <= i < j < names.len(),
        0 <= k < names[i]@.len(),
        k < names[j]@.len(),
        forall|m: int| 0 <= m < k ==> #[trigger] names[i]@[m] == names[j]@[m],
        names[i]@[k] != names[j]@[k],
    ensures
        names[i]@[k] < names[j]@[k],
{
    let a = code_points(names[i]@);
    let b = code_points(names[j]@);
    assert forall|m: int| 0 <= m < k implies #[trigger] b[m] == a[m] by {
        assert(names[i]@[m] == names[j]@[m]);
    }
    crate::lex::first_difference_decides(b, a, k);
    assert(!before(b, a));
}

} // verus!
