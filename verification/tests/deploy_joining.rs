//! Validators that join a local deployment after genesis.

use constantinople::deploy::config::{
    GenerateArgs, ValidatorConfig, DEFAULT_SPAMMER_PRESIGNED_BATCHES,
    DEFAULT_SPAMMER_RAYON_THREADS,
};
use constantinople::deploy::joining::{
    add_joining, allocate_joining_port, apply_pending_validator, collect_used_ports,
    first_joining_index, generate_validator, join_with_key, joined_lines, local_url_port,
    names_local_file, pending_update, recover_pending_validator, reserve_legacy_service_ports,
    validate_local_peers_and_collect_ports, validator_config_names, writable_files,
    ExistingBundle, ExistingConfig, ListedPeer, ManifestPort, ParsedAddress, PeerAddress,
    PendingBundleFile, PendingValidatorGeneration, RequestedPorts, UpdateStep,
    PENDING_VALIDATOR_FILE,
};
use constantinople::deploy::local::PeerEntry;
use constantinople::deploy::port_map::PortMap;
use constantinople::deploy::port_plan::{plan_bundle, LocalArgs, LocalNodePorts, LocalPortPlan};
use constantinople::spammer::accounts::generate_accounts;
use constantinople::validator::leaders::RelayerLeaderConfig;
use constantinople::validator::run::StartupModeConfig;
use std::collections::BTreeMap;

fn address(raw: &str) -> PeerAddress {
    let parsed = raw
        .rsplit_once(':')
        .and_then(|(ip, port)| port.parse::<u16>().ok().map(|port| (ip, port)))
        .map(|(ip, port)| ParsedAddress {
            is_loopback: ip.starts_with("127."),
            port,
        })
        .ok_or_else(|| "invalid socket address syntax".to_string());
    PeerAddress {
        raw: raw.to_string(),
        parsed,
    }
}

fn peer(name: &str, p2p: &str, http: &str) -> ListedPeer {
    ListedPeer {
        name: name.to_string(),
        p2p: address(p2p),
        http: address(http),
    }
}

fn config(file_name: &str, metrics_port: u16, url: Option<&str>) -> ExistingConfig {
    ExistingConfig {
        file_name: file_name.to_string(),
        path: format!("/b/{file_name}"),
        metrics_port,
        chain_indexer_url: url.map(|url| url.to_string()),
    }
}

fn template() -> ValidatorConfig {
    ValidatorConfig {
        private_key: "private".to_string(),
        dkg_output: "output".to_string(),
        dkg_share: "share".to_string(),
        startup: StartupModeConfig::MarshalSync,
        listen_port: 9000,
        genesis_leader: "leader".to_string(),
        partition_prefix: "validator-0".to_string(),
        num_validators: 2,
        primary_validators: vec!["a".to_string()],
        secondary_validators: vec!["b".to_string()],
        log_level: "info".to_string(),
        worker_threads: 2,
        rayon_threads: 3,
        http_port: 8080,
        metrics_port: 9090,
        max_propose_bytes: 4,
        max_pool_bytes: 5,
        state_page_cache_bytes: 6,
        other_page_cache_bytes: 7,
        public_key_cache_size: 8,
        traces: "0".to_string(),
        peers: vec!["a".to_string(), "b".to_string()],
        indexer: None,
        relayer: None,
    }
}

fn bundle(names: &[&str]) -> ExistingBundle {
    ExistingBundle {
        peers: vec![
            peer("a", "127.0.0.1:9000", "127.0.0.1:8080"),
            peer("b", "127.0.0.1:9001", "127.0.0.1:8081"),
        ],
        configs: vec![
            config("validator-0.yaml", 9090, None),
            config("validator-1.yaml", 9091, None),
        ],
        manifest: Some(vec![
            ManifestPort {
                port: 9092,
                owner: "spammer metrics".to_string(),
            },
            ManifestPort {
                port: 9000,
                owner: "node 0 p2p".to_string(),
            },
        ]),
        names: names.iter().map(|name| name.to_string()).collect(),
    }
}

const NOTHING: RequestedPorts = RequestedPorts {
    p2p: None,
    http: None,
    metrics: None,
};

fn owners(ports: &PortMap) -> BTreeMap<u16, String> {
    ports.reserved.clone()
}

/// A bundle of two validators and one secondary that relays.
fn relayed_bundle() -> ExistingBundle {
    let mut bundle = bundle(&["validator-0.yaml", "validator-1.yaml", "secondary-0.yaml"]);
    bundle
        .peers
        .push(peer("c", "127.0.0.1:9002", "127.0.0.1:8082"));
    bundle.configs.push(config("secondary-0.yaml", 9093, None));
    bundle
}

fn entry(name: &str, p2p: &str, http: &str) -> PeerEntry {
    PeerEntry {
        name: name.to_string(),
        p2p: p2p.to_string(),
        http: http.to_string(),
    }
}

fn leader(public_key: &str, url: &str) -> RelayerLeaderConfig {
    RelayerLeaderConfig {
        public_key: public_key.to_string(),
        url: url.to_string(),
    }
}

#[test]
fn generate_validator_extends_bundle_repeatedly_without_changing_genesis() {
    let mut existing = relayed_bundle();
    let secondaries = vec![entry("c", "127.0.0.1:9002", "127.0.0.1:8082")];
    let leaders = vec![vec![
        leader("a", "http://127.0.0.1:8080"),
        leader("b", "http://127.0.0.1:8081"),
        leader("c", "http://127.0.0.1:8082"),
    ]];

    let first = generate_validator(&existing, template(), NOTHING, &|_| true)
        .expect("ports are free");
    let (secondaries, leaders) = add_joining(secondaries, leaders, &first.joining);
    let added = secondaries.last().expect("the joining validator is listed");
    existing.peers.push(peer(&added.name, &added.p2p, &added.http));
    existing.configs.push(config(
        "joining-validator-0.yaml",
        first.joining.config.metrics_port,
        None,
    ));
    existing.names.push(first.joining.config_file.clone());
    existing.manifest = Some(
        owners(&first.used)
            .into_iter()
            .map(|(port, owner)| ManifestPort { port, owner })
            .collect(),
    );
    let second = generate_validator(&existing, template(), NOTHING, &|_| true)
        .expect("ports are free");
    let (secondaries, leaders) = add_joining(secondaries, leaders, &second.joining);

    assert_eq!(secondaries.len(), 3);
    assert_eq!(secondaries[0].name, "c");
    let first_peer = &secondaries[1];
    let second_peer = &secondaries[2];
    let first_ports = &first.joining.config;
    assert_eq!(first_peer.p2p, format!("127.0.0.1:{}", first_ports.listen_port));
    assert_eq!(first_peer.http, format!("127.0.0.1:{}", first_ports.http_port));
    assert_ne!(first_peer.name, second_peer.name);
    assert_eq!(leaders.len(), 1);
    assert_eq!(leaders[0].len(), 5);
    assert_eq!(leaders[0][0].public_key, "a");
    assert_eq!(leaders[0][3].public_key, first_peer.name);
    assert_eq!(leaders[0][3].url, format!("http://{}", first_peer.http));
    assert_eq!(leaders[0][4].public_key, second_peer.name);
    assert_eq!(leaders[0][4].url, format!("http://{}", second_peer.http));

    let peers = validate_local_peers_and_collect_ports(&existing.peers)
        .expect("the peers are on this machine");
    let second_metrics = second.joining.config.metrics_port;
    assert!(!owners(&peers).contains_key(&first_ports.metrics_port));
    assert_ne!(first_ports.metrics_port, second_metrics);
    assert!(!owners(&peers).contains_key(&second_metrics));

    let config = &first.joining.config;
    assert_eq!(config.startup, StartupModeConfig::StateSync);
    assert!(config.dkg_share.is_empty());
    assert!(config.indexer.is_none());
    assert!(config.relayer.is_none());
    assert_eq!(config.partition_prefix, "joining-validator-0");
    assert_eq!(second.joining.config.partition_prefix, "joining-validator-1");
    assert_ne!(config.private_key, second.joining.config.private_key);
    assert_eq!(config.private_key.len(), 64);
    assert_eq!(first.joining.peer.name.len(), 64);
    assert_ne!(config.private_key, first.joining.peer.name);
    let template = template();
    assert_eq!(config.dkg_output, template.dkg_output);
    assert_eq!(config.genesis_leader, template.genesis_leader);
    assert_eq!(config.primary_validators, template.primary_validators);
    assert_eq!(config.secondary_validators, template.secondary_validators);
    assert_eq!(config.peers, template.peers);
    assert_eq!(config.num_validators, template.num_validators);
    assert_eq!(config.log_level, template.log_level);
    assert_eq!(config.worker_threads, template.worker_threads);
    assert_eq!(config.rayon_threads, template.rayon_threads);
    assert_eq!(config.max_propose_bytes, template.max_propose_bytes);
    assert_eq!(config.max_pool_bytes, template.max_pool_bytes);
    assert_eq!(config.state_page_cache_bytes, template.state_page_cache_bytes);
    assert_eq!(config.other_page_cache_bytes, template.other_page_cache_bytes);
    assert_eq!(config.public_key_cache_size, template.public_key_cache_size);
    assert_eq!(config.traces, template.traces);

    assert_eq!(config.listen_port, 9003);
    assert_eq!(config.http_port, 8083);
    assert_eq!(config.metrics_port, 9094);
    assert_eq!(first.joining.peer.p2p, "127.0.0.1:9003");
    assert_eq!(first.joining.peer.http, "127.0.0.1:8083");
    assert_eq!(first.joining.leader.public_key, first.joining.peer.name);
    assert_eq!(first.joining.leader.url, "http://127.0.0.1:8083");
    let used = owners(&first.used);
    assert_eq!(used[&9003], "joining validator p2p");
    assert_eq!(used[&8083], "joining validator HTTP");
    assert_eq!(used[&9094], "joining validator metrics");
    assert_eq!(used[&9000], "peer a p2p");
    assert_eq!(used[&9090], "/b/validator-0.yaml metrics");
}

#[test]
fn a_joining_validator_has_the_keys_of_its_private_key() {
    let account = &generate_accounts(1, 77)[0];
    let ports = LocalNodePorts {
        p2p: 1,
        http: 2,
        metrics: 3,
    };
    let joining = join_with_key(template(), &account.private_key, 4, ports);
    let hex = |bytes: &[u8]| -> String { bytes.iter().map(|b| format!("{b:02x}")).collect() };

    assert_eq!(joining.config_file, "joining-validator-4.yaml");
    assert_eq!(joining.config.private_key, hex(&account.private_key));
    assert_eq!(joining.peer.name, hex(&account.public_key));
}

#[test]
fn generate_validator_skips_ports_that_are_bound() {
    let added = generate_validator(&bundle(&[]), template(), NOTHING, &|port: u16| {
        port != 9002 && port != 8082
    })
    .expect("ports are free");

    assert_eq!(added.ports.p2p, 9003);
    assert_eq!(added.ports.http, 8083);
}

#[test]
fn joining_port_override_must_be_nonzero_and_globally_unused() {
    let mut used = PortMap::new();
    used.reserve_exact(10_000, "existing".to_string())
        .expect("port is free");
    assert_eq!(
        allocate_joining_port(&mut used, Some(10_000), 9000, "p2p", &|_| true),
        Err(
            "local port 10000 is assigned to both existing and joining validator p2p".to_string()
        )
    );
    assert_eq!(
        allocate_joining_port(&mut used, Some(0), 9000, "p2p", &|_| true),
        Err("local port for joining validator p2p must be non-zero".to_string())
    );
    assert_eq!(
        allocate_joining_port(&mut used, Some(10_001), 9000, "p2p", &|_| false),
        Err("local port 10001 is already bound".to_string())
    );
    assert_eq!(
        allocate_joining_port(&mut used, Some(10_001), 9000, "p2p", &|_| true),
        Ok(10_001)
    );
    assert_eq!(
        allocate_joining_port(&mut used, None, 65_535, "HTTP", &|_| false),
        Err(
            "no local port is available for joining validator HTTP at or above 65535".to_string()
        )
    );
}

#[test]
fn a_requested_port_that_a_service_holds_is_refused() {
    let requested = RequestedPorts {
        p2p: Some(9092),
        ..NOTHING
    };
    assert_eq!(
        generate_validator(&bundle(&[]), template(), requested, &|_| true).err(),
        Some(
            "local port 9092 is assigned to both spammer metrics and joining validator p2p"
                .to_string()
        )
    );
}

#[test]
fn generate_validator_rejects_non_loopback_topology() {
    let peers = vec![peer("remote", "192.0.2.1:9000", "127.0.0.1:8080")];
    assert_eq!(
        validate_local_peers_and_collect_ports(&peers).err(),
        Some(
            "peer 'remote' has non-loopback p2p address '192.0.2.1:9000'; generate-validator is \
             local-only"
                .to_string()
        )
    );
    let peers = vec![peer("x", "nonsense", "127.0.0.1:8080")];
    assert_eq!(
        validate_local_peers_and_collect_ports(&peers).err(),
        Some("peer 'x' has invalid p2p address 'nonsense': invalid socket address syntax".to_string())
    );
    let peers = vec![
        peer("x", "127.0.0.1:1", "127.0.0.1:2"),
        peer("x", "127.0.0.1:3", "127.0.0.1:4"),
    ];
    assert_eq!(
        validate_local_peers_and_collect_ports(&peers).err(),
        Some("duplicate peer name 'x'".to_string())
    );
    let peers = vec![
        peer("x", "127.0.0.1:1", "127.0.0.1:2"),
        peer("y", "127.0.0.1:3", "127.0.0.1:2"),
    ];
    assert_eq!(
        validate_local_peers_and_collect_ports(&peers).err(),
        Some("local port 2 is assigned to both peer x HTTP and peer y HTTP".to_string())
    );
}

#[test]
fn bundles_without_a_manifest_keep_ports_that_services_may_hold() {
    let peers = vec![peer("a", "127.0.0.1:9000", "127.0.0.1:8080")];
    let configs = vec![
        config("validator-0.yaml", 9090, None),
        config("joining-validator-0.yaml", 9400, None),
        config("secondary-0.yaml", 9091, Some("http://127.0.0.1:8090")),
    ];
    let used = collect_used_ports(&peers, &configs, &None).expect("ports are distinct");
    let used = owners(&used);

    assert_eq!(used[&9092], "possible spammer metrics");
    assert_eq!(used[&9093], "possible chain-indexer metrics");
    assert_eq!(used[&8090], "legacy chain-indexer service");
    assert_eq!(used[&8091], "legacy chain-indexer service");
    assert_eq!(used[&8092], "legacy metadata-indexer service");
    assert_eq!(used[&8093], "legacy qmdb-indexer service");
    assert_eq!(used[&5173], "legacy explorer service");

    let mut full = PortMap::new();
    assert_eq!(
        reserve_legacy_service_ports(&mut full, &vec![65_535], false),
        Err("local metrics range is exhausted".to_string())
    );
    assert_eq!(
        reserve_legacy_service_ports(&mut full, &vec![65_534], false),
        Err("local metrics range is exhausted".to_string())
    );
}

#[test]
fn loopback_urls_give_their_port() {
    assert_eq!(local_url_port("http://127.0.0.1:8090"), Some(8090));
    assert_eq!(local_url_port("http://127.0.0.1:8090/"), None);
    assert_eq!(local_url_port("http://127.0.0.1:65536"), None);
    assert_eq!(local_url_port("http://127.0.0.1:"), None);
    assert_eq!(local_url_port("https://127.0.0.1:8090"), None);
}

#[test]
fn node_configurations_are_listed_in_order() {
    let names: Vec<String> = [
        "validator-1.yaml",
        "peers.yaml",
        "secondary-0.yaml",
        "validator-0.yaml",
        "validator-0.yml",
        "joining-validator-0.yaml",
        "validator-10.yaml",
    ]
    .iter()
    .map(|name| name.to_string())
    .collect();

    assert_eq!(
        validator_config_names(&names),
        vec![
            "joining-validator-0.yaml",
            "secondary-0.yaml",
            "validator-0.yaml",
            "validator-1.yaml",
            "validator-10.yaml",
        ]
    );
    assert_eq!(first_joining_index(&names), Some(1));
}

#[test]
fn pending_update_lists_config_peers_relayers_and_ports() {
    let ports = LocalNodePorts {
        p2p: 9002,
        http: 8082,
        metrics: 9092,
    };
    let joining = join_with_key(template(), &vec![7u8; 32], 0, ports);
    let relayers = vec![PendingBundleFile {
        name: "secondary-0.yaml".to_string(),
        contents: "relayer".to_string(),
    }];
    let pending = pending_update(
        &joining,
        "config".to_string(),
        "peers".to_string(),
        relayers,
        "ports".to_string(),
    );

    let names: Vec<&str> = pending.files.iter().map(|file| file.name.as_str()).collect();
    assert_eq!(
        names,
        vec![
            "joining-validator-0.yaml",
            "peers.yaml",
            "secondary-0.yaml",
            "local-ports.yaml",
        ]
    );
    assert_eq!(pending.p2p, "127.0.0.1:9002");
    assert_eq!(
        joined_lines("/b", &pending)[3],
        "run: cargo run --release --bin constantinople -- --config \
         /b/joining-validator-0.yaml --peers /b/peers.yaml"
    );
}

#[test]
fn pending_updates_write_local_files_alone() {
    assert!(names_local_file("joining-validator-0.yaml"));
    assert!(!names_local_file(""));
    assert!(!names_local_file("."));
    assert!(!names_local_file(".."));
    assert!(!names_local_file("../x"));
    assert!(!names_local_file("x/"));
    let file = |name: &str| PendingBundleFile {
        name: name.to_string(),
        contents: String::new(),
    };
    assert_eq!(writable_files(&vec![file("a"), file("/b"), file("c")]), 1);
    assert_eq!(writable_files(&vec![file("a"), file("c")]), 2);
}

#[test]
fn updates_that_point_out_of_the_directory_are_refused() {
    let file = |name: &str| PendingBundleFile {
        name: name.to_string(),
        contents: String::new(),
    };
    let pending = PendingValidatorGeneration {
        public_key: String::new(),
        p2p: String::new(),
        config_file: "a".to_string(),
        files: vec![file("a"), file("../b")],
    };
    assert_eq!(
        apply_pending_validator(&pending),
        vec![UpdateStep::Write(0), UpdateStep::Refuse]
    );
}

#[test]
fn joining_ports_lie_above_a_range_that_is_taken() {
    let mut used = PortMap::new();
    for port in 9000..=9009 {
        used.reserve_exact(port, "taken".to_string())
            .expect("the port is free");
    }
    assert_eq!(
        allocate_joining_port(&mut used, None, 9000, "p2p", &|port| port != 9010),
        Ok(9011)
    );
}

#[test]
fn pending_validator_update_recovers_the_same_generation() {
    let pending = PendingValidatorGeneration {
        public_key: "11".repeat(32),
        p2p: "127.0.0.1:9000".to_string(),
        config_file: "joining-validator-0.yaml".to_string(),
        files: vec![
            PendingBundleFile {
                name: "joining-validator-0.yaml".to_string(),
                contents: "startup: state_sync\n".to_string(),
            },
            PendingBundleFile {
                name: "peers.yaml".to_string(),
                contents: "validators: []\n".to_string(),
            },
        ],
    };
    let apply = |dir: &mut BTreeMap<String, String>, steps: &[UpdateStep]| {
        for step in steps {
            match step {
                UpdateStep::Write(i) => {
                    let file = &pending.files[*i];
                    dir.insert(file.name.clone(), file.contents.clone());
                }
                UpdateStep::SyncDirectory => {}
                UpdateStep::ClearPending => {
                    dir.remove(PENDING_VALIDATOR_FILE);
                }
                UpdateStep::Refuse => panic!("the names are local"),
            }
        }
    };
    let mut persisted = BTreeMap::from([
        (PENDING_VALIDATOR_FILE.to_string(), "pending".to_string()),
        ("validator-0.yaml".to_string(), "kept".to_string()),
    ]);

    let (recovers, steps) = recover_pending_validator(Some(&pending));
    assert!(recovers);
    assert_eq!(steps, apply_pending_validator(&pending));
    assert_eq!(steps[0], UpdateStep::Write(0));
    let mut crashed = persisted.clone();
    apply(&mut crashed, &steps[..1]);
    apply(&mut crashed, &steps);
    apply(&mut persisted, &steps);
    assert_eq!(persisted, crashed);
    assert_eq!(persisted["joining-validator-0.yaml"], "startup: state_sync\n");
    assert_eq!(persisted["peers.yaml"], "validators: []\n");
    assert_eq!(persisted["validator-0.yaml"], "kept");
    assert!(!persisted.contains_key(PENDING_VALIDATOR_FILE));
    let (again, steps) = recover_pending_validator(None);
    assert!(!again);
    assert!(steps.is_empty());
}

fn full_stack() -> LocalPortPlan {
    let args = GenerateArgs {
        validators: 2,
        indexer: true,
        relayer: true,
        log_level: "info".to_string(),
        worker_threads: 2,
        rayon_threads: 2,
        public_key_cache_size: 1024,
        max_propose_bytes: 4096,
        max_pool_bytes: 8192,
        state_page_cache_bytes: 1 << 20,
        other_page_cache_bytes: 1 << 19,
        startup: StartupModeConfig::MarshalSync,
        spammer: true,
        spammer_accounts: 10,
        spammer_value: 1,
        spammer_seed_offset: Some(1000),
        spammer_rayon_threads: DEFAULT_SPAMMER_RAYON_THREADS,
        spammer_accounts_jitter: "0".to_string(),
        spammer_submitters: None,
        spammer_presigned_batches: DEFAULT_SPAMMER_PRESIGNED_BATCHES,
    };
    let local = LocalArgs {
        base_port: 9000,
        base_http_port: 8080,
        base_metrics_port: 9090,
        chain_indexer_port: 8090,
        chain_indexer_db_parallelism: None,
        metadata_indexer_port: 8091,
        qmdb_indexer_port: 8092,
    };
    plan_bundle(&args, &local).expect("the full stack has ports")
}

#[test]
fn generate_validator_avoids_full_stack_service_ports() {
    let plan = full_stack();
    let manifest = owners(&plan.reserved);
    let chain_port = manifest
        .iter()
        .find_map(|(port, owner)| (owner == "chain-indexer service").then_some(*port))
        .expect("chain indexer port must exist");
    let files = [
        "validator-0.yaml",
        "validator-1.yaml",
        "secondary-0.yaml",
        "secondary-1.yaml",
    ];
    let existing = ExistingBundle {
        peers: plan
            .nodes
            .iter()
            .enumerate()
            .map(|(index, node)| {
                peer(
                    files[index],
                    &format!("127.0.0.1:{}", node.p2p),
                    &format!("127.0.0.1:{}", node.http),
                )
            })
            .collect(),
        configs: plan
            .nodes
            .iter()
            .enumerate()
            .map(|(index, node)| config(files[index], node.metrics, None))
            .collect(),
        manifest: Some(
            manifest
                .into_iter()
                .map(|(port, owner)| ManifestPort { port, owner })
                .collect(),
        ),
        names: files.iter().map(|name| name.to_string()).collect(),
    };

    let colliding = RequestedPorts {
        p2p: Some(chain_port),
        ..NOTHING
    };
    assert!(generate_validator(&existing, template(), colliding, &|_| true).is_err());

    let joined = generate_validator(&existing, template(), NOTHING, &|_| true)
        .expect("a validator can join")
        .joining
        .config;
    let original_metrics = plan.nodes.iter().map(|node| node.metrics).max();
    assert!(joined.metrics_port > original_metrics.expect("original nodes have metrics") + 2);
    assert_ne!(joined.listen_port, chain_port);
}
