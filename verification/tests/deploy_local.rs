//! Local deployments: port plans, node configurations and run commands.

use constantinople::deploy::config::{
    join_path, total_secondaries, ClusterMaterial, GenerateArgs, Share, UploadLimits,
    DEFAULT_SPAMMER_PRESIGNED_BATCHES, DEFAULT_SPAMMER_RAYON_THREADS,
};
use constantinople::deploy::local::{
    build_secondaries, build_validators, generate, local_relayer_config, local_run_commands,
    mprocs_command,
};
use constantinople::deploy::port_map::PortMap;
use constantinople::deploy::port_plan::{offset_port, plan_bundle, LocalArgs, LocalPortPlan};
use constantinople::deploy::ports::Ports;
use constantinople::validator::run::StartupModeConfig;
use std::collections::BTreeMap;

const TEST_SIMPLEX_VERIFICATION_MATERIAL: &str = "abcdef";

fn test_args(spammer: bool) -> GenerateArgs {
    GenerateArgs {
        validators: 2,
        indexer: false,
        relayer: false,
        log_level: "info".to_string(),
        worker_threads: 2,
        rayon_threads: 2,
        public_key_cache_size: 1024,
        max_propose_bytes: 4096,
        max_pool_bytes: 8192,
        state_page_cache_bytes: 1 << 20,
        other_page_cache_bytes: 1 << 19,
        startup: StartupModeConfig::MarshalSync,
        spammer,
        spammer_accounts: 10,
        spammer_value: 1,
        spammer_seed_offset: Some(1000),
        spammer_rayon_threads: DEFAULT_SPAMMER_RAYON_THREADS,
        spammer_accounts_jitter: format!("{}", 0.0f64),
        spammer_submitters: None,
        spammer_presigned_batches: DEFAULT_SPAMMER_PRESIGNED_BATCHES,
    }
}

fn local_args() -> LocalArgs {
    LocalArgs {
        base_port: 9000,
        base_http_port: 8080,
        base_metrics_port: 9090,
        chain_indexer_port: 8090,
        chain_indexer_db_parallelism: None,
        metadata_indexer_port: 8091,
        qmdb_indexer_port: 8092,
    }
}

fn local_ports(chain: u16, metadata: u16, qmdb: u16) -> LocalArgs {
    LocalArgs {
        chain_indexer_port: chain,
        metadata_indexer_port: metadata,
        qmdb_indexer_port: qmdb,
        ..local_args()
    }
}

fn key(kind: u8, index: usize) -> Vec<u8> {
    let mut bytes = vec![kind; 32];
    bytes[31] = index as u8;
    bytes
}

fn cluster_material(validators: u32, secondaries: u32) -> ClusterMaterial {
    let public_keys: Vec<Vec<u8>> = (0..validators as usize).map(|i| key(0x11, i)).collect();
    let mut shares: Vec<Share> = public_keys
        .iter()
        .enumerate()
        .map(|(i, public_key)| Share {
            public_key: public_key.clone(),
            share: key(0x33, i),
        })
        .collect();
    shares.reverse();
    ClusterMaterial {
        signers: (0..validators as usize).map(|i| key(0x22, i)).collect(),
        secondary_signers: (0..secondaries as usize).map(|i| key(0x55, i)).collect(),
        secondary_public_keys: (0..secondaries as usize).map(|i| key(0x44, i)).collect(),
        public_keys,
        shares,
        dkg_output: vec![0xd0, 0x0f],
        genesis_leader: "leader".to_string(),
    }
}

fn hex(bytes: &[u8]) -> String {
    bytes.iter().map(|byte| format!("{byte:02x}")).collect()
}

fn commands(args: &GenerateArgs, local: &LocalArgs, targets: &[&str]) -> Vec<String> {
    let targets: Vec<String> = targets.iter().map(|target| target.to_string()).collect();
    local_run_commands(
        "/tmp/configs",
        args,
        local,
        &targets,
        TEST_SIMPLEX_VERIFICATION_MATERIAL,
    )
    .expect("commands should be planned")
}

fn command_flag_port(command: &str, flag: &str) -> u16 {
    let parts = command.split_whitespace().collect::<Vec<_>>();
    let flag_index = parts
        .iter()
        .position(|part| *part == flag)
        .unwrap_or_else(|| panic!("missing {flag} in command: {command}"));
    parts
        .get(flag_index + 1)
        .unwrap_or_else(|| panic!("missing value after {flag} in command: {command}"))
        .parse()
        .unwrap_or_else(|error| panic!("invalid port after {flag} in command: {error}"))
}

fn assert_unique_port(seen: &mut BTreeMap<u16, String>, port: u16, owner: impl Into<String>) {
    let owner = owner.into();
    if let Some(existing) = seen.insert(port, owner.clone()) {
        panic!("port {port} is assigned to both {existing} and {owner}");
    }
}

#[test]
fn local_run_commands_only_start_validators() {
    let args = test_args(false);
    let commands = commands(&args, &local_args(), &[]);

    assert_eq!(commands.len(), 2);
    assert!(commands.iter().all(|command| !command.contains("spammer")));
    assert_eq!(
        commands[1],
        "cargo run --release --bin constantinople -- --config /tmp/configs/validator-1.yaml \
         --peers /tmp/configs/peers.yaml"
    );
}

#[test]
fn local_run_commands_include_spammer_when_enabled() {
    let mut args = test_args(true);
    args.relayer = true;
    let commands = commands(&args, &local_args(), &[]);

    assert_eq!(commands.len(), 4);
    assert!(commands[2].contains("secondary-0.yaml"));
    assert!(commands[3].contains("constantinople-spammer"));
    assert!(commands[3].contains("--relayer-url http://127.0.0.1:8082"));
    assert!(commands[3].contains("--relayer-submitters 2"));
    assert!(!commands[3].contains("--relayer-targets"));
    assert!(commands[3].contains("--accounts 10"));
    assert!(commands[3].contains("--value 1"));
    assert!(commands[3].contains("--seed-offset 1000"));
    assert!(commands[3].contains("--rayon-threads 2"));
    assert!(commands[3].contains("--accounts-jitter 0"));
    assert_eq!(
        commands[3],
        "cargo run --release --bin constantinople-spammer -- \
         --relayer-url http://127.0.0.1:8082 --relayer-submitters 2 --accounts 10 --value 1 \
         --seed-offset 1000 --rayon-threads 2 --accounts-jitter 0 --presigned-batches 16 \
         --metrics-port 9093"
    );
}

#[test]
fn local_run_commands_include_relayer() {
    let mut args = test_args(false);
    args.relayer = true;
    let commands = commands(&args, &local_args(), &[]);

    assert_eq!(commands.len(), 3);
    assert!(commands[2].contains("constantinople"));
    assert!(commands[2].contains("secondary-0.yaml"));
}

#[test]
fn local_relayer_catalog_covers_every_eligible_validator() {
    let mut args = test_args(false);
    args.relayer = true;
    let material = cluster_material(args.validators, total_secondaries(&args));
    let ports = LocalPortPlan::new(&args, &local_args()).expect("ports should be planned");
    let config = local_relayer_config(&ports, &material);
    let expected = material
        .public_keys
        .iter()
        .chain(&material.secondary_public_keys)
        .enumerate()
        .map(|(index, public_key)| {
            (
                hex(public_key),
                format!("http://127.0.0.1:{}", 8080 + index),
            )
        })
        .collect::<Vec<_>>();
    let actual = config
        .leaders
        .into_iter()
        .map(|leader| (leader.public_key, leader.url))
        .collect::<Vec<_>>();

    assert_eq!(actual, expected);
}

#[test]
fn local_spammer_uses_relayer() {
    let mut args = test_args(true);
    args.relayer = true;
    let commands = commands(&args, &local_args(), &["aa", "bb"]);

    assert_eq!(commands.len(), 4);
    assert!(commands[2].contains("secondary-0.yaml"));
    assert!(commands[3].contains("constantinople-spammer"));
    assert!(commands[3].contains("--relayer-url http://127.0.0.1:8082"));
    assert!(commands[3].contains("--relayer-submitters 2"));
    assert!(commands[3].contains("--relayer-targets aa,bb"));
    assert!(commands[3].contains("--presigned-batches 16"));
    assert!(!commands[3].contains("--peers"));
}

#[test]
fn local_run_commands_propagate_accounts_jitter_to_spammer() {
    let mut args = test_args(true);
    args.relayer = true;
    args.spammer_accounts_jitter = format!("{}", 0.25f64);
    let commands = commands(&args, &local_args(), &[]);

    assert!(commands[3].contains("--accounts-jitter 0.25"));
}

#[test]
fn local_run_commands_propagate_presigned_batches_to_spammer() {
    let mut args = test_args(true);
    args.relayer = true;
    args.spammer_presigned_batches = 32;
    let commands = commands(&args, &local_args(), &[]);

    assert!(commands[3].contains("--presigned-batches 32"));
}

#[test]
fn local_run_commands_propagate_rayon_threads_to_spammer() {
    let mut args = test_args(true);
    args.relayer = true;
    args.spammer_rayon_threads = 6;
    let commands = commands(&args, &local_args(), &[]);

    assert!(commands[3].contains("--rayon-threads 6"));
}

#[test]
fn local_run_commands_include_indexer_and_relayer_stack() {
    let mut args = test_args(false);
    args.indexer = true;
    args.relayer = true;
    let commands = commands(&args, &local_args(), &[]);

    assert_eq!(commands.len(), 8);
    assert!(commands[2].contains("secondary-0.yaml"));
    assert!(commands[3].contains("secondary-1.yaml"));
}

#[test]
fn local_run_commands_do_not_sleep() {
    let mut args = test_args(true);
    args.relayer = true;
    let commands = commands(&args, &local_args(), &[]);

    assert!(
        commands.iter().all(|command| !command.contains("sleep ")),
        "local commands should start directly: {commands:?}"
    );
}

#[test]
fn local_run_commands_include_indexer_stack() {
    let mut args = test_args(false);
    args.indexer = true;
    args.relayer = true;
    let commands = commands(&args, &local_ports(8090, 8091, 8092), &[]);

    // 2 validators + 1 indexer secondary + 1 relayer secondary + store/sql/qmdb + explorer.
    assert_eq!(commands.len(), 8);
    let indexer_cmd = commands
        .iter()
        .find(|c| c.contains("--bin chain-indexer"))
        .expect("chain-indexer command should be present");
    assert!(indexer_cmd.contains("--port 8090"));
    assert!(indexer_cmd.contains("--metrics-port 9094"));
    assert!(indexer_cmd.contains("--data-dir /tmp/configs/chain-indexer"));
}

#[test]
fn chain_indexer_parallelism_is_passed_on() {
    let mut args = test_args(false);
    args.indexer = true;
    let local = LocalArgs {
        chain_indexer_db_parallelism: Some(6),
        ..local_args()
    };
    let commands = commands(&args, &local, &[]);

    assert_eq!(
        commands[3],
        "cargo run --release -p constantinople-indexer --bin chain-indexer -- --port 8090 \
         --metrics-port 9093 --data-dir /tmp/configs/chain-indexer --db-parallelism 6"
    );
}

#[test]
fn local_indexer_and_spammer_metrics_ports_do_not_overlap() {
    let mut args = test_args(true);
    args.validators = 4;
    args.indexer = true;
    args.relayer = true;
    let commands = commands(&args, &local_args(), &[]);

    let indexer = commands
        .iter()
        .find(|command| command.contains("--bin chain-indexer"))
        .expect("chain-indexer command should be present");
    let spammer = commands
        .iter()
        .find(|command| command.contains("constantinople-spammer"))
        .expect("spammer command should be present");
    assert!(indexer.contains("--metrics-port 9097"));
    assert!(spammer.contains("--metrics-port 9096"));
}

#[test]
fn large_full_stack_ports_are_globally_unique() {
    let mut args = test_args(true);
    args.validators = 13;
    args.indexer = true;
    args.relayer = true;

    let material = cluster_material(args.validators, total_secondaries(&args));
    let ports = LocalPortPlan::new(&args, &local_args()).expect("ports should be planned");
    let validators = build_validators(&args, &ports, "/tmp/configs", &material)
        .expect("every validator has a share");
    let secondaries = build_secondaries(&args, &ports, "/tmp/configs", &material);
    let commands = commands(&args, &local_args(), &[]);

    let nodes = validators.iter().chain(&secondaries).collect::<Vec<_>>();
    let mut seen = BTreeMap::new();
    for (index, node) in nodes.iter().enumerate() {
        assert_unique_port(&mut seen, node.config.listen_port, format!("node {index} p2p"));
        assert_unique_port(&mut seen, node.config.http_port, format!("node {index} HTTP"));
        assert_unique_port(
            &mut seen,
            node.config.metrics_port,
            format!("node {index} metrics"),
        );
    }

    let find = |text: &str| {
        commands
            .iter()
            .find(|command| command.contains(text))
            .unwrap_or_else(|| panic!("{text} command should be present"))
    };
    let chain_indexer = find("--bin chain-indexer");
    let metadata_indexer = find("--bin metadata-indexer");
    let qmdb_indexer = find("--bin qmdb-indexer");
    let explorer = find("npm --prefix explorer");
    let spammer = find("constantinople-spammer");

    let chain_indexer_port = command_flag_port(chain_indexer, "--port");
    let chain_indexer_metrics_port = command_flag_port(chain_indexer, "--metrics-port");
    let metadata_indexer_port = command_flag_port(metadata_indexer, "--port");
    let qmdb_indexer_port = command_flag_port(qmdb_indexer, "--port");
    let explorer_port = command_flag_port(explorer, "--port");
    let spammer_metrics_port = command_flag_port(spammer, "--metrics-port");
    for (port, owner) in [
        (chain_indexer_port, "chain-indexer service"),
        (chain_indexer_metrics_port, "chain-indexer metrics"),
        (metadata_indexer_port, "metadata-indexer service"),
        (qmdb_indexer_port, "qmdb-indexer service"),
        (explorer_port, "explorer service"),
        (spammer_metrics_port, "spammer metrics"),
    ] {
        assert_unique_port(&mut seen, port, owner);
    }

    assert_eq!(chain_indexer_port, 8095);
    assert_eq!(metadata_indexer_port, 8096);
    assert_eq!(qmdb_indexer_port, 8097);
    assert_eq!(explorer_port, 5173);
    assert_eq!(spammer_metrics_port, 9105);
    assert_eq!(chain_indexer_metrics_port, 9106);
    assert_eq!(seen.len(), nodes.len() * 3 + 6);
    assert_eq!(ports.reserved.reserved.len(), seen.len());
    assert_eq!(
        ports.reserved.reserved.get(&8095).map(String::as_str),
        Some("chain-indexer service")
    );

    let indexer = secondaries[0]
        .config
        .indexer
        .as_ref()
        .expect("indexer secondary should have indexer config");
    assert_eq!(
        indexer.chain_indexer_url,
        format!("http://127.0.0.1:{chain_indexer_port}")
    );
    let relayer = secondaries[1]
        .config
        .relayer
        .as_ref()
        .expect("relayer secondary should have relayer config");
    let expected_relayer_urls = nodes
        .iter()
        .map(|node| format!("http://127.0.0.1:{}", node.config.http_port))
        .collect::<Vec<_>>();
    let actual_relayer_urls = relayer
        .leaders
        .iter()
        .map(|leader| leader.url.clone())
        .collect::<Vec<_>>();
    assert_eq!(actual_relayer_urls, expected_relayer_urls);
    assert!(spammer.contains("--relayer-url http://127.0.0.1:8094"));
    assert!(explorer.contains("VITE_SQL_URL=http://127.0.0.1:8096"));
    assert!(explorer.contains("VITE_QMDB_URL=http://127.0.0.1:8097"));
    assert!(explorer.contains("VITE_STORE_URL=http://127.0.0.1:8095"));
    assert!(explorer.contains("VITE_MEMPOOL_URL=http://127.0.0.1:8094"));
}

#[test]
#[should_panic(expected = "assigned to both")]
fn local_port_plan_rejects_overlapping_node_ranges() {
    let args = test_args(false);
    let mut local = local_args();
    local.base_metrics_port = local.base_port;

    LocalPortPlan::new(&args, &local).unwrap();
}

#[test]
fn port_plan_names_both_owners_of_a_port() {
    let args = test_args(false);
    let local = LocalArgs {
        base_metrics_port: 9000,
        ..local_args()
    };

    assert_eq!(
        LocalPortPlan::new(&args, &local).err(),
        Some("local port 9000 is assigned to both node 0 p2p and node 0 metrics".to_string())
    );
}

#[test]
fn port_plan_bounds_the_validator_count() {
    let mut args = test_args(false);
    args.validators = 0;
    assert_eq!(
        LocalPortPlan::new(&args, &local_args()).err(),
        Some("need at least one validator".to_string())
    );
    args.validators = 65;
    assert_eq!(
        LocalPortPlan::new(&args, &local_args()).err(),
        Some("local deployments support at most 64 validators".to_string())
    );
    args.validators = 64;
    let plan = LocalPortPlan::new(&args, &local_args()).expect("64 validators fit");
    assert_eq!(plan.nodes.len(), 64);
    assert_eq!(plan.validator(63).p2p, 9063);
}

#[test]
fn port_plan_rejects_ranges_that_overflow() {
    let args = test_args(false);
    let local = LocalArgs {
        base_metrics_port: 65535,
        ..local_args()
    };
    assert_eq!(
        LocalPortPlan::new(&args, &local).err(),
        Some("local port range for node metrics overflows u16".to_string())
    );
    let local = LocalArgs {
        base_port: 0,
        ..local_args()
    };
    assert_eq!(
        LocalPortPlan::new(&args, &local).err(),
        Some("local port for node 0 p2p must be non-zero".to_string())
    );
    assert_eq!(
        offset_port(1, 65536, "x"),
        Err("local port offset for x does not fit in u16".to_string())
    );
    assert_eq!(offset_port(9000, 7, "x"), Ok(9007));
}

#[test]
fn secondaries_follow_validators_in_the_port_plan() {
    let mut args = test_args(false);
    args.indexer = true;
    args.relayer = true;
    let plan = LocalPortPlan::new(&args, &local_args()).expect("ports should be planned");

    assert_eq!(plan.secondary(2, 1).http, 8083);
    assert_eq!(plan.relayer_http, Some(8083));
}

#[test]
fn preferred_ports_move_up_past_owned_ones() {
    let mut ports = PortMap::new();
    ports
        .reserve_exact(8090, "taken".to_string())
        .expect("port is free");
    assert_eq!(ports.reserve_preferred(8090, "service"), Ok(8091));
    assert_eq!(ports.reserve_preferred(8090, "other"), Ok(8092));
    assert_eq!(ports.reserve_preferred(7000, "free"), Ok(7000));
    assert_eq!(
        ports.reserve_preferred(0, "zero"),
        Err("preferred local port for zero is zero".to_string())
    );
    ports
        .reserve_exact(65535, "last".to_string())
        .expect("port is free");
    assert_eq!(
        ports.reserve_preferred(65535, "late"),
        Err("no local port is available for late at or above 65535".to_string())
    );
    ports.reserve_if_free(7000, "ignored".to_string());
    assert_eq!(ports.reserved.get(&7000).map(String::as_str), Some("free"));
}

#[test]
fn indexer_metrics_collision_fails_before_writing_bundle() {
    let mut args = test_args(false);
    args.validators = 4;
    args.indexer = true;
    let local = LocalArgs {
        base_metrics_port: 8085,
        ..local_args()
    };
    let message = plan_bundle(&args, &local).expect_err("port collision must reject the bundle");

    assert!(
        message.contains(
            "port 8090 collision between chain-indexer Store and chain-indexer metrics"
        ),
        "{message}"
    );
    let material = cluster_material(args.validators, total_secondaries(&args));
    assert!(generate(&args, &local, "/tmp/configs", &material, "abcdef").is_err());
}

#[test]
fn distinct_ports_are_assigned_and_collisions_named() {
    let mut ports = Ports::new();
    assert_eq!(ports.insert("a".to_string(), 1), Ok(()));
    assert_eq!(
        ports.insert("b".to_string(), 1),
        Err("port 1 collision between a and b".to_string())
    );
    assert_eq!(
        ports.insert("c".to_string(), 0),
        Err("c requires a fixed nonzero port".to_string())
    );
    assert_eq!(ports.insert_range("none", 5, 0), Ok(()));
    assert_eq!(ports.insert_range("node", 10, 3), Ok(()));
    assert_eq!(ports.services.get(&12).map(String::as_str), Some("node 2"));
    assert_eq!(
        ports.insert_range("other", 8, 4),
        Err("port 10 collision between node 0 and other 2".to_string())
    );
    assert_eq!(ports.services.get(&9).map(String::as_str), Some("other 1"));
    assert_eq!(
        ports.insert_range("far", 65530, 7),
        Err("far port range overflow".to_string())
    );
    assert_eq!(ports.insert_range("edge", 65530, 6), Ok(()));
}

#[test]
fn local_run_commands_include_metadata_indexer_when_indexer_enabled() {
    let mut args = test_args(false);
    args.indexer = true;
    let commands = commands(&args, &local_ports(8090, 8091, 8092), &[]);

    let metadata_cmd = commands
        .iter()
        .find(|c| c.contains("--bin metadata-indexer"))
        .expect("metadata-indexer command should be present");
    // The metadata service reads from the store and serves on its own port.
    assert!(metadata_cmd.contains("--store-url http://127.0.0.1:8090"));
    assert!(metadata_cmd.contains("--port 8091"));
}

#[test]
fn local_run_commands_include_qmdb_indexer_when_indexer_enabled() {
    let mut args = test_args(false);
    args.indexer = true;
    let commands = commands(&args, &local_ports(8090, 8091, 8092), &[]);

    let qmdb_cmd = commands
        .iter()
        .find(|c| c.contains("--bin qmdb-indexer"))
        .expect("qmdb-indexer command should be present");
    assert!(qmdb_cmd.contains("--store-url http://127.0.0.1:8090"));
    assert!(qmdb_cmd.contains("--port 8092"));
}

#[test]
fn local_run_commands_include_explorer_when_indexer_enabled() {
    let mut args = test_args(false);
    args.indexer = true;
    let commands = commands(&args, &local_ports(18_090, 18_091, 18_092), &[]);

    let explorer_cmd = commands
        .iter()
        .find(|c| c.contains("npm --prefix explorer"))
        .expect("explorer dev server command should be present");
    assert!(explorer_cmd.contains("VITE_SQL_URL=http://127.0.0.1:18091"));
    assert!(explorer_cmd.contains("VITE_QMDB_URL=http://127.0.0.1:18092"));
    assert!(explorer_cmd.contains("VITE_STORE_URL=http://127.0.0.1:18090"));
    assert!(explorer_cmd.contains("VITE_SIMPLEX_VERIFICATION_MATERIAL=abcdef"));
    assert!(!explorer_cmd.contains("VITE_INDEXER_URL"));
    assert!(explorer_cmd.contains("run dev -- --port 5173"));
}

#[test]
fn local_run_commands_omit_explorer_without_indexer() {
    let args = test_args(false);
    let commands = commands(&args, &local_args(), &[]);

    assert!(
        commands
            .iter()
            .all(|c| !c.contains("npm --prefix explorer")),
        "explorer must only launch when indexer is enabled: {commands:?}"
    );
}

#[test]
fn secondary_yaml_gets_full_indexer() {
    let mut args = test_args(false);
    args.indexer = true;
    args.relayer = true;
    let local = local_ports(8090, 8091, 8092);

    let material = cluster_material(args.validators, total_secondaries(&args));
    let ports = LocalPortPlan::new(&args, &local).expect("ports should be planned");
    let validators = build_validators(&args, &ports, "/tmp/configs", &material)
        .expect("every validator has a share");
    let secondaries = build_secondaries(&args, &ports, "/tmp/configs", &material);
    let indexer_public_key_hex = hex(&material.secondary_public_keys[0]);

    // The uploader is a bootstrap secondary, never an epoch-zero DKG
    // participant, and every node keeps it in its bootstrap peer set.
    assert!(validators.iter().all(|v| v.config.indexer.is_none()));
    assert!(material
        .shares
        .iter()
        .all(|share| share.public_key != material.secondary_public_keys[0]));
    assert!(secondaries[0].config.dkg_share.is_empty());
    assert_eq!(secondaries[0].peer.name, indexer_public_key_hex);
    assert!(validators.iter().chain(&secondaries).all(|validator| {
        !validator
            .config
            .primary_validators
            .contains(&indexer_public_key_hex)
            && validator
                .config
                .secondary_validators
                .contains(&indexer_public_key_hex)
            && validator.config.peers.contains(&indexer_public_key_hex)
    }));
    assert!(validators.iter().all(|v| v.config.peers.len() == 4));
    assert!(secondaries.iter().all(|v| v.config.peers.len() == 4));

    // Secondaries point at the configured shared store URL.
    let indexer = secondaries[0]
        .config
        .indexer
        .as_ref()
        .expect("secondary should have indexer config");
    assert_eq!(indexer.limits, UploadLimits::Buffer(64));
    let expected_url = "http://127.0.0.1:8090".to_string();
    assert_eq!(indexer.chain_indexer_url, expected_url);
    assert!(
        secondaries[1].config.indexer.is_none(),
        "relayer secondary should not have indexer config"
    );
    assert!(
        secondaries[1].config.relayer.is_some(),
        "last secondary should run relayer"
    );
}

#[test]
fn validators_only_has_no_indexer_configs() {
    let args = test_args(false);

    let material = cluster_material(args.validators, total_secondaries(&args));
    let ports = LocalPortPlan::new(&args, &local_args()).expect("ports should be planned");
    let validators = build_validators(&args, &ports, "/tmp/configs", &material)
        .expect("every validator has a share");

    assert!(validators.iter().all(|v| v.config.indexer.is_none()));
    assert_eq!(validators[1].config_file, "/tmp/configs/validator-1.yaml");
    assert_eq!(validators[1].config.private_key, hex(&key(0x22, 1)));
    assert_eq!(validators[1].config.dkg_share, hex(&key(0x33, 1)));
    assert_eq!(validators[1].config.dkg_output, "d00f");
    assert_eq!(validators[1].config.partition_prefix, "validator-1");
    assert_eq!(validators[1].peer.p2p, "127.0.0.1:9001");
    assert_eq!(validators[1].peer.http, "127.0.0.1:8081");
}

#[test]
fn a_validator_without_a_share_is_refused() {
    let args = test_args(false);
    let mut material = cluster_material(args.validators, 0);
    material.shares.pop();
    let ports = LocalPortPlan::new(&args, &local_args()).expect("ports should be planned");

    assert_eq!(
        build_validators(&args, &ports, "/tmp/configs", &material).err(),
        Some("missing share for validator".to_string())
    );
}

#[test]
fn startup_mode_defaults_to_marshal_sync() {
    assert_eq!(StartupModeConfig::default(), StartupModeConfig::MarshalSync);
}

#[test]
fn local_bundle_holds_nodes_ports_and_commands() {
    let mut args = test_args(true);
    args.relayer = true;
    let material = cluster_material(args.validators, total_secondaries(&args));
    let bundle = generate(&args, &local_args(), "/tmp/configs/", &material, "abcdef")
        .expect("bundle should be generated");

    assert_eq!(bundle.validators.len(), 2);
    assert_eq!(bundle.secondaries.len(), 1);
    assert_eq!(bundle.commands.len(), 4);
    assert_eq!(
        bundle.secondaries[0].config_file,
        "/tmp/configs/secondary-0.yaml"
    );
    assert_eq!(bundle.ports.reserved.reserved.len(), 10);

    let mut orphan = test_args(true);
    orphan.validators = 2;
    assert_eq!(
        generate(&orphan, &local_args(), "/tmp/configs", &cluster_material(2, 0), "abcdef").err(),
        Some("--spammer requires --relayer".to_string())
    );
    assert_eq!(
        local_run_commands("/tmp", &orphan, &local_args(), &Vec::new(), "").err(),
        Some("--spammer requires a relayer secondary".to_string())
    );
}

#[test]
fn commands_are_quoted_on_one_line() {
    assert_eq!(mprocs_command(&Vec::new()), "mprocs ");
    assert_eq!(
        mprocs_command(&vec!["a b".to_string(), "c".to_string()]),
        "mprocs \"a b\" \"c\""
    );
    assert_eq!(join_path("", "x"), "x");
    assert_eq!(join_path("/", "x"), "/x");
    assert_eq!(join_path("d", "x"), "d/x");
}
