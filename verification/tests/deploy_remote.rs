//! Remote deployments: services, open ports and instances.

use constantinople::deploy::config::{
    total_secondaries, validate_generate_args, ClusterMaterial, GenerateArgs, Share, UploadLimits,
    ValidatorConfig, CHAIN_INDEXER_BINARY_FILE, DEFAULT_SPAMMER_PRESIGNED_BATCHES,
    DEFAULT_SPAMMER_RAYON_THREADS, METADATA_INDEXER_BINARY_FILE, QMDB_INDEXER_BINARY_FILE,
};
use constantinople::deploy::remote::{
    build_deployer_config, build_secondaries, build_validators, chain_indexer_config,
    expected_binary_files, generate, metadata_indexer_config, port_configs, qmdb_indexer_config,
    remote_indexer_config, remote_spammer_config, store_url, validate_remote, DeployerConfig,
    GeneratedValidator, RemoteArgs, CHAIN_INDEXER_STORAGE_CLASS, EXOWARE_AVAILABILITY_ZONE_GROUP,
    STORAGE_CLASS, VALIDATOR_BINARY_FILE,
};
use constantinople::validator::run::StartupModeConfig;

const DEFAULT_CHAIN_INDEXER_INSTANCE_TYPE: &str = "r8g.2xlarge";
const DEFAULT_CHAIN_INDEXER_STORAGE_SIZE: i32 = 500;
const DEFAULT_CHAIN_INDEXER_STORAGE_IOPS: i32 = 16_000;

fn generate_args() -> GenerateArgs {
    GenerateArgs {
        validators: 3,
        indexer: false,
        relayer: false,
        log_level: "info".to_string(),
        worker_threads: 2,
        rayon_threads: 2,
        public_key_cache_size: 1024,
        max_propose_bytes: 4096,
        max_pool_bytes: 8192,
        state_page_cache_bytes: 1 << 20,
        other_page_cache_bytes: 1 << 19,
        startup: StartupModeConfig::MarshalSync,
        spammer: false,
        spammer_accounts: 10,
        spammer_value: 1,
        spammer_seed_offset: None,
        spammer_rayon_threads: DEFAULT_SPAMMER_RAYON_THREADS,
        spammer_accounts_jitter: "0".to_string(),
        spammer_submitters: None,
        spammer_presigned_batches: DEFAULT_SPAMMER_PRESIGNED_BATCHES,
    }
}

fn remote_args() -> RemoteArgs {
    RemoteArgs {
        regions: vec!["us-east-1".to_string(), "us-west-2".to_string()],
        instance_type: "c8g.large".to_string(),
        indexer_instance_type: Some("c8g.2xlarge".to_string()),
        storage_size: 25,
        storage_iops: None,
        storage_throughput: None,
        chain_indexer_url: None,
        metadata_indexer_url: None,
        qmdb_indexer_url: None,
        chain_indexer_api_key: None,
        adapter_store_api_key: None,
        chain_indexer_instance_type: DEFAULT_CHAIN_INDEXER_INSTANCE_TYPE.to_string(),
        chain_indexer_storage_size: DEFAULT_CHAIN_INDEXER_STORAGE_SIZE,
        chain_indexer_storage_iops: DEFAULT_CHAIN_INDEXER_STORAGE_IOPS,
        monitoring_instance_type: "c8g.2xlarge".to_string(),
        monitoring_storage_size: 100,
        listen_port: 9000,
        http_port: 8080,
        http_cidrs: vec!["198.51.100.4/32".to_string()],
        chain_indexer_port: 8090,
        chain_indexer_db_parallelism: None,
        metadata_indexer_port: 8091,
        qmdb_indexer_port: 8092,
        profiling: true,
        traces: "0".to_string(),
        spammer_instance_type: None,
        spammer_storage_size: 25,
    }
}

fn config(index: u32) -> ValidatorConfig {
    ValidatorConfig {
        private_key: "private".to_string(),
        dkg_output: "output".to_string(),
        dkg_share: "share".to_string(),
        startup: StartupModeConfig::MarshalSync,
        listen_port: 9000,
        genesis_leader: "leader".to_string(),
        partition_prefix: format!("validator-{index}"),
        num_validators: 3,
        primary_validators: Vec::new(),
        secondary_validators: Vec::new(),
        log_level: "info".to_string(),
        worker_threads: 2,
        rayon_threads: 2,
        http_port: 8080,
        metrics_port: 9090,
        max_propose_bytes: 4096,
        max_pool_bytes: 8192,
        state_page_cache_bytes: 1 << 20,
        other_page_cache_bytes: 1 << 19,
        public_key_cache_size: 1024,
        traces: "0".to_string(),
        peers: Vec::new(),
        indexer: None,
        relayer: None,
    }
}

fn validator(index: u32) -> GeneratedValidator {
    GeneratedValidator {
        public_key_hex: format!("validator-{index}"),
        config_name: format!("validator-{index}.yaml"),
        config_file: format!("/tmp/validator-{index}.yaml"),
        config: config(index),
    }
}

fn secondary(index: u32, config: ValidatorConfig) -> GeneratedValidator {
    GeneratedValidator {
        public_key_hex: format!("secondary-{index}"),
        config_name: format!("secondary-{index}.yaml"),
        config_file: format!("/tmp/secondary-{index}.yaml"),
        config,
    }
}

fn key(kind: u8, index: usize) -> Vec<u8> {
    let mut bytes = vec![kind; 32];
    bytes[31] = index as u8;
    bytes
}

fn cluster_material(validators: u32, secondaries: u32) -> ClusterMaterial {
    ClusterMaterial {
        signers: (0..validators as usize).map(|i| key(0x22, i)).collect(),
        public_keys: (0..validators as usize).map(|i| key(0x11, i)).collect(),
        secondary_signers: (0..secondaries as usize).map(|i| key(0x55, i)).collect(),
        secondary_public_keys: (0..secondaries as usize).map(|i| key(0x44, i)).collect(),
        shares: (0..validators as usize)
            .map(|i| Share {
                public_key: key(0x11, i),
                share: key(0x33, i),
            })
            .collect(),
        dkg_output: vec![0xd0],
        genesis_leader: "leader".to_string(),
    }
}

fn hex(bytes: &[u8]) -> String {
    bytes.iter().map(|byte| format!("{byte:02x}")).collect()
}

fn deployer(
    args: &GenerateArgs,
    remote: &RemoteArgs,
    validators: &Vec<GeneratedValidator>,
    secondaries: &Vec<GeneratedValidator>,
) -> DeployerConfig {
    build_deployer_config(
        args,
        remote,
        VALIDATOR_BINARY_FILE,
        "dashboard.json",
        "tag".to_string(),
        validators,
        secondaries,
    )
}

#[test]
fn remote_deployer_config_only_includes_validators() {
    let args = generate_args();
    let remote = remote_args();
    let validators = vec![validator(0), validator(1), validator(2)];
    let config = deployer(&args, &remote, &validators, &Vec::new());

    assert!(!config.tag.is_empty());
    assert_eq!(config.instances.len(), args.validators as usize);
    assert_eq!(config.instances[0].region, "us-east-1");
    assert_eq!(config.instances[1].region, "us-west-2");
    assert_eq!(config.instances[2].region, "us-east-1");
    assert_eq!(config.instances[0].storage_class, STORAGE_CLASS);
    assert_eq!(config.instances[0].availability_zone_group, None);
    assert_eq!(config.instances[0].storage_iops, None);
    assert_eq!(config.instances[0].binary, VALIDATOR_BINARY_FILE);
    assert_eq!(config.instances[0].config, "validator-0.yaml");
    assert_eq!(config.monitoring.storage_iops, None);
    assert_eq!(config.monitoring.dashboard, "dashboard.json");
    assert_eq!(config.ports[0].port, 9000);
    assert_eq!(config.ports[1].port, 8080);
    assert_eq!(config.ports[1].cidr, "198.51.100.4/32");
}

#[test]
fn remote_deployer_config_runs_relayer_as_secondary() {
    let mut args = generate_args();
    args.relayer = true;
    let remote = remote_args();
    let validators = vec![validator(0), validator(1), validator(2)];
    let material = cluster_material(args.validators, total_secondaries(&args));
    let secondaries = build_secondaries(&args, &remote, "/tmp", &material, &Vec::new());
    let config = deployer(&args, &remote, &validators, &secondaries);

    assert_eq!(config.instances.len(), args.validators as usize + 1);
    let relayer = secondaries
        .iter()
        .find(|secondary| secondary.config.relayer.is_some())
        .expect("relayer secondary should be present");
    let instance = config
        .instances
        .iter()
        .find(|instance| instance.name == relayer.public_key_hex)
        .expect("relayer secondary instance should be present");
    assert_eq!(instance.binary, VALIDATOR_BINARY_FILE);
    assert_eq!(instance.config, relayer.config_name);
}

#[test]
fn remote_spammer_requires_relayer() {
    let mut args = generate_args();
    args.spammer = true;

    let message =
        validate_generate_args(&args).expect_err("spammer without relayer should fail validation");
    assert!(message.contains("--spammer requires --relayer"));
}

#[test]
fn remote_spammer_config_uses_relayer() {
    let mut args = generate_args();
    args.spammer = true;
    args.relayer = true;
    let remote = remote_args();
    let relayed_material = cluster_material(args.validators, total_secondaries(&args));
    let relayed = remote_spammer_config(&args, &remote, &relayed_material);
    let relayer_key = hex(&relayed_material.secondary_public_keys[0]);

    assert_eq!(relayed.relayer_url, format!("http://{relayer_key}:8080"));
    assert_eq!(relayed.relayer_submitters, args.validators as usize);
    assert!(relayed.seed_offset.is_none());
    assert_eq!(relayed.rayon_threads, DEFAULT_SPAMMER_RAYON_THREADS);
    assert_eq!(relayed.presigned_batches, DEFAULT_SPAMMER_PRESIGNED_BATCHES);
}

#[test]
fn remote_spammer_config_propagates_deterministic_seed_offset() {
    let mut args = generate_args();
    args.spammer = true;
    args.relayer = true;
    args.spammer_seed_offset = Some(2000);
    let remote = remote_args();
    let material = cluster_material(args.validators, total_secondaries(&args));

    let config = remote_spammer_config(&args, &remote, &material);

    assert_eq!(config.seed_offset, Some(2000));
}

// Offered load is submitters x accounts per round trip, so the flag exists to
// hold load constant when the validator count changes.
#[test]
fn remote_spammer_submitters_flag_overrides_validator_count() {
    let mut args = generate_args();
    args.spammer = true;
    args.relayer = true;
    args.spammer_submitters = Some(50);
    let remote = remote_args();
    let material = cluster_material(args.validators, total_secondaries(&args));

    let relayed = remote_spammer_config(&args, &remote, &material);

    assert_eq!(relayed.relayer_submitters, 50);
}

#[test]
fn remote_deployer_config_includes_secondaries_and_indexers() {
    let mut args = generate_args();
    args.indexer = true;
    args.relayer = true;
    let remote = remote_args();
    let validators = vec![validator(0), validator(1), validator(2)];
    let mut indexer_secondary_config = config(0);
    indexer_secondary_config.indexer = Some(remote_indexer_config(&remote));
    let secondaries = vec![
        secondary(0, indexer_secondary_config),
        secondary(1, config(0)),
    ];
    let config = deployer(&args, &remote, &validators, &secondaries);

    // 3 primaries + 2 secondaries + shared chain/sql/qmdb indexers.
    assert_eq!(config.instances.len(), 8);
    assert_eq!(config.instances[3].name, "secondary-0");
    assert_eq!(config.instances[3].binary, VALIDATOR_BINARY_FILE);
    assert_eq!(config.instances[3].config, "secondary-0.yaml");
    assert_eq!(config.instances[3].instance_type, "c8g.2xlarge");
    assert_eq!(config.instances[4].name, "secondary-1");
    assert_eq!(config.instances[4].instance_type, "c8g.large");
}

#[test]
fn remote_ports_only_open_http_for_explicit_cidrs() {
    let args = generate_args();
    let mut remote = remote_args();
    remote.http_cidrs.clear();

    let ports = port_configs(&args, &remote);

    assert_eq!(ports.len(), 1);
    assert_eq!(ports[0].port, 9000);
}

// An external store must replace the chain-indexer wholesale: every consumer
// dials the URL verbatim, and nothing that exists only to serve the local
// simulator (instance, config, port rule) is generated.
#[test]
fn remote_external_store_url_replaces_chain_indexer() {
    let mut args = generate_args();
    args.indexer = true;
    args.relayer = true;
    let mut remote = remote_args();
    remote.chain_indexer_url = Some("https://store.example.xyz".to_string());
    let material = cluster_material(args.validators, total_secondaries(&args));

    let secondaries = build_secondaries(&args, &remote, "/tmp/configs", &material, &Vec::new());
    let indexer = secondaries[0]
        .config
        .indexer
        .as_ref()
        .expect("secondary should have indexer wiring");
    assert_eq!(indexer.chain_indexer_url, "https://store.example.xyz");

    assert!(
        chain_indexer_config(&args, &remote).is_none(),
        "no chain-indexer config should be generated for an external store"
    );
    let metadata = metadata_indexer_config(&args, &remote)
        .expect("metadata indexer should still be generated");
    assert_eq!(metadata.chain_indexer_url, "https://store.example.xyz");
    let qmdb =
        qmdb_indexer_config(&args, &remote).expect("qmdb indexer should still be generated");
    assert_eq!(qmdb.chain_indexer_url, "https://store.example.xyz");

    let validators = vec![validator(0), validator(1), validator(2)];
    let config = deployer(&args, &remote, &validators, &secondaries);

    // 3 primaries + 2 secondaries + metadata/qmdb indexers; no chain-indexer.
    assert_eq!(config.instances.len(), 7);
    assert!(
        config.instances.iter().all(|i| i.name != "chain-indexer"),
        "no chain-indexer instance should be provisioned for an external store"
    );

    let ports = port_configs(&args, &remote);
    assert!(
        ports.iter().all(|p| p.port != remote.chain_indexer_port),
        "the chain-indexer port should not be opened for an external store"
    );
}

#[test]
fn remote_adapter_replacement_matrix_preserves_store_and_credentials() {
    const STORE_URL: &str = "https://store.example.xyz";
    const METADATA_URL: &str = "https://sql.example.xyz";
    const QMDB_URL: &str = "https://qmdb.example.xyz";
    const WRITER_KEY: &str = "writer-key";
    const READER_KEY: &str = "reader-key";

    let cases = [
        ("no remote adapters", false, false),
        ("metadata only", true, false),
        ("QMDB only", false, true),
        ("both adapters", true, true),
    ];

    for (name, remote_metadata, remote_qmdb) in cases {
        let mut args = generate_args();
        args.indexer = true;
        args.relayer = true;

        let mut remote = remote_args();
        remote.chain_indexer_url = Some(STORE_URL.to_string());
        remote.metadata_indexer_url = remote_metadata.then(|| METADATA_URL.to_string());
        remote.qmdb_indexer_url = remote_qmdb.then(|| QMDB_URL.to_string());
        remote.chain_indexer_api_key = Some(WRITER_KEY.to_string());
        remote.adapter_store_api_key = Some(READER_KEY.to_string());

        let material = cluster_material(args.validators, total_secondaries(&args));
        let secondaries =
            build_secondaries(&args, &remote, "/tmp/configs", &material, &Vec::new());
        let indexer = secondaries[0]
            .config
            .indexer
            .as_ref()
            .expect("the owning secondary should have indexer wiring");

        assert_eq!(indexer.chain_indexer_url, STORE_URL, "{}", name);
        assert_eq!(indexer.api_key.as_deref(), Some(WRITER_KEY), "{}", name);
        assert!(secondaries[1].config.indexer.is_none(), "{}", name);
        assert!(chain_indexer_config(&args, &remote).is_none(), "{}", name);

        let metadata = metadata_indexer_config(&args, &remote);
        let qmdb = qmdb_indexer_config(&args, &remote);
        assert_eq!(metadata.is_some(), !remote_metadata, "{}", name);
        assert_eq!(qmdb.is_some(), !remote_qmdb, "{}", name);

        for config in [&metadata, &qmdb].into_iter().flatten() {
            assert_eq!(config.chain_indexer_url, STORE_URL, "{}", name);
            assert_eq!(config.api_key.as_deref(), Some(READER_KEY), "{}", name);
        }

        let validators = vec![validator(0), validator(1), validator(2)];
        let deployer = deployer(&args, &remote, &validators, &secondaries);
        let has_instance = |name: &str| {
            deployer
                .instances
                .iter()
                .any(|instance| instance.name == name)
        };
        assert!(!has_instance("chain-indexer"), "{}", name);
        assert_eq!(has_instance("metadata-indexer"), !remote_metadata, "{}", name);
        assert_eq!(has_instance("qmdb-indexer"), !remote_qmdb, "{}", name);
        assert_eq!(
            deployer.instances.len(),
            validators.len()
                + secondaries.len()
                + usize::from(!remote_metadata)
                + usize::from(!remote_qmdb),
            "{}",
            name
        );

        let mut binaries = vec![VALIDATOR_BINARY_FILE];
        if !remote_metadata {
            binaries.push(METADATA_INDEXER_BINARY_FILE);
        }
        if !remote_qmdb {
            binaries.push(QMDB_INDEXER_BINARY_FILE);
        }
        assert_eq!(expected_binary_files(&args, &remote), binaries, "{}", name);

        let ports = port_configs(&args, &remote);
        let has_port = |port| ports.iter().any(|config| config.port == port);
        assert!(!has_port(remote.chain_indexer_port), "{}", name);
        assert_eq!(has_port(remote.metadata_indexer_port), !remote_metadata, "{}", name);
        assert_eq!(has_port(remote.qmdb_indexer_port), !remote_qmdb, "{}", name);

        let mut generated = validators
            .iter()
            .chain(&secondaries)
            .map(|node| format!("{:?}", node.config))
            .collect::<Vec<_>>();
        let count = |texts: &Vec<String>, key: &str| {
            texts
                .iter()
                .map(|raw| raw.matches(key).count())
                .sum::<usize>()
        };
        assert_eq!(count(&generated, WRITER_KEY), 1, "{}", name);
        assert!(generated.iter().all(|raw| !raw.contains(READER_KEY)), "{}", name);

        generated.extend(
            [&metadata, &qmdb]
                .into_iter()
                .flatten()
                .map(|config| format!("{config:?}")),
        );
        generated.push(format!("{deployer:?}"));
        assert_eq!(count(&generated, WRITER_KEY), 1, "{}", name);
        assert_eq!(
            count(&generated, READER_KEY),
            usize::from(!remote_metadata) + usize::from(!remote_qmdb),
            "{}",
            name
        );
        assert!(generated.iter().all(|raw| !raw.contains(METADATA_URL)), "{}", name);
        assert!(generated.iter().all(|raw| !raw.contains(QMDB_URL)), "{}", name);
    }
}

#[test]
fn remote_secondaries_get_shared_chain_indexer_wiring() {
    let mut args = generate_args();
    args.indexer = true;
    args.relayer = true;
    let remote = remote_args();
    let material = cluster_material(args.validators, total_secondaries(&args));

    let secondaries = build_secondaries(&args, &remote, "/tmp/configs", &material, &Vec::new());

    let indexer = secondaries[0]
        .config
        .indexer
        .as_ref()
        .expect("secondary should have indexer wiring");
    assert_eq!(indexer.chain_indexer_url, "http://chain-indexer:8090");
    assert_eq!(
        indexer.limits,
        UploadLimits::Budget {
            max_in_flight: 12,
            budget_bytes: 3 * 1024 * 1024 * 1024,
        }
    );
    assert!(
        secondaries[1].config.indexer.is_none(),
        "relayer secondary should not have indexer wiring"
    );
    let relayer = secondaries[1]
        .config
        .relayer
        .as_ref()
        .expect("last secondary should run relayer");
    assert_eq!(relayer.leaders.len(), 3);
    assert_eq!(
        relayer.leaders[2].url,
        format!("http://{}:8080", hex(&key(0x11, 2)))
    );
}

#[test]
fn remote_deployer_config_includes_shared_indexer_services() {
    let mut args = generate_args();
    args.indexer = true;
    args.relayer = true;
    let remote = remote_args();
    let validators = vec![validator(0), validator(1), validator(2)];
    let mut indexer_secondary_config = config(0);
    indexer_secondary_config.indexer = Some(remote_indexer_config(&remote));
    let secondaries = vec![
        secondary(0, indexer_secondary_config),
        secondary(1, config(0)),
    ];
    let config = deployer(&args, &remote, &validators, &secondaries);

    assert_eq!(config.instances.len(), 8);
    assert_eq!(config.instances[5].name, "chain-indexer");
    assert_eq!(config.instances[5].binary, CHAIN_INDEXER_BINARY_FILE);
    assert_eq!(
        config.instances[5].instance_type,
        DEFAULT_CHAIN_INDEXER_INSTANCE_TYPE
    );
    assert_eq!(
        config.instances[5].availability_zone_group.as_deref(),
        Some(EXOWARE_AVAILABILITY_ZONE_GROUP)
    );
    assert_eq!(
        config.instances[5].storage_class,
        CHAIN_INDEXER_STORAGE_CLASS
    );
    assert_eq!(
        config.instances[5].storage_size,
        DEFAULT_CHAIN_INDEXER_STORAGE_SIZE
    );
    assert_eq!(
        config.instances[5].storage_iops,
        Some(DEFAULT_CHAIN_INDEXER_STORAGE_IOPS)
    );
    assert_eq!(config.instances[6].name, "metadata-indexer");
    assert_eq!(config.instances[6].binary, METADATA_INDEXER_BINARY_FILE);
    assert_eq!(
        config.instances[6].availability_zone_group.as_deref(),
        Some(EXOWARE_AVAILABILITY_ZONE_GROUP)
    );
    assert_eq!(config.instances[7].name, "qmdb-indexer");
    assert_eq!(config.instances[7].binary, QMDB_INDEXER_BINARY_FILE);
    assert_eq!(
        config.instances[7].availability_zone_group.as_deref(),
        Some(EXOWARE_AVAILABILITY_ZONE_GROUP)
    );
    assert_eq!(config.instances[3].region, config.instances[5].region);
    assert_eq!(config.instances[4].region, config.instances[5].region);
    assert_eq!(config.instances[6].region, config.instances[5].region);
    assert_eq!(config.instances[7].region, config.instances[5].region);
    assert_eq!(
        config.instances[3].availability_zone_group.as_deref(),
        Some(EXOWARE_AVAILABILITY_ZONE_GROUP)
    );
    assert_eq!(config.instances[4].availability_zone_group, None);
    assert!(config.ports.iter().any(|port| port.port == 8090));
    assert!(config.ports.iter().any(|port| port.port == 8091));
    assert!(config.ports.iter().any(|port| port.port == 8092));
}

#[test]
fn remote_nodes_serve_metrics_where_the_deployer_scrapes() {
    let args = generate_args();
    let remote = remote_args();
    let material = cluster_material(3, 0);
    let bootstrappers = vec!["boot".to_string()];
    let validators = build_validators(&args, &remote, "/o", &material, &bootstrappers)
        .expect("every validator has a share");
    let name = hex(&key(0x11, 1));

    assert_eq!(
        validators[1].config.metrics_port,
        commonware_deployer::aws::METRICS_PORT
    );
    assert_eq!(validators[1].public_key_hex, name);
    assert_eq!(validators[1].config_name, format!("{name}.yaml"));
    assert_eq!(validators[1].config_file, format!("/o/{name}.yaml"));
    assert_eq!(validators[1].config.dkg_share, hex(&key(0x33, 1)));
    assert_eq!(validators[1].config.peers, bootstrappers);
}

#[test]
fn remote_bundle_has_what_is_deployed_along() {
    let mut args = generate_args();
    args.indexer = true;
    args.relayer = true;
    args.spammer = true;
    let remote = remote_args();
    let material = cluster_material(args.validators, total_secondaries(&args));
    let bundle = generate(
        &args,
        &remote,
        "/o",
        &material,
        &Vec::new(),
        "dashboard.json",
        "tag".to_string(),
    )
    .expect("bundle should be generated");

    assert_eq!(store_url(&remote), "http://chain-indexer:8090");
    assert_eq!(bundle.validators.len(), 3);
    assert_eq!(bundle.secondaries.len(), 2);
    let store = bundle.chain_indexer.expect("store is deployed along");
    assert_eq!(store.data_dir, "chain-indexer");
    assert!(bundle.metadata_indexer.is_some());
    assert!(bundle.qmdb_indexer.is_some());
    let spammer = bundle.spammer.expect("spammer is deployed along");
    assert_eq!(
        spammer.relayer_url,
        format!("http://{}:8080", hex(&key(0x44, 1)))
    );
    let instance = bundle.deployer.instances.last().expect("instances");
    assert_eq!(instance.name, "spammer");
    assert_eq!(instance.instance_type, "c8g.large");
    assert_eq!(bundle.deployer.tag, "tag");
}

#[test]
fn remote_deployments_need_validators_and_regions() {
    let mut args = generate_args();
    let mut remote = remote_args();
    assert_eq!(validate_remote(&args, &remote), Ok(()));
    args.validators = 1;
    assert_eq!(
        validate_remote(&args, &remote),
        Err("need at least one validator per region".to_string())
    );
    remote.regions.clear();
    assert_eq!(
        validate_remote(&args, &remote),
        Err("need at least one region".to_string())
    );
    args.validators = 0;
    assert_eq!(
        validate_remote(&args, &remote),
        Err("need at least one validator".to_string())
    );
}
