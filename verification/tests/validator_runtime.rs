//! The validator's relayer, start-up plan and runtime tasks.

use constantinople::validator::budget::{UploadBudget, FINALIZED_UPLOAD_BUDGET_QUANTUM_BYTES};
use constantinople::validator::leaders::{
    leader_by_id, next_leaders, normalize_leaders, Leader, LeaderFault, RelayerLeaderConfig,
};
use constantinople::validator::relayer::{
    account_key, account_response, admit_batch, aggregate, check_decoded, classify_forward,
    client_answer, fanout_for, max_request_bytes, max_transaction_count, pinned_response,
    public_targets, ready, requested_leader_fanout, requested_target_leader, route_submission,
    ForwardOutcome, Forwarding, LeaderResponse, RelayResponse, SubmitRoute, TxStatus, ViewClock,
    ACCEPTED, BAD_REQUEST, NOT_FOUND, PAYLOAD_TOO_LARGE, SERVICE_UNAVAILABLE,
};
use constantinople::validator::run::{
    buffer_pool_configs, channel_burst, default_mempool_drop_grace_blocks, indexer_client_built,
    maybe_build_indexer, production_sync_config, run_deployer, run_local, ClientFault,
    DiscoveryProfile, HttpRole, IndexerConfig, LoadedConfig, RunFault, RuntimeLimits, StartupModeConfig, SyncEngineConfig,
};
use constantinople::validator::tasks::{
    bridged_lookup, critical_task_exit, indexer_critical_task, finalized_uploads, persist_capture_receipt,
    scrape_response, telemetry_plan, AccountLookup, AccountRecord, ConnectOutcome, CriticalTask,
    ExitAction, FinalizedUploadFailure, IndexerTask, LazyPublisher, PublisherStep, ReceiptStep, UploadProgress,
};

fn config(public_key: &str) -> RelayerLeaderConfig {
    RelayerLeaderConfig {
        public_key: public_key.to_string(),
        url: format!("http://{public_key}/"),
    }
}

fn leaders(keys: &[&str]) -> Vec<Leader> {
    normalize_leaders(&keys.iter().map(|key| config(key)).collect()).expect("keys are distinct")
}

#[test]
fn mempool_drop_grace_defaults_to_twice_validator_count() {
    assert_eq!(default_mempool_drop_grace_blocks(1), 2);
    assert_eq!(default_mempool_drop_grace_blocks(4), 8);
    assert_eq!(default_mempool_drop_grace_blocks(50), 100);
}

#[test]
fn targets_next_two_views() {
    let leaders = leaders(&["00", "01", "02", "03"]);

    let targets = next_leaders(&leaders, 0, 2)
        .into_iter()
        .map(|leader| leader.public_key)
        .collect::<Vec<_>>();

    assert_eq!(targets, vec!["01", "02"]);
}

#[test]
fn targets_cap_fanout_at_network_size() {
    let leaders = leaders(&["00", "01", "02"]);

    let targets = next_leaders(&leaders, 1, 4)
        .into_iter()
        .map(|leader| leader.public_key)
        .collect::<Vec<_>>();

    assert_eq!(targets, vec!["02", "00", "01"]);
}

#[test]
fn the_least_repeated_leader_is_named() {
    let configs: Vec<RelayerLeaderConfig> = ["0c", "0B", "0C", "0b", "0a"]
        .iter()
        .map(|key| config(key))
        .collect();
    assert!(matches!(
        normalize_leaders(&configs),
        Err(LeaderFault::Repeated { public_key }) if public_key == "0b"
    ));
}

#[test]
#[should_panic(expected = "leader public_key must be unique")]
fn duplicate_leader_ids_are_rejected() {
    normalize_leaders(&vec![
        RelayerLeaderConfig {
            public_key: "00".to_string(),
            url: "http://first".to_string(),
        },
        RelayerLeaderConfig {
            public_key: "00".to_string(),
            url: "http://second".to_string(),
        },
    ])
    .map_err(|fault| fault.to_text())
    .unwrap();
}

#[test]
fn leaders_are_lower_case_sorted_and_without_trailing_slashes() {
    let leaders = leaders(&["FF", "0a", "B0"]);
    let keys: Vec<&str> = leaders.iter().map(|leader| leader.public_key.as_str()).collect();
    assert_eq!(keys, vec!["0a", "b0", "ff"]);
    assert_eq!(leaders[0].url, "http://0a");
    assert_eq!(leaders[1].sort_key, vec![0xb0]);
    assert!(leader_by_id(&leaders, "ff").is_some());
    assert!(leader_by_id(&leaders, "FF").is_none());
    assert!(matches!(
        normalize_leaders(&vec![config("zz")]),
        Err(LeaderFault::NotHex { .. })
    ));
}

#[test]
fn batches_are_admitted_by_size_and_count() {
    assert_eq!(max_request_bytes(100), 105);
    assert_eq!(admit_batch(106, 100, 10), Err(PAYLOAD_TOO_LARGE));
    assert_eq!(admit_batch(0, 100, 10), Err(BAD_REQUEST));
    assert_eq!(admit_batch(21, 100, 10), Ok(2));
    assert_eq!(max_transaction_count(21, 10), Some(2));
    assert_eq!(check_decoded(None, 100), Err(BAD_REQUEST));
    assert_eq!(check_decoded(Some(&vec![60, 40]), 100), Ok(2));
    assert_eq!(check_decoded(Some(&vec![60, 41]), 100), Err(PAYLOAD_TOO_LARGE));
}

#[test]
fn decode_batch_reports_transaction_count() {
    assert_eq!(admit_batch(300, 1 << 20, 100), Ok(2));
    assert_eq!(check_decoded(Some(&vec![149, 150]), 1 << 20), Ok(2));
}

#[test]
fn decode_batch_rejects_malformed_bytes() {
    assert!(admit_batch(b"not a batch".len(), 1 << 20, 10).is_ok());
    assert_eq!(check_decoded(None, 1 << 20), Err(BAD_REQUEST));
}

#[test]
fn reservation_is_released_once_both_uploads_are_durable() {
    let mut budget = UploadBudget::new(FINALIZED_UPLOAD_BUDGET_QUANTUM_BYTES);
    let charge = budget.charge(FINALIZED_UPLOAD_BUDGET_QUANTUM_BYTES / 8);
    let reservation = budget.try_reserve(charge).expect("test charge fits budget");

    assert!(finalized_uploads(UploadProgress::Durable, UploadProgress::Running).is_none());
    assert_eq!(budget.available_units, 0);

    assert!(matches!(
        finalized_uploads(UploadProgress::Durable, UploadProgress::Durable),
        Some(Ok(()))
    ));
    budget.release(reservation);
    assert_eq!(budget.available_units, 1);
}

#[test]
fn single_transactions_fan_out_wider_than_batches() {
    let leaders = leaders(&["00", "01", "02", "03", "04", "05"]);
    assert_eq!(fanout_for(1), 4);
    assert_eq!(fanout_for(2), 2);
    assert_eq!(public_targets(&leaders, 0, 1).expect("leaders").len(), 4);
    assert_eq!(public_targets(&leaders, 0, 3).expect("leaders").len(), 2);
    assert_eq!(
        public_targets(&Vec::new(), 0, 1).err(),
        Some(SERVICE_UNAVAILABLE)
    );
    assert_eq!(ready(&leaders), 200);
    assert_eq!(ready(&Vec::new()), SERVICE_UNAVAILABLE);
}

#[test]
fn pinned_submissions_name_one_known_leader() {
    let leaders = leaders(&["00", "01"]);
    assert_eq!(requested_target_leader(Some("AB")), Some("ab".to_string()));
    assert_eq!(requested_leader_fanout(Some("1")), Some(1));
    assert_eq!(requested_leader_fanout(Some("x")), None);
    assert!(matches!(
        route_submission(&leaders, None, None, 9, 100),
        SubmitRoute::Public
    ));
    assert!(matches!(
        route_submission(&leaders, Some("01"), Some(1), 9, 100),
        SubmitRoute::Pinned(leader) if leader.public_key == "01"
    ));
    assert!(matches!(
        route_submission(&leaders, Some("01"), Some(2), 9, 100),
        SubmitRoute::Refused(BAD_REQUEST)
    ));
    assert!(matches!(
        route_submission(&leaders, Some("09"), None, 9, 100),
        SubmitRoute::Refused(BAD_REQUEST)
    ));
    assert!(matches!(
        route_submission(&leaders, Some("01"), None, 106, 100),
        SubmitRoute::Refused(PAYLOAD_TOO_LARGE)
    ));
    let body = r#"{"status":"finalized","height":7}"#.to_string();
    assert_eq!(
        pinned_response(Some((200, Some(body.clone())))),
        (200, body)
    );
    assert_eq!(pinned_response(None), (SERVICE_UNAVAILABLE, String::new()));
}

fn partial(height: u64, included: u64) -> LeaderResponse {
    LeaderResponse::Terminal(TxStatus::PartiallyFinalized {
        height,
        included,
        filtered: 1,
    })
}

const DROPPED: LeaderResponse = LeaderResponse::Terminal(TxStatus::Dropped);

#[test]
fn unpinned_dropped_waits_for_delayed_finalized() {
    let finalized = TxStatus::Finalized { height: 11 };
    let mut forwarding = Forwarding::new(2);
    assert_eq!(forwarding.respond(DROPPED), None);
    assert_eq!(
        forwarding.respond(LeaderResponse::Terminal(finalized)),
        Some(RelayResponse::Status(finalized))
    );
    assert_eq!(forwarding.finish(), None);
}

#[test]
fn unpinned_returns_dropped_only_after_all_leaders_drop() {
    assert_eq!(
        aggregate(&vec![DROPPED, DROPPED]),
        RelayResponse::Status(TxStatus::Dropped)
    );
    assert_eq!(
        aggregate(&vec![DROPPED, LeaderResponse::Ambiguous]),
        RelayResponse::Code(ACCEPTED)
    );
    assert_eq!(
        aggregate(&vec![DROPPED, partial(12, 1), partial(12, 2)]),
        RelayResponse::Status(TxStatus::PartiallyFinalized {
            height: 12,
            included: 2,
            filtered: 1,
        })
    );
    assert_eq!(
        aggregate(&vec![LeaderResponse::Deterministic(BAD_REQUEST), DROPPED]),
        RelayResponse::Code(BAD_REQUEST)
    );
    assert_eq!(client_answer(None), RelayResponse::Code(ACCEPTED));
}

#[test]
fn unpinned_returns_fast_finalized_response() {
    let finalized = TxStatus::Finalized { height: 9 };
    let mut forwarding = Forwarding::new(2);
    let answer = forwarding.respond(LeaderResponse::Terminal(finalized));
    assert_eq!(answer, Some(RelayResponse::Status(finalized)));
    assert_eq!(client_answer(answer), RelayResponse::Status(finalized));
}

#[test]
fn unpinned_partial_waits_for_all_leaders() {
    let mut forwarding = Forwarding::new(2);
    assert_eq!(forwarding.respond(partial(12, 1)), None);
    assert_eq!(forwarding.respond(DROPPED), None);
    assert_eq!(
        forwarding.finish(),
        Some(RelayResponse::Status(TxStatus::PartiallyFinalized {
            height: 12,
            included: 1,
            filtered: 1,
        }))
    );
}

#[test]
fn unpinned_preserves_deterministic_validator_rejection() {
    let mut forwarding = Forwarding::new(2);
    let rejected = classify_forward(ForwardOutcome::Answered {
        code: 400,
        status: None,
    });
    assert_eq!(
        forwarding.respond(rejected),
        Some(RelayResponse::Code(BAD_REQUEST))
    );
    assert_eq!(forwarding.respond(LeaderResponse::Ambiguous), None);
    assert_eq!(forwarding.finish(), None);
}

#[test]
fn unpinned_timeout_returns_accepted_while_owned_request_completes() {
    assert_eq!(client_answer(None), RelayResponse::Code(ACCEPTED));
    let mut forwarding = Forwarding::new(1);
    assert_eq!(forwarding.respond(DROPPED), None);
    assert_eq!(
        forwarding.finish(),
        Some(RelayResponse::Status(TxStatus::Dropped))
    );
}

fn fanned_out(transactions: usize) -> Vec<String> {
    public_targets(&leaders(&["00", "01", "02", "03", "04"]), 0, transactions)
        .expect("leaders are known")
        .into_iter()
        .map(|leader| leader.public_key)
        .collect()
}

#[test]
fn unpinned_single_transaction_fans_out_to_four_leaders() {
    assert_eq!(fanned_out(1), vec!["01", "02", "03", "04"]);
    assert_eq!(
        aggregate(&vec![DROPPED, DROPPED, DROPPED, DROPPED]),
        RelayResponse::Status(TxStatus::Dropped)
    );
}

#[test]
fn unpinned_multi_transaction_batch_fans_out_to_two_leaders() {
    assert_eq!(fanned_out(2), vec!["01", "02"]);
}

#[test]
fn leader_answers_are_classified() {
    assert_eq!(classify_forward(ForwardOutcome::Unreachable), LeaderResponse::Ambiguous);
    assert_eq!(
        classify_forward(ForwardOutcome::Answered {
            code: 200,
            status: Some(TxStatus::Dropped),
        }),
        DROPPED
    );
    assert_eq!(
        classify_forward(ForwardOutcome::Answered {
            code: 400,
            status: None,
        }),
        LeaderResponse::Deterministic(400)
    );
    assert_eq!(
        classify_forward(ForwardOutcome::Answered {
            code: 500,
            status: None,
        }),
        LeaderResponse::Ambiguous
    );
}

#[test]
fn view_clocks_never_go_back() {
    let mut clock = ViewClock::new();
    assert!(clock.report(5));
    assert!(!clock.report(4));
    assert_eq!(clock.current_view, 5);
}

#[test]
fn accounts_are_looked_up_by_hex_key() {
    assert_eq!(account_key("0aFf", 2), Ok(vec![0x0a, 0xff]));
    assert_eq!(account_key("0a", 2), Err(BAD_REQUEST));
    assert_eq!(account_key("zz", 1), Err(BAD_REQUEST));
    let account = AccountRecord {
        balance: 3,
        nonce_base: 1,
        nonce_bitmap: 0,
    };
    assert_eq!(account_response(Some(AccountLookup::Found(account))), Ok(account));
    assert_eq!(account_response(Some(AccountLookup::Missing)), Err(NOT_FOUND));
    assert_eq!(account_response(None), Err(SERVICE_UNAVAILABLE));
    assert!(matches!(
        bridged_lookup(false, None),
        AccountLookup::Unavailable
    ));
    assert!(matches!(
        bridged_lookup(true, Some(AccountLookup::Missing)),
        AccountLookup::Missing
    ));
}

fn indexer() -> IndexerConfig {
    IndexerConfig {
        chain_indexer_url: "http://127.0.0.1:1".to_string(),
        api_key: None,
        publisher_rayon_threads: 2,
        upload_max_in_flight: 100,
        upload_budget_bytes: 1 << 20,
    }
}

fn loaded(has_share: bool) -> LoadedConfig {
    LoadedConfig {
        public_key: vec![0xab; 32],
        primary_participants: vec![vec![1; 32], vec![0xab; 32]],
        secondary_participants: vec![vec![2; 32]],
        bootstrappers: 4,
        partition_prefix: "validator-0".to_string(),
        has_share,
        startup: StartupModeConfig::MarshalSync,
        worker_threads: 2,
        rayon_threads: 3,
        public_key_cache_size: 16,
        deployer_managed: false,
        indexer: Some(indexer()),
        relayer: true,
        http_listen: "0.0.0.0:8080".to_string(),
        max_propose_bytes: 4096,
    }
}

const LIMITS: RuntimeLimits = RuntimeLimits {
    max_blocking_threads: 8,
    tracked_peer_sets: 5,
};

#[test]
fn primaries_serve_the_mempool_and_do_not_upload() {
    let plan = run_local(loaded(true), "/configs", LIMITS).expect("plan");
    assert!(matches!(&plan.http, HttpRole::Mempool { listen } if listen == "0.0.0.0:8080"));
    assert!(plan.mempool_reporter);
    assert!(plan.indexer.is_none());
    assert_eq!(plan.validator, "ab".repeat(32));
    assert_eq!(plan.storage_parent, "/configs");
    assert_eq!(plan.storage_name, "validator-0");
    assert_eq!(plan.buffer_pools.network_parallelism, 2);
    assert_eq!(plan.buffer_pools.storage_parallelism, 10);
    assert_eq!(plan.max_peers_per_set, 3);
    assert_eq!(plan.retained_peer_bound, 19);
    assert_eq!(plan.channel_burst, 1024 / 19);
    assert_eq!(plan.mempool_drop_grace_blocks, 4);
    assert_eq!(plan.startup_mode, "marshal_sync");
    assert_eq!(plan.discovery, DiscoveryProfile::Local);
}

#[test]
fn secondaries_relay_and_upload() {
    let plan = run_deployer(loaded(false), "/configs", LIMITS).expect("plan");
    assert!(matches!(
        &plan.http,
        HttpRole::Relayer { listen, max_batch_bytes: 4096 } if listen == "0.0.0.0:8080"
    ));
    let mut plain = loaded(false);
    plain.relayer = false;
    let plain = run_deployer(plain, "/configs", LIMITS).expect("plan");
    assert!(matches!(plain.http, HttpRole::Nothing));
    let indexer = plan.indexer.expect("secondary should keep indexer wiring");
    assert_eq!(indexer.max_active_uploads, 64);
    assert_eq!(indexer.records_partition, "validator-0-finalized-index-records");
    assert!(indexer.budget().is_ok());
    assert!(maybe_build_indexer(true, None, "x").is_none());
}

#[test]
fn start_up_refuses_empty_or_repeated_settings() {
    let mut config = loaded(true);
    config.worker_threads = 0;
    assert_eq!(
        run_local(config, "/c", LIMITS).err(),
        Some(RunFault::NoWorkerThreads)
    );
    let mut config = loaded(true);
    config.rayon_threads = 0;
    assert_eq!(
        run_local(config, "/c", LIMITS).err(),
        Some(RunFault::NoRayonThreads)
    );
    let mut config = loaded(true);
    config.public_key_cache_size = 0;
    assert_eq!(
        run_local(config, "/c", LIMITS).err(),
        Some(RunFault::NoPublicKeyCache)
    );
    let mut config = loaded(true);
    config.primary_participants.push(vec![1; 32]);
    assert_eq!(
        run_local(config, "/c", LIMITS).err(),
        Some(RunFault::DuplicatePrimary)
    );
    let mut config = loaded(true);
    config.secondary_participants.push(vec![2; 32]);
    assert_eq!(
        run_local(config, "/c", LIMITS).err(),
        Some(RunFault::DuplicateSecondary)
    );
    assert_eq!(
        buffer_pool_configs(usize::MAX, 1).err(),
        Some(RunFault::StorageParallelismOverflow)
    );
    assert_eq!(channel_burst(1), 1024);
    assert_eq!(channel_burst(5_000), 1);
}

#[test]
fn publisher_does_not_block_secondary_startup_on_connect_failure() {
    let plan = maybe_build_indexer(false, Some(indexer()), "test")
        .expect("secondary should keep indexer wiring");
    assert_eq!(plan.chain_indexer_url, "http://127.0.0.1:1");
    let mut slot = LazyPublisher::new(false);
    assert!(matches!(slot.publisher(), PublisherStep::Connect { fresh: false }));
    assert!(matches!(
        slot.connect_ended(ConnectOutcome::Failed("refused".to_string())),
        PublisherStep::RetryAfter { .. }
    ));
}

#[test]
fn invalid_indexer_api_key_fails_secondary_startup() {
    let config = || {
        Some(IndexerConfig {
            chain_indexer_url: "http://127.0.0.1:1".to_string(),
            api_key: Some("invalid\nkey".to_string()),
            publisher_rayon_threads: 2,
            upload_max_in_flight: 1,
            upload_budget_bytes: FINALIZED_UPLOAD_BUDGET_QUANTUM_BYTES,
        })
    };
    let plan = maybe_build_indexer(false, config(), "test");
    let error = indexer_client_built(plan, Err(ClientFault::InvalidApiKey))
        .err()
        .expect("invalid API key should fail startup");

    assert!(matches!(error, ClientFault::InvalidApiKey));
    let plan = maybe_build_indexer(false, config(), "test");
    let built = indexer_client_built(plan, Ok(())).expect("the client was built");
    assert_eq!(
        built.expect("a secondary uploads").api_key.as_deref(),
        Some("invalid\nkey")
    );
    let primary = maybe_build_indexer(true, config(), "test");
    assert!(matches!(
        indexer_client_built(primary, Err(ClientFault::Refused("unused".to_string()))),
        Ok(None)
    ));
}

#[test]
fn publishers_retry_until_connected() {
    let mut slot = LazyPublisher::new(true);
    assert!(matches!(slot.publisher(), PublisherStep::Connect { fresh: true }));
    assert!(matches!(
        slot.connect_ended(ConnectOutcome::Failed("refused".to_string())),
        PublisherStep::RetryAfter { millis: 1_000 }
    ));
    assert!(matches!(
        slot.connect_ended(ConnectOutcome::NonFreshNamespace("rows".to_string())),
        PublisherStep::Abort { .. }
    ));
    slot.connect_ended(ConnectOutcome::Connected);
    assert!(matches!(slot.publisher(), PublisherStep::Ready));
}

#[test]
fn finalized_upload_waits_for_both_destinations() {
    assert!(finalized_uploads(UploadProgress::Durable, UploadProgress::Running).is_none());
    assert!(finalized_uploads(UploadProgress::Running, UploadProgress::Durable).is_none());
    assert!(matches!(
        finalized_uploads(UploadProgress::Durable, UploadProgress::Durable),
        Some(Ok(()))
    ));
}

#[test]
fn finalized_upload_failure_does_not_wait_for_other_destination() {
    assert!(matches!(
        finalized_uploads(UploadProgress::Failed("stopped".to_string()), UploadProgress::Running),
        Some(Err(FinalizedUploadFailure::Qmdb(cause))) if cause == "stopped"
    ));
}

#[test]
fn receipts_are_stored_by_a_sync_alone() {
    assert_eq!(
        persist_capture_receipt(ReceiptStep::PutAndSync, true),
        ReceiptStep::Done
    );
    assert_ne!(
        persist_capture_receipt(ReceiptStep::PutAndSync, false),
        ReceiptStep::Done
    );
    assert_eq!(
        persist_capture_receipt(ReceiptStep::Reopen, true),
        ReceiptStep::PutAndSync
    );
    assert_eq!(
        persist_capture_receipt(ReceiptStep::Reopen, false),
        ReceiptStep::WaitThenReopen
    );
}

#[test]
fn indexer_uploader_or_cleanup_exit_fails_the_runtime() {
    for cleanup_exits in [false, true] {
        let exited = if cleanup_exits {
            IndexerTask::Cleanup
        } else {
            IndexerTask::Certificates
        };
        let (_, critical) = indexer_critical_task(exited, Ok(()));
        assert!(matches!(critical_task_exit(critical), ExitAction::Panic(_)));
    }
    assert_eq!(
        indexer_critical_task(IndexerTask::Uploads, Err("stopped".to_string())),
        (
            "finalized index uploader failed: stopped".to_string(),
            CriticalTask::Indexer
        )
    );
    let plan = telemetry_plan(true, false, true);
    assert!(plan.json && plan.serve_metrics && !plan.export_traces);
    assert_eq!(
        scrape_response(true, Some("metrics".to_string())),
        (200, Some("metrics".to_string()))
    );
    assert_eq!(scrape_response(false, None).0, SERVICE_UNAVAILABLE);
}

#[test]
fn state_sync_fetches_and_applies_in_equal_batches() {
    assert_eq!(
        production_sync_config(),
        SyncEngineConfig {
            fetch_batch_size: 1024,
            apply_batch_size: 1024,
            max_outstanding_requests: 8,
            update_channel_size: 256,
            max_retained_roots: 32,
        }
    );
}
