//! The ring spammer: rounds, retries and status polls.

use commonware_codec::Encode;
use commonware_cryptography::{Hasher, Sha256};
use constantinople::spammer::accounts::generate_accounts;
use constantinople::spammer::poll::RoundEnd;
use constantinople::spammer::ring::{
    SenderStatus, Spammer, TransactionState, TransactionStatus,
};
use constantinople::spammer::spam::{
    build_ring_accounts, classify_submission_error, current_round_nonce, format_sender_failure,
    next_retry_backoff, ring_public_keys, Args, RingAccount, SubmissionErrorKind,
    MAX_SUBMISSION_TASKS_PER_ENDPOINT,
};
use std::cell::{Cell, RefCell};
use std::collections::{HashMap, HashSet, VecDeque};

fn is_retryable_submission_error(err: &str) -> bool {
    !matches!(classify_submission_error(err), SubmissionErrorKind::Fatal)
}

fn addresses(count: usize, seed_start: u64) -> Vec<Vec<u8>> {
    ring_public_keys(count, seed_start)
        .iter()
        .map(|key| Sha256::hash(&[key.as_slice()]).encode().to_vec())
        .collect()
}

fn ring(count: usize, seed_start: u64, endpoints: usize) -> Vec<RingAccount> {
    build_ring_accounts(count, seed_start, endpoints, &addresses(count, seed_start))
}

fn spammer(count: usize, endpoints: usize) -> Spammer {
    let urls = (0..endpoints)
        .map(|i| format!("http://127.0.0.1:{}", 8080 + i))
        .collect();
    Spammer::new(ring(count, 0, endpoints), urls, 0, 0)
}

fn reported(tx_hashes: Vec<String>, state: TransactionState) -> Vec<TransactionStatus> {
    tx_hashes
        .into_iter()
        .map(|tx_hash| TransactionStatus { tx_hash, state })
        .collect()
}

/// Runs rounds on a clock of its own until `should_stop`. `submit` is handed an
/// endpoint, a nonce and the hash of the transfer; `fetch` is handed hashes.
fn run_until_stopped(
    spammer: &mut Spammer,
    should_stop: &Cell<bool>,
    submit: impl Fn(usize, u64, &str) -> Result<(), String>,
    fetch: impl Fn(Vec<String>) -> Result<Vec<TransactionStatus>, String>,
) -> Result<(), String> {
    let mut now = 0;
    for _ in 0..10_000 {
        let nonce = spammer.round_nonce()?;
        spammer.activate_ready_senders(now);
        if spammer.poll_is_due(now) {
            let mut retries = Vec::new();
            for index in 0..spammer.endpoints.len() {
                for chunk in spammer.poll_chunks(index) {
                    match fetch(spammer.pending_hashes(&chunk)) {
                        Ok(statuses) => {
                            spammer.statuses_received(index, &chunk, &statuses, &mut retries, now)?
                        }
                        Err(error) => spammer.status_poll_failed(index, &error)?,
                    }
                }
            }
            spammer.finish_poll(&retries, now);
        }
        match spammer.finish_round(now, should_stop.get()) {
            RoundEnd::Running => {}
            RoundEnd::Next(_) => continue,
            RoundEnd::Stopped(_) => return spammer.outcome(),
        }
        let mut ended = Vec::new();
        for submission in spammer.spawn_submissions() {
            let hash = format!("{}-{nonce}", submission.sender_index);
            let result = submit(submission.endpoint_index, nonce, &hash);
            ended.push((submission.sender_index, hash, result));
        }
        if should_stop.get() {
            return spammer.outcome();
        }
        for (sender_index, hash, result) in ended {
            spammer.handle_submission_completion(sender_index, hash, nonce, result, now)?;
        }
        now += 10;
    }
    panic!("spammer should finish");
}

fn status(tx_hash: &str, state: TransactionState) -> TransactionStatus {
    TransactionStatus {
        tx_hash: tx_hash.to_string(),
        state,
    }
}

#[test]
fn spam_ring_accounts_wrap_back_to_the_first_account() {
    let accounts = ring(3, 11, 2);

    assert_eq!(accounts.len(), 3);
    assert_eq!(accounts[0].to, accounts[1].from);
    assert_eq!(accounts[1].to, accounts[2].from);
    assert_eq!(accounts[2].to, accounts[0].from);
}

#[test]
fn ring_accounts_are_sharded_across_endpoints() {
    let accounts = ring(5, 11, 2);

    assert_eq!(accounts[0].endpoint_index, 0);
    assert_eq!(accounts[1].endpoint_index, 1);
    assert_eq!(accounts[2].endpoint_index, 0);
    assert_eq!(accounts[3].endpoint_index, 1);
    assert_eq!(accounts[4].endpoint_index, 0);
}

#[test]
fn retries_network_and_server_overload_errors() {
    assert!(is_retryable_submission_error("request failed: timed out"));
    assert!(is_retryable_submission_error("error (503): mempool full"));
    assert!(!is_retryable_submission_error(
        "error (400): bad transaction"
    ));
}

#[test]
fn mempool_full_backoff_has_minimum_floor() {
    assert_eq!(next_retry_backoff(100, "error (503): mempool full"), 1_000);
}

#[test]
fn other_backoffs_double_to_a_bound() {
    assert_eq!(next_retry_backoff(100, "request failed: x"), 200);
    assert_eq!(next_retry_backoff(3_000, "request failed: x"), 5_000);
    assert_eq!(next_retry_backoff(5_000, "error (503): mempool full"), 5_000);
}

#[test]
fn args_need_senders_and_endpoints() {
    let endpoints = vec!["http://127.0.0.1:8080".to_string()];
    let args = Args::new(4, endpoints.clone(), 3, 2).expect("args should be valid");
    assert_eq!(args.count(), 4);
    assert_eq!(args.endpoints(), &endpoints);
    assert_eq!(args.seed_start(), 3);
    assert_eq!(args.nonce(), 2);
    assert!(Args::new(0, endpoints, 0, 0).is_err());
    assert!(Args::new(4, Vec::new(), 0, 0).is_err());
}

#[test]
fn run_submits_to_multiple_endpoints() {
    let args = Args::new(
        4,
        vec![
            "http://127.0.0.1:8080".to_string(),
            "http://127.0.0.1:8081".to_string(),
        ],
        0,
        0,
    )
    .expect("args should be valid");
    let mut spammer = Spammer::new(
        ring(args.count(), args.seed_start(), args.endpoints().len()),
        args.endpoints().clone(),
        args.nonce(),
        0,
    );
    let should_stop = Cell::new(false);
    let seen = RefCell::new(HashSet::new());

    let result = run_until_stopped(
        &mut spammer,
        &should_stop,
        |endpoint, _nonce, _hash| {
            let mut seen = seen.borrow_mut();
            seen.insert(endpoint);
            should_stop.set(seen.len() == 2);
            Ok(())
        },
        |_hashes| panic!("nothing is polled"),
    );

    assert!(result.is_ok());
    assert_eq!(seen.borrow().len(), 2);
}

#[test]
fn run_stops_promptly_while_submitting() {
    let mut spammer = spammer(4, 1);
    let should_stop = Cell::new(false);

    let result = run_until_stopped(
        &mut spammer,
        &should_stop,
        |_endpoint, _nonce, _hash| {
            should_stop.set(true);
            Ok(())
        },
        |_hashes| panic!("nothing is polled"),
    );

    assert!(result.is_ok(), "spammer should stop cleanly");
    assert_eq!(spammer.totals(), (0, 0));
}

#[test]
fn run_bounds_concurrent_submissions_per_endpoint() {
    let mut spammer = spammer(MAX_SUBMISSION_TASKS_PER_ENDPOINT * 4, 1);
    let mut in_flight = VecDeque::new();
    let mut max_in_flight = 0;
    let mut submitted = 0;

    while submitted < MAX_SUBMISSION_TASKS_PER_ENDPOINT * 4 {
        for submission in spammer.spawn_submissions() {
            in_flight.push_back(submission.sender_index);
            submitted += 1;
        }
        max_in_flight = max_in_flight.max(in_flight.len());
        let sender_index = in_flight.pop_front().expect("a submission is in flight");
        spammer
            .handle_submission_completion(sender_index, "hash".to_string(), 0, Ok(()), 0)
            .expect("accepted");
    }

    assert_eq!(max_in_flight, MAX_SUBMISSION_TASKS_PER_ENDPOINT);
    assert!(spammer.spawn_submissions().is_empty());
}

#[test]
fn one_pending_sender_holds_the_round() {
    let mut spammer = spammer(2, 1);
    spammer.spawn_submissions();
    spammer
        .handle_submission_completion(0, "h0".to_string(), 0, Ok(()), 0)
        .expect("accepted");
    spammer
        .handle_submission_completion(1, "h1".to_string(), 0, Ok(()), 0)
        .expect("accepted");
    assert!(spammer.poll_is_due(0));
    let chunks = spammer.poll_chunks(0);
    assert_eq!(chunks, vec![vec![0, 1]]);
    assert_eq!(spammer.pending_hashes(&chunks[0]), vec!["h0", "h1"]);
    let mut retries = Vec::new();
    spammer
        .statuses_received(
            0,
            &chunks[0],
            &vec![
                status("h0", TransactionState::Included),
                status("h1", TransactionState::Pending),
            ],
            &mut retries,
            10,
        )
        .expect("statuses match");
    spammer.finish_poll(&retries, 10);
    assert!(!spammer.poll_is_due(500));
    assert!(!spammer.round_is_complete());
    assert!(matches!(spammer.finish_round(10, false), RoundEnd::Running));
    assert_eq!(spammer.round_nonce(), Ok(0));
    let chunks = spammer.poll_chunks(0);
    assert_eq!(chunks, vec![vec![1]]);
    spammer
        .statuses_received(
            0,
            &chunks[0],
            &vec![status("h1", TransactionState::Included)],
            &mut retries,
            1_010,
        )
        .expect("statuses match");
    assert!(spammer.round_is_complete());
    assert!(matches!(spammer.finish_round(1_010, false), RoundEnd::Next(1)));
    assert_eq!(spammer.round_nonce(), Ok(1));
    assert_eq!(spammer.spawn_submissions().len(), 2);
    assert_eq!(spammer.totals().0, 2);
    assert_eq!(spammer.outcome(), Ok(()));
}

#[test]
fn run_waits_for_full_round_before_advancing_nonce() {
    let mut spammer = spammer(2, 1);
    let should_stop = Cell::new(false);
    let round_zero_submissions = Cell::new(0);
    let round_one_submissions = Cell::new(0);
    let round_zero_included = Cell::new(false);
    let saw_premature_round_one = Cell::new(false);
    let nonce_by_hash = RefCell::new(HashMap::<String, u64>::new());

    let result = run_until_stopped(
        &mut spammer,
        &should_stop,
        |_endpoint, nonce, hash| {
            nonce_by_hash.borrow_mut().insert(hash.to_string(), nonce);
            match nonce {
                0 => round_zero_submissions.set(round_zero_submissions.get() + 1),
                1 => {
                    if !round_zero_included.get() {
                        saw_premature_round_one.set(true);
                    }
                    round_one_submissions.set(round_one_submissions.get() + 1);
                    if round_one_submissions.get() == 2 {
                        should_stop.set(true);
                    }
                }
                other => panic!("unexpected nonce submitted in test: {other}"),
            }
            Ok(())
        },
        |tx_hashes| {
            Ok(tx_hashes
                .into_iter()
                .map(|tx_hash| {
                    let nonce = nonce_by_hash.borrow()[&tx_hash];
                    let state = if nonce == 0 {
                        if round_zero_submissions.get() == 2 {
                            round_zero_included.set(true);
                            TransactionState::Included
                        } else {
                            TransactionState::Pending
                        }
                    } else if round_zero_included.get() {
                        TransactionState::Included
                    } else {
                        TransactionState::Pending
                    };
                    TransactionStatus { tx_hash, state }
                })
                .collect())
        },
    );

    assert!(result.is_ok(), "spammer should finish");
    assert!(round_zero_included.get());
    assert!(!saw_premature_round_one.get());
    assert_eq!(round_one_submissions.get(), 2);
}

#[test]
fn run_retries_same_nonce_after_mempool_rejection() {
    let mut spammer = spammer(1, 1);
    let should_stop = Cell::new(false);
    let attempts = RefCell::new(Vec::<u64>::new());
    let status_polls = Cell::new(0);

    let result = run_until_stopped(
        &mut spammer,
        &should_stop,
        |_endpoint, nonce, _hash| {
            attempts.borrow_mut().push(nonce);
            Ok(())
        },
        |tx_hashes| {
            let poll_number = status_polls.get();
            status_polls.set(poll_number + 1);
            let state = if poll_number == 0 {
                TransactionState::Rejected
            } else {
                should_stop.set(true);
                TransactionState::Included
            };
            Ok(reported(tx_hashes, state))
        },
    );

    assert!(result.is_ok(), "spammer should finish");
    assert_eq!(*attempts.borrow(), vec![0, 0]);
}

#[test]
fn unknown_transfers_are_submitted_again_at_the_same_nonce() {
    let mut spammer = spammer(1, 1);
    let should_stop = Cell::new(false);
    let attempts = RefCell::new(Vec::<u64>::new());
    let status_polls = Cell::new(0);

    let result = run_until_stopped(
        &mut spammer,
        &should_stop,
        |_endpoint, nonce, _hash| {
            attempts.borrow_mut().push(nonce);
            Ok(())
        },
        |tx_hashes| {
            let poll_number = status_polls.get();
            status_polls.set(poll_number + 1);
            let state = if poll_number == 0 {
                TransactionState::Unknown
            } else {
                should_stop.set(true);
                TransactionState::Included
            };
            Ok(reported(tx_hashes, state))
        },
    );

    assert_eq!(result, Ok(()));
    assert_eq!(*attempts.borrow(), vec![0, 0]);
}

#[test]
fn a_full_mempool_is_tried_again_after_a_pause() {
    let mut spammer = spammer(1, 1);
    spammer.spawn_submissions();
    spammer
        .handle_submission_completion(
            0,
            "h".to_string(),
            0,
            Err("error (503): mempool full".to_string()),
            0,
        )
        .expect("retryable");
    spammer.activate_ready_senders(999);
    assert!(spammer.spawn_submissions().is_empty());
    spammer.activate_ready_senders(1_000);
    assert_eq!(spammer.spawn_submissions().len(), 1);
    assert_eq!(spammer.round_nonce(), Ok(0));
}

#[test]
fn round_transfers_pay_one_to_the_next_account() {
    let spammer = spammer(2, 1);
    let transfer = spammer.senders[1].round_transfer(7);
    assert_eq!(transfer.seed, 1);
    assert_eq!(transfer.to, spammer.senders[0].account.from);
    assert_eq!(transfer.value, 1);
    assert_eq!(transfer.nonce, 7);
}

#[test]
fn ring_accounts_hold_the_addresses_they_are_given() {
    let keys = ring_public_keys(3, 11);
    let accounts = generate_accounts(3, 11);
    assert_eq!(keys[0], accounts[0].public_key);
    assert_eq!(keys[2], accounts[2].public_key);
    let addresses = addresses(3, 11);
    let ring = build_ring_accounts(3, 11, 1, &addresses);
    assert_eq!(ring[1].seed, 12);
    assert_eq!(ring[1].from, addresses[1]);
    assert_eq!(ring[2].to, addresses[0]);
    assert_ne!(ring[1].from, keys[1]);
}

#[test]
fn unknown_submissions_are_polled_and_fatal_ones_end_the_run() {
    let mut spammer = spammer(2, 1);
    spammer.spawn_submissions();
    spammer
        .handle_submission_completion(
            0,
            "h".to_string(),
            0,
            Err("request failed: timed out".to_string()),
            0,
        )
        .expect("retryable");
    assert!(matches!(&spammer.senders[0].status, SenderStatus::Pending(hash) if hash == "h"));
    let failure = spammer
        .handle_submission_completion(
            1,
            "g".to_string(),
            0,
            Err("error (400): bad transaction".to_string()),
            0,
        )
        .expect_err("fatal");
    let account = &spammer.senders[1].account;
    assert_eq!(
        failure,
        format_sender_failure(
            "http://127.0.0.1:8080",
            &account.from,
            &account.to,
            0,
            "error (400): bad transaction",
        )
    );
    assert_eq!(spammer.totals().1, 1);
    assert_eq!(spammer.outcome(), Err("failed: 1".to_string()));
}

#[test]
fn status_polls_must_match_what_was_asked() {
    let mut spammer = spammer(1, 1);
    spammer.spawn_submissions();
    spammer
        .handle_submission_completion(0, "h".to_string(), 0, Ok(()), 0)
        .expect("accepted");
    let mut retries = Vec::new();
    assert!(spammer
        .statuses_received(0, &vec![0], &Vec::new(), &mut retries, 0)
        .is_err());
    assert!(spammer
        .statuses_received(
            0,
            &vec![0],
            &vec![status("other", TransactionState::Included)],
            &mut retries,
            0,
        )
        .is_err());
    assert!(spammer.status_poll_failed(0, "request failed: x").is_ok());
    assert_eq!(
        spammer.status_poll_failed(0, "error (400): x"),
        Err("http://127.0.0.1:8080 status poll failed: error (400): x".to_string())
    );
}

#[test]
fn round_nonces_and_failures_are_reported() {
    assert_eq!(current_round_nonce(5, 2), Ok(7));
    assert!(current_round_nonce(u64::MAX, 1).is_err());
    let mut overflowing = spammer(1, 1);
    overflowing.base_nonce = u64::MAX;
    overflowing.completed_rounds = 1;
    assert_eq!(
        overflowing.round_nonce(),
        Err("round nonce overflowed".to_string())
    );
    let text = format_sender_failure("http://e", &[0xab], &[0xcd], 7, "boom");
    assert!(text.contains("ab") && text.contains("cd") && text.contains("boom"));
}

#[test]
fn run_retries_same_nonce_until_round_tx_is_accepted() {
    let mut spammer = spammer(1, 1);
    let should_stop = Cell::new(false);
    let attempts = RefCell::new(Vec::<u64>::new());

    let result = run_until_stopped(
        &mut spammer,
        &should_stop,
        |_endpoint, nonce, _hash| {
            let mut attempts = attempts.borrow_mut();
            attempts.push(nonce);
            if attempts.len() == 1 {
                return Err("error (503): mempool full".to_string());
            }
            Ok(())
        },
        |tx_hashes| {
            should_stop.set(true);
            Ok(reported(tx_hashes, TransactionState::Included))
        },
    );

    assert!(result.is_ok(), "spammer should finish");
    assert_eq!(*attempts.borrow(), vec![0, 0]);
}

#[test]
fn run_retries_status_poll_failures_without_exiting() {
    let mut spammer = spammer(1, 1);
    let should_stop = Cell::new(false);
    let status_polls = Cell::new(0);

    let result = run_until_stopped(
        &mut spammer,
        &should_stop,
        |_endpoint, _nonce, _hash| Ok(()),
        |tx_hashes| {
            let poll_number = status_polls.get();
            status_polls.set(poll_number + 1);
            if poll_number == 0 {
                return Err("request failed: timed out".to_string());
            }
            should_stop.set(true);
            Ok(reported(tx_hashes, TransactionState::Included))
        },
    );

    assert!(result.is_ok(), "spammer should finish");
    assert_eq!(status_polls.get(), 2);
}
