//! Spam accounts, submissions and payment channels.

use commonware_codec::Encode;
use commonware_cryptography::{ed25519, Hasher, Sha256, Signer};
use constantinople::spammer::accounts::{
    generate_accounts, max_seed_offset, resolve_seed_offset, seed_offset_of, SeedFault,
    SpamAccount,
};
use constantinople::spammer::channels::{
    awaits_expiry, channel_expiry_runway, deposit_for, derive_receiver, next_voucher,
    reclaim_attempted, registration_ended, voucher_amount, ChannelRunner, LifecycleDraws, OperatorClient, OperatorContext, OperatorError,
    PublicKeyResponse, ReclaimOutcome, RegistrationStep, RingFault, SubmitReport,
    CHANNEL_EXPIRY_SLACK, RECLAIM_ATTEMPTS, REGISTRATION_ATTEMPTS,
};
use constantinople::spammer::pool::LifecyclePool;
use constantinople::spammer::submitter::{
    classify_answer, jittered_backoff, retry_backoff, submit, RelayerSubmitter, Stats, SubmitError,
    SubmitStep,
};
use constantinople::random::JitterRng;
use constantinople::validator::relayer::TxStatus;
use std::collections::HashSet;

#[test]
fn accounts_are_deterministic() {
    let a = generate_accounts(3, 1000);
    let b = generate_accounts(3, 1000);
    for (x, y) in a.iter().zip(b.iter()) {
        assert_eq!(x.public_key, y.public_key);
    }
}

#[test]
fn different_seeds_produce_different_accounts() {
    let a = generate_accounts(1, 1000);
    let b = generate_accounts(1, 1001);
    assert_ne!(a[0].public_key, b[0].public_key);
}

#[test]
fn public_keys_are_unique() {
    let accounts = generate_accounts(10, 1000);
    for (i, a) in accounts.iter().enumerate() {
        for (j, b) in accounts.iter().enumerate() {
            if i != j {
                assert_ne!(a.public_key, b.public_key);
            }
        }
    }
}

#[test]
fn accounts_have_the_keys_that_the_signature_scheme_derives() {

    let accounts = generate_accounts(2, 40);
    let key = ed25519::PrivateKey::from_seed(41);
    assert_eq!(accounts[1].private_key, key.encode().to_vec());
    assert_eq!(accounts[1].public_key, key.public_key().encode().to_vec());
}

#[test]
fn explicit_seed_offset_is_deterministic() {
    let mut rng = JitterRng::new(0);
    let seed_offset = resolve_seed_offset(Some(42), 10, 4, &mut rng);

    assert_eq!(seed_offset, Ok(42));
}

#[test]
fn random_seed_offset_leaves_room_for_every_account() {
    let mut rng = JitterRng::new(0);
    let accounts_per_submitter = 10;
    let submitters = 4;
    let seed_offset = resolve_seed_offset(None, accounts_per_submitter, submitters, &mut rng)
        .expect("an offset fits");
    let total_accounts = u64::from(accounts_per_submitter)
        * u64::try_from(submitters).expect("submitter count must fit");
    let max_seed_offset = u64::MAX - (total_accounts - 1);
    let last_seed = seed_offset
        .checked_add(total_accounts - 1)
        .expect("selected range must fit");

    assert!(seed_offset <= max_seed_offset);
    assert_eq!(last_seed - seed_offset, total_accounts - 1);
}

#[test]
#[should_panic(expected = "seed offset does not leave room for every spam account")]
fn explicit_seed_offset_rejects_account_range_overflow() {
    let mut rng = JitterRng::new(0);
    resolve_seed_offset(Some(u64::MAX), 2, 1, &mut rng)
        .map_err(|fault| fault.to_text())
        .unwrap();
}

#[test]
fn seed_offsets_need_accounts_and_room() {
    assert_eq!(max_seed_offset(10, 4), Ok(u64::MAX - 39));
    assert_eq!(max_seed_offset(0, 4), Err(SeedFault::NoAccounts));
    assert_eq!(
        max_seed_offset(u32::MAX, usize::MAX),
        Err(SeedFault::AccountOverflow)
    );
    assert_eq!(seed_offset_of(None, 100, 7), Ok(7));
    assert_eq!(seed_offset_of(Some(101), 100, 7), Err(SeedFault::NoRoom));
}

fn payers(accounts: &[SpamAccount]) -> Vec<Vec<u8>> {
    accounts
        .iter()
        .map(|account| account.public_key.clone())
        .collect()
}

fn context(voucher_value: u64) -> OperatorContext {
    OperatorContext {
        client: OperatorClient::new("http://127.0.0.1:1".to_string()),
        account: vec![9u8; 32],
        expiry_runway: CHANNEL_EXPIRY_SLACK,
        voucher_value,
    }
}

fn runner(
    accounts: Vec<SpamAccount>,
    avg_vouchers: u64,
    voucher_value: u64,
    seed: u64,
) -> ChannelRunner {
    let payers = payers(&accounts);
    match ChannelRunner::new(accounts, &payers, &context(voucher_value), avg_vouchers, seed) {
        Ok(runner) => runner,
        Err(_) => panic!("the ring is valid"),
    }
}

#[test]
fn receivers_are_deterministic_distinct_and_keyless() {
    let accounts = generate_accounts(4, 7_300);
    let a = runner(accounts, 8, 1, 1);
    let b = runner(generate_accounts(4, 7_300), 8, 1, 2);

    // Deterministic per payer (a restarted spammer reclaims against the
    // same channels), distinct across payers, and never the operator.
    assert_eq!(a.receivers, b.receivers);
    let unique: HashSet<_> = a.receivers.iter().collect();
    assert_eq!(unique.len(), a.receivers.len());
    assert!(a.receivers.iter().all(|r| *r != context(1).account));
}

#[test]
fn receivers_hash_the_payer_under_a_domain() {

    let payer = vec![5u8; 32];
    let mut message = b"constantinople-spammer-receiver".to_vec();
    message.extend_from_slice(&payer);
    let expected = Sha256::hash(&[message.as_slice()]).encode().to_vec();
    assert_eq!(derive_receiver(&payer), expected);
}

#[test]
fn voucher_count_stays_within_jitter_bounds() {
    let accounts = generate_accounts(4, 7_000);
    let mut runner = runner(accounts, 8, 1, 42);
    let mut seen = HashSet::new();
    for _ in 0..1_000 {
        let v = runner.next_voucher_count();
        // avg=8 -> lo=4, hi=12
        assert!((4..=12).contains(&v), "voucher count {v} out of bounds");
        seen.insert(v);
    }
    assert!(seen.len() > 1, "counts vary");
}

#[test]
fn small_average_still_streams_at_least_one() {
    let accounts = generate_accounts(2, 7_100);
    let mut runner = runner(accounts, 1, 1, 1);
    for _ in 0..100 {
        assert!(runner.next_voucher_count() >= 1);
    }
}

#[test]
fn odd_averages_round_half_up() {
    let mut three = runner(generate_accounts(2, 7_150), 3, 1, 7);
    let counts: HashSet<u64> = (0..1_000).map(|_| three.next_voucher_count()).collect();
    assert_eq!(counts, HashSet::from([2, 3, 4]));
    let mut one = runner(generate_accounts(2, 7_150), 1, 1, 7);
    assert!((0..100).all(|_| one.next_voucher_count() == 1));
}

#[test]
fn deposits_include_exact_and_refundable_channels() {
    let accounts = generate_accounts(4, 7_200);
    let mut runner = runner(accounts, 8, 2, 99);
    let cumulative = 16;
    let mut saw_exact = false;
    let mut saw_refund = false;

    for _ in 0..1_000 {
        let deposit = runner.next_deposit(cumulative);
        assert!(
            (cumulative..=cumulative + 6).contains(&deposit),
            "deposit {deposit} out of bounds"
        );
        saw_exact |= deposit == cumulative;
        saw_refund |= deposit > cumulative;
    }

    assert!(saw_exact, "should still exercise fully exhausted channels");
    assert!(saw_refund, "should exercise partial settlement refunds");
}

#[test]
fn channel_runners_need_a_ring_and_vouchers() {
    let new = |count, avg, value| {
        let accounts = generate_accounts(count, 1);
        let payers = payers(&accounts);
        ChannelRunner::new(accounts, &payers, &context(value), avg, 0).err()
    };
    assert_eq!(new(1, 8, 1), Some(RingFault::TooFewAccounts));
    assert_eq!(new(2, 0, 1), Some(RingFault::NoVouchers));
    assert_eq!(new(2, 8, 0), Some(RingFault::NoVoucherValue));
    assert_eq!(new(2, 8, 1), None);
}

#[test]
fn lifecycles_walk_the_ring_and_queue_reclaims() {
    let mut runner = runner(generate_accounts(2, 10), 8, 3, 5);
    let draws = LifecycleDraws {
        time_out: false,
        vouchers: 4,
        refund_vouchers: 2,
    };
    let open = runner.begin(100, draws);
    assert_eq!(open.payer_i, 0);
    assert_eq!(open.open_nonce, 0);
    assert_eq!(open.vouchers, 4);
    assert_eq!(open.deposit, 4 * 3 + 2 * 3);
    assert_eq!(open.expiry, 100 + CHANNEL_EXPIRY_SLACK);
    let second = runner.run_once(100);
    assert_eq!(second.payer_i, 1);
    let landed = SubmitReport {
        finalized: 1,
        height: Some(101),
    };
    let lost = SubmitReport {
        finalized: 0,
        height: None,
    };
    assert!(runner.open_ended(open, landed));
    assert!(!runner.open_ended(second, lost));
    assert_eq!(runner.reclaims.len(), 1);
    assert!(runner.stream_ended(open, 4));
    assert!(!runner.stream_ended(open, 0));
    assert_eq!(runner.reclaims.len(), 2);
    assert_eq!(runner.vouchers, 4);
    runner.settle_ended(open, true);

    assert!(runner.reclaim_due(open.expiry).len() < 2);
    let mut due = runner.reclaim_due(u64::MAX);
    let mut reclaim = due.pop().expect("a channel expired");
    let nonce = runner.timeout_nonce(&mut reclaim);
    assert_eq!(reclaim.timeout_nonce, Some(nonce));
    assert_eq!(runner.timeout_nonce(&mut reclaim), nonce);
    let before = runner.reclaims.len();
    runner.resolve_reclaim(reclaim, ReclaimOutcome::Transient);
    assert_eq!(runner.reclaims.len(), before + 1);
}

#[test]
fn reclaims_and_registrations_know_when_to_stop() {
    let report = |finalized, height| SubmitReport { finalized, height };
    assert_eq!(
        reclaim_attempted(10, 1, report(1, None)),
        Some(ReclaimOutcome::Reclaimed)
    );
    assert_eq!(
        reclaim_attempted(10, 1, report(0, Some(11))),
        Some(ReclaimOutcome::ChannelGone)
    );
    assert_eq!(reclaim_attempted(10, 1, report(0, Some(10))), None);
    assert_eq!(
        reclaim_attempted(10, 30, report(0, None)),
        Some(ReclaimOutcome::Transient)
    );
    let unavailable = || Err(OperatorError::Unavailable("later".to_string()));
    assert!(matches!(
        registration_ended(1, unavailable()),
        RegistrationStep::Retry
    ));
    assert!(matches!(
        registration_ended(REGISTRATION_ATTEMPTS, unavailable()),
        RegistrationStep::Abandon { wait: true }
    ));
    assert!(matches!(
        registration_ended(1, Err(OperatorError::Rejected("no".to_string()))),
        RegistrationStep::Abandon { wait: false }
    ));
    assert!(matches!(
        registration_ended(1, Ok("cap".to_string())),
        RegistrationStep::Registered(capability) if capability == "cap"
    ));
}

#[test]
fn opened_channels_are_settled_or_queued_for_reclaim() {
    let draws = LifecycleDraws {
        time_out: false,
        vouchers: 4,
        refund_vouchers: 0,
    };
    let opened = || {
        let mut runner = runner(generate_accounts(2, 10), 8, 3, 5);
        let open = runner.begin(100, draws);
        (runner, open)
    };
    let unavailable = || Err(OperatorError::Unavailable("later".to_string()));

    let (mut settled, open) = opened();
    assert!(matches!(
        settled.registration_attempted(open, 1, unavailable()),
        RegistrationStep::Retry
    ));
    assert!(settled.reclaims.is_empty());
    assert!(matches!(
        settled.registration_attempted(open, 2, Ok("cap".to_string())),
        RegistrationStep::Registered(capability) if capability == "cap"
    ));
    assert!(settled.stream_ended(open, 4));
    settled.settle_ended(open, true);
    assert!(settled.reclaims.is_empty());
    assert_eq!(settled.channel_txs, 1);

    let (mut refused, open) = opened();
    assert!(matches!(
        refused.registration_attempted(open, 1, Err(OperatorError::Rejected("no".to_string()))),
        RegistrationStep::Abandon { wait: false }
    ));
    let (mut unserved, open_unserved) = opened();
    assert!(!unserved.stream_ended(open_unserved, 0));
    let (mut unsettled, open_unsettled) = opened();
    unsettled.settle_ended(open_unsettled, false);
    for runner in [&refused, &unserved, &unsettled] {
        assert_eq!(runner.reclaims.len(), 1);
        assert_eq!(runner.reclaims[0].payer_i, open.payer_i);
        assert_eq!(runner.reclaims[0].open_nonce, open.open_nonce);
        assert_eq!(runner.reclaims[0].expiry, open.expiry);
        assert_eq!(runner.channel_txs, 0);
    }
}

#[test]
fn vouchers_stream_until_one_is_refused_or_all_are_served() {
    let mut runner = runner(generate_accounts(2, 10), 8, 3, 5);
    let open = runner.begin(
        100,
        LifecycleDraws {
            time_out: false,
            vouchers: 4,
            refund_vouchers: 0,
        },
    );
    let amounts: Vec<u64> = (0..)
        .map_while(|served| next_voucher(open, served, false, 3))
        .collect();
    assert_eq!(amounts, vec![3, 6, 9, 12]);
    assert_eq!(next_voucher(open, 2, true, 3), None);
    assert_eq!(next_voucher(open, 1, false, u64::MAX), Some(u64::MAX));
}

#[test]
fn channels_left_to_time_out_wait_for_their_expiry() {
    assert!(awaits_expiry(10, 10, 0));
    assert!(!awaits_expiry(11, 10, 0));
    assert!(awaits_expiry(9, 10, RECLAIM_ATTEMPTS - 1));
    assert!(!awaits_expiry(9, 10, RECLAIM_ATTEMPTS));
}

#[test]
fn channel_amounts_saturate() {
    assert_eq!(voucher_amount(3, 5), 15);
    assert_eq!(voucher_amount(u64::MAX, 2), u64::MAX);
    assert_eq!(deposit_for(16, 3, 2), 22);
    assert_eq!(deposit_for(u64::MAX, 1, 1), u64::MAX);
    let response = |min_runway, settle_margin| PublicKeyResponse {
        min_runway,
        settle_margin,
    };
    assert_eq!(channel_expiry_runway(&response(32, 16)), 32 + 16 + 224);
    assert_eq!(channel_expiry_runway(&response(u64::MAX, 1)), u64::MAX);
}

#[test]
fn operator_answers_are_told_apart() {
    assert!(OperatorClient::classify(200, String::new()).is_ok());
    assert!(matches!(
        OperatorClient::classify(400, "no".to_string()),
        Err(OperatorError::Rejected(_))
    ));
    assert!(matches!(
        OperatorClient::classify(503, "later".to_string()),
        Err(OperatorError::Unavailable(_))
    ));
    assert!(OperatorClient::settled(true).is_ok());
    assert!(OperatorClient::settled(false).is_err());
}

#[test]
fn lifecycle_pools_split_accounts_and_hand_out_all_runners() {
    let accounts = generate_accounts(5, 900);
    let payers = payers(&accounts);
    let mut pool = match LifecyclePool::split(&accounts, &payers, &context(1), 8, 900) {
        Ok(pool) => pool,
        Err(_) => panic!("the pool is valid"),
    };
    assert!(!pool.is_empty());
    let total: usize = pool.idle.iter().map(|runner| runner.accounts.len()).sum();
    assert_eq!(total, 5);
    assert!(pool.idle.iter().all(|runner| runner.accounts.len() >= 2));
    let runners = pool.idle.len();
    for (i, runner) in pool.idle.iter().enumerate() {
        for (k, receiver) in runner.receivers.iter().enumerate() {
            let position = i + k * runners;
            assert_eq!(runner.accounts[k].public_key, accounts[position].public_key);
            assert_eq!(*receiver, derive_receiver(&payers[position]));
        }
        assert_eq!(runner.avg_vouchers, 8);
        assert_eq!(runner.voucher_value, 1);
        assert_eq!(runner.expiry_runway, CHANNEL_EXPIRY_SLACK);
        assert!(runner.nonces.iter().all(|nonce| *nonce == 0));
        assert!(runner.reclaims.is_empty() && !runner.warmed);
        assert_eq!((runner.cursor, runner.channel_txs, runner.vouchers), (0, 0, 0));
    }
    let started = pool.fill(Vec::new());
    assert_eq!(started.len(), runners);
    assert_eq!(pool.busy, runners);
    assert!(LifecyclePool::disabled().is_empty());
}

const BATCH: u64 = 4;

/// Submits one batch until it advances, and tells how many requests that took.
fn submit_batch(answers: Vec<Result<TxStatus, SubmitError>>) -> (Stats, usize) {
    let mut stats = Stats::new();
    stats.record_submitted(BATCH);
    let mut failures = 0;
    let mut requests = 0;
    for answer in answers {
        requests += 1;
        match submit(&mut stats, BATCH, failures, answer) {
            SubmitStep::Advance => return (stats, requests),
            SubmitStep::Retry { failures: counted } => failures = counted,
        }
    }
    panic!("the batch should advance");
}

#[test]
fn finalized_batch_advances_without_retrying() {
    let response = classify_answer(200, Ok(TxStatus::Finalized { height: 7 }));
    let (stats, requests) = submit_batch(vec![response]);

    assert_eq!(stats.totals().finalized, BATCH);
    assert_eq!(stats.totals().errors, 0);
    assert_eq!(requests, 1);
    assert_eq!(stats.submitted_batches, 1);
    assert_eq!(stats.submitted_transactions, BATCH);
}

#[test]
fn transient_error_retries_same_batch() {
    let unavailable = classify_answer(503, Err(String::new()));
    let finalized = classify_answer(200, Ok(TxStatus::Finalized { height: 7 }));
    let (stats, requests) = submit_batch(vec![unavailable, finalized]);

    assert_eq!(stats.totals().errors, 1);
    assert_eq!(stats.totals().finalized, BATCH);
    assert_eq!(requests, 2);
    assert!(matches!(
        submit(&mut Stats::new(), BATCH, 0, Err(SubmitError::ServiceUnavailable)),
        SubmitStep::Retry { failures: 1 }
    ));
}

#[test]
fn deterministic_error_advances_without_retrying() {
    let (stats, requests) = submit_batch(vec![classify_answer(400, Err(String::new()))]);

    let totals = stats.totals();
    assert_eq!(totals.finalized, 0);
    assert_eq!(totals.errors, 1);
    assert_eq!(requests, 1);
}

#[test]
fn dropped_batch_advances_without_retrying() {
    let (stats, requests) = submit_batch(vec![classify_answer(200, Ok(TxStatus::Dropped))]);

    assert_eq!(stats.totals().dropped, BATCH);
    assert_eq!(requests, 1);
}

#[test]
fn partial_finalization_records_each_outcome() {
    let response = classify_answer(
        200,
        Ok(TxStatus::PartiallyFinalized {
            height: 7,
            included: 3,
            filtered: 1,
        }),
    );
    let (stats, requests) = submit_batch(vec![response]);

    let totals = stats.totals();
    assert_eq!(totals.finalized, 3);
    assert_eq!(totals.filtered, 1);
    assert_eq!(totals.dropped, 0);
    assert_eq!(requests, 1);
}

#[test]
fn answers_map_to_submission_errors() {
    let finalized = TxStatus::Finalized { height: 7 };
    assert!(matches!(
        classify_answer(200, Ok(finalized)),
        Ok(TxStatus::Finalized { height: 7 })
    ));
    assert!(matches!(
        classify_answer(200, Err("json".to_string())),
        Err(SubmitError::InvalidResponse(_))
    ));
    assert!(matches!(
        classify_answer(413, Ok(finalized)),
        Err(SubmitError::PayloadTooLarge)
    ));
    assert!(matches!(
        classify_answer(418, Ok(finalized)),
        Err(SubmitError::Unexpected(418))
    ));
}

#[test]
fn submit_backoff_doubles_to_a_bound_with_jitter() {
    assert_eq!(jittered_backoff(1, 100), 500);
    assert_eq!(jittered_backoff(2, 100), 1_000);
    assert_eq!(jittered_backoff(4, 100), 4_000);
    assert_eq!(jittered_backoff(5, 100), 5_000);
    assert_eq!(jittered_backoff(u32::MAX, 100), 5_000);
    let backoff = retry_backoff(5);
    assert!(backoff > 0 && backoff <= 10_000);
}

#[test]
fn submitters_keep_their_relayer_and_target() {
    let submitter =
        RelayerSubmitter::new("http://relayer/".to_string(), Some("aa".to_string()));
    assert!(submitter.url.starts_with("http://relayer"));
    assert_eq!(submitter.target_leader.as_deref(), Some("aa"));
}

#[test]
fn runners_draw_from_streams_of_their_own() {
    let accounts = generate_accounts(6, 40);
    let payers: Vec<Vec<u8>> = accounts.iter().map(|a| a.public_key.clone()).collect();
    let mut pool = match LifecyclePool::split(&accounts, &payers, &context(1), 8, 900) {
        Ok(pool) => pool,
        Err(_) => panic!("the pool is valid"),
    };
    let drawn: Vec<u64> = pool
        .idle
        .iter_mut()
        .map(|runner| runner.rng.range(0, u64::MAX))
        .collect();
    let expected: Vec<u64> = (0..3)
        .map(|i| JitterRng::new(902 + i).range(0, u64::MAX))
        .collect();
    assert_eq!(drawn, expected);
    assert_ne!(drawn[0], drawn[1]);
    assert_ne!(drawn[1], drawn[2]);
    assert_ne!(drawn[0], JitterRng::new(901).range(0, u64::MAX));
}
