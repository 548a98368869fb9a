//! The paced ring of transfers.

use constantinople::spammer::spam::ring_public_keys;
use constantinople::tx::spam::{
    build_ring_accounts, dispatch_target, next_ring_transfer, pause_after, Pause, RingAccount,
    RingRun,
};
use std::collections::VecDeque;

fn ring(count: usize, seed_start: u64, nonce: u64) -> Vec<RingAccount> {
    let addresses = ring_public_keys(count, seed_start)
        .into_iter()
        .map(|key| [vec![1], key].concat())
        .collect();
    build_ring_accounts(count, seed_start, nonce, &addresses)
}

#[test]
fn ring_accounts_wrap_back_to_the_first_account() {
    let accounts = ring(3, 11, 7);

    assert_eq!(accounts.len(), 3);
    assert_eq!(accounts[0].to, accounts[1].from);
    assert_eq!(accounts[1].to, accounts[2].from);
    assert_eq!(accounts[2].to, accounts[0].from);
}

#[test]
fn next_ring_transfer_increments_sender_nonce() {
    let accounts = ring(2, 11, 7);
    let mut ready = VecDeque::from(vec![0usize, 1]);

    let first = next_ring_transfer(&accounts, &mut ready).expect("first transfer should exist");
    let second = next_ring_transfer(&accounts, &mut ready).expect("second transfer should exist");
    assert_eq!(first.nonce, 7);
    assert_eq!(first.value, 1);
    assert_eq!(second.nonce, 7);

    let mut accounts = accounts;
    accounts[0].next_nonce = 8;
    ready.push_back(0);

    let third = next_ring_transfer(&accounts, &mut ready).expect("third transfer should exist");
    assert_eq!(third.from, first.from);
    assert_eq!(third.nonce, 8);
}

#[test]
fn next_ring_transfer_skips_busy_senders() {
    let accounts: Vec<RingAccount> = ring(3, 11, 7);
    let mut ready = VecDeque::from(vec![1usize, 2]);

    let first = next_ring_transfer(&accounts, &mut ready).expect("first transfer should exist");
    let second = next_ring_transfer(&accounts, &mut ready).expect("second transfer should exist");

    assert_ne!(first.sender_index, 0);
    assert_ne!(second.sender_index, 0);
    assert!(next_ring_transfer(&accounts, &mut ready).is_none());
}

#[test]
fn runs_dispatch_at_their_pace_and_advance_nonces_on_success() {
    assert_eq!(dispatch_target(2_500_000_000, 4), 10);
    assert_eq!(dispatch_target(0, 4), 0);
    let mut run = RingRun::new(ring(2, 11, 7));
    assert!(run.dispatch(0).is_none());
    let first = run.dispatch(3).expect("a sender is ready");
    let second = run.dispatch(3).expect("a sender is ready");
    assert_ne!(first.sender_index, second.sender_index);
    assert!(run.dispatch(3).is_none(), "every sender is in flight");
    assert_eq!(run.handle_submission_result(&first, Ok(())), None);
    let message = run
        .handle_submission_result(&second, Err("boom".to_string()))
        .expect("failures are reported");
    assert!(message.ends_with(" nonce=7: boom"));
    let hex: String = second.from.iter().map(|byte| format!("{byte:02x}")).collect();
    assert!(message.contains(&hex) && hex.starts_with("01"));
    let third = run.dispatch(3).expect("a sender is ready again");
    assert_eq!(third.sender_index, first.sender_index);
    assert_eq!(third.nonce, 8);
    assert_eq!(run.completed, 2);
    assert!(run.outcome().is_err());
}

#[test]
fn pauses_depend_on_what_is_in_flight() {
    assert_ne!(pause_after(true, true), pause_after(false, false));
    assert_eq!(pause_after(true, true), Pause::Yield);
}
