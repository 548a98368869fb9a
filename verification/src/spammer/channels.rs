//! Off-chain payment-channel exercise for the spammer.
//!
//! A lifecycle opens a channel on-chain, registers it with the operator,
//! streams vouchers off-chain, then asks the operator to settle with a single
//! on-chain close. Every open carries an expiry after which the payer may
//! reclaim the escrow. A fraction of lifecycles exercise that path
//! deliberately; a lifecycle that strands its deposit is queued and reclaimed
//! once its expiry passes.

use crate::keys::{digest, sha256};
use crate::random::JitterRng;
use crate::spammer::accounts::SpamAccount;
use crate::text::{trim_end_slashes, trim_slashes};
use vstd::prelude::*;

verus! {

/// Most vouchers that a deposit exceeds the settlement by.
pub const MAX_REFUND_VOUCHERS: u64 = 3;

pub const REGISTRATION_ATTEMPTS: usize = 10;

pub const REGISTRATION_BACKOFF_MILLIS: u64 = 500;

/// Blocks on top of the operator's advertised margins when picking a channel
/// expiry: covers the height estimate lagging finalization, registration
/// retries, and voucher streaming on a fast local chain.
pub const CHANNEL_EXPIRY_SLACK: u64 = 224;

/// Blocks until a timeout-exercise channel expires.
pub const TIMEOUT_EXPIRY_DELTA: u64 = 3;

/// How many times a timeout is submitted while waiting for expiry to pass.
pub const RECLAIM_ATTEMPTS: usize = 30;

pub const RECLAIM_BACKOFF_MILLIS: u64 = 500;

/// Concurrent lifecycles per submitter. A lifecycle spends most of its
/// wall-clock waiting on finalization.
pub const CONCURRENT_LIFECYCLES: usize = 32;

/// Upper bound on any operator call.
pub const REQUEST_TIMEOUT_MILLIS: u64 = 60_000;

/// Whole-number sum, capped at the largest count.
pub open spec fn capped_sum(a: int, b: int) -> int {
    if a + b > u64::MAX {
        u64::MAX as int
    } else {
        a + b
    }
}

/// Whole-number product, capped at the largest count.
pub open spec fn capped_product(a: int, b: int) -> int {
    if a * b > u64::MAX {
        u64::MAX as int
    } else {
        a * b
    }
}

fn times(a: u64, b: u64) -> (product: u64)
    ensures
        product == capped_product(a as int, b as int),
{
    match a.checked_mul(b) {
        Some(product) => product,
        None => u64::MAX,
    }
}

/// What an operator advertises of its expiry margins.
#[derive(Clone, Copy, Debug, PartialEq, Eq, Structural)]
pub struct PublicKeyResponse {
    pub min_runway: u64,
    pub settle_margin: u64,
}

/// Blocks of runway that a channel is opened with towards an operator.
pub open spec fn runway_of(response: PublicKeyResponse) -> int {
    capped_sum(response.min_runway + response.settle_margin, CHANNEL_EXPIRY_SLACK as int)
}

/// Blocks of runway a normal (settled) channel is opened with, derived from
/// the operator's advertised margins so the spammer and operator cannot drift
/// apart on what enough runway means.
pub fn channel_expiry_runway(response: &PublicKeyResponse) -> (runway: u64)
    ensures
        runway == runway_of(*response),
{
    response.min_runway.saturating_add(response.settle_margin).saturating_add(CHANNEL_EXPIRY_SLACK)
}

/// A channel opened with the advertised runway outlives every margin the
/// operator asks for, where block heights do not run out.
pub proof fn runway_covers_the_margins(response: PublicKeyResponse)
    ensures
        capped_sum(response.min_runway + response.settle_margin, CHANNEL_EXPIRY_SLACK as int)
            >= response.min_runway,
        response.min_runway + response.settle_margin + CHANNEL_EXPIRY_SLACK <= u64::MAX
            ==> capped_sum(
            response.min_runway + response.settle_margin,
            CHANNEL_EXPIRY_SLACK as int,
        ) >= response.min_runway + response.settle_margin + CHANNEL_EXPIRY_SLACK,
{
}

/// Domain separator for the spammer's derived receiver accounts.
pub open spec fn receiver_domain() -> Seq<u8> {
    seq![
        0x63u8, 0x6fu8, 0x6eu8, 0x73u8, 0x74u8, 0x61u8, 0x6eu8, 0x74u8,
        0x69u8, 0x6eu8, 0x6fu8, 0x70u8, 0x6cu8, 0x65u8, 0x2du8, 0x73u8,
        0x70u8, 0x61u8, 0x6du8, 0x6du8, 0x65u8, 0x72u8, 0x2du8, 0x72u8,
        0x65u8, 0x63u8, 0x65u8, 0x69u8, 0x76u8, 0x65u8, 0x72u8,
    ]
}

/// Derives the keyless receiver account a payer's channels pay out to.
///
/// A channel's payee never signs anything, so each payer's settlements go to
/// an account no key produces.
pub fn derive_receiver(payer: &Vec<u8>) -> (receiver: Vec<u8>)
    ensures
        receiver@ == sha256(receiver_domain() + payer@),
        receiver.len() == 32,
{
    let mut message: Vec<u8> = vec![
        0x63, 0x6f, 0x6e, 0x73, 0x74, 0x61, 0x6e, 0x74, 0x69, 0x6e, 0x6f, 0x70, 0x6c, 0x65, 0x2d,
        0x73, 0x70, 0x61, 0x6d, 0x6d, 0x65, 0x72, 0x2d, 0x72, 0x65, 0x63, 0x65, 0x69, 0x76, 0x65,
        0x72,
    ];
    assert(message@ =~= receiver_domain());
    let mut i: usize = 0;
    while i < payer.len()
        invariant
            i <= payer.len(),
            message@ == receiver_domain() + payer@.take(i as int),
        decreases payer.len() - i,
    {
        message.push(payer[i]);
        i = i + 1;
        assert(message@ =~= receiver_domain() + payer@.take(i as int));
    }
    assert(payer@.take(payer@.len() as int) =~= payer@);
    digest(message.as_slice())
}

/// Where the operator is and how its channels are funded.
#[derive(Debug)]
pub struct OperatorContext {
    pub client: OperatorClient,
    /// The operator's account key; every channel names it in its address
    /// derivation.
    pub account: Vec<u8>,
    /// Blocks of runway settled channels are opened with.
    pub expiry_runway: u64,
    /// Amount each voucher steps the cumulative by.
    pub voucher_value: u64,
}

/// The address of an operator's service.
#[derive(Debug)]
pub struct OperatorClient {
    pub url: String,
}

/// Why an operator request did not succeed.
#[derive(Debug)]
pub enum OperatorError {
    /// The operator will refuse the same request again.
    Rejected(String),
    /// The operator, or something it depends on, did not answer.
    Unavailable(String),
}

/// What an operator's answer with status `code` means.
pub open spec fn operator_answer(code: u16, message: String) -> Result<(), OperatorError> {
    if 200 <= code < 300 {
        Ok(())
    } else if 400 <= code < 500 {
        Err(OperatorError::Rejected(message))
    } else {
        Err(OperatorError::Unavailable(message))
    }
}

impl OperatorClient {
    /// A client of the operator at `url`.
    pub fn new(url: String) -> (client: Self)
        ensures
            client.url@ == trim_slashes(url@),
    {
        OperatorClient { url: trim_end_slashes(url.as_str()) }
    }

    /// What an answer with status `code` and that `message` means: success is
    /// two hundred and something, a refusal four hundred and something, and
    /// anything else is unavailable.
    pub fn classify(code: u16, message: String) -> (result: Result<(), OperatorError>)
        ensures
            result == operator_answer(code, message),
    {
        if 200 <= code && code < 300 {
            Ok(())
        } else if 400 <= code && code < 500 {
            Err(OperatorError::Rejected(message))
        } else {
            Err(OperatorError::Unavailable(message))
        }
    }

    /// The capability that a registration granted. An empty one is no grant.
    pub fn granted(capability: String) -> (result: Result<String, OperatorError>)
        ensures
            capability@.len() > 0 ==> result == Ok::<String, OperatorError>(capability),
            capability@.len() == 0 ==> (result matches Err(OperatorError::Unavailable(message))
                && message@ == "operator register response has an empty capability"@),
    {
        if crate::text::chars_of(capability.as_str()).len() == 0 {
            return Err(
                OperatorError::Unavailable(
                    "operator register response has an empty capability".to_owned(),
                ),
            );
        }
        Ok(capability)
    }

    /// Whether a settlement landed. An abandoned close answers with success
    /// but leaves the escrow on-chain.
    pub fn settled(landed: bool) -> (result: Result<(), String>)
        ensures
            landed ==> result is Ok,
            !landed ==> (result matches Err(message) && message@
                == "operator abandoned the close; escrow remains on-chain"@),
    {
        if !landed {
            return Err("operator abandoned the close; escrow remains on-chain".to_owned());
        }
        Ok(())
    }
}

/// A stranded deposit awaiting reclaim once its channel's expiry passes.
#[derive(Clone, Copy, Debug, PartialEq, Eq, Structural)]
pub struct PendingReclaim {
    pub payer_i: usize,
    pub open_nonce: u64,
    pub expiry: u64,
    /// The nonce of the timeout, reserved on the first attempt and reused by
    /// every retry. A fresh nonce per attempt would leave a permanent gap for
    /// each one that never landed.
    pub timeout_nonce: Option<u64>,
}

impl PendingReclaim {
    /// A deposit whose timeout was not attempted yet.
    pub fn new(payer_i: usize, open_nonce: u64, expiry: u64) -> (reclaim: Self)
        ensures
            reclaim == (PendingReclaim { payer_i, open_nonce, expiry, timeout_nonce: None }),
    {
        PendingReclaim { payer_i, open_nonce, expiry, timeout_nonce: None }
    }
}

/// What became of a single-transaction batch: how many transactions were
/// finalized, and the height that the chain judged it at, where it did.
#[derive(Clone, Copy, Debug, PartialEq, Eq, Structural)]
pub struct SubmitReport {
    pub finalized: u64,
    pub height: Option<u64>,
}

/// A channel to open.
#[derive(Clone, Copy, Debug, PartialEq, Eq, Structural)]
pub struct ChannelOpen {
    pub payer_i: usize,
    pub deposit: u64,
    pub expiry: u64,
    /// Vouchers to stream; none where the channel is left to time out.
    pub vouchers: u64,
    pub open_nonce: u64,
}

/// The draws that a lifecycle depends on.
#[derive(Clone, Copy, Debug, PartialEq, Eq, Structural)]
pub struct LifecycleDraws {
    /// Whether the channel is left to time out.
    pub time_out: bool,
    pub vouchers: u64,
    /// Vouchers that the deposit exceeds the settlement by.
    pub refund_vouchers: u64,
}

/// Outcome of a reclaim.
#[derive(Clone, Copy, Debug, PartialEq, Eq, Structural)]
pub enum ReclaimOutcome {
    /// The timeout finalized; the deposit is back with the payer.
    Reclaimed,
    /// The chain processed the timeout past the expiry and skipped it: the
    /// channel no longer exists.
    ChannelGone,
    /// Nothing definitive happened; worth retrying later.
    Transient,
}

/// What follows a registration attempt.
#[derive(Debug)]
pub enum RegistrationStep {
    /// The channel is registered under this capability.
    Registered(String),
    /// Wait, then try again.
    Retry,
    /// Give up, after a wait where one is asked for; the deposit is reclaimed.
    Abandon { wait: bool },
}

/// What follows registration attempt number `attempt`, counted from one.
pub open spec fn registration_step(
    attempt: usize,
    outcome: Result<String, OperatorError>,
) -> RegistrationStep {
    match outcome {
        Ok(capability) => RegistrationStep::Registered(capability),
        Err(OperatorError::Rejected(_)) => RegistrationStep::Abandon { wait: false },
        Err(OperatorError::Unavailable(_)) => if attempt < REGISTRATION_ATTEMPTS {
            RegistrationStep::Retry
        } else {
            RegistrationStep::Abandon { wait: true }
        },
    }
}

/// What follows registration attempt number `attempt`, counted from one. A
/// refusal will keep failing; anything else may be the operator's indexer
/// lagging behind the open.
pub fn registration_ended(attempt: usize, outcome: Result<String, OperatorError>) -> (step:
    RegistrationStep)
    ensures
        step == registration_step(attempt, outcome),
{
    match outcome {
        Ok(capability) => RegistrationStep::Registered(capability),
        Err(OperatorError::Rejected(_)) => RegistrationStep::Abandon { wait: false },
        Err(OperatorError::Unavailable(_)) => if attempt < REGISTRATION_ATTEMPTS {
            RegistrationStep::Retry
        } else {
            RegistrationStep::Abandon { wait: true }
        },
    }
}

/// The cumulative amount of voucher number `i`, counted from one.
pub fn voucher_amount(i: u64, voucher_value: u64) -> (amount: u64)
    ensures
        amount == capped_product(i as int, voucher_value as int),
{
    times(i, voucher_value)
}

/// The cumulative amount of the voucher that is streamed after `served` were
/// accepted, where one is.
pub open spec fn voucher_after(
    open: ChannelOpen,
    served: u64,
    refused: bool,
    voucher_value: u64,
) -> Option<u64> {
    if !refused && served < open.vouchers {
        Some(capped_product(served + 1, voucher_value as int) as u64)
    } else {
        None
    }
}

/// The cumulative amount of the voucher that is streamed next, after `served`
/// were accepted: none once one was refused or all of the channel's were served.
pub fn next_voucher(open: ChannelOpen, served: u64, refused: bool, voucher_value: u64) -> (amount:
    Option<u64>)
    ensures
        amount is Some <==> !refused && served < open.vouchers,
        amount matches Some(amount) ==> amount == capped_product(
            served + 1,
            voucher_value as int,
        ),
        amount == voucher_after(open, served, refused, voucher_value),
{
    if refused || served >= open.vouchers {
        None
    } else {
        Some(voucher_amount(served + 1, voucher_value))
    }
}

/// Whether the expiry of a channel is waited for once more.
pub open spec fn is_awaited(height: u64, expiry: u64, waited: usize) -> bool {
    height <= expiry && waited < RECLAIM_ATTEMPTS
}

/// Whether a channel that is left to time out is waited for once more, after
/// `waited` waits: its expiry has not passed at `height`, and the waits are not
/// used up. A timeout is refused before the expiry passes.
pub fn awaits_expiry(height: u64, expiry: u64, waited: usize) -> (waits: bool)
    ensures
        waits == is_awaited(height, expiry, waited),
{
    height <= expiry && waited < RECLAIM_ATTEMPTS
}

/// What the `attempt`-th timeout submission came to, where that is settled.
pub open spec fn reclaim_after(expiry: u64, attempt: usize, report: SubmitReport) -> Option<
    ReclaimOutcome,
> {
    if report.finalized > 0 {
        Some(ReclaimOutcome::Reclaimed)
    } else if report.height matches Some(height) && height > expiry {
        Some(ReclaimOutcome::ChannelGone)
    } else if attempt >= RECLAIM_ATTEMPTS {
        Some(ReclaimOutcome::Transient)
    } else {
        None
    }
}

/// What follows a timeout submission, the `attempt`-th counted from one:
/// `None` is to wait and submit the same timeout again.
///
/// Only a response with a finalization height proves that the chain processed
/// and skipped the timeout.
pub fn reclaim_attempted(expiry: u64, attempt: usize, report: SubmitReport) -> (outcome: Option<
    ReclaimOutcome,
>)
    ensures
        outcome == reclaim_after(expiry, attempt, report),
{
    if report.finalized > 0 {
        return Some(ReclaimOutcome::Reclaimed);
    }
    if let Some(height) = report.height {
        if height > expiry {
            return Some(ReclaimOutcome::ChannelGone);
        }
    }
    if attempt >= RECLAIM_ATTEMPTS {
        Some(ReclaimOutcome::Transient)
    } else {
        None
    }
}

/// Fewest vouchers of a channel: half the average, rounded up.
pub open spec fn fewest_vouchers(avg_vouchers: u64) -> int {
    (avg_vouchers + 1) / 2
}

/// Most vouchers of a channel: half above the average.
pub open spec fn most_vouchers(avg_vouchers: u64) -> int {
    capped_sum(avg_vouchers as int, avg_vouchers as int / 2)
}

/// The settlement of `vouchers` vouchers.
pub open spec fn settlement(vouchers: u64, voucher_value: u64) -> int {
    capped_product(vouchers as int, voucher_value as int)
}

/// The deposit of a channel that settles at `cumulative`.
pub open spec fn deposit_of(cumulative: int, refund_vouchers: u64, voucher_value: u64) -> int {
    capped_sum(cumulative, capped_product(refund_vouchers as int, voucher_value as int))
}

/// The deposit of a channel that settles at `cumulative`, with an extra escrow
/// of `refund_vouchers` vouchers so that the close refunds the payer.
pub fn deposit_for(cumulative: u64, refund_vouchers: u64, voucher_value: u64) -> (deposit: u64)
    ensures
        deposit == deposit_of(cumulative as int, refund_vouchers, voucher_value),
{
    cumulative.saturating_add(times(refund_vouchers, voucher_value))
}

/// The reclaim of an open whose deposit is stranded.
pub open spec fn reclaim_of(open: ChannelOpen) -> PendingReclaim {
    PendingReclaim {
        payer_i: open.payer_i,
        open_nonce: open.open_nonce,
        expiry: open.expiry,
        timeout_nonce: None,
    }
}

/// Runs channel lifecycles over a dedicated account ring.
pub struct ChannelRunner {
    pub accounts: Vec<SpamAccount>,
    /// The keyless receiver each payer's channels pay out to, index-aligned
    /// with `accounts`.
    pub receivers: Vec<Vec<u8>>,
    pub nonces: Vec<u64>,
    pub cursor: usize,
    pub expiry_runway: u64,
    pub voucher_value: u64,
    pub avg_vouchers: u64,
    pub rng: JitterRng,
    /// Deposits stranded by failures, reclaimed by timeout once due.
    pub reclaims: Vec<PendingReclaim>,
    /// Whether the ring's warm-up mints have run.
    pub warmed: bool,
    /// Finalized opens, closes and reclaims.
    pub channel_txs: u64,
    /// Vouchers the operator served.
    pub vouchers: u64,
}

/// A ring that no runner takes.
#[derive(Clone, Copy, Debug, PartialEq, Eq, Structural)]
pub enum RingFault {
    TooFewAccounts,
    NoVouchers,
    NoVoucherValue,
}

impl ChannelRunner {
    /// Every account has a receiver and a nonce, the cursor and every queued
    /// reclaim point into the ring.
    pub open spec fn wf(&self) -> bool {
        &&& self.accounts.len() >= 2
        &&& self.receivers.len() == self.accounts.len()
        &&& self.nonces.len() == self.accounts.len()
        &&& self.cursor < self.accounts.len()
        &&& self.avg_vouchers >= 1
        &&& self.voucher_value >= 1
        &&& forall|i: int|
            0 <= i < self.reclaims.len() ==> (#[trigger] self.reclaims[i]).payer_i
                < self.accounts.len()
    }

    /// Whether everything but nonces, reclaims, counts and the place in the
    /// stream of jitter stayed.
    pub open spec fn same_ring(&self, other: &Self) -> bool {
        &&& self.accounts@ == other.accounts@
        &&& self.receivers@ == other.receivers@
        &&& self.expiry_runway == other.expiry_runway
        &&& self.voucher_value == other.voucher_value
        &&& self.avg_vouchers == other.avg_vouchers
        &&& self.rng.seed() == other.rng.seed()
    }

    /// Creates a runner over `accounts`, a ring of at least two, whose account
    /// keys are `payers`. Its jitter is drawn from the stream of `seed`.
    pub fn new(
        accounts: Vec<SpamAccount>,
        payers: &Vec<Vec<u8>>,
        operator: &OperatorContext,
        avg_vouchers: u64,
        seed: u64,
    ) -> (result: Result<Self, RingFault>)
        requires
            payers.len() == accounts.len(),
        ensures
            result is Ok <==> accounts.len() >= 2 && avg_vouchers >= 1 && operator.voucher_value
                >= 1,
            result matches Err(fault) ==> fault == (if accounts.len() < 2 {
                RingFault::TooFewAccounts
            } else if avg_vouchers < 1 {
                RingFault::NoVouchers
            } else {
                RingFault::NoVoucherValue
            }),
            result matches Ok(runner) ==> {
                &&& runner.wf()
                &&& runner.accounts@ == accounts@
                &&& forall|i: int|
                    0 <= i < payers.len() ==> (#[trigger] runner.receivers[i])@ == sha256(
                        receiver_domain() + payers[i]@,
                    )
                &&& forall|i: int| 0 <= i < runner.nonces.len() ==> runner.nonces[i] == 0
                &&& runner.cursor == 0
                &&& runner.expiry_runway == operator.expiry_runway
                &&& runner.voucher_value == operator.voucher_value
                &&& runner.avg_vouchers == avg_vouchers
                &&& runner.rng.seed() == seed
                &&& runner.reclaims@.len() == 0
                &&& !runner.warmed
                &&& runner.channel_txs == 0
                &&& runner.vouchers == 0
            },
    {
        if accounts.len() < 2 {
            return Err(RingFault::TooFewAccounts);
        }
        if avg_vouchers < 1 {
            return Err(RingFault::NoVouchers);
        }
        if operator.voucher_value < 1 {
            return Err(RingFault::NoVoucherValue);
        }
        let mut receivers: Vec<Vec<u8>> = Vec::new();
        let mut nonces: Vec<u64> = Vec::new();
        let mut i: usize = 0;
        while i < payers.len()
            invariant
                i <= payers.len(),
                receivers.len() == i,
                nonces.len() == i,
                forall|j: int|
                    0 <= j < i ==> (#[trigger] receivers[j])@ == sha256(
                        receiver_domain() + payers[j]@,
                    ),
                forall|j: int| 0 <= j < i ==> nonces[j] == 0,
            decreases payers.len() - i,
        {
            receivers.push(derive_receiver(&payers[i]));
            nonces.push(0);
            i = i + 1;
        }
        Ok(
            ChannelRunner {
                accounts,
                receivers,
                nonces,
                cursor: 0,
                expiry_runway: operator.expiry_runway,
                voucher_value: operator.voucher_value,
                avg_vouchers,
                rng: JitterRng::new(seed),
                reclaims: Vec::new(),
                warmed: false,
                channel_txs: 0,
                vouchers: 0,
            },
        )
    }

    /// Whether the ring's warm-up mints led this runner to `next`.
    pub open spec fn warms(&self, next: &Self) -> bool {
        &&& next.warmed
        &&& next.cursor == self.cursor
        &&& next.nonces@.len() == next.accounts@.len()
        &&& forall|i: int| 0 <= i < next.nonces@.len() ==> next.nonces@[i] == 1
    }

    /// Takes the ring's warm-up mints as landed: they consumed nonce zero of
    /// every account.
    pub fn warmed_up(&mut self)
        requires
            old(self).wf(),
        ensures
            final(self).wf(),
            final(self).same_ring(old(self)),
            final(self).warmed,
            forall|i: int| 0 <= i < final(self).nonces.len() ==> final(self).nonces[i] == 1,
            old(self).warms(final(self)),
            final(self).cursor == old(self).cursor,
            final(self).reclaims@ == old(self).reclaims@,
            final(self).channel_txs == old(self).channel_txs,
            final(self).vouchers == old(self).vouchers,
    {
        let mut nonces: Vec<u64> = Vec::new();
        let mut i: usize = 0;
        while i < self.nonces.len()
            invariant
                i <= self.nonces.len(),
                nonces.len() == i,
                forall|j: int| 0 <= j < i ==> nonces[j] == 1,
            decreases self.nonces.len() - i,
        {
            nonces.push(1);
            i = i + 1;
        }
        self.nonces = nonces;
        self.warmed = true;
    }

    /// Reserves the payer's next transaction nonce.
    pub fn next_nonce(&mut self, payer_i: usize) -> (nonce: u64)
        requires
            old(self).wf(),
            payer_i < old(self).accounts.len(),
            old(self).nonces[payer_i as int] < u64::MAX,
        ensures
            final(self).wf(),
            final(self).same_ring(old(self)),
            nonce == old(self).nonces[payer_i as int],
            final(self).nonces@ == old(self).nonces@.update(payer_i as int, (nonce + 1) as u64),
            final(self).cursor == old(self).cursor,
            final(self).reclaims@ == old(self).reclaims@,
            final(self).warmed == old(self).warmed,
            final(self).channel_txs == old(self).channel_txs,
            final(self).vouchers == old(self).vouchers,
    {
        let nonce: u64 = self.nonces[payer_i];
        self.nonces.set(payer_i, nonce + 1);
        nonce
    }

    /// Queues a stranded deposit for a timeout reclaim once `expiry` passes.
    pub fn queue_reclaim(&mut self, payer_i: usize, open_nonce: u64, expiry: u64)
        requires
            old(self).wf(),
            payer_i < old(self).accounts.len(),
        ensures
            final(self).wf(),
            final(self).same_ring(old(self)),
            final(self).reclaims@ == old(self).reclaims@.push(
                PendingReclaim { payer_i, open_nonce, expiry, timeout_nonce: None },
            ),
            final(self).nonces@ == old(self).nonces@,
            final(self).cursor == old(self).cursor,
            final(self).warmed == old(self).warmed,
            final(self).channel_txs == old(self).channel_txs,
            final(self).vouchers == old(self).vouchers,
    {
        self.reclaims.push(PendingReclaim::new(payer_i, open_nonce, expiry));
    }

    /// Voucher count for the next channel, jittered around the average so
    /// channel lifetimes vary.
    pub fn next_voucher_count(&mut self) -> (count: u64)
        requires
            old(self).wf(),
        ensures
            final(self).wf(),
            final(self).same_ring(old(self)),
            fewest_vouchers(old(self).avg_vouchers) <= count <= most_vouchers(
                old(self).avg_vouchers,
            ),
            count >= 1,
            final(self).nonces@ == old(self).nonces@,
            final(self).cursor == old(self).cursor,
            final(self).reclaims@ == old(self).reclaims@,
            final(self).warmed == old(self).warmed,
            final(self).channel_txs == old(self).channel_txs,
            final(self).vouchers == old(self).vouchers,
    {
        let half: u64 = self.avg_vouchers / 2;
        let low: u64 = half + self.avg_vouchers % 2;
        let high: u64 = self.avg_vouchers.saturating_add(half);
        self.rng.range(low, high)
    }

    /// Deposit for the next channel. Half of channels carry a small extra
    /// escrow so the close path exercises payer refunds instead of always
    /// exhausting the channel exactly.
    pub fn next_deposit(&mut self, cumulative: u64) -> (deposit: u64)
        requires
            old(self).wf(),
        ensures
            final(self).wf(),
            final(self).same_ring(old(self)),
            exists|extra: u64|
                extra <= MAX_REFUND_VOUCHERS && deposit == deposit_of(
                    cumulative as int,
                    extra,
                    old(self).voucher_value,
                ),
            cumulative <= deposit,
            final(self).nonces@ == old(self).nonces@,
            final(self).cursor == old(self).cursor,
            final(self).reclaims@ == old(self).reclaims@,
            final(self).warmed == old(self).warmed,
            final(self).channel_txs == old(self).channel_txs,
            final(self).vouchers == old(self).vouchers,
    {
        let extra: u64 = if self.rng.chance(1, 2) {
            self.rng.range(1, MAX_REFUND_VOUCHERS)
        } else {
            0
        };
        let deposit: u64 = deposit_for(cumulative, extra, self.voucher_value);
        proof {
            lemma_product_nonnegative(extra as int, self.voucher_value as int);
            assert(extra <= MAX_REFUND_VOUCHERS && deposit == deposit_of(
                cumulative as int,
                extra,
                old(self).voucher_value,
            ));
        }
        deposit
    }
}

proof fn lemma_product_nonnegative(a: int, b: int)
    requires
        a >= 0,
        b >= 0,
    ensures
        capped_product(a, b) >= 0,
{
    assert(a * b >= 0) by (nonlinear_arith)
        requires
            a >= 0,
            b >= 0,
    ;
}

/// The reclaims of `reclaims` that are due at `height`, or not, in their order.
pub open spec fn due_reclaims(reclaims: Seq<PendingReclaim>, height: u64, due: bool) -> Seq<
    PendingReclaim,
> {
    reclaims.filter(|r: PendingReclaim| (height > r.expiry) == due)
}

proof fn lemma_filter_step(reclaims: Seq<PendingReclaim>, height: u64, due: bool, n: int)
    requires
        0 <= n < reclaims.len(),
    ensures
        due_reclaims(reclaims.take(n + 1), height, due) == (if (height > reclaims[n].expiry)
            == due {
            due_reclaims(reclaims.take(n), height, due).push(reclaims[n])
        } else {
            due_reclaims(reclaims.take(n), height, due)
        }),
{
    reveal(Seq::filter);
    assert(reclaims.take(n + 1).drop_last() =~= reclaims.take(n));
}

/// Whether a lifecycle could have drawn these: a channel that is left to time
/// out draws no voucher count and no refund.
pub open spec fn possible_draws(draws: LifecycleDraws, avg_vouchers: u64) -> bool {
    ||| draws.time_out
    ||| fewest_vouchers(avg_vouchers) <= draws.vouchers <= most_vouchers(avg_vouchers)
        && draws.refund_vouchers <= MAX_REFUND_VOUCHERS
}

impl ChannelRunner {
    /// The channel that the next lifecycle opens at `height`.
    ///
    /// One that is left to time out holds a single voucher's value for a few
    /// blocks. Any other holds its settlement and its refund, for long enough
    /// that the operator can settle.
    pub open spec fn next_open(&self, height: u64, draws: LifecycleDraws) -> ChannelOpen {
        let payer_i = self.cursor;
        if draws.time_out {
            ChannelOpen {
                payer_i,
                deposit: self.voucher_value,
                expiry: capped_sum(height as int, TIMEOUT_EXPIRY_DELTA as int) as u64,
                vouchers: 0,
                open_nonce: self.nonces@[payer_i as int],
            }
        } else {
            ChannelOpen {
                payer_i,
                deposit: deposit_of(
                    settlement(draws.vouchers, self.voucher_value),
                    draws.refund_vouchers,
                    self.voucher_value,
                ) as u64,
                expiry: capped_sum(height as int, self.expiry_runway as int) as u64,
                vouchers: draws.vouchers,
                open_nonce: self.nonces@[payer_i as int],
            }
        }
    }

    /// Whether starting the lifecycle of `open` led this runner to `next`.
    pub open spec fn begins(&self, next: &Self, open: ChannelOpen) -> bool {
        &&& next.cursor == (self.cursor + 1) % self.accounts.len() as int
        &&& next.nonces@ == self.nonces@.update(self.cursor as int, (open.open_nonce + 1) as u64)
        &&& next.accounts@ == self.accounts@
    }

    /// Whether `report` on `open` led this runner to `next`.
    pub open spec fn opens(&self, next: &Self, open: ChannelOpen, report: SubmitReport) -> bool {
        &&& next.reclaims@ == (if report.finalized == 0 && report.height is None {
            self.reclaims@.push(reclaim_of(open))
        } else {
            self.reclaims@
        })
        &&& next.channel_txs == (if report.finalized > 0 {
            self.channel_txs.wrapping_add(1)
        } else {
            self.channel_txs
        })
    }

    /// Starts the lifecycle of the next payer in the ring, with its next nonce
    /// reserved: the channel's address derives from that nonce, so every open
    /// is a channel that never recurs.
    pub fn begin(&mut self, height: u64, draws: LifecycleDraws) -> (open: ChannelOpen)
        requires
            old(self).wf(),
            old(self).nonces[old(self).cursor as int] < u64::MAX,
            !draws.time_out ==> draws.vouchers >= 1,
        ensures
            final(self).wf(),
            final(self).same_ring(old(self)),
            open == old(self).next_open(height, draws),
            open.deposit >= 1,
            old(self).begins(final(self), open),
            final(self).cursor == (old(self).cursor + 1) % old(self).accounts.len() as int,
            final(self).nonces@ == old(self).nonces@.update(
                old(self).cursor as int,
                (open.open_nonce + 1) as u64,
            ),
            final(self).reclaims@ == old(self).reclaims@,
            final(self).warmed == old(self).warmed,
            final(self).channel_txs == old(self).channel_txs,
            final(self).vouchers == old(self).vouchers,
    {
        let payer_i: usize = self.cursor;
        proof {
            if self.cursor + 1 == self.accounts.len() {
                vstd::arithmetic::div_mod::lemma_mod_self_0(self.accounts.len() as int);
            } else {
                vstd::arithmetic::div_mod::lemma_small_mod(
                    (self.cursor + 1) as nat,
                    self.accounts.len() as nat,
                );
            }
            if !draws.time_out {
                lemma_product_positive(draws.vouchers as int, self.voucher_value as int);
            }
            lemma_product_nonnegative(draws.refund_vouchers as int, self.voucher_value as int);
        }
        self.cursor = if payer_i + 1 == self.accounts.len() {
            0
        } else {
            payer_i + 1
        };
        let open_nonce: u64 = self.next_nonce(payer_i);
        if draws.time_out {
            return ChannelOpen {
                payer_i,
                deposit: self.voucher_value,
                expiry: height.saturating_add(TIMEOUT_EXPIRY_DELTA),
                vouchers: 0,
                open_nonce,
            };
        }
        let cumulative: u64 = times(draws.vouchers, self.voucher_value);
        ChannelOpen {
            payer_i,
            deposit: deposit_for(cumulative, draws.refund_vouchers, self.voucher_value),
            expiry: height.saturating_add(self.expiry_runway),
            vouchers: draws.vouchers,
            open_nonce,
        }
    }

    /// Starts a lifecycle at `height`: a tenth of channels are left to time
    /// out, the others stream a jittered number of vouchers.
    pub fn run_once(&mut self, height: u64) -> (open: ChannelOpen)
        requires
            old(self).wf(),
            old(self).nonces[old(self).cursor as int] < u64::MAX,
        ensures
            final(self).wf(),
            final(self).same_ring(old(self)),
            exists|draws: LifecycleDraws| #[trigger]
                possible_draws(draws, old(self).avg_vouchers) && open == old(self).next_open(
                    height,
                    draws,
                ),
            old(self).begins(final(self), open),
            final(self).cursor == (old(self).cursor + 1) % old(self).accounts.len() as int,
            final(self).nonces@ == old(self).nonces@.update(
                old(self).cursor as int,
                (open.open_nonce + 1) as u64,
            ),
            final(self).reclaims@ == old(self).reclaims@,
            final(self).warmed == old(self).warmed,
            final(self).channel_txs == old(self).channel_txs,
            final(self).vouchers == old(self).vouchers,
    {
        if self.rng.chance(1, 10) {
            let draws = LifecycleDraws { time_out: true, vouchers: 0, refund_vouchers: 0 };
            assert(possible_draws(draws, self.avg_vouchers));
            return self.begin(height, draws);
        }
        let vouchers: u64 = self.next_voucher_count();
        let refund_vouchers: u64 = if self.rng.chance(1, 2) {
            self.rng.range(1, MAX_REFUND_VOUCHERS)
        } else {
            0
        };
        let draws = LifecycleDraws { time_out: false, vouchers, refund_vouchers };
        assert(possible_draws(draws, self.avg_vouchers));
        self.begin(height, draws)
    }

    /// Takes what became of an open; the result tells whether the channel
    /// exists.
    ///
    /// Without a height the chain never judged the open, and it may still
    /// finalize and escrow the deposit, so a reclaim is queued.
    pub fn open_ended(&mut self, open: ChannelOpen, report: SubmitReport) -> (opened: bool)
        requires
            old(self).wf(),
            open.payer_i < old(self).accounts.len(),
        ensures
            final(self).wf(),
            final(self).same_ring(old(self)),
            opened == (report.finalized > 0),
            old(self).opens(final(self), open, report),
            final(self).reclaims@ == (if report.finalized == 0 && report.height is None {
                old(self).reclaims@.push(reclaim_of(open))
            } else {
                old(self).reclaims@
            }),
            final(self).channel_txs == (if report.finalized > 0 {
                old(self).channel_txs.wrapping_add(1)
            } else {
                old(self).channel_txs
            }),
            final(self).nonces@ == old(self).nonces@,
            final(self).cursor == old(self).cursor,
            final(self).warmed == old(self).warmed,
            final(self).vouchers == old(self).vouchers,
    {
        if report.finalized == 0 {
            if report.height.is_none() {
                self.queue_reclaim(open.payer_i, open.open_nonce, open.expiry);
            }
            return false;
        }
        self.channel_txs = self.channel_txs.wrapping_add(1);
        true
    }

    /// Whether registering `open` led to `step` and this runner to `next`.
    pub open spec fn registers(
        &self,
        next: &Self,
        open: ChannelOpen,
        step: RegistrationStep,
    ) -> bool {
        &&& next.reclaims@ == (if step is Abandon {
            self.reclaims@.push(reclaim_of(open))
        } else {
            self.reclaims@
        })
        &&& next.channel_txs == self.channel_txs
    }

    /// Whether streaming `served` vouchers of `open` led this runner to `next`.
    pub open spec fn streams(&self, next: &Self, open: ChannelOpen, served: u64) -> bool {
        &&& next.reclaims@ == (if served == 0 {
            self.reclaims@.push(reclaim_of(open))
        } else {
            self.reclaims@
        })
        &&& next.channel_txs == self.channel_txs
    }

    /// Whether the settlement of `open`, or its failure, led this runner to
    /// `next`.
    pub open spec fn settles(&self, next: &Self, open: ChannelOpen, settled: bool) -> bool {
        &&& next.reclaims@ == (if settled {
            self.reclaims@
        } else {
            self.reclaims@.push(reclaim_of(open))
        })
        &&& next.channel_txs == (if settled {
            self.channel_txs.wrapping_add(1)
        } else {
            self.channel_txs
        })
    }

    /// Whether the outcome of `reclaim` led this runner to `next`.
    pub open spec fn resolves(
        &self,
        next: &Self,
        reclaim: PendingReclaim,
        outcome: ReclaimOutcome,
    ) -> bool {
        &&& next.channel_txs == (if outcome == ReclaimOutcome::Reclaimed {
            self.channel_txs.wrapping_add(1)
        } else {
            self.channel_txs
        })
        &&& next.reclaims@ == (if outcome == ReclaimOutcome::Transient {
            self.reclaims@.push(reclaim)
        } else {
            self.reclaims@
        })
    }

    /// Takes registration attempt number `attempt` of an open channel, counted
    /// from one. Where it is given up, the deposit is reclaimed.
    pub fn registration_attempted(
        &mut self,
        open: ChannelOpen,
        attempt: usize,
        outcome: Result<String, OperatorError>,
    ) -> (step: RegistrationStep)
        requires
            old(self).wf(),
            open.payer_i < old(self).accounts.len(),
        ensures
            final(self).wf(),
            final(self).same_ring(old(self)),
            step == registration_step(attempt, outcome),
            old(self).registers(final(self), open, step),
            final(self).nonces@ == old(self).nonces@,
            final(self).cursor == old(self).cursor,
            final(self).warmed == old(self).warmed,
            final(self).vouchers == old(self).vouchers,
    {
        let step = registration_ended(attempt, outcome);
        match &step {
            RegistrationStep::Abandon { .. } => {
                self.queue_reclaim(open.payer_i, open.open_nonce, open.expiry);
            },
            _ => {},
        }
        step
    }

    /// Takes how many vouchers were served before one was refused or all were;
    /// the result tells whether to settle. With none served there is nothing to
    /// settle, and the deposit is reclaimed.
    pub fn stream_ended(&mut self, open: ChannelOpen, served: u64) -> (settle: bool)
        requires
            old(self).wf(),
            open.payer_i < old(self).accounts.len(),
        ensures
            final(self).wf(),
            final(self).same_ring(old(self)),
            settle == (served > 0),
            final(self).vouchers == old(self).vouchers.wrapping_add(served),
            old(self).streams(final(self), open, served),
            final(self).nonces@ == old(self).nonces@,
            final(self).cursor == old(self).cursor,
            final(self).warmed == old(self).warmed,
    {
        self.vouchers = self.vouchers.wrapping_add(served);
        if served == 0 {
            self.queue_reclaim(open.payer_i, open.open_nonce, open.expiry);
            return false;
        }
        true
    }

    /// Takes whether the operator settled: a settlement is counted, anything
    /// else is reclaimed.
    pub fn settle_ended(&mut self, open: ChannelOpen, settled: bool)
        requires
            old(self).wf(),
            open.payer_i < old(self).accounts.len(),
        ensures
            final(self).wf(),
            final(self).same_ring(old(self)),
            old(self).settles(final(self), open, settled),
            final(self).nonces@ == old(self).nonces@,
            final(self).cursor == old(self).cursor,
            final(self).warmed == old(self).warmed,
            final(self).vouchers == old(self).vouchers,
    {
        if settled {
            self.channel_txs = self.channel_txs.wrapping_add(1);
        } else {
            self.queue_reclaim(open.payer_i, open.open_nonce, open.expiry);
        }
    }

    /// Takes the reclaims that are due at `height` out of the queue.
    pub fn reclaim_due(&mut self, height: u64) -> (due: Vec<PendingReclaim>)
        requires
            old(self).wf(),
        ensures
            final(self).wf(),
            final(self).same_ring(old(self)),
            due@ == due_reclaims(old(self).reclaims@, height, true),
            final(self).reclaims@ == due_reclaims(old(self).reclaims@, height, false),
            forall|i: int|
                0 <= i < due.len() ==> (#[trigger] due[i]).payer_i < old(self).accounts.len()
                    && height > due[i].expiry,
            final(self).nonces@ == old(self).nonces@,
            final(self).cursor == old(self).cursor,
            final(self).warmed == old(self).warmed,
            final(self).channel_txs == old(self).channel_txs,
            final(self).vouchers == old(self).vouchers,
    {
        let mut due: Vec<PendingReclaim> = Vec::new();
        let mut pending: Vec<PendingReclaim> = Vec::new();
        let mut i: usize = 0;
        proof {
            reveal(Seq::filter);
            assert(self.reclaims@.take(0) =~= Seq::<PendingReclaim>::empty());
        }
        while i < self.reclaims.len()
            invariant
                self.wf(),
                i <= self.reclaims.len(),
                due@ == due_reclaims(self.reclaims@.take(i as int), height, true),
                pending@ == due_reclaims(self.reclaims@.take(i as int), height, false),
                forall|j: int|
                    0 <= j < due.len() ==> (#[trigger] due[j]).payer_i < self.accounts.len()
                        && height > due[j].expiry,
                forall|j: int|
                    0 <= j < pending.len() ==> (#[trigger] pending[j]).payer_i
                        < self.accounts.len(),
            decreases self.reclaims.len() - i,
        {
            let reclaim = self.reclaims[i];
            proof {
                lemma_filter_step(self.reclaims@, height, true, i as int);
                lemma_filter_step(self.reclaims@, height, false, i as int);
            }
            if height > reclaim.expiry {
                due.push(reclaim);
            } else {
                pending.push(reclaim);
            }
            i = i + 1;
        }
        assert(self.reclaims@.take(self.reclaims@.len() as int) =~= self.reclaims@);
        self.reclaims = pending;
        due
    }

    /// Whether asking for the nonce of a timeout led from `before` to `after` and
    /// this runner to `next`.
    pub open spec fn reserves(
        &self,
        next: &Self,
        before: PendingReclaim,
        after: PendingReclaim,
        nonce: u64,
    ) -> bool {
        &&& after == (PendingReclaim { timeout_nonce: Some(nonce), ..before })
        &&& match before.timeout_nonce {
            Some(reserved) => nonce == reserved && next.nonces@ == self.nonces@,
            None => nonce == self.nonces[before.payer_i as int] && next.nonces@
                == self.nonces@.update(before.payer_i as int, (nonce + 1) as u64),
        }
    }

    /// The nonce of a reclaim's timeout: reserved when it is first asked for,
    /// and the same ever after.
    pub fn timeout_nonce(&mut self, reclaim: &mut PendingReclaim) -> (nonce: u64)
        requires
            old(self).wf(),
            old(reclaim).payer_i < old(self).accounts.len(),
            old(reclaim).timeout_nonce is None ==> old(self).nonces[old(reclaim).payer_i as int]
                < u64::MAX,
        ensures
            final(self).wf(),
            final(self).same_ring(old(self)),
            *final(reclaim) == (PendingReclaim { timeout_nonce: Some(nonce), ..*old(reclaim) }),
            old(self).reserves(final(self), *old(reclaim), *final(reclaim), nonce),
            match old(reclaim).timeout_nonce {
                Some(reserved) => nonce == reserved && final(self).nonces@ == old(self).nonces@,
                None => nonce == old(self).nonces[old(reclaim).payer_i as int] && final(self).nonces@
                    == old(self).nonces@.update(
                    old(reclaim).payer_i as int,
                    (nonce + 1) as u64,
                ),
            },
            final(self).cursor == old(self).cursor,
            final(self).reclaims@ == old(self).reclaims@,
            final(self).warmed == old(self).warmed,
            final(self).channel_txs == old(self).channel_txs,
            final(self).vouchers == old(self).vouchers,
    {
        match reclaim.timeout_nonce {
            Some(nonce) => nonce,
            None => {
                let nonce: u64 = self.next_nonce(reclaim.payer_i);
                reclaim.timeout_nonce = Some(nonce);
                nonce
            },
        }
    }

    /// Settles a reclaim's outcome: a landed one is counted, one whose channel
    /// is gone is dropped, and anything indefinite is queued again with the
    /// nonce it has.
    pub fn resolve_reclaim(&mut self, reclaim: PendingReclaim, outcome: ReclaimOutcome)
        requires
            old(self).wf(),
            reclaim.payer_i < old(self).accounts.len(),
        ensures
            final(self).wf(),
            final(self).same_ring(old(self)),
            old(self).resolves(final(self), reclaim, outcome),
            final(self).nonces@ == old(self).nonces@,
            final(self).cursor == old(self).cursor,
            final(self).warmed == old(self).warmed,
            final(self).vouchers == old(self).vouchers,
    {
        match outcome {
            ReclaimOutcome::Reclaimed => {
                self.channel_txs = self.channel_txs.wrapping_add(1);
            },
            ReclaimOutcome::ChannelGone => {},
            ReclaimOutcome::Transient => {
                self.reclaims.push(reclaim);
            },
        }
    }
}

proof fn lemma_product_positive(a: int, b: int)
    requires
        a >= 1,
        b >= 1,
    ensures
        capped_product(a, b) >= 1,
{
    assert(a * b >= 1) by (nonlinear_arith)
        requires
            a >= 1,
            b >= 1,
    ;
}

/// Whether `attempts` registered `open`, or gave it up, one after another: all
/// but the last are tried again.
pub open spec fn is_registration(
    run: Seq<ChannelRunner>,
    open: ChannelOpen,
    attempts: Seq<RegistrationStep>,
) -> bool {
    &&& attempts.len() > 0
    &&& run.len() == attempts.len() + 1
    &&& forall|k: int|
        0 <= k < attempts.len() ==> (#[trigger] run[k]).registers(&run[k + 1], open, attempts[k])
    &&& forall|k: int| 0 <= k < attempts.len() - 1 ==> (#[trigger] attempts[k]) is Retry
    &&& !(attempts.last() is Retry)
}

/// What a runner went through with one channel that it opened.
pub struct ChannelLifecycle {
    pub open: ChannelOpen,
    /// The runner before the first registration attempt and after each.
    pub run: Seq<ChannelRunner>,
    pub attempts: Seq<RegistrationStep>,
    /// The runner after the vouchers were streamed.
    pub streamed: ChannelRunner,
    pub served: u64,
    pub settled: bool,
    /// The runner after the nonce of the timeout was reserved.
    pub reserved: ChannelRunner,
    pub timeout_nonce: u64,
    pub outcome: ReclaimOutcome,
    /// The runner at the end.
    pub ended: ChannelRunner,
}

impl ChannelLifecycle {
    /// The reclaim by which a channel without vouchers times out.
    pub open spec fn timeout(&self) -> PendingReclaim {
        PendingReclaim { timeout_nonce: Some(self.timeout_nonce), ..reclaim_of(self.open) }
    }

    /// Whether the runner took the steps of a lifecycle: a channel without
    /// vouchers times out, any other is registered, streamed and settled, as
    /// far as it gets.
    pub open spec fn is_run(&self) -> bool {
        if self.open.vouchers == 0 {
            &&& self.run.len() == 1
            &&& self.reserved.reclaims@ == self.run[0].reclaims@
            &&& self.reserved.channel_txs == self.run[0].channel_txs
            &&& self.reserved.resolves(&self.ended, self.timeout(), self.outcome)
        } else {
            &&& is_registration(self.run, self.open, self.attempts)
            &&& if self.attempts.last() is Abandon {
                self.ended == self.run.last()
            } else {
                &&& self.run.last().streams(&self.streamed, self.open, self.served)
                &&& if self.served == 0 {
                    self.ended == self.streamed
                } else {
                    self.streamed.settles(&self.ended, self.open, self.settled)
                }
            }
        }
    }

    /// Whether the chain released the deposit: the channel was settled, or its
    /// timeout landed.
    pub open spec fn is_released(&self) -> bool {
        if self.open.vouchers == 0 {
            self.outcome == ReclaimOutcome::Reclaimed
        } else {
            self.attempts.last() is Registered && self.served > 0 && self.settled
        }
    }

    /// Whether the chain holds no such channel.
    pub open spec fn is_gone(&self) -> bool {
        self.open.vouchers == 0 && self.outcome == ReclaimOutcome::ChannelGone
    }

    /// The reclaim that is left to be done.
    pub open spec fn stranded(&self) -> PendingReclaim {
        if self.open.vouchers == 0 {
            self.timeout()
        } else {
            reclaim_of(self.open)
        }
    }
}

proof fn lemma_retries(
    run: Seq<ChannelRunner>,
    open: ChannelOpen,
    attempts: Seq<RegistrationStep>,
    k: int,
)
    requires
        is_registration(run, open, attempts),
        0 <= k < attempts.len(),
    ensures
        run[k].reclaims@ == run[0].reclaims@,
        run[k].channel_txs == run[0].channel_txs,
    decreases k,
{
    if k > 0 {
        lemma_retries(run, open, attempts, k - 1);
        assert(run[k - 1].registers(&run[k - 1 + 1], open, attempts[k - 1]));
        assert(attempts[k - 1] is Retry);
    }
}

/// Every channel that was opened is settled or queued for reclaim, and never
/// both: its transaction is counted, or its reclaim is the last in the queue.
/// Only a channel that the chain no longer holds is neither.
pub proof fn opened_channels_are_settled_or_reclaimed(lifecycle: ChannelLifecycle)
    requires
        lifecycle.is_run(),
    ensures
        lifecycle.ended.channel_txs == (if lifecycle.is_released() {
            lifecycle.run[0].channel_txs.wrapping_add(1)
        } else {
            lifecycle.run[0].channel_txs
        }),
        lifecycle.ended.reclaims@ == (if lifecycle.is_released() || lifecycle.is_gone() {
            lifecycle.run[0].reclaims@
        } else {
            lifecycle.run[0].reclaims@.push(lifecycle.stranded())
        }),
{
    if lifecycle.open.vouchers > 0 {
        let run = lifecycle.run;
        let attempts = lifecycle.attempts;
        let last = attempts.len() - 1;
        lemma_retries(run, lifecycle.open, attempts, last);
        assert(run[last].registers(&run[last + 1], lifecycle.open, attempts[last]));
    }
}

/// Taking due reclaims splits the queue: every reclaim is either due or still
/// queued, and none is both.
pub proof fn due_and_pending_split_the_queue(reclaims: Seq<PendingReclaim>, height: u64)
    ensures
        due_reclaims(reclaims, height, true).len() + due_reclaims(reclaims, height, false).len()
            == reclaims.len(),
    decreases reclaims.len(),
{
    reveal(Seq::filter);
    if reclaims.len() > 0 {
        due_and_pending_split_the_queue(reclaims.drop_last(), height);
    }
}

/// The runway of a channel is the least runway, the settlement margin and a slack
/// of 224 blocks taken together, as far as heights go. Asking for more of either
/// never shortens it.
pub proof fn runway_adds_up(response: PublicKeyResponse, more: PublicKeyResponse)
    ensures
        response.min_runway + response.settle_margin + 224 <= u64::MAX ==> runway_of(response)
            == response.min_runway + response.settle_margin + 224,
        response.min_runway + response.settle_margin + 224 > u64::MAX ==> runway_of(response)
            == u64::MAX,
        response.min_runway <= more.min_runway && response.settle_margin <= more.settle_margin
            ==> runway_of(response) <= runway_of(more),
{
}

/// An operator's answer is a success from 200 on, a refusal that is never
/// repeated from 400 on, and otherwise something that may pass; the message is
/// the operator's own.
pub proof fn operator_refusals_are_final(code: u16, message: String, attempt: usize)
    ensures
        operator_answer(code, message) is Ok <==> code / 100 == 2,
        operator_answer(code, message) matches Err(OperatorError::Rejected(said)) ==> code / 100
            == 4 && said == message,
        operator_answer(code, message) matches Err(OperatorError::Unavailable(said)) ==> code / 100
            != 4 && said == message,
        code / 100 == 4 ==> operator_answer(code, message) is Err,
        operator_answer(code, message) matches Err(error) ==> (registration_step(
            attempt,
            Err(error),
        ) is Retry <==> code / 100 != 4 && attempt < 10),
{
}

/// A registration ends with the capability that was granted. It is tried again
/// only while the operator is unavailable, ten times in all, and a refusal gives
/// it up at once, without a wait.
pub proof fn registration_is_tried_ten_times(attempt: usize, outcome: Result<String, OperatorError>)
    ensures
        ({
            let step = registration_step(attempt, outcome);
            &&& step matches RegistrationStep::Registered(capability) ==> outcome == Ok::<
                String,
                OperatorError,
            >(capability)
            &&& outcome is Ok ==> step is Registered
            &&& step is Retry ==> outcome is Err && outcome->Err_0 is Unavailable && attempt < 10
            &&& outcome is Err && outcome->Err_0 is Rejected ==> step == (
            RegistrationStep::Abandon { wait: false })
            &&& outcome is Err && outcome->Err_0 is Unavailable && attempt >= 10 ==> step == (
            RegistrationStep::Abandon { wait: true })
        }),
{
}

/// The next channel is the one of the payer at the cursor, under its next nonce.
/// Unless it is left to time out, its deposit covers its settlement and at most
/// three vouchers more, its expiry lies one runway ahead, and the vouchers are
/// within half of the average. One that is left to time out holds one voucher's
/// value for three blocks and streams none. Amounts and heights that would run
/// over are the largest ones.
pub proof fn opened_channels_fund_their_settlement(
    runner: ChannelRunner,
    height: u64,
    draws: LifecycleDraws,
)
    requires
        runner.wf(),
        possible_draws(draws, runner.avg_vouchers),
    ensures
        ({
            let open = runner.next_open(height, draws);
            &&& open.payer_i == runner.cursor
            &&& open.open_nonce == runner.nonces@[runner.cursor as int]
            &&& draws.time_out ==> {
                &&& open.vouchers == 0
                &&& open.deposit == runner.voucher_value
                &&& height + 3 <= u64::MAX ==> open.expiry == height + 3
                &&& height + 3 > u64::MAX ==> open.expiry == u64::MAX
            }
            &&& !draws.time_out ==> {
                &&& open.vouchers == draws.vouchers
                &&& 2 * open.vouchers >= runner.avg_vouchers
                &&& 2 * open.vouchers <= 3 * runner.avg_vouchers
                &&& open.vouchers >= 1
                &&& draws.refund_vouchers <= 3
                &&& (open.vouchers + draws.refund_vouchers) * runner.voucher_value <= u64::MAX
                    ==> open.deposit == open.vouchers * runner.voucher_value
                    + draws.refund_vouchers * runner.voucher_value
                &&& (open.vouchers + draws.refund_vouchers) * runner.voucher_value > u64::MAX
                    ==> open.deposit == u64::MAX
                &&& height + runner.expiry_runway <= u64::MAX ==> open.expiry == height
                    + runner.expiry_runway
                &&& height + runner.expiry_runway > u64::MAX ==> open.expiry == u64::MAX
            }
        }),
{
    let v = draws.vouchers as int;
    let r = draws.refund_vouchers as int;
    let value = runner.voucher_value as int;
    assert((v + r) * value == v * value + r * value) by (nonlinear_arith);
    assert(0 <= v * value) by (nonlinear_arith)
        requires
            v >= 0,
            value >= 0,
    ;
    assert(0 <= r * value) by (nonlinear_arith)
        requires
            r >= 0,
            value >= 0,
    ;
}

/// A voucher's amount is its number times the value of one, as far as amounts
/// go, and the largest amount beyond that.
pub proof fn voucher_amounts_are_capped(open: ChannelOpen, served: u64, voucher_value: u64)
    requires
        served < open.vouchers,
    ensures
        ({
            let amount = voucher_after(open, served, false, voucher_value)->0;
            &&& (served + 1) * voucher_value <= u64::MAX ==> amount == (served + 1) * voucher_value
            &&& (served + 1) * voucher_value > u64::MAX ==> amount == u64::MAX
        }),
{
    lemma_product_nonnegative(served + 1, voucher_value as int);
}

/// The vouchers of a channel step up by the same value each, from that value to
/// the channel's settlement, which the last one reaches exactly; after a refusal
/// none follows.
pub proof fn vouchers_step_up_to_the_settlement(
    open: ChannelOpen,
    served: u64,
    voucher_value: u64,
)
    requires
        open.vouchers * voucher_value <= u64::MAX,
    ensures
        voucher_after(open, served, true, voucher_value) is None,
        voucher_after(open, served, false, voucher_value) is Some <==> served < open.vouchers,
        open.vouchers > 0 ==> voucher_after(open, 0, false, voucher_value) == Some(voucher_value),
        served + 1 < open.vouchers ==> voucher_after(
            open,
            (served + 1) as u64,
            false,
            voucher_value,
        )->0 == voucher_after(open, served, false, voucher_value)->0 + voucher_value,
        served + 1 == open.vouchers ==> voucher_after(open, served, false, voucher_value)->0
            == open.vouchers * voucher_value,
        served < open.vouchers ==> voucher_after(open, served, false, voucher_value)->0
            <= open.vouchers * voucher_value,
        settlement(open.vouchers, voucher_value) == open.vouchers * voucher_value,
{
    let n = open.vouchers as int;
    let k = served as int;
    let value = voucher_value as int;
    assert(1 * value == value) by (nonlinear_arith);
    assert((k + 2) * value == (k + 1) * value + value) by (nonlinear_arith);
    if k < n {
        assert((k + 1) * value <= n * value) by (nonlinear_arith)
            requires
                k + 1 <= n,
                value >= 0,
        ;
    }
    if k + 1 < n {
        assert((k + 2) * value <= n * value) by (nonlinear_arith)
            requires
                k + 2 <= n,
                value >= 0,
        ;
    }
    if n > 0 {
        assert(value <= n * value) by (nonlinear_arith)
            requires
                n >= 1,
                value >= 0,
        ;
    }
    assert(0 <= (k + 1) * value) by (nonlinear_arith)
        requires
            k >= 0,
            value >= 0,
    ;
    assert(0 <= (k + 2) * value) by (nonlinear_arith)
        requires
            k >= 0,
            value >= 0,
    ;
}

/// Payers take turns round the ring, and a payer's nonces are used one after
/// another: opening a channel uses the payer's next nonce up and leaves those of
/// the others.
pub proof fn payers_take_turns(
    runner: ChannelRunner,
    after: ChannelRunner,
    height: u64,
    later: u64,
    draws: LifecycleDraws,
    next_draws: LifecycleDraws,
    other: int,
)
    requires
        runner.wf(),
        runner.nonces[runner.cursor as int] < u64::MAX,
        runner.begins(&after, runner.next_open(height, draws)),
    ensures
        ({
            let open = runner.next_open(height, draws);
            let next = after.next_open(later, next_draws);
            &&& open.payer_i + 1 < runner.accounts.len() ==> next.payer_i == open.payer_i + 1
            &&& open.payer_i + 1 == runner.accounts.len() ==> next.payer_i == 0
            &&& next.payer_i != open.payer_i
            &&& after.nonces@[open.payer_i as int] == open.open_nonce + 1
            &&& 0 <= other < runner.nonces@.len() && other != open.payer_i ==> after.nonces@[other]
                == runner.nonces@[other]
        }),
{
    let n = runner.accounts.len() as int;
    if runner.cursor + 1 == n {
        vstd::arithmetic::div_mod::lemma_mod_self_0(n);
    } else {
        vstd::arithmetic::div_mod::lemma_small_mod((runner.cursor + 1) as nat, n as nat);
    }
}

/// An open that finalized is counted and strands nothing. One that the chain
/// judged without finalizing it strands nothing either. Only where the chain
/// never judged it is the deposit queued, as that of the same payer, nonce and
/// expiry, with no timeout attempted yet.
pub proof fn unjudged_opens_are_reclaimed(
    runner: ChannelRunner,
    after: ChannelRunner,
    open: ChannelOpen,
    report: SubmitReport,
)
    requires
        runner.opens(&after, open, report),
        runner.channel_txs < u64::MAX,
    ensures
        report.finalized > 0 ==> after.channel_txs == runner.channel_txs + 1 && after.reclaims@
            == runner.reclaims@,
        report.finalized == 0 ==> after.channel_txs == runner.channel_txs,
        report.height is Some ==> after.reclaims@ == runner.reclaims@,
        report.finalized == 0 && report.height is None ==> {
            &&& after.reclaims@.len() == runner.reclaims@.len() + 1
            &&& after.reclaims@.drop_last() == runner.reclaims@
            &&& after.reclaims@.last().payer_i == open.payer_i
            &&& after.reclaims@.last().open_nonce == open.open_nonce
            &&& after.reclaims@.last().expiry == open.expiry
            &&& after.reclaims@.last().timeout_nonce is None
        },
{
    if report.finalized == 0 && report.height is None {
        assert(after.reclaims@.drop_last() =~= runner.reclaims@);
    }
}

/// A timeout is worth submitting once the expiry passed. A landed one reclaims;
/// that the channel is gone is concluded only from a height past the expiry; and
/// it is given up for now only at the thirtieth attempt.
pub proof fn reclaims_conclude_past_the_expiry(
    height: u64,
    expiry: u64,
    waited: usize,
    attempt: usize,
    report: SubmitReport,
)
    ensures
        height > expiry ==> !is_awaited(height, expiry, waited),
        height <= expiry ==> (is_awaited(height, expiry, waited) <==> waited < 30),
        reclaim_after(expiry, attempt, report) == Some(ReclaimOutcome::Reclaimed)
            <==> report.finalized > 0,
        reclaim_after(expiry, attempt, report) == Some(ReclaimOutcome::ChannelGone)
            <==> report.finalized == 0 && report.height is Some && report.height->0 > expiry,
        reclaim_after(expiry, attempt, report) == Some(ReclaimOutcome::Transient) ==> attempt >= 30,
        reclaim_after(expiry, attempt, report) is None ==> attempt < 30,
{
}

/// Reclaims that are taken are past their expiry and those that stay are not,
/// and each reclaim of the queue is one of these.
pub proof fn due_reclaims_are_past_their_expiry(reclaims: Seq<PendingReclaim>, height: u64)
    ensures
        forall|i: int|
            0 <= i < due_reclaims(reclaims, height, true).len() ==> (#[trigger] due_reclaims(
                reclaims,
                height,
                true,
            )[i]).expiry < height,
        forall|i: int|
            0 <= i < due_reclaims(reclaims, height, false).len() ==> (#[trigger] due_reclaims(
                reclaims,
                height,
                false,
            )[i]).expiry >= height,
        forall|i: int|
            0 <= i < reclaims.len() ==> due_reclaims(
                reclaims,
                height,
                (#[trigger] reclaims[i]).expiry < height,
            ).contains(reclaims[i]),
{
    broadcast use vstd::seq_lib::group_filter_ensures;
    assert forall|i: int| 0 <= i < reclaims.len() implies due_reclaims(
        reclaims,
        height,
        (#[trigger] reclaims[i]).expiry < height,
    ).contains(reclaims[i]) by {
        if reclaims[i].expiry < height {
            assert(due_reclaims(reclaims, height, true).contains(reclaims[i]));
        } else {
            assert(due_reclaims(reclaims, height, false).contains(reclaims[i]));
        }
    }
}

/// A timeout keeps the nonce that was reserved for it first: asking again gives
/// the same one and reserves nothing.
pub proof fn timeouts_keep_their_nonce(
    first: ChannelRunner,
    second: ChannelRunner,
    third: ChannelRunner,
    before: PendingReclaim,
    between: PendingReclaim,
    after: PendingReclaim,
    nonce: u64,
    again: u64,
)
    requires
        first.wf(),
        before.payer_i < first.accounts.len(),
        before.timeout_nonce is None,
        first.nonces[before.payer_i as int] < u64::MAX,
        first.reserves(&second, before, between, nonce),
        second.reserves(&third, between, after, again),
    ensures
        nonce == first.nonces@[before.payer_i as int],
        second.nonces@[before.payer_i as int] == nonce + 1,
        again == nonce,
        third.nonces@ == second.nonces@,
        after == between,
        between.payer_i == before.payer_i,
        between.open_nonce == before.open_nonce,
        between.expiry == before.expiry,
{
}

/// Sums and products are exact as far as counts go, and the largest count
/// beyond that; a deposit is never below the settlement it covers.
pub proof fn amounts_are_exact_or_capped(a: u64, b: u64, refund_vouchers: u64)
    ensures
        capped_sum(a as int, b as int) == a + b || (a + b > u64::MAX && capped_sum(
            a as int,
            b as int,
        ) == u64::MAX),
        capped_product(a as int, b as int) == a * b || (a * b > u64::MAX && capped_product(
            a as int,
            b as int,
        ) == u64::MAX),
        a <= deposit_of(a as int, refund_vouchers, b) <= u64::MAX,
{
    lemma_product_nonnegative(refund_vouchers as int, b as int);
}

/// The mint that warms an account up uses its first nonce, so the first channel
/// that it opens has the nonce after that.
pub proof fn first_channels_follow_the_mint(
    runner: ChannelRunner,
    warm: ChannelRunner,
    height: u64,
    draws: LifecycleDraws,
)
    requires
        runner.warms(&warm),
        warm.wf(),
    ensures
        warm.warmed,
        warm.next_open(height, draws).open_nonce == 1,
        warm.next_open(height, draws).payer_i == runner.cursor,
{
}

/// Finalized transactions of channels are counted one by one, and the count
/// starts over where it would run over.
pub proof fn channel_counts_wrap_around(
    runner: ChannelRunner,
    after: ChannelRunner,
    open: ChannelOpen,
    report: SubmitReport,
)
    requires
        runner.opens(&after, open, report),
        report.finalized > 0,
        runner.channel_txs == u64::MAX,
    ensures
        after.channel_txs == 0,
{
}

} // verus!
