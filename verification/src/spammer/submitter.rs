//! Batch submission.
//!
//! Each relayer stream submits one batch at a time and advances to the next
//! pre-signed batch after finalization or drop.

use crate::random::system_random_between;
use crate::text::{trim_end_slashes, trim_slashes};
use crate::validator::relayer::TxStatus;
use vstd::prelude::*;

verus! {

pub const INITIAL_SUBMIT_ERROR_BACKOFF_MILLIS: u64 = 500;

pub const MAX_SUBMIT_ERROR_BACKOFF_MILLIS: u64 = 5_000;

/// Counts shared across submitters.
#[derive(Clone, Copy, Debug, PartialEq, Eq, Structural)]
pub struct Stats {
    pub submitted_batches: u64,
    pub submitted_transactions: u64,
    pub finalized_transactions: u64,
    pub filtered_transactions: u64,
    pub dropped_transactions: u64,
    pub submit_errors: u64,
}

/// What the periodic progress log reports.
#[derive(Clone, Copy, Debug, PartialEq, Eq, Structural)]
pub struct Totals {
    pub finalized: u64,
    pub filtered: u64,
    pub dropped: u64,
    pub errors: u64,
}

impl Stats {
    /// Counts of a run that submitted nothing.
    pub fn new() -> (stats: Self)
        ensures
            stats == (Stats {
                submitted_batches: 0,
                submitted_transactions: 0,
                finalized_transactions: 0,
                filtered_transactions: 0,
                dropped_transactions: 0,
                submit_errors: 0,
            }),
    {
        Stats {
            submitted_batches: 0,
            submitted_transactions: 0,
            finalized_transactions: 0,
            filtered_transactions: 0,
            dropped_transactions: 0,
            submit_errors: 0,
        }
    }

    /// What the progress log reports of these counts.
    pub open spec fn reported(&self) -> Totals {
        Totals {
            finalized: self.finalized_transactions,
            filtered: self.filtered_transactions,
            dropped: self.dropped_transactions,
            errors: self.submit_errors,
        }
    }

    /// These counts once a batch of `count` transactions is submitted.
    pub open spec fn after_submission(&self, count: u64) -> Stats {
        Stats {
            submitted_batches: self.submitted_batches.wrapping_add(1),
            submitted_transactions: self.submitted_transactions.wrapping_add(count),
            ..*self
        }
    }

    /// What the progress log reports of these counts.
    pub fn totals(&self) -> (totals: Totals)
        ensures
            totals == self.reported(),
    {
        Totals {
            finalized: self.finalized_transactions,
            filtered: self.filtered_transactions,
            dropped: self.dropped_transactions,
            errors: self.submit_errors,
        }
    }

    /// Counts a batch of `count` transactions that is submitted.
    pub fn record_submitted(&mut self, count: u64)
        ensures
            *final(self) == old(self).after_submission(count),
    {
        self.submitted_batches = self.submitted_batches.wrapping_add(1);
        self.submitted_transactions = self.submitted_transactions.wrapping_add(count);
    }
}

/// Why a relayer gave no batch status.
#[derive(Debug)]
pub enum SubmitError {
    Transport(String),
    InvalidResponse(String),
    BadRequest,
    PayloadTooLarge,
    InternalServerError,
    ServiceUnavailable,
    Unexpected(u16),
}

/// Whether a repeated submission would fail the same way.
pub open spec fn deterministic(error: SubmitError) -> bool {
    error is BadRequest || error is PayloadTooLarge
}

/// Whether a repeated submission would fail the same way.
pub fn is_deterministic(error: &SubmitError) -> (r: bool)
    ensures
        r == deterministic(*error),
{
    match error {
        SubmitError::BadRequest => true,
        SubmitError::PayloadTooLarge => true,
        _ => false,
    }
}

/// What a relayer's answer says.
pub open spec fn answer_of(code: u16, body: Result<TxStatus, String>) -> Result<
    TxStatus,
    SubmitError,
> {
    if code == 200 {
        match body {
            Ok(status) => Ok(status),
            Err(error) => Err(SubmitError::InvalidResponse(error)),
        }
    } else if code == 400 {
        Err(SubmitError::BadRequest)
    } else if code == 413 {
        Err(SubmitError::PayloadTooLarge)
    } else if code == 500 {
        Err(SubmitError::InternalServerError)
    } else if code == 503 {
        Err(SubmitError::ServiceUnavailable)
    } else {
        Err(SubmitError::Unexpected(code))
    }
}

/// What a relayer's answer says: the batch status of a success whose body
/// parsed, else the error of its code.
pub fn classify_answer(code: u16, body: Result<TxStatus, String>) -> (result: Result<
    TxStatus,
    SubmitError,
>)
    ensures
        result == answer_of(code, body),
{
    if code == 200 {
        match body {
            Ok(status) => Ok(status),
            Err(error) => Err(SubmitError::InvalidResponse(error)),
        }
    } else if code == 400 {
        Err(SubmitError::BadRequest)
    } else if code == 413 {
        Err(SubmitError::PayloadTooLarge)
    } else if code == 500 {
        Err(SubmitError::InternalServerError)
    } else if code == 503 {
        Err(SubmitError::ServiceUnavailable)
    } else {
        Err(SubmitError::Unexpected(code))
    }
}

/// `2^n`.
pub open spec fn doublings(n: nat) -> nat
    decreases n,
{
    if n == 0 {
        1
    } else {
        2 * doublings((n - 1) as nat)
    }
}

/// Backoff before jitter after `failures` failures in a row: doubled with each
/// failure after the first, up to the limit.
pub open spec fn base_backoff(failures: u32) -> nat {
    let exponent: nat = if failures == 0 {
        0
    } else if failures > 7 {
        6
    } else {
        (failures - 1) as nat
    };
    let millis = INITIAL_SUBMIT_ERROR_BACKOFF_MILLIS as nat * doublings(exponent);
    if millis > MAX_SUBMIT_ERROR_BACKOFF_MILLIS {
        MAX_SUBMIT_ERROR_BACKOFF_MILLIS as nat
    } else {
        millis
    }
}

/// The backoff scaled to `percent` percent.
pub open spec fn scaled_backoff(failures: u32, percent: u64) -> nat {
    base_backoff(failures) * percent as nat / 100
}

/// Whether `millis` lies within a quarter of the backoff, rounded down.
pub open spec fn is_spread(failures: u32, millis: u64) -> bool {
    scaled_backoff(failures, 75) <= millis <= scaled_backoff(failures, 125)
}

/// Backoff after `failures` failures in a row, scaled to `percent` percent.
pub fn jittered_backoff(failures: u32, percent: u64) -> (millis: u64)
    requires
        percent <= 1_000,
    ensures
        millis as nat == base_backoff(failures) * percent as nat / 100,
        millis as nat == scaled_backoff(failures, percent),
{
    proof {
        reveal_with_fuel(doublings, 8);
    }
    let mut base: u64 = INITIAL_SUBMIT_ERROR_BACKOFF_MILLIS;
    let exponent: u32 = if failures == 0 {
        0
    } else if failures > 7 {
        6
    } else {
        failures - 1
    };
    let mut i: u32 = 0;
    while i < exponent
        invariant
            i <= exponent <= 6,
            base as nat == 500 * doublings(i as nat),
            base <= 32_000,
            doublings(i as nat) <= 64,
        decreases exponent - i,
    {
        proof {
            reveal_with_fuel(doublings, 8);
            assert(doublings((i + 1) as nat) == 2 * doublings(i as nat));
            lemma_doublings_bound((i + 1) as nat);
        }
        base = base * 2;
        i = i + 1;
    }
    let capped: u64 = if base > MAX_SUBMIT_ERROR_BACKOFF_MILLIS {
        MAX_SUBMIT_ERROR_BACKOFF_MILLIS
    } else {
        base
    };
    proof {
        assert(capped * percent <= 5_000 * 1_000) by (nonlinear_arith)
            requires
                capped <= 5_000,
                percent <= 1_000,
        ;
    }
    capped * percent / 100
}

proof fn lemma_doublings_bound(n: nat)
    requires
        n <= 6,
    ensures
        doublings(n) <= 64,
{
    reveal_with_fuel(doublings, 8);
}

/// Backoff in milliseconds after `failures` failures in a row, spread by a
/// quarter either way so that submitters do not retry in step.
pub fn retry_backoff(failures: u32) -> (millis: u64)
    ensures
        base_backoff(failures) * 75 / 100 <= millis <= base_backoff(failures) * 125 / 100,
        is_spread(failures, millis),
{
    let percent: u64 = system_random_between(75, 125);
    let millis: u64 = jittered_backoff(failures, percent);
    proof {
        let base = base_backoff(failures);
        assert(base * 75 <= base * percent as nat <= base * 125) by (nonlinear_arith)
            requires
                75 <= percent <= 125,
        ;
    }
    millis
}

/// Backoff grows with the failures and stays between its first value and its
/// limit.
pub proof fn backoff_is_monotone_and_bounded(fewer: u32, more: u32)
    requires
        fewer <= more,
    ensures
        base_backoff(fewer) <= base_backoff(more),
        INITIAL_SUBMIT_ERROR_BACKOFF_MILLIS <= base_backoff(fewer)
            <= MAX_SUBMIT_ERROR_BACKOFF_MILLIS,
{
    reveal_with_fuel(doublings, 8);
}

/// What a submitter does after an attempt.
#[derive(Clone, Copy, Debug, PartialEq, Eq, Structural)]
pub enum SubmitStep {
    /// Go on with the next batch.
    Advance,
    /// Submit the same batch again after a backoff for this many failures.
    Retry { failures: u32 },
}

/// The counts after a batch of `count` transactions got `outcome`.
pub open spec fn counted(stats: Stats, count: u64, outcome: Result<TxStatus, SubmitError>) -> Stats {
    match outcome {
        Ok(TxStatus::Finalized { .. }) => Stats {
            finalized_transactions: stats.finalized_transactions.wrapping_add(count),
            ..stats
        },
        Ok(TxStatus::PartiallyFinalized { included, filtered, .. }) => Stats {
            finalized_transactions: stats.finalized_transactions.wrapping_add(included),
            filtered_transactions: stats.filtered_transactions.wrapping_add(filtered),
            ..stats
        },
        Ok(TxStatus::Dropped) => Stats {
            dropped_transactions: stats.dropped_transactions.wrapping_add(count),
            ..stats
        },
        Err(_) => Stats { submit_errors: stats.submit_errors.wrapping_add(1), ..stats },
    }
}

/// Submits batches through a relayer and records each batch outcome.
#[derive(Debug)]
pub struct RelayerSubmitter {
    pub url: String,
    pub target_leader: Option<String>,
}

impl RelayerSubmitter {
    /// A submitter to the relayer at `url`.
    pub fn new(url: String, target_leader: Option<String>) -> (submitter: Self)
        ensures
            submitter.url@ == trim_slashes(url@),
            submitter.target_leader == target_leader,
    {
        RelayerSubmitter { url: trim_end_slashes(url.as_str()), target_leader }
    }
}

/// What a submitter does after `outcome`, which followed `failures` failures.
pub open spec fn step_after(failures: u32, outcome: Result<TxStatus, SubmitError>) -> SubmitStep {
    match outcome {
        Err(error) if !deterministic(error) => SubmitStep::Retry {
            failures: if failures == u32::MAX {
                u32::MAX
            } else {
                (failures + 1) as u32
            },
        },
        _ => SubmitStep::Advance,
    }
}

/// Takes the outcome of submitting a batch of `count` transactions after
/// `failures` failed attempts. A batch status and a refusal that would be
/// repeated end the batch; any other error is counted and tried again.
pub fn submit(
    stats: &mut Stats,
    count: u64,
    failures: u32,
    outcome: Result<TxStatus, SubmitError>,
) -> (step: SubmitStep)
    ensures
        *final(stats) == counted(*old(stats), count, outcome),
        step == step_after(failures, outcome),
{
    match outcome {
        Ok(TxStatus::Finalized { .. }) => {
            stats.finalized_transactions = stats.finalized_transactions.wrapping_add(count);
            SubmitStep::Advance
        },
        Ok(TxStatus::PartiallyFinalized { included, filtered, .. }) => {
            stats.finalized_transactions = stats.finalized_transactions.wrapping_add(included);
            stats.filtered_transactions = stats.filtered_transactions.wrapping_add(filtered);
            SubmitStep::Advance
        },
        Ok(TxStatus::Dropped) => {
            stats.dropped_transactions = stats.dropped_transactions.wrapping_add(count);
            SubmitStep::Advance
        },
        Err(error) => {
            stats.submit_errors = stats.submit_errors.wrapping_add(1);
            if is_deterministic(&error) {
                SubmitStep::Advance
            } else {
                SubmitStep::Retry { failures: failures.saturating_add(1) }
            }
        },
    }
}

/// A status is taken only from a success that carries one. A batch is given up
/// for its answer only where that answer is a bad request or one that is too
/// large; after every other answer without a status it is submitted again, with
/// one more failure counted.
pub proof fn answers_end_or_repeat_a_batch(
    code: u16,
    body: Result<TxStatus, String>,
    failures: u32,
)
    requires
        failures < u32::MAX,
    ensures
        answer_of(code, body) is Ok <==> code == 200 && body is Ok,
        answer_of(code, body) matches Ok(status) ==> body == Ok::<TxStatus, String>(status),
        code == 200 && body is Err ==> answer_of(code, body) == Err::<TxStatus, SubmitError>(
            SubmitError::InvalidResponse(body->Err_0),
        ),
        step_after(failures, answer_of(code, body)) == SubmitStep::Advance <==> (code == 200
            && body is Ok) || code == 400 || code == 413,
        step_after(failures, answer_of(code, body)) != SubmitStep::Advance ==> step_after(
            failures,
            answer_of(code, body),
        ) == (SubmitStep::Retry { failures: (failures + 1) as u32 }),
{
}

/// A submission that reached nobody is repeated.
pub proof fn lost_submissions_are_repeated(failures: u32, cause: String)
    requires
        failures < u32::MAX,
    ensures
        step_after(failures, Err(SubmitError::Transport(cause))) == (SubmitStep::Retry {
            failures: (failures + 1) as u32,
        }),
{
}

/// The backoff starts at half a second and doubles with every further failure,
/// up to five seconds.
pub proof fn backoff_doubles_to_its_limit(failures: u32)
    requires
        failures < u32::MAX,
    ensures
        base_backoff(0) == 500,
        base_backoff(1) == 500,
        failures >= 1 ==> base_backoff((failures + 1) as u32) == (if 2 * base_backoff(failures)
            > 5_000 {
            5_000nat
        } else {
            2 * base_backoff(failures)
        }),
{
    reveal_with_fuel(doublings, 8);
}

/// Every transaction of a batch with a status is counted once, where counts do
/// not run over: as finalized, filtered or dropped, and a batch that finalized
/// or was dropped wholly as one of these. An error counts no transaction. What
/// was submitted stays as it was counted at submission.
pub proof fn transactions_are_counted_once(
    stats: Stats,
    count: u64,
    outcome: Result<TxStatus, SubmitError>,
)
    requires
        stats.finalized_transactions + count <= u64::MAX,
        stats.filtered_transactions + count <= u64::MAX,
        stats.dropped_transactions + count <= u64::MAX,
        stats.submit_errors < u64::MAX,
        outcome matches Ok(TxStatus::PartiallyFinalized { height: _, included, filtered })
            ==> included + filtered == count,
    ensures
        ({
            let before = stats.reported();
            let after = counted(stats, count, outcome).reported();
            &&& outcome is Ok ==> after.finalized + after.filtered + after.dropped
                == before.finalized + before.filtered + before.dropped + count && after.errors
                == before.errors
            &&& outcome matches Ok(TxStatus::Finalized { .. }) ==> after.finalized
                == before.finalized + count
            &&& outcome matches Ok(TxStatus::Dropped) ==> after.dropped == before.dropped + count
            &&& outcome matches Ok(TxStatus::PartiallyFinalized { height: _, included, filtered })
                ==> after.finalized == before.finalized + included && after.filtered
                == before.filtered + filtered
            &&& outcome is Err ==> after.errors == before.errors + 1 && after.finalized
                == before.finalized && after.filtered == before.filtered && after.dropped
                == before.dropped
            &&& counted(stats, count, outcome).submitted_batches == stats.submitted_batches
            &&& counted(stats, count, outcome).submitted_transactions
                == stats.submitted_transactions
        }),
{
}

/// Submitting two batches counts two batches and the transactions of both, and
/// nothing else.
pub proof fn submissions_add_up(stats: Stats, first: u64, second: u64)
    requires
        stats.submitted_batches + 2 <= u64::MAX,
        stats.submitted_transactions + first + second <= u64::MAX,
    ensures
        ({
            let after = stats.after_submission(first).after_submission(second);
            &&& after.submitted_batches == stats.submitted_batches + 2
            &&& after.submitted_transactions == stats.submitted_transactions + first + second
            &&& after.reported() == stats.reported()
        }),
{
}

/// Jitter spreads a backoff by a quarter either way: it is never below three
/// quarters of it, nor above five. A hundred percent is the backoff itself.
pub proof fn jitter_stays_within_a_quarter(failures: u32, millis: u64)
    requires
        is_spread(failures, millis),
    ensures
        4 * (millis + 1) > 3 * base_backoff(failures),
        4 * millis <= 5 * base_backoff(failures),
        scaled_backoff(failures, 100) == base_backoff(failures),
{
}

/// Counts start over where they would run over, and failures are counted up to
/// the largest count and stay there.
pub proof fn counts_wrap_and_failures_do_not(
    stats: Stats,
    count: u64,
    height: u64,
    included: u64,
    filtered: u64,
    cause: String,
)
    ensures
        stats.finalized_transactions + count > u64::MAX ==> counted(
            stats,
            count,
            Ok(TxStatus::Finalized { height }),
        ).finalized_transactions == stats.finalized_transactions + count - 0x1_0000_0000_0000_0000,
        stats.dropped_transactions + count > u64::MAX ==> counted(
            stats,
            count,
            Ok(TxStatus::Dropped),
        ).dropped_transactions == stats.dropped_transactions + count - 0x1_0000_0000_0000_0000,
        stats.filtered_transactions + filtered > u64::MAX ==> counted(
            stats,
            count,
            Ok(TxStatus::PartiallyFinalized { height, included, filtered }),
        ).filtered_transactions == stats.filtered_transactions + filtered
            - 0x1_0000_0000_0000_0000,
        stats.submitted_transactions + count > u64::MAX ==> stats.after_submission(
            count,
        ).submitted_transactions == stats.submitted_transactions + count - 0x1_0000_0000_0000_0000,
        step_after(u32::MAX, Err(SubmitError::Transport(cause))) == (SubmitStep::Retry {
            failures: u32::MAX,
        }),
{
}

} // verus!
