//! Ring transfers: every account pays the next one, in rounds.
//!
//! A round submits one transfer of every sender under the round's nonce, and
//! ends once all are in a block. Senders are spread over endpoints; each
//! endpoint has a bounded number of submissions in flight.

use crate::keys::{copy_bytes, private_key_from_seed, public_key, public_key_of, seed_key};
use crate::text::{
    contains, contains_text, decimal, decimal_u64, hex, hex_text, join3, starts_with,
    starts_with_seq,
};
use vstd::prelude::*;

verus! {

pub const INITIAL_RETRY_BACKOFF_MILLIS: u64 = 100;

pub const MEMPOOL_FULL_RETRY_BACKOFF_MILLIS: u64 = 1_000;

pub const MAX_RETRY_BACKOFF_MILLIS: u64 = 5_000;

pub const STATUS_POLL_INTERVAL_MILLIS: u64 = 1_000;

pub const STATUS_POLL_BATCH_SIZE: usize = 32_768;

pub const MAX_SUBMISSION_TASKS_PER_ENDPOINT: usize = 256;

/// What a run of ring transfers is asked to do.
#[derive(Debug)]
pub struct Args {
    pub count: usize,
    pub endpoints: Vec<String>,
    pub seed_start: u64,
    pub nonce: u64,
}

impl Args {
    /// Arguments with at least one sender and one endpoint.
    pub fn new(count: usize, endpoints: Vec<String>, seed_start: u64, nonce: u64) -> (result:
        Result<Self, String>)
        ensures
            result is Ok <==> count > 0 && endpoints.len() > 0,
            result matches Ok(args) ==> args == (Args { count, endpoints, seed_start, nonce }),
            result matches Err(message) ==> message@ == (if count == 0 {
                "count must be non-zero"@
            } else {
                "at least one endpoint is required"@
            }),
    {
        if count == 0 {
            return Err("count must be non-zero".to_owned());
        }
        if endpoints.len() == 0 {
            return Err("at least one endpoint is required".to_owned());
        }
        Ok(Args { count, endpoints, seed_start, nonce })
    }

    /// The endpoints.
    pub fn endpoints(&self) -> (endpoints: &Vec<String>)
        ensures
            *endpoints == self.endpoints,
    {
        &self.endpoints
    }

    /// How many senders there are.
    pub fn count(&self) -> (count: usize)
        ensures
            count == self.count,
    {
        self.count
    }

    /// The seed of the first sender.
    pub fn seed_start(&self) -> (seed_start: u64)
        ensures
            seed_start == self.seed_start,
    {
        self.seed_start
    }

    /// The nonce of the first round.
    pub fn nonce(&self) -> (nonce: u64)
        ensures
            nonce == self.nonce,
    {
        self.nonce
    }
}

/// A sender of the ring and whom it pays, both by address.
#[derive(Debug)]
pub struct RingAccount {
    pub seed: u64,
    pub from: Vec<u8>,
    pub to: Vec<u8>,
    pub endpoint_index: usize,
}

/// The public key of the account of `seed`.
pub open spec fn seed_public_key(seed: u64) -> Seq<u8> {
    public_key(seed_key(seed))
}

/// Whether `keys` are the public keys of the seeds from `seed_start` on.
pub open spec fn are_seeded_keys(keys: Seq<Vec<u8>>, seed_start: u64) -> bool {
    forall|i: int|
        0 <= i < keys.len() ==> (#[trigger] keys[i])@ == seed_public_key((seed_start + i) as u64)
}

/// The public keys of `count` accounts from sequential seeds, which their
/// addresses are derived from.
pub fn ring_public_keys(count: usize, seed_start: u64) -> (keys: Vec<Vec<u8>>)
    requires
        count > 0 ==> seed_start + count - 1 <= u64::MAX,
    ensures
        keys.len() == count,
        forall|i: int|
            0 <= i < count ==> (#[trigger] keys[i])@ == seed_public_key((seed_start + i) as u64),
        are_seeded_keys(keys@, seed_start),
{
    let mut keys: Vec<Vec<u8>> = Vec::new();
    let mut index: usize = 0;
    while index < count
        invariant
            index <= count,
            count > 0 ==> seed_start + count - 1 <= u64::MAX,
            keys.len() == index,
            forall|i: int|
                0 <= i < index ==> (#[trigger] keys[i])@ == seed_public_key(
                    (seed_start + i) as u64,
                ),
        decreases count - index,
    {
        let private_key = private_key_from_seed(seed_start + (index as u64));
        keys.push(public_key_of(private_key.as_slice()));
        index = index + 1;
    }
    keys
}

/// Whether `accounts` have `addresses` and sequential seeds, each of them pays
/// the next one, the last the first, and the endpoints are dealt out in turn.
pub open spec fn is_ring(
    accounts: Seq<RingAccount>,
    addresses: Seq<Vec<u8>>,
    seed_start: u64,
    endpoint_count: usize,
) -> bool {
    &&& accounts.len() == addresses.len()
    &&& forall|i: int|
        0 <= i < accounts.len() ==> {
            &&& (#[trigger] accounts[i]).seed == seed_start + i
            &&& accounts[i].from@ == addresses[i]@
            &&& accounts[i].to@ == addresses[(i + 1) % accounts.len() as int]@
            &&& accounts[i].endpoint_index == i % endpoint_count as int
        }
}

/// A ring of `count` accounts from sequential seeds, which have `addresses`:
/// each pays the next, the last pays the first, and they are dealt to the
/// endpoints in turn.
pub fn build_ring_accounts(
    count: usize,
    seed_start: u64,
    endpoint_count: usize,
    addresses: &Vec<Vec<u8>>,
) -> (accounts: Vec<RingAccount>)
    requires
        count > 0,
        endpoint_count > 0,
        seed_start + count - 1 <= u64::MAX,
        addresses.len() == count,
    ensures
        accounts.len() == count,
        forall|i: int|
            0 <= i < count ==> {
                &&& (#[trigger] accounts[i]).seed == seed_start + i
                &&& accounts[i].from@ == addresses[i]@
                &&& accounts[i].to@ == addresses[(i + 1) % count as int]@
                &&& accounts[i].endpoint_index == i % endpoint_count as int
            },
        is_ring(accounts@, addresses@, seed_start, endpoint_count),
{
    let mut accounts: Vec<RingAccount> = Vec::new();
    let mut at: usize = 0;
    while at < count
        invariant
            at <= count,
            count > 0,
            endpoint_count > 0,
            seed_start + count - 1 <= u64::MAX,
            addresses.len() == count,
            accounts.len() == at,
            forall|i: int|
                0 <= i < at ==> {
                    &&& (#[trigger] accounts[i]).seed == seed_start + i
                    &&& accounts[i].from@ == addresses[i]@
                    &&& accounts[i].to@ == addresses[(i + 1) % count as int]@
                    &&& accounts[i].endpoint_index == i % endpoint_count as int
                },
        decreases count - at,
    {
        let next: usize = if at + 1 == count {
            0
        } else {
            at + 1
        };
        proof {
            if at + 1 == count {
                vstd::arithmetic::div_mod::lemma_mod_self_0(count as int);
            } else {
                vstd::arithmetic::div_mod::lemma_small_mod((at + 1) as nat, count as nat);
            }
        }
        accounts.push(
            RingAccount {
                seed: seed_start + (at as u64),
                from: copy_bytes(&addresses[at]),
                to: copy_bytes(&addresses[next]),
                endpoint_index: at % endpoint_count,
            },
        );
        at = at + 1;
    }
    accounts
}

/// How a submission error is taken.
#[derive(Clone, Copy, Debug, PartialEq, Eq, Structural)]
pub enum SubmissionErrorKind {
    /// The transfer was refused for now: submit it again.
    RetryRejected,
    /// The transfer may have arrived: ask for its status first.
    RetryCheckStatus,
    /// The run cannot go on.
    Fatal,
}

/// Whether `err` names status `code` in the form endpoints report errors.
pub open spec fn names_code(err: Seq<char>, code: Seq<char>) -> bool {
    contains_text(err, "error ("@ + code + ")"@)
}

/// Whether `err` says that a mempool is full.
pub open spec fn mempool_full(err: Seq<char>) -> bool {
    names_code(err, "503"@) && contains_text(err, "mempool full"@)
}

/// Whether `err` names a status that may pass.
pub open spec fn names_retryable_code(err: Seq<char>) -> bool {
    ||| names_code(err, "408"@)
    ||| names_code(err, "429"@)
    ||| names_code(err, "500"@)
    ||| names_code(err, "502"@)
    ||| names_code(err, "503"@)
    ||| names_code(err, "504"@)
}

/// How `err` is taken.
pub open spec fn error_kind(err: Seq<char>) -> SubmissionErrorKind {
    if starts_with_seq(err, "request failed:"@) || starts_with_seq(err, "response body failed:"@) {
        SubmissionErrorKind::RetryCheckStatus
    } else if names_retryable_code(err) {
        if mempool_full(err) {
            SubmissionErrorKind::RetryRejected
        } else {
            SubmissionErrorKind::RetryCheckStatus
        }
    } else {
        SubmissionErrorKind::Fatal
    }
}

fn has_code(err: &str, code: &str) -> (r: bool)
    ensures
        r == names_code(err@, code@),
{
    contains(err, join3("error (", code, ")").as_str())
}

/// How a submission error is taken.
pub fn classify_submission_error(err: &str) -> (kind: SubmissionErrorKind)
    ensures
        kind == error_kind(err@),
{
    if starts_with(err, "request failed:") || starts_with(err, "response body failed:") {
        return SubmissionErrorKind::RetryCheckStatus;
    }
    if has_code(err, "408") || has_code(err, "429") || has_code(err, "500") || has_code(err, "502")
        || has_code(err, "503") || has_code(err, "504") {
        if has_code(err, "503") && contains(err, "mempool full") {
            return SubmissionErrorKind::RetryRejected;
        }
        return SubmissionErrorKind::RetryCheckStatus;
    }
    SubmissionErrorKind::Fatal
}

/// The backoff after `current` when `full` tells that a mempool is full: twice
/// as long up to the limit, and no shorter than the floor of a full mempool.
pub open spec fn backoff_after(current: u64, full: bool) -> u64 {
    let doubled = if current * 2 > MAX_RETRY_BACKOFF_MILLIS {
        MAX_RETRY_BACKOFF_MILLIS
    } else {
        (current * 2) as u64
    };
    if full && doubled < MEMPOOL_FULL_RETRY_BACKOFF_MILLIS {
        MEMPOOL_FULL_RETRY_BACKOFF_MILLIS
    } else {
        doubled
    }
}

/// The backoff in milliseconds after `current` and `err`.
pub fn next_retry_backoff(current: u64, err: &str) -> (next: u64)
    ensures
        next == backoff_after(current, mempool_full(err@)),
{
    let doubled: u64 = if current > MAX_RETRY_BACKOFF_MILLIS / 2 {
        MAX_RETRY_BACKOFF_MILLIS
    } else {
        current * 2
    };
    if has_code(err, "503") && contains(err, "mempool full") && doubled
        < MEMPOOL_FULL_RETRY_BACKOFF_MILLIS {
        MEMPOOL_FULL_RETRY_BACKOFF_MILLIS
    } else {
        doubled
    }
}

/// A backoff never exceeds its limit, and below the limit it grows.
pub proof fn retry_backoff_is_bounded(current: u64, full: bool)
    ensures
        backoff_after(current, full) <= MAX_RETRY_BACKOFF_MILLIS,
        current > 0 && current < MAX_RETRY_BACKOFF_MILLIS ==> backoff_after(current, full)
            > current,
        full ==> backoff_after(current, full) >= MEMPOOL_FULL_RETRY_BACKOFF_MILLIS,
{
}

/// The nonce of a round.
pub fn current_round_nonce(base_nonce: u64, round: u64) -> (result: Result<u64, String>)
    ensures
        result matches Ok(nonce) ==> nonce == base_nonce + round,
        result is Ok <==> base_nonce + round <= u64::MAX,
        result matches Err(message) ==> message@ == "round nonce overflowed"@,
{
    match base_nonce.checked_add(round) {
        Some(nonce) => Ok(nonce),
        None => Err("round nonce overflowed".to_owned()),
    }
}

/// The message about a sender whose transfer failed for good.
pub open spec fn sender_failure(
    endpoint: Seq<char>,
    from: Seq<u8>,
    to: Seq<u8>,
    nonce: u64,
    err: Seq<char>,
) -> Seq<char> {
    endpoint + " "@ + hex_text(from) + " -> "@ + hex_text(to) + " nonce="@ + decimal(nonce as nat)
        + ": "@ + err
}

/// The message about a sender whose transfer failed for good.
pub fn format_sender_failure(endpoint: &str, from: &[u8], to: &[u8], nonce: u64, err: &str) -> (text:
    String)
    ensures
        text@ == sender_failure(endpoint@, from@, to@, nonce, err@),
{
    let head = join3(endpoint, " ", hex(from).as_str());
    let route = join3(head.as_str(), " -> ", hex(to).as_str());
    let numbered = join3(route.as_str(), " nonce=", decimal_u64(nonce).as_str());
    join3(numbered.as_str(), ": ", err)
}

/// In a ring over given addresses, account `i` pays from address `i` to address
/// `i + 1`, the last to the first, and where the addresses differ no account of
/// two or more pays itself. Accounts next to each other have seeds next to each
/// other and are served by endpoints next to each other.
pub proof fn accounts_form_a_ring(
    accounts: Seq<RingAccount>,
    addresses: Seq<Vec<u8>>,
    seed_start: u64,
    endpoint_count: usize,
    i: int,
)
    requires
        is_ring(accounts, addresses, seed_start, endpoint_count),
        endpoint_count > 0,
        0 <= i < accounts.len(),
    ensures
        accounts[i].from@ == addresses[i]@,
        i + 1 < addresses.len() ==> accounts[i].to@ == addresses[i + 1]@ && accounts[i].to@
            == accounts[i + 1].from@,
        i + 1 == addresses.len() ==> accounts[i].to@ == addresses[0]@ && accounts[i].to@
            == accounts[0].from@,
        addresses.len() >= 2 && (forall|a: int, b: int|
            0 <= a < b < addresses.len() ==> (#[trigger] addresses[a])@ != (
            #[trigger] addresses[b])@) ==> accounts[i].to@ != accounts[i].from@,
        accounts[0].seed == seed_start,
        i + 1 < accounts.len() ==> accounts[i + 1].seed == accounts[i].seed + 1,
        accounts[0].endpoint_index == 0,
        i + 1 < accounts.len() ==> accounts[i + 1].endpoint_index == (if accounts[i].endpoint_index
            + 1 == endpoint_count {
            0
        } else {
            accounts[i].endpoint_index + 1
        }),
{
    let n = addresses.len() as int;
    let m = endpoint_count as int;
    assert(accounts[0].from@ == addresses[0]@);
    vstd::arithmetic::div_mod::lemma_small_mod(0, m as nat);
    if i + 1 == n {
        vstd::arithmetic::div_mod::lemma_mod_self_0(n);
        assert(addresses[0]@ == accounts[i].to@);
    } else {
        vstd::arithmetic::div_mod::lemma_small_mod((i + 1) as nat, n as nat);
        assert(accounts[i + 1].from@ == addresses[i + 1]@);
        assert(addresses[i + 1]@ == accounts[i].to@);
        vstd::arithmetic::div_mod::lemma_fundamental_div_mod(i, m);
        vstd::arithmetic::div_mod::lemma_mod_bound(i, m);
        let q = i / m;
        let r = i % m;
        if r + 1 == m {
            assert(i + 1 == m * (q + 1) + 0) by (nonlinear_arith)
                requires
                    i == m * q + r,
                    r + 1 == m,
            ;
            vstd::arithmetic::div_mod::lemma_fundamental_div_mod_converse(i + 1, m, q + 1, 0);
        } else {
            vstd::arithmetic::div_mod::lemma_fundamental_div_mod_converse(i + 1, m, q, r + 1);
        }
    }
}

/// A backoff doubles while twice of it stays within the limit. After a full
/// mempool it is the longer of that and a whole second.
pub proof fn retry_backoff_doubles(current: u64, full: bool)
    ensures
        current <= 2_500 && !full ==> backoff_after(current, full) == 2 * current,
        current > 2_500 ==> backoff_after(current, full) == 5_000,
        current < 500 && full ==> backoff_after(current, full) == 1_000,
        500 <= current <= 2_500 && full ==> backoff_after(current, full) == 2 * current,
{
}

/// An error that may pass never ends the run: one of the transport, one that
/// names a timeout, an overload or a failure of the server. A transfer counts
/// as refused only where a full mempool is named; everything else that may pass
/// may have arrived.
pub proof fn passing_errors_are_retried(err: Seq<char>)
    ensures
        starts_with_seq(err, "request failed:"@) ==> error_kind(err)
            == SubmissionErrorKind::RetryCheckStatus,
        starts_with_seq(err, "response body failed:"@) ==> error_kind(err)
            == SubmissionErrorKind::RetryCheckStatus,
        contains_text(err, "error (408)"@) ==> !(error_kind(err) is Fatal),
        contains_text(err, "error (429)"@) ==> !(error_kind(err) is Fatal),
        contains_text(err, "error (500)"@) ==> !(error_kind(err) is Fatal),
        contains_text(err, "error (502)"@) ==> !(error_kind(err) is Fatal),
        contains_text(err, "error (503)"@) ==> !(error_kind(err) is Fatal),
        contains_text(err, "error (504)"@) ==> !(error_kind(err) is Fatal),
        error_kind(err) is Fatal ==> !contains_text(err, "error (503)"@),
        error_kind(err) is RetryRejected <==> !starts_with_seq(err, "request failed:"@)
            && !starts_with_seq(err, "response body failed:"@) && contains_text(
            err,
            "error (503)"@,
        ) && contains_text(err, "mempool full"@),
        !(error_kind(err) is Fatal) ==> starts_with_seq(err, "request failed:"@)
            || starts_with_seq(err, "response body failed:"@) || contains_text(err, "error (408)"@)
            || contains_text(err, "error (429)"@) || contains_text(err, "error (500)"@)
            || contains_text(err, "error (502)"@) || contains_text(err, "error (503)"@)
            || contains_text(err, "error (504)"@),
{
    reveal_strlit("error (");
    reveal_strlit(")");
    reveal_strlit("408");
    reveal_strlit("429");
    reveal_strlit("500");
    reveal_strlit("502");
    reveal_strlit("503");
    reveal_strlit("504");
    reveal_strlit("error (408)");
    reveal_strlit("error (429)");
    reveal_strlit("error (500)");
    reveal_strlit("error (502)");
    reveal_strlit("error (503)");
    reveal_strlit("error (504)");
    assert("error ("@ + "408"@ + ")"@ =~= "error (408)"@);
    assert("error ("@ + "429"@ + ")"@ =~= "error (429)"@);
    assert("error ("@ + "500"@ + ")"@ =~= "error (500)"@);
    assert("error ("@ + "502"@ + ")"@ =~= "error (502)"@);
    assert("error ("@ + "503"@ + ")"@ =~= "error (503)"@);
    assert("error ("@ + "504"@ + ")"@ =~= "error (504)"@);
}

/// A ring that starts one seed later has the same keys, one place earlier.
pub proof fn ring_keys_follow_the_seeds(
    keys: Seq<Vec<u8>>,
    shifted: Seq<Vec<u8>>,
    seed_start: u64,
    i: int,
)
    requires
        are_seeded_keys(keys, seed_start),
        seed_start + keys.len() <= u64::MAX,
        are_seeded_keys(shifted, (seed_start + 1) as u64),
        0 <= i < keys.len(),
    ensures
        keys[i]@ == public_key(seed_key((seed_start + i) as u64)),
        i > 0 && i - 1 < shifted.len() ==> shifted[i - 1]@ == keys[i]@,
{
    assert(keys[i]@ == seed_public_key((seed_start + i) as u64));
}

} // verus!
