//! Consensus-following transaction relayer.

use crate::text::{
    from_hex, hex_round_trip, hex_text, lowercase, parse_hex, parse_nat, parse_number, to_lowercase,
};
use crate::validator::leaders::{are_targets, leader_by_id, next_leaders, target_index, Leader};
use crate::validator::tasks::{AccountLookup, AccountRecord};
use vstd::prelude::*;

verus! {

pub const MAX_BATCH_LENGTH_PREFIX_BYTES: usize = 5;

pub const MIN_BATCH_LENGTH_PREFIX_BYTES: usize = 1;

pub const SINGLE_TRANSACTION_FANOUT: usize = 4;

pub const BATCH_FANOUT: usize = 2;

pub const LEADER_REQUEST_TIMEOUT_MILLIS: u64 = 5_000;

pub const CLIENT_RESPONSE_TIMEOUT_MILLIS: u64 = 10_000;

pub const LEADER_RESPONSE_TIMEOUT_MILLIS: u64 = 30_000;

/// Batches decoded at once. One at a time keeps client bursts from queueing
/// processor time ahead of consensus work.
pub const MAX_CONCURRENT_DECODES: usize = 1;

pub const OK: u16 = 200;

pub const ACCEPTED: u16 = 202;

pub const BAD_REQUEST: u16 = 400;

pub const NOT_FOUND: u16 = 404;

pub const PAYLOAD_TOO_LARGE: u16 = 413;

pub const INTERNAL_SERVER_ERROR: u16 = 500;

pub const SERVICE_UNAVAILABLE: u16 = 503;

/// What became of a batch.
#[derive(Clone, Copy, Debug, PartialEq, Eq, Structural)]
#[allow(inconsistent_fields)]
pub enum TxStatus {
    Finalized { height: u64 },
    PartiallyFinalized { height: u64, included: u64, filtered: u64 },
    Dropped,
}

/// What a leader said of a batch.
#[derive(Clone, Copy, Debug, PartialEq, Eq, Structural)]
pub enum LeaderResponse {
    /// What became of the batch.
    Terminal(TxStatus),
    /// A refusal that every leader would repeat.
    Deterministic(u16),
    /// Nothing that tells what became of the batch.
    Ambiguous,
}

/// What the relayer answers a client.
#[derive(Clone, Copy, Debug, PartialEq, Eq, Structural)]
pub enum RelayResponse {
    /// A batch status, served as success.
    Status(TxStatus),
    /// A code without a body.
    Code(u16),
}

/// The latest view that consensus was observed in.
#[derive(Clone, Copy, Debug, PartialEq, Eq, Structural)]
pub struct ViewClock {
    pub current_view: u64,
}

impl ViewClock {
    /// A clock that has observed nothing.
    pub fn new() -> (clock: Self)
        ensures
            clock.current_view == 0,
    {
        ViewClock { current_view: 0 }
    }

    /// The clock once `view` was observed.
    pub open spec fn after_view(&self, view: u64) -> Self {
        ViewClock {
            current_view: if view > self.current_view {
                view
            } else {
                self.current_view
            },
        }
    }

    /// Observes a view. The clock never goes back; the result tells whether it
    /// moved.
    pub fn report(&mut self, view: u64) -> (moved: bool)
        ensures
            moved == (view > old(self).current_view),
            *final(self) == old(self).after_view(view),
    {
        if view <= self.current_view {
            return false;
        }
        self.current_view = view;
        true
    }
}

/// The largest request body that a batch of `max_batch_bytes` fits in.
pub fn max_request_bytes(max_batch_bytes: usize) -> (bytes: usize)
    ensures
        bytes == (if max_batch_bytes + MAX_BATCH_LENGTH_PREFIX_BYTES > usize::MAX {
            usize::MAX
        } else {
            (max_batch_bytes + MAX_BATCH_LENGTH_PREFIX_BYTES) as usize
        }),
{
    max_batch_bytes.saturating_add(MAX_BATCH_LENGTH_PREFIX_BYTES)
}

/// Bytes of a body beyond the shortest length prefix.
pub open spec fn payload_len(body_len: usize) -> nat {
    if body_len >= MIN_BATCH_LENGTH_PREFIX_BYTES {
        (body_len - MIN_BATCH_LENGTH_PREFIX_BYTES) as nat
    } else {
        0
    }
}

/// Transactions that a body can hold at most, where it can hold any.
pub fn max_transaction_count(body_len: usize, min_transaction_bytes: usize) -> (count: Option<
    usize,
>)
    requires
        min_transaction_bytes > 0,
    ensures
        count == (if payload_len(body_len) / min_transaction_bytes as nat > 0 {
            Some((payload_len(body_len) / min_transaction_bytes as nat) as usize)
        } else {
            None
        }),
{
    let payload_len: usize = body_len.saturating_sub(MIN_BATCH_LENGTH_PREFIX_BYTES);
    let max_transactions: usize = payload_len / min_transaction_bytes;
    if max_transactions > 0 {
        Some(max_transactions)
    } else {
        None
    }
}

/// Transactions that decoding a body may yield, or why it is not decoded.
pub open spec fn admission(
    body_len: usize,
    max_batch_bytes: usize,
    min_transaction_bytes: usize,
) -> Result<usize, u16> {
    if body_len > max_batch_bytes + MAX_BATCH_LENGTH_PREFIX_BYTES {
        Err(PAYLOAD_TOO_LARGE)
    } else if payload_len(body_len) / min_transaction_bytes as nat == 0 {
        Err(BAD_REQUEST)
    } else {
        Ok((payload_len(body_len) / min_transaction_bytes as nat) as usize)
    }
}

/// Admits a request body to decoding, and bounds the transactions that decoding
/// it may yield.
pub fn admit_batch(body_len: usize, max_batch_bytes: usize, min_transaction_bytes: usize) -> (result:
    Result<usize, u16>)
    requires
        min_transaction_bytes > 0,
    ensures
        result == admission(body_len, max_batch_bytes, min_transaction_bytes),
{
    if body_len > max_request_bytes(max_batch_bytes) {
        return Err(PAYLOAD_TOO_LARGE);
    }
    match max_transaction_count(body_len, min_transaction_bytes) {
        None => Err(BAD_REQUEST),
        Some(count) => Ok(count),
    }
}

/// Encoded bytes of all transactions.
pub open spec fn total_bytes(sizes: Seq<usize>) -> nat
    decreases sizes.len(),
{
    if sizes.len() == 0 {
        0
    } else {
        total_bytes(sizes.drop_last()) + sizes.last() as nat
    }
}

proof fn lemma_total_grows(sizes: Seq<usize>, n: int)
    requires
        0 <= n <= sizes.len(),
    ensures
        total_bytes(sizes.take(n)) <= total_bytes(sizes),
    decreases sizes.len() - n,
{
    if n < sizes.len() {
        assert(sizes.take(n + 1).drop_last() =~= sizes.take(n));
        lemma_total_grows(sizes, n + 1);
    } else {
        assert(sizes.take(n) =~= sizes);
    }
}

/// The count of decoded transactions of those sizes, or that they exceed the
/// batch limit.
pub open spec fn counted_batch(sizes: Seq<usize>, max_batch_bytes: usize) -> Result<usize, u16> {
    if total_bytes(sizes) > max_batch_bytes {
        Err(PAYLOAD_TOO_LARGE)
    } else {
        Ok(sizes.len() as usize)
    }
}

/// Checks decoded transactions against the batch limit and counts them. Bytes
/// that did not decode are a bad request.
pub fn check_decoded(decoded: Option<&Vec<usize>>, max_batch_bytes: usize) -> (result: Result<
    usize,
    u16,
>)
    ensures
        result == (match decoded {
            None => Err::<usize, u16>(BAD_REQUEST),
            Some(sizes) => counted_batch(sizes@, max_batch_bytes),
        }),
{
    match decoded {
        None => Err(BAD_REQUEST),
        Some(sizes) => {
            let mut total: usize = 0;
            let mut i: usize = 0;
            while i < sizes.len()
                invariant
                    decoded == Some(sizes),
                    i <= sizes.len(),
                    total as nat == total_bytes(sizes@.take(i as int)),
                    total <= max_batch_bytes,
                decreases sizes.len() - i,
            {
                let ghost longer = sizes@.take(i + 1);
                assert(longer.drop_last() =~= sizes@.take(i as int));
                proof {
                    lemma_total_grows(sizes@, i + 1);
                }
                if sizes[i] > max_batch_bytes - total {
                    return Err(PAYLOAD_TOO_LARGE);
                }
                total = total + sizes[i];
                i = i + 1;
            }
            assert(sizes@.take(sizes@.len() as int) =~= sizes@);
            Ok(sizes.len())
        },
    }
}

/// Leaders that a batch of `transactions` is forwarded to.
pub open spec fn fanout_of(transactions: usize) -> usize {
    if transactions == 1 {
        SINGLE_TRANSACTION_FANOUT
    } else {
        BATCH_FANOUT
    }
}

/// Leaders that a batch of `transactions` is forwarded to: a single
/// transaction goes to more of them.
pub fn fanout_for(transactions: usize) -> (fanout: usize)
    ensures
        fanout == fanout_of(transactions),
{
    if transactions == 1 {
        SINGLE_TRANSACTION_FANOUT
    } else {
        BATCH_FANOUT
    }
}

/// The leaders that a decoded batch goes to: those of the views after the
/// observed one. Without a catalog the relayer is unavailable.
pub fn public_targets(leaders: &Vec<Leader>, observed_view: u64, transactions: usize) -> (result:
    Result<Vec<Leader>, u16>)
    ensures
        leaders.len() == 0 ==> result == Err::<Vec<Leader>, u16>(SERVICE_UNAVAILABLE),
        leaders.len() > 0 ==> {
            let fanout: usize = if transactions == 1 {
                SINGLE_TRANSACTION_FANOUT
            } else {
                BATCH_FANOUT
            };
            &&& result matches Ok(targets)
            &&& targets.len() == (if fanout < leaders.len() {
                fanout
            } else {
                leaders.len()
            })
            &&& forall|k: int|
                0 <= k < targets.len() ==> (#[trigger] targets[k]).same_as(
                    &leaders[target_index(leaders@.len(), observed_view, k)],
                )
            &&& are_targets(targets@, leaders@, observed_view, fanout_of(transactions) as int)
        },
{
    if leaders.len() == 0 {
        return Err(SERVICE_UNAVAILABLE);
    }
    Ok(next_leaders(leaders, observed_view, fanout_for(transactions)))
}

/// The leader that a request asks for, in lowercase, from its header's text.
pub fn requested_target_leader(header: Option<&str>) -> (target: Option<String>)
    ensures
        header is None ==> target is None,
        header matches Some(text) ==> target matches Some(lower) && lower@ == lowercase(text@),
{
    match header {
        None => None,
        Some(text) => Some(to_lowercase(text)),
    }
}

/// The fanout that a request asks for, from its header's text. Text that is no
/// number asks for none.
pub fn requested_leader_fanout(header: Option<&str>) -> (fanout: Option<u64>)
    ensures
        header is None ==> fanout is None,
        header matches Some(text) ==> match fanout {
            Some(n) => parse_nat(text@) == Some(n as nat),
            None => parse_nat(text@) matches Some(n) ==> n > u64::MAX,
        },
{
    match header {
        None => None,
        Some(text) => parse_number(text, u64::MAX),
    }
}

/// Where a submission goes.
#[derive(Debug)]
pub enum SubmitRoute<'a> {
    /// Refused at once.
    Refused(u16),
    /// To the one leader it asks for.
    Pinned(&'a Leader),
    /// To the leaders of the next views, once it is decoded.
    Public,
}

/// Whether a submission goes along `route`.
pub open spec fn is_route(
    route: SubmitRoute<'_>,
    leaders: Seq<Leader>,
    target: Option<Seq<char>>,
    fanout: Option<u64>,
    body_len: usize,
    max_batch_bytes: usize,
) -> bool {
    match target {
        None => route is Public,
        Some(target) => {
            let known = exists|i: int|
                0 <= i < leaders.len() && (#[trigger] leaders[i]).public_key@ == target;
            if body_len > max_batch_bytes + MAX_BATCH_LENGTH_PREFIX_BYTES {
                route == SubmitRoute::Refused(PAYLOAD_TOO_LARGE)
            } else if (fanout matches Some(n) && n != 1) || !known {
                route == SubmitRoute::Refused(BAD_REQUEST)
            } else {
                route matches SubmitRoute::Pinned(leader) && leader.public_key@ == target
            }
        },
    }
}

/// Where a submission goes. One that asks for a leader is not decoded here, so
/// only its size is checked; it must ask for a fanout of one or none, and for a
/// leader of the catalog.
pub fn route_submission<'a>(
    leaders: &'a Vec<Leader>,
    target: Option<&str>,
    fanout: Option<u64>,
    body_len: usize,
    max_batch_bytes: usize,
) -> (route: SubmitRoute<'a>)
    ensures
        match target {
            None => route is Public,
            Some(target) => {
                let known = exists|i: int|
                    0 <= i < leaders.len() && (#[trigger] leaders[i]).public_key@ == target@;
                if body_len > max_batch_bytes + MAX_BATCH_LENGTH_PREFIX_BYTES {
                    route == SubmitRoute::Refused(PAYLOAD_TOO_LARGE)
                } else if (fanout matches Some(n) && n != 1) || !known {
                    route == SubmitRoute::Refused(BAD_REQUEST)
                } else {
                    route matches SubmitRoute::Pinned(leader) && leader.public_key@ == target@
                        && exists|i: int| 0 <= i < leaders.len() && leader == leaders[i]
                }
            },
        },
        is_route(
            route,
            leaders@,
            match target {
                Some(target) => Some(target@),
                None => None,
            },
            fanout,
            body_len,
            max_batch_bytes,
        ),
{
    match target {
        None => SubmitRoute::Public,
        Some(target) => {
            if body_len > max_request_bytes(max_batch_bytes) {
                return SubmitRoute::Refused(PAYLOAD_TOO_LARGE);
            }
            if let Some(n) = fanout {
                if n != 1 {
                    return SubmitRoute::Refused(BAD_REQUEST);
                }
            }
            match leader_by_id(leaders, target) {
                None => SubmitRoute::Refused(BAD_REQUEST),
                Some(leader) => SubmitRoute::Pinned(leader),
            }
        },
    }
}

/// How a forward to a leader ended: unreachable, or a status code with the
/// batch status of a success that carried one.
#[derive(Clone, Copy, Debug, PartialEq, Eq, Structural)]
pub enum ForwardOutcome {
    Unreachable,
    Answered { code: u16, status: Option<TxStatus> },
}

/// What a forward's outcome says of the batch.
pub open spec fn response_of(outcome: ForwardOutcome) -> LeaderResponse {
    match outcome {
        ForwardOutcome::Unreachable => LeaderResponse::Ambiguous,
        ForwardOutcome::Answered { code, status } => if code == BAD_REQUEST || code
            == PAYLOAD_TOO_LARGE {
            LeaderResponse::Deterministic(code)
        } else if code != OK {
            LeaderResponse::Ambiguous
        } else {
            match status {
                Some(status) => LeaderResponse::Terminal(status),
                None => LeaderResponse::Ambiguous,
            }
        },
    }
}

/// What a forward's outcome says of the batch.
pub fn classify_forward(outcome: ForwardOutcome) -> (response: LeaderResponse)
    ensures
        response == response_of(outcome),
{
    match outcome {
        ForwardOutcome::Unreachable => LeaderResponse::Ambiguous,
        ForwardOutcome::Answered { code, status } => {
            if code == BAD_REQUEST || code == PAYLOAD_TOO_LARGE {
                return LeaderResponse::Deterministic(code);
            }
            if code != OK {
                return LeaderResponse::Ambiguous;
            }
            match status {
                Some(status) => LeaderResponse::Terminal(status),
                None => LeaderResponse::Ambiguous,
            }
        },
    }
}

/// Whether `response` is what a pinned submission is answered.
pub open spec fn passes_on(
    answer: Option<(u16, Option<String>)>,
    response: (u16, String),
) -> bool {
    match answer {
        Some((code, Some(body))) => response == (code, body),
        _ => response.0 == SERVICE_UNAVAILABLE && response.1@ == Seq::<char>::empty(),
    }
}

/// The answer to a pinned submission: the leader's own, or unavailable.
pub fn pinned_response(answer: Option<(u16, Option<String>)>) -> (response: (u16, String))
    ensures
        match answer {
            Some((code, Some(body))) => response == (code, body),
            _ => response.0 == SERVICE_UNAVAILABLE && response.1@ == Seq::<char>::empty(),
        },
        passes_on(answer, response),
{
    match answer {
        Some((code, Some(body))) => (code, body),
        _ => (SERVICE_UNAVAILABLE, String::new()),
    }
}

/// A batch that was finalized in part.
#[derive(Clone, Copy, Debug, PartialEq, Eq, Structural)]
pub struct Partial {
    pub height: u64,
    pub included: u64,
    pub filtered: u64,
}

/// Whether `a` says more of a batch than `b`: more was included, or as much
/// with less filtered, or the same at a greater height.
pub open spec fn says_more(a: Partial, b: Partial) -> bool {
    ||| a.included > b.included
    ||| a.included == b.included && a.filtered < b.filtered
    ||| a.included == b.included && a.filtered == b.filtered && a.height > b.height
}

/// The partial result to keep of two.
pub open spec fn preferred(current: Option<Partial>, candidate: Partial) -> Partial {
    match current {
        Some(current) if !says_more(candidate, current) => current,
        _ => candidate,
    }
}

/// The partial result to keep of two: the candidate only where it says more.
pub fn preferred_partial(current: Option<Partial>, candidate: Partial) -> (kept: Partial)
    ensures
        kept == preferred(current, candidate),
{
    match current {
        None => candidate,
        Some(current) => {
            let more: bool = if candidate.included != current.included {
                candidate.included > current.included
            } else if candidate.filtered != current.filtered {
                candidate.filtered < current.filtered
            } else {
                candidate.height > current.height
            };
            if more {
                candidate
            } else {
                current
            }
        },
    }
}

/// The partial result to keep of all that leaders gave.
pub open spec fn best_partial(responses: Seq<LeaderResponse>) -> Option<Partial>
    decreases responses.len(),
{
    if responses.len() == 0 {
        None
    } else {
        let kept = best_partial(responses.drop_last());
        match responses.last() {
            LeaderResponse::Terminal(TxStatus::PartiallyFinalized { height, included, filtered }) =>
                Some(preferred(kept, Partial { height, included, filtered })),
            _ => kept,
        }
    }
}

/// Leaders that dropped the batch.
pub open spec fn dropped_count(responses: Seq<LeaderResponse>) -> nat
    decreases responses.len(),
{
    if responses.len() == 0 {
        0
    } else {
        dropped_count(responses.drop_last()) + (if responses.last() == LeaderResponse::Terminal(
            TxStatus::Dropped,
        ) {
            1nat
        } else {
            0nat
        })
    }
}

/// The answer that a response decides by itself: a finalized batch, or a
/// refusal that every leader would repeat.
pub open spec fn decides(response: LeaderResponse) -> Option<RelayResponse> {
    match response {
        LeaderResponse::Terminal(TxStatus::Finalized { height }) => Some(
            RelayResponse::Status(TxStatus::Finalized { height }),
        ),
        LeaderResponse::Deterministic(code) => Some(RelayResponse::Code(code)),
        _ => None,
    }
}

/// The first answer that a response decides by itself.
pub open spec fn first_decision(responses: Seq<LeaderResponse>) -> Option<RelayResponse>
    decreases responses.len(),
{
    if responses.len() == 0 {
        None
    } else {
        match first_decision(responses.drop_last()) {
            Some(response) => Some(response),
            None => decides(responses.last()),
        }
    }
}

/// The answer once every leader responded: the first that one decided by
/// itself; else the best partial result; else dropped, where every leader
/// dropped the batch; else merely accepted.
pub open spec fn final_answer(responses: Seq<LeaderResponse>, target_count: nat) -> RelayResponse {
    match first_decision(responses) {
        Some(response) => response,
        None => match best_partial(responses) {
            Some(Partial { height, included, filtered }) => RelayResponse::Status(
                TxStatus::PartiallyFinalized { height, included, filtered },
            ),
            None => if dropped_count(responses) == target_count {
                RelayResponse::Status(TxStatus::Dropped)
            } else {
                RelayResponse::Code(ACCEPTED)
            },
        },
    }
}

/// What a client is answered on `response`, after those that were seen.
pub open spec fn answer_now(seen: Seq<LeaderResponse>, response: LeaderResponse) -> Option<
    RelayResponse,
> {
    if first_decision(seen) is Some {
        None
    } else {
        decides(response)
    }
}

/// What a client is answered once all responses were seen.
pub open spec fn answer_at_end(seen: Seq<LeaderResponse>) -> Option<RelayResponse> {
    if first_decision(seen) is Some {
        None
    } else {
        Some(final_answer(seen, seen.len()))
    }
}

/// A batch on its way to leaders.
pub struct Forwarding {
    pub target_count: usize,
    pub partial: Option<Partial>,
    pub dropped: usize,
    /// Whether the client was answered.
    pub answered: bool,
    /// The responses so far.
    pub seen: Ghost<Seq<LeaderResponse>>,
}

impl Forwarding {
    /// The state sums up the responses so far.
    pub open spec fn wf(&self) -> bool {
        &&& self.seen@.len() <= self.target_count
        &&& self.partial == best_partial(self.seen@)
        &&& self.dropped as nat == dropped_count(self.seen@)
        &&& self.dropped <= self.seen@.len()
        &&& self.answered == (first_decision(self.seen@) is Some)
    }

    /// A batch that was handed to `target_count` leaders.
    pub fn new(target_count: usize) -> (forwarding: Self)
        ensures
            forwarding.wf(),
            forwarding.target_count == target_count,
            forwarding.seen@ == Seq::<LeaderResponse>::empty(),
    {
        Forwarding {
            target_count,
            partial: None,
            dropped: 0,
            answered: false,
            seen: Ghost(Seq::empty()),
        }
    }

    /// Takes a leader's response. The result is what the client is answered
    /// now, if this decides it and nothing did before.
    pub fn respond(&mut self, response: LeaderResponse) -> (answer: Option<RelayResponse>)
        requires
            old(self).wf(),
            old(self).seen@.len() < old(self).target_count,
        ensures
            final(self).wf(),
            final(self).target_count == old(self).target_count,
            final(self).seen@ == old(self).seen@.push(response),
            answer == answer_now(old(self).seen@, response),
    {
        proof {
            assert(self.seen@.push(response).drop_last() =~= self.seen@);
        }
        let was_answered: bool = self.answered;
        self.seen = Ghost(self.seen@.push(response));
        match response {
            LeaderResponse::Terminal(TxStatus::Finalized { height }) => {
                self.answered = true;
                if was_answered {
                    None
                } else {
                    Some(RelayResponse::Status(TxStatus::Finalized { height }))
                }
            },
            LeaderResponse::Terminal(
                TxStatus::PartiallyFinalized { height, included, filtered },
            ) => {
                self.partial = Some(
                    preferred_partial(self.partial, Partial { height, included, filtered }),
                );
                None
            },
            LeaderResponse::Terminal(TxStatus::Dropped) => {
                self.dropped = self.dropped + 1;
                None
            },
            LeaderResponse::Deterministic(code) => {
                self.answered = true;
                if was_answered {
                    None
                } else {
                    Some(RelayResponse::Code(code))
                }
            },
            LeaderResponse::Ambiguous => None,
        }
    }

    /// What the client is answered once every leader responded, if it was not
    /// answered before.
    pub fn finish(&self) -> (answer: Option<RelayResponse>)
        requires
            self.wf(),
            self.seen@.len() == self.target_count,
        ensures
            answer == answer_at_end(self.seen@),
    {
        if self.answered {
            return None;
        }
        match self.partial {
            Some(Partial { height, included, filtered }) => Some(
                RelayResponse::Status(TxStatus::PartiallyFinalized { height, included, filtered }),
            ),
            None => if self.dropped == self.target_count {
                Some(RelayResponse::Status(TxStatus::Dropped))
            } else {
                Some(RelayResponse::Code(ACCEPTED))
            },
        }
    }
}

/// The answer that a client who waits for every leader gets.
pub fn aggregate(responses: &Vec<LeaderResponse>) -> (answer: RelayResponse)
    ensures
        answer == final_answer(responses@, responses@.len()),
{
    let mut forwarding = Forwarding::new(responses.len());
    let mut answer: Option<RelayResponse> = None;
    let mut i: usize = 0;
    assert(responses@.take(0) =~= Seq::<LeaderResponse>::empty());
    while i < responses.len()
        invariant
            i <= responses.len(),
            forwarding.wf(),
            forwarding.target_count == responses.len(),
            forwarding.seen@ == responses@.take(i as int),
            answer == first_decision(responses@.take(i as int)),
        decreases responses.len() - i,
    {
        let now = forwarding.respond(responses[i]);
        assert(responses@.take(i + 1).drop_last() =~= responses@.take(i as int));
        assert(responses@.take(i + 1) =~= responses@.take(i as int).push(responses@[i as int]));
        if now.is_some() {
            answer = now;
        }
        i = i + 1;
    }
    assert(responses@.take(responses@.len() as int) =~= responses@);
    match answer {
        Some(answer) => answer,
        None => match forwarding.finish() {
            Some(answer) => answer,
            None => RelayResponse::Code(ACCEPTED),
        },
    }
}

/// No partial result that a leader gave says more than the one that is kept.
pub proof fn best_partial_is_greatest(responses: Seq<LeaderResponse>, i: int)
    requires
        0 <= i < responses.len(),
        responses[i] is Terminal,
        responses[i]->Terminal_0 is PartiallyFinalized,
    ensures
        best_partial(responses) is Some,
        responses[i] matches LeaderResponse::Terminal(
            TxStatus::PartiallyFinalized { height, included, filtered },
        ) ==> !says_more(Partial { height, included, filtered }, best_partial(responses)->0),
    decreases responses.len(),
{
    if i < responses.len() - 1 {
        best_partial_is_greatest(responses.drop_last(), i);
    }
}

/// A client is told that its batch was dropped only when every leader dropped
/// it.
pub proof fn dropped_only_when_all_drop(responses: Seq<LeaderResponse>, i: int)
    requires
        final_answer(responses, responses.len()) == RelayResponse::Status(TxStatus::Dropped),
        0 <= i < responses.len(),
    ensures
        responses[i] == LeaderResponse::Terminal(TxStatus::Dropped),
{
    lemma_decision_is_not_dropped(responses);
    lemma_all_dropped(responses, i);
}

proof fn lemma_decision_is_not_dropped(responses: Seq<LeaderResponse>)
    ensures
        first_decision(responses) != Some(RelayResponse::Status(TxStatus::Dropped)),
    decreases responses.len(),
{
    if responses.len() > 0 {
        lemma_decision_is_not_dropped(responses.drop_last());
    }
}

proof fn lemma_dropped_bound(responses: Seq<LeaderResponse>)
    ensures
        dropped_count(responses) <= responses.len(),
    decreases responses.len(),
{
    if responses.len() > 0 {
        lemma_dropped_bound(responses.drop_last());
    }
}

proof fn lemma_all_dropped(responses: Seq<LeaderResponse>, i: int)
    requires
        dropped_count(responses) == responses.len(),
        0 <= i < responses.len(),
    ensures
        responses[i] == LeaderResponse::Terminal(TxStatus::Dropped),
    decreases responses.len(),
{
    lemma_dropped_bound(responses.drop_last());
    if i < responses.len() - 1 {
        lemma_all_dropped(responses.drop_last(), i);
    }
}

/// The answer to a client. One that stops waiting for the leaders is told only
/// that its batch was accepted.
pub fn client_answer(received: Option<RelayResponse>) -> (answer: RelayResponse)
    ensures
        answer == (match received {
            Some(response) => response,
            None => RelayResponse::Code(ACCEPTED),
        }),
{
    match received {
        Some(response) => response,
        None => RelayResponse::Code(ACCEPTED),
    }
}

/// Whether an account lookup that names `text` is taken as `result`.
pub open spec fn names_account(
    text: Seq<char>,
    key_size: usize,
    result: Result<Vec<u8>, u16>,
) -> bool {
    match parse_hex(text) {
        Some(bytes) if bytes.len() == key_size => result matches Ok(key) && key@ == bytes,
        _ => result == Err::<Vec<u8>, u16>(BAD_REQUEST),
    }
}

/// The bytes of the key that an account lookup names.
pub fn account_key(text: &str, key_size: usize) -> (result: Result<Vec<u8>, u16>)
    ensures
        match parse_hex(text@) {
            Some(bytes) if bytes.len() == key_size => result matches Ok(key) && key@ == bytes,
            _ => result == Err::<Vec<u8>, u16>(BAD_REQUEST),
        },
        names_account(text@, key_size, result),
{
    match from_hex(text) {
        None => Err(BAD_REQUEST),
        Some(bytes) => {
            if bytes.len() != key_size {
                return Err(BAD_REQUEST);
            }
            Ok(bytes)
        },
    }
}

/// The answer to an account lookup.
pub open spec fn account_answer(lookup: Option<AccountLookup>) -> Result<AccountRecord, u16> {
    match lookup {
        Some(AccountLookup::Found(account)) => Ok(account),
        Some(AccountLookup::Missing) => Err(NOT_FOUND),
        _ => Err(SERVICE_UNAVAILABLE),
    }
}

/// The answer to an account lookup. Before the state database is attached,
/// lookups are unavailable.
pub fn account_response(lookup: Option<AccountLookup>) -> (answer: Result<AccountRecord, u16>)
    ensures
        answer == account_answer(lookup),
{
    match lookup {
        Some(AccountLookup::Found(account)) => Ok(account),
        Some(AccountLookup::Missing) => Err(NOT_FOUND),
        _ => Err(SERVICE_UNAVAILABLE),
    }
}

/// Whether the relayer can serve: it knows at least one leader.
pub fn ready(leaders: &Vec<Leader>) -> (code: u16)
    ensures
        code == (if leaders.len() == 0 {
            SERVICE_UNAVAILABLE
        } else {
            OK
        }),
{
    if leaders.len() == 0 {
        SERVICE_UNAVAILABLE
    } else {
        OK
    }
}

/// A clock shows the highest view that was observed: it is at or above both what
/// it showed and what it is told, and one of the two. So the order in which
/// views are observed does not matter.
pub proof fn clock_shows_the_highest_view(clock: ViewClock, a: u64, b: u64)
    ensures
        clock.after_view(a).current_view >= clock.current_view,
        clock.after_view(a).current_view >= a,
        clock.after_view(a).current_view == a || clock.after_view(a) == clock,
        clock.after_view(a).after_view(b) == clock.after_view(b).after_view(a),
        clock.after_view(a).after_view(a) == clock.after_view(a),
{
}

/// A body is too large exactly if it exceeds the batch limit by more than five
/// bytes, and otherwise a bad request exactly if no transaction of the least
/// size fits behind a prefix of one byte. What is admitted is the most
/// transactions that fit there.
pub proof fn admission_counts_what_fits(
    body_len: usize,
    max_batch_bytes: usize,
    min_transaction_bytes: usize,
)
    requires
        min_transaction_bytes > 0,
    ensures
        ({
            let admitted = admission(body_len, max_batch_bytes, min_transaction_bytes);
            &&& admitted == Err::<usize, u16>(413) <==> body_len > max_batch_bytes + 5
            &&& admitted == Err::<usize, u16>(400) <==> body_len <= max_batch_bytes + 5 && body_len
                < 1 + min_transaction_bytes
            &&& admitted matches Err(code) ==> code == 413 || code == 400
            &&& admitted matches Ok(count) ==> {
                &&& count >= 1
                &&& 1 + count * min_transaction_bytes <= body_len
                &&& body_len < 1 + (count + 1) * min_transaction_bytes
            }
        }),
{
    let payload = payload_len(body_len) as int;
    let least = min_transaction_bytes as int;
    vstd::arithmetic::div_mod::lemma_fundamental_div_mod(payload, least);
    vstd::arithmetic::div_mod::lemma_mod_bound(payload, least);
    let count = payload / least;
    assert(count * least <= payload < (count + 1) * least) by (nonlinear_arith)
        requires
            payload == least * count + payload % least,
            0 <= payload % least < least,
    ;
    assert(count >= 1 ==> payload >= least) by (nonlinear_arith)
        requires
            count * least <= payload,
            least > 0,
    ;
    assert(count == 0 ==> payload < least) by (nonlinear_arith)
        requires
            payload < (count + 1) * least,
    ;
    assert(0 <= count <= payload) by (nonlinear_arith)
        requires
            count * least <= payload < (count + 1) * least,
            least > 0,
            payload >= 0,
    ;
}

/// The bytes of a batch are those of its parts taken together, whatever their
/// order, and no transaction is larger than the batch.
pub proof fn batch_bytes_add_up(a: Seq<usize>, b: Seq<usize>)
    ensures
        total_bytes(a + b) == total_bytes(a) + total_bytes(b),
        total_bytes(a + b) == total_bytes(b + a),
        forall|i: int| 0 <= i < a.len() ==> #[trigger] a[i] <= total_bytes(a),
    decreases a.len() + b.len(),
{
    lemma_bytes_add_up(a, b);
    lemma_bytes_add_up(b, a);
    lemma_each_fits(a);
}

proof fn lemma_bytes_add_up(a: Seq<usize>, b: Seq<usize>)
    ensures
        total_bytes(a + b) == total_bytes(a) + total_bytes(b),
    decreases b.len(),
{
    if b.len() == 0 {
        assert(a + b =~= a);
    } else {
        lemma_bytes_add_up(a, b.drop_last());
        assert((a + b).drop_last() =~= a + b.drop_last());
    }
}

proof fn lemma_each_fits(a: Seq<usize>)
    ensures
        forall|i: int| 0 <= i < a.len() ==> #[trigger] a[i] <= total_bytes(a),
    decreases a.len(),
{
    if a.len() > 0 {
        lemma_each_fits(a.drop_last());
        assert forall|i: int| 0 <= i < a.len() implies #[trigger] a[i] <= total_bytes(a) by {
            if i < a.len() - 1 {
                assert(a.drop_last()[i] == a[i]);
            }
        }
    }
}

/// A decoded batch is refused as too large exactly if it exceeds the limit, and
/// otherwise counted; adding a transaction counts one more or exceeds the limit.
pub proof fn batches_are_counted_within_the_limit(sizes: Seq<usize>, size: usize, limit: usize)
    requires
        sizes.len() < usize::MAX,
    ensures
        counted_batch(sizes, limit) is Ok ==> counted_batch(sizes, limit)->Ok_0 == sizes.len()
            && total_bytes(sizes) <= limit,
        counted_batch(sizes, limit) matches Err(code) ==> code == 413 && total_bytes(sizes) > limit,
        total_bytes(sizes) + size <= limit ==> counted_batch(sizes.push(size), limit) == Ok::<
            usize,
            u16,
        >((sizes.len() + 1) as usize),
        total_bytes(sizes) + size > limit ==> counted_batch(sizes.push(size), limit) is Err,
{
    assert(sizes.push(size).drop_last() =~= sizes);
}

/// A submission that names no leader is public. One that names a leader is
/// never public: it goes to the leader of that key, and only if its body fits
/// and it asks for one leader or for no number of them.
pub proof fn pinned_submissions_reach_their_leader(
    route: SubmitRoute<'_>,
    leaders: Seq<Leader>,
    target: Option<Seq<char>>,
    fanout: Option<u64>,
    body_len: usize,
    max_batch_bytes: usize,
)
    requires
        is_route(route, leaders, target, fanout, body_len, max_batch_bytes),
    ensures
        route is Public <==> target is None,
        route matches SubmitRoute::Pinned(leader) ==> {
            &&& target == Some(leader.public_key@)
            &&& fanout is None || fanout == Some(1u64)
            &&& body_len <= max_batch_bytes + 5
        },
        route matches SubmitRoute::Refused(code) ==> code == 413 || code == 400,
        target is Some && body_len > max_batch_bytes + 5 ==> route == SubmitRoute::Refused(413),
        target is Some && body_len <= max_batch_bytes + 5 && (fanout matches Some(n) && n != 1)
            ==> route == SubmitRoute::Refused(400),
        forall|i: int|
            0 <= i < leaders.len() && target == Some((#[trigger] leaders[i]).public_key@)
                && body_len <= max_batch_bytes + 5 && (fanout is None || fanout == Some(1u64))
                ==> route is Pinned,
{
}

/// A leader's word counts only if it is a success with a status, or a refusal
/// that every leader would repeat: a bad request or one that is too large.
/// Everything else leaves open what became of the batch.
pub proof fn only_firm_answers_count(code: u16, status: Option<TxStatus>)
    ensures
        response_of(ForwardOutcome::Unreachable) is Ambiguous,
        ({
            let response = response_of(ForwardOutcome::Answered { code, status });
            &&& response is Terminal <==> code == 200 && status is Some
            &&& response matches LeaderResponse::Terminal(said) ==> status == Some(said)
            &&& response is Deterministic <==> code == 400 || code == 413
            &&& response matches LeaderResponse::Deterministic(said) ==> said == code
        }),
{
}

/// Of two partial results the one is kept that includes more; of those that
/// include the same, the one that filters less; and then the higher one. The
/// earlier one is kept where they are the same.
pub proof fn more_inclusion_is_preferred(current: Partial, candidate: Partial)
    ensures
        preferred(None, candidate) == candidate,
        ({
            let kept = preferred(Some(current), candidate);
            &&& kept == current || kept == candidate
            &&& kept.included >= current.included && kept.included >= candidate.included
            &&& current.included == candidate.included ==> kept.filtered <= current.filtered
                && kept.filtered <= candidate.filtered
            &&& current.included == candidate.included && current.filtered == candidate.filtered
                ==> kept.height >= current.height && kept.height >= candidate.height
        }),
{
}

proof fn lemma_decision_is_earned(responses: Seq<LeaderResponse>)
    ensures
        first_decision(responses) matches Some(answer) ==> exists|i: int|
            0 <= i < responses.len() && decides(#[trigger] responses[i]) == Some(answer)
                && forall|j: int| 0 <= j < i ==> decides(#[trigger] responses[j]) is None,
        first_decision(responses) is None ==> forall|j: int|
            0 <= j < responses.len() ==> decides(#[trigger] responses[j]) is None,
    decreases responses.len(),
{
    if responses.len() > 0 {
        let init = responses.drop_last();
        lemma_decision_is_earned(init);
        assert forall|j: int| 0 <= j < init.len() implies init[j] == #[trigger] responses[j] by {}
        if let Some(answer) = first_decision(init) {
            let i = choose|i: int|
                0 <= i < init.len() && decides(#[trigger] init[i]) == Some(answer) && forall|j: int|
                    0 <= j < i ==> decides(#[trigger] init[j]) is None;
            assert(decides(responses[i]) == Some(answer));
            assert forall|j: int| 0 <= j < i implies decides(#[trigger] responses[j]) is None by {
                assert(decides(init[j]) is None);
            }
        } else {
            assert forall|j: int| 0 <= j < init.len() implies decides(
                #[trigger] responses[j],
            ) is None by {
                assert(decides(init[j]) is None);
            }
            assert(responses.last() == responses[responses.len() - 1]);
        }
    }
}

proof fn lemma_partial_is_given(responses: Seq<LeaderResponse>)
    ensures
        best_partial(responses) matches Some(best) ==> exists|i: int|
            0 <= i < responses.len() && #[trigger] responses[i] == LeaderResponse::Terminal(
                TxStatus::PartiallyFinalized {
                    height: best.height,
                    included: best.included,
                    filtered: best.filtered,
                },
            ),
    decreases responses.len(),
{
    if responses.len() > 0 {
        let init = responses.drop_last();
        lemma_partial_is_given(init);
        if let Some(best) = best_partial(responses) {
            if best_partial(init) == Some(best) {
                let i = choose|i: int|
                    0 <= i < init.len() && #[trigger] init[i] == LeaderResponse::Terminal(
                        TxStatus::PartiallyFinalized {
                            height: best.height,
                            included: best.included,
                            filtered: best.filtered,
                        },
                    );
                assert(responses[i] == init[i]);
            } else {
                assert(responses[responses.len() - 1] == responses.last());
            }
        }
    }
}

proof fn lemma_not_all_dropped(responses: Seq<LeaderResponse>)
    ensures
        dropped_count(responses) <= responses.len(),
        (forall|i: int|
            0 <= i < responses.len() ==> #[trigger] responses[i] == LeaderResponse::Terminal(
                TxStatus::Dropped,
            )) ==> dropped_count(responses) == responses.len(),
    decreases responses.len(),
{
    if responses.len() > 0 {
        let init = responses.drop_last();
        lemma_not_all_dropped(init);
        assert forall|i: int| 0 <= i < init.len() implies init[i] == #[trigger] responses[i] by {}
        if forall|i: int|
            0 <= i < responses.len() ==> #[trigger] responses[i] == LeaderResponse::Terminal(
                TxStatus::Dropped,
            ) {
            assert(responses[responses.len() - 1] == responses.last());
            assert forall|i: int| 0 <= i < init.len() implies #[trigger] init[i]
                == LeaderResponse::Terminal(TxStatus::Dropped) by {
                assert(responses[i] == init[i]);
            }
        }
    }
}

/// A client is told nothing that no leader said. That its batch is finalized at
/// a height, or refused with a code, some leader said, and if one did the client
/// hears the first of those; a partial result some leader gave, and no leader
/// gave one that included more; dropped means that all dropped it; and merely
/// accepted is what remains.
pub proof fn answers_are_what_leaders_said(responses: Seq<LeaderResponse>, i: int)
    requires
        responses.len() > 0,
    ensures
        ({
            let answer = final_answer(responses, responses.len());
            &&& answer matches RelayResponse::Status(TxStatus::Finalized { height })
                ==> exists|k: int|
                0 <= k < responses.len() && #[trigger] responses[k] == LeaderResponse::Terminal(
                    TxStatus::Finalized { height },
                )
            &&& answer matches RelayResponse::Code(code) ==> code == 202 || exists|k: int|
                0 <= k < responses.len() && #[trigger] responses[k]
                    == LeaderResponse::Deterministic(code)
            &&& answer matches RelayResponse::Status(
                TxStatus::PartiallyFinalized { height, included, filtered },
            ) ==> exists|k: int|
                0 <= k < responses.len() && #[trigger] responses[k] == LeaderResponse::Terminal(
                    TxStatus::PartiallyFinalized { height, included, filtered },
                )
            &&& 0 <= i < responses.len() ==> {
                &&& responses[i] is Deterministic || (responses[i] is Terminal
                    && responses[i]->Terminal_0 is Finalized) ==> !(answer matches
                    RelayResponse::Status(TxStatus::PartiallyFinalized { .. }))
                    && answer != RelayResponse::Status(TxStatus::Dropped)
                &&& responses[i] matches LeaderResponse::Terminal(TxStatus::Finalized { height })
                    ==> (forall|j: int|
                    0 <= j < i ==> !((#[trigger] responses[j]) is Deterministic) && !(
                    responses[j] is Terminal && responses[j]->Terminal_0 is Finalized)) ==> answer
                    == RelayResponse::Status(TxStatus::Finalized { height })
                &&& responses[i] matches LeaderResponse::Deterministic(code) ==> (forall|j: int|
                    0 <= j < i ==> !((#[trigger] responses[j]) is Deterministic) && !(
                    responses[j] is Terminal && responses[j]->Terminal_0 is Finalized)) ==> answer
                    == RelayResponse::Code(code)
                &&& responses[i] matches LeaderResponse::Terminal(
                    TxStatus::PartiallyFinalized { height: _, included, filtered },
                ) ==> {
                    &&& answer != RelayResponse::Status(TxStatus::Dropped)
                    &&& answer matches RelayResponse::Status(
                        TxStatus::PartiallyFinalized { height: _, included: told, filtered: lost },
                    ) ==> told > included || told == included && lost <= filtered
                }
                &&& answer == RelayResponse::Status(TxStatus::Dropped) ==> responses[i]
                    == LeaderResponse::Terminal(TxStatus::Dropped)
            }
            &&& (forall|k: int|
                0 <= k < responses.len() ==> #[trigger] responses[k] == LeaderResponse::Terminal(
                    TxStatus::Dropped,
                )) ==> answer == RelayResponse::Status(TxStatus::Dropped)
        }),
{
    let answer = final_answer(responses, responses.len());
    lemma_decision_is_earned(responses);
    lemma_partial_is_given(responses);
    lemma_not_all_dropped(responses);
    lemma_decision_is_not_dropped(responses);
    if 0 <= i < responses.len() {
        if answer == RelayResponse::Status(TxStatus::Dropped) {
            dropped_only_when_all_drop(responses, i);
        }
        if responses[i] is Terminal && responses[i]->Terminal_0 is PartiallyFinalized {
            best_partial_is_greatest(responses, i);
        }
        if decides(responses[i]) is Some {
            assert(first_decision(responses) is Some);
            let told = first_decision(responses)->0;
            let k = choose|k: int|
                0 <= k < responses.len() && decides(#[trigger] responses[k]) == Some(told)
                    && forall|j: int| 0 <= j < k ==> decides(#[trigger] responses[j]) is None;
            if k > i {
                assert(decides(responses[i]) is None);
            }
        }
    }
    if forall|k: int|
        0 <= k < responses.len() ==> #[trigger] responses[k] == LeaderResponse::Terminal(
            TxStatus::Dropped,
        ) {
        if let Some(told) = first_decision(responses) {
            let k = choose|k: int|
                0 <= k < responses.len() && decides(#[trigger] responses[k]) == Some(told);
            assert(false);
        }
        if let Some(best) = best_partial(responses) {
            assert(false);
        }
    }
}

/// An account is served only if it was found; that it is missing is said only
/// if the lookup said so.
pub proof fn missing_accounts_are_told_apart(account: AccountRecord)
    ensures
        account_answer(Some(AccountLookup::Found(account))) == Ok::<AccountRecord, u16>(account),
        account_answer(Some(AccountLookup::Missing)) == Err::<AccountRecord, u16>(404),
        account_answer(None) == Err::<AccountRecord, u16>(503),
        forall|lookup: Option<AccountLookup>|
            account_answer(lookup) == Err::<AccountRecord, u16>(404) ==> lookup == Some(
                AccountLookup::Missing,
            ),
{
}

/// A single transaction goes to four leaders; everything else goes to two.
pub proof fn single_transactions_go_to_more_leaders(transactions: usize)
    ensures
        fanout_of(transactions) == 4 <==> transactions == 1,
        fanout_of(transactions) == 2 <==> transactions != 1,
{
}

/// A pinned submission is answered with the leader's own code and body, and only
/// if both arrived; otherwise the leader counts as unavailable.
pub proof fn pinned_answers_are_the_leaders(
    answer: Option<(u16, Option<String>)>,
    response: (u16, String),
)
    requires
        passes_on(answer, response),
    ensures
        answer matches Some((code, Some(body))) ==> response.0 == code && response.1 == body,
        !(answer matches Some((_, Some(_)))) ==> response.0 == 503 && response.1@.len() == 0,
{
}

/// A client is answered once: by the first response that decides, or at the end.
/// Both ways the answer is what all responses together come to, whatever follows
/// it.
pub proof fn clients_are_answered_once(
    seen: Seq<LeaderResponse>,
    response: LeaderResponse,
    rest: Seq<LeaderResponse>,
)
    ensures
        answer_now(seen, response) matches Some(answer) ==> {
            &&& first_decision(seen) is None
            &&& answer_now(seen.push(response), rest[0]) is None
            &&& answer_at_end(seen.push(response) + rest) is None
            &&& final_answer(
                seen.push(response) + rest,
                (seen.push(response) + rest).len(),
            ) == answer
        },
        answer_at_end(seen) matches Some(answer) ==> answer == final_answer(seen, seen.len())
            && forall|i: int| 0 <= i < seen.len() ==> decides(#[trigger] seen[i]) is None,
        answer_at_end(seen) is None ==> exists|i: int|
            0 <= i < seen.len() && #[trigger] answer_now(seen.take(i), seen[i]) is Some,
{
    let now = seen.push(response);
    assert(now.drop_last() =~= seen);
    lemma_decision_lasts(now, rest);
    lemma_decision_is_earned(seen);
    if answer_at_end(seen) is None {
        lemma_decided_at(seen);
    }
}

proof fn lemma_decision_lasts(seen: Seq<LeaderResponse>, rest: Seq<LeaderResponse>)
    ensures
        first_decision(seen) is Some ==> first_decision(seen + rest) == first_decision(seen),
    decreases rest.len(),
{
    if rest.len() == 0 {
        assert(seen + rest =~= seen);
    } else {
        lemma_decision_lasts(seen, rest.drop_last());
        assert((seen + rest).drop_last() =~= seen + rest.drop_last());
    }
}

proof fn lemma_decided_at(seen: Seq<LeaderResponse>)
    requires
        first_decision(seen) is Some,
    ensures
        exists|i: int|
            0 <= i < seen.len() && #[trigger] answer_now(seen.take(i), seen[i]) is Some,
    decreases seen.len(),
{
    let init = seen.drop_last();
    if first_decision(init) is Some {
        lemma_decided_at(init);
        let i = choose|i: int|
            0 <= i < init.len() && #[trigger] answer_now(init.take(i), init[i]) is Some;
        assert(init.take(i) =~= seen.take(i));
        assert(answer_now(seen.take(i), seen[i]) is Some);
    } else {
        let i = seen.len() - 1;
        assert(seen.take(i) =~= init);
        assert(answer_now(seen.take(i), seen[i]) is Some);
    }
}

/// A lookup names the account whose key it spells in hexadecimal, and is a bad
/// request if it spells no key of that size.
pub proof fn lookups_name_accounts_in_hex(key: Seq<u8>, result: Result<Vec<u8>, u16>, size: usize)
    requires
        names_account(hex_text(key), size, result),
    ensures
        key.len() == size ==> result is Ok && result->Ok_0@ == key,
        key.len() != size ==> result == Err::<Vec<u8>, u16>(400),
{
    hex_round_trip(key);
}

} // verus!
