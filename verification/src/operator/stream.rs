//! The metered stream: who is admitted, what each charge emits, and when a
//! stream that is not paid for ends.

use crate::operator::capability::{is_authorized, Capabilities};
use crate::operator::content::{
    joined, same_tokens, splits, splits_are_unique, token_count, tokens, ESSAY,
};
use crate::operator::verify::{answers, ApiError};
use crate::text::copy;
use vstd::prelude::*;

verus! {

/// Chain units one streamed token costs. Advertised, so that clients price
/// their vouchers from configuration.
pub const STREAM_PRICE_PER_TOKEN: u64 = 1;

/// Chain units of unpaid content a stream may run ahead of the channel's latest
/// voucher before it pauses.
pub const STREAM_DEBT_LIMIT: u64 = 32;

/// Milliseconds a paused stream waits for a fresher voucher.
pub const STREAM_GRACE_MS: u64 = 5000;

/// Milliseconds between two looks at a paused stream's credit.
pub const STREAM_POLL_INTERVAL_MS: u64 = 200;

/// Milliseconds between streamed tokens.
pub const STREAM_PACE_MS: u64 = 50;

/// What a channel was served and what it paid for.
#[derive(Clone, Copy, Debug, PartialEq, Eq, Structural)]
pub struct MeterSnapshot {
    pub served: u64,
    pub paid: u64,
}

/// What a charge came to.
#[derive(Clone, Copy, Debug, PartialEq, Eq, Structural)]
pub enum ConsumeOutcome {
    Served(MeterSnapshot),
    PaymentRequired(MeterSnapshot),
    DepositExhausted(MeterSnapshot),
    ContentExhausted(MeterSnapshot),
}

/// Why a stream ends.
#[derive(Clone, Copy, Debug, PartialEq, Eq, Structural)]
pub enum StreamEndReason {
    Complete,
    PaymentTimeout,
    DepositExhausted,
    ChannelClosed,
}

/// An event of a stream.
#[derive(Debug, PartialEq, Eq)]
pub enum StreamEvent {
    Chunk { text: String, served: u64, paid: u64 },
    PaymentRequired { served: u64, paid: u64 },
    End { reason: StreamEndReason, served: u64, paid: u64 },
}

/// What follows a charge.
#[derive(Debug, PartialEq, Eq)]
pub enum StreamStep {
    /// Send the event.
    Emit(StreamEvent),
    /// Wait for the poll interval, then charge again.
    Poll,
}

/// Greatest meter value that is backed by content.
pub open spec fn content_limit() -> int {
    let price = token_count(ESSAY@) * STREAM_PRICE_PER_TOKEN;
    if price <= u64::MAX {
        price as int
    } else {
        u64::MAX as int
    }
}

/// Greatest meter value that is backed by content: every token once.
pub fn stream_content_limit() -> (limit: u64)
    ensures
        limit == content_limit(),
{
    let count: usize = tokens().len();
    match (count as u64).checked_mul(STREAM_PRICE_PER_TOKEN) {
        Some(limit) => limit,
        None => u64::MAX,
    }
}

/// The operator's advertisement of its margins and its stream.
#[derive(Debug, PartialEq, Eq)]
pub struct Advertisement {
    pub operator: Vec<u8>,
    pub height: u64,
    pub min_runway: u64,
    pub settle_margin: u64,
    pub price_per_token: u64,
    pub debt_limit: u64,
    pub tokens: u64,
}

/// Whether `ad` is what the operator advertises at `height`.
pub open spec fn advertises(
    ad: Advertisement,
    operator: Seq<u8>,
    height: u64,
    min_runway: u64,
    settle_margin: u64,
) -> bool {
    &&& ad.operator@ == operator
    &&& ad.height == height
    &&& ad.min_runway == min_runway
    &&& ad.settle_margin == settle_margin
    &&& ad.price_per_token == STREAM_PRICE_PER_TOKEN
    &&& ad.debt_limit == STREAM_DEBT_LIMIT
    &&& ad.tokens == token_count(ESSAY@)
}

/// What the operator advertises at `height`.
pub fn advertise(operator: Vec<u8>, height: u64, min_runway: u64, settle_margin: u64) -> (ad:
    Advertisement)
    ensures
        ad.operator == operator,
        ad.height == height,
        ad.min_runway == min_runway,
        ad.settle_margin == settle_margin,
        ad.price_per_token == STREAM_PRICE_PER_TOKEN,
        ad.debt_limit == STREAM_DEBT_LIMIT,
        ad.tokens == token_count(ESSAY@),
        advertises(ad, operator@, height, min_runway, settle_margin),
{
    let count: usize = tokens().len();
    Advertisement {
        operator,
        height,
        min_runway,
        settle_margin,
        price_per_token: STREAM_PRICE_PER_TOKEN,
        debt_limit: STREAM_DEBT_LIMIT,
        tokens: count as u64,
    }
}

/// Whether a stream request is admitted, and the 402 answer where it is not.
pub open spec fn admitted(
    channel: Option<Result<Vec<u8>, String>>,
    capability: Option<String>,
    issued: Map<Seq<u8>, Seq<char>>,
    admission: Result<Vec<u8>, ApiError>,
) -> bool {
    match (channel, capability) {
        (None, _) => admission matches Err(e) && answers(
            e,
            402,
            "open and register a channel, then pass ?channel=<hex>"@,
        ),
        (Some(Err(malformed)), _) => admission matches Err(e) && answers(e, 402, malformed@),
        (Some(Ok(_)), None) => admission matches Err(e) && answers(
            e,
            402,
            "registration capability required"@,
        ),
        (Some(Ok(channel)), Some(presented)) => if issued.contains_key(channel@)
            && issued[channel@] == presented@ {
            admission == Ok::<Vec<u8>, ApiError>(channel)
        } else {
            admission matches Err(e) && answers(e, 402, "invalid channel capability"@)
        },
    }
}

/// The handshake of a stream request: without a registered channel and its
/// capability the answer is 402. `channel` is what the request's channel parsed
/// to, where it names one.
pub fn admit_stream(
    channel: Option<Result<Vec<u8>, String>>,
    capability: Option<String>,
    capabilities: &Capabilities,
) -> (admission: Result<Vec<u8>, ApiError>)
    requires
        capabilities.wf(),
    ensures
        admitted(channel, capability, capabilities@, admission),
{
    let channel = match channel {
        None => return Err(
            ApiError::payment_required("open and register a channel, then pass ?channel=<hex>"),
        ),
        Some(Err(malformed)) => return Err(ApiError::payment_required(malformed.as_str())),
        Some(Ok(channel)) => channel,
    };
    let presented = match capability {
        None => return Err(ApiError::payment_required("registration capability required")),
        Some(presented) => presented,
    };
    if capabilities.authorizes(&channel, presented.as_str()) {
        Ok(channel)
    } else {
        Err(ApiError::payment_required("invalid channel capability"))
    }
}

/// The meter that an outcome reports.
pub open spec fn meter_of(outcome: ConsumeOutcome) -> MeterSnapshot {
    match outcome {
        ConsumeOutcome::Served(meter) => meter,
        ConsumeOutcome::PaymentRequired(meter) => meter,
        ConsumeOutcome::DepositExhausted(meter) => meter,
        ConsumeOutcome::ContentExhausted(meter) => meter,
    }
}

/// Whether a charge of nothing that came to `outcome` shows `meter`.
pub open spec fn probes(
    outcome: Result<ConsumeOutcome, String>,
    meter: Result<MeterSnapshot, ApiError>,
) -> bool {
    match outcome {
        Ok(outcome) => meter == Ok::<MeterSnapshot, ApiError>(meter_of(outcome)),
        Err(error) => meter matches Err(e) && answers(e, 402, error@),
    }
}

/// What a charge of nothing shows before a stream starts: an unregistered or
/// closed channel answers 402 in place of an empty stream.
pub fn probe(outcome: Result<ConsumeOutcome, String>) -> (meter: Result<MeterSnapshot, ApiError>)
    ensures
        match outcome {
            Ok(outcome) => meter == Ok::<MeterSnapshot, ApiError>(meter_of(outcome)),
            Err(error) => meter matches Err(e) && answers(e, 402, error@),
        },
        probes(outcome, meter),
{
    match outcome {
        Ok(ConsumeOutcome::Served(meter)) => Ok(meter),
        Ok(ConsumeOutcome::PaymentRequired(meter)) => Ok(meter),
        Ok(ConsumeOutcome::DepositExhausted(meter)) => Ok(meter),
        Ok(ConsumeOutcome::ContentExhausted(meter)) => Ok(meter),
        Err(error) => Err(ApiError::payment_required(error.as_str())),
    }
}

/// The step that ends a stream at `meter`.
pub open spec fn ends_with(reason: StreamEndReason, meter: MeterSnapshot) -> StreamStep {
    StreamStep::Emit(StreamEvent::End { reason, served: meter.served, paid: meter.paid })
}

/// One client's stream: the last meter it was reported, and the pause
/// bookkeeping.
pub struct StreamSession {
    pub content: Vec<String>,
    pub meter: MeterSnapshot,
    /// When a paused stream gives up, set at the start of each pause and
    /// cleared by the voucher that resumes it.
    pub grace_deadline: Option<u64>,
    pub done: bool,
}

impl StreamSession {
    /// The session sells the essay.
    pub open spec fn wf(&self) -> bool {
        &&& splits(self.content@, ESSAY@)
        &&& self.content@.len() == token_count(ESSAY@)
    }

    /// A stream that starts at `meter`.
    pub fn new(meter: MeterSnapshot) -> (session: Self)
        ensures
            session.wf(),
            session.meter == meter,
            session.grace_deadline is None,
            !session.done,
    {
        StreamSession { content: tokens(), meter, grace_deadline: None, done: false }
    }

    /// Milliseconds to wait before the next charge.
    pub open spec fn paced(&self) -> u64 {
        if self.grace_deadline is None {
            STREAM_PACE_MS
        } else {
            0
        }
    }

    /// Milliseconds to wait before the next charge. A client that disconnects
    /// meanwhile has paid for nothing undelivered. A paused stream has its own
    /// poll cadence.
    pub fn pace(&self) -> (wait: u64)
        ensures
            wait == self.paced(),
    {
        match self.grace_deadline {
            None => STREAM_PACE_MS,
            Some(_) => 0,
        }
    }

    fn end(&mut self, reason: StreamEndReason) -> (step: StreamStep)
        ensures
            final(self).content == old(self).content,
            final(self).meter == old(self).meter,
            final(self).grace_deadline == old(self).grace_deadline,
            final(self).done,
            step == StreamStep::Emit(
                StreamEvent::End {
                    reason,
                    served: old(self).meter.served,
                    paid: old(self).meter.paid,
                },
            ),
    {
        self.done = true;
        StreamStep::Emit(
            StreamEvent::End { reason, served: self.meter.served, paid: self.meter.paid },
        )
    }

    /// Whether the outcome of charging one token at `now` led to `step` and this
    /// session to `next`.
    pub open spec fn takes(
        &self,
        next: StreamSession,
        outcome: Result<ConsumeOutcome, String>,
        now: u64,
        step: StreamStep,
    ) -> bool {
        &&& next.content == self.content
        &&& match outcome {
            Ok(ConsumeOutcome::Served(m)) => {
                &&& next.meter == m
                &&& next.grace_deadline is None
                &&& next.done == self.done
                &&& step matches StreamStep::Emit(StreamEvent::Chunk { text, served, paid })
                &&& text@ == self.content@[m.served / STREAM_PRICE_PER_TOKEN - 1]@
                &&& served == m.served
                &&& paid == m.paid
            },
            Ok(ConsumeOutcome::PaymentRequired(m)) => {
                &&& next.meter == m
                &&& match self.grace_deadline {
                    None => {
                        &&& next.grace_deadline == Some((now + STREAM_GRACE_MS) as u64)
                        &&& next.done == self.done
                        &&& step == StreamStep::Emit(
                            StreamEvent::PaymentRequired { served: m.served, paid: m.paid },
                        )
                    },
                    Some(deadline) => {
                        &&& next.grace_deadline == Some(deadline)
                        &&& if now >= deadline {
                            next.done && step == ends_with(StreamEndReason::PaymentTimeout, m)
                        } else {
                            next.done == self.done && step == StreamStep::Poll
                        }
                    },
                }
            },
            Ok(ConsumeOutcome::DepositExhausted(m)) => {
                &&& next.meter == m
                &&& next.done
                &&& step == ends_with(StreamEndReason::DepositExhausted, m)
            },
            Ok(ConsumeOutcome::ContentExhausted(m)) => {
                &&& next.meter == m
                &&& next.done
                &&& step == ends_with(StreamEndReason::Complete, m)
            },
            Err(_) => {
                &&& next.meter == self.meter
                &&& next.done
                &&& step == ends_with(StreamEndReason::ChannelClosed, self.meter)
            },
        }
    }

    /// Takes the outcome of charging one token at `now`. A served token is sent.
    /// The first refusal of a pause is reported and starts the grace clock;
    /// later ones are polled quietly until the clock runs out. An outcome that
    /// is an error means that the channel is closed.
    pub fn step(&mut self, outcome: Result<ConsumeOutcome, String>, now: u64) -> (step: StreamStep)
        requires
            old(self).wf(),
            now <= u64::MAX - STREAM_GRACE_MS,
            outcome matches Ok(ConsumeOutcome::Served(meter)) ==> 0 < meter.served
                <= content_limit(),
        ensures
            final(self).wf(),
            old(self).takes(*final(self), outcome, now, step),
            final(self).content == old(self).content,
            final(self).meter == (match outcome {
                Ok(outcome) => meter_of(outcome),
                Err(_) => old(self).meter,
            }),
            final(self).grace_deadline == (match outcome {
                Ok(ConsumeOutcome::Served(_)) => None,
                Ok(ConsumeOutcome::PaymentRequired(_)) => match old(self).grace_deadline {
                    None => Some((now + STREAM_GRACE_MS) as u64),
                    Some(deadline) => Some(deadline),
                },
                _ => old(self).grace_deadline,
            }),
            final(self).done == (old(self).done || (step matches StreamStep::Emit(
                StreamEvent::End { .. },
            ))),
            match outcome {
                Ok(ConsumeOutcome::Served(m)) => (step matches StreamStep::Emit(
                    StreamEvent::Chunk { text, served, paid },
                ) && text@ == old(self).content@[m.served / STREAM_PRICE_PER_TOKEN - 1]@ && served
                    == m.served && paid == m.paid),
                Ok(ConsumeOutcome::PaymentRequired(m)) => match old(self).grace_deadline {
                    None => step == StreamStep::Emit(
                        StreamEvent::PaymentRequired { served: m.served, paid: m.paid },
                    ),
                    Some(deadline) => if now >= deadline {
                        step == StreamStep::Emit(
                            StreamEvent::End {
                                reason: StreamEndReason::PaymentTimeout,
                                served: m.served,
                                paid: m.paid,
                            },
                        )
                    } else {
                        step == StreamStep::Poll
                    },
                },
                Ok(ConsumeOutcome::DepositExhausted(m)) => step == StreamStep::Emit(
                    StreamEvent::End {
                        reason: StreamEndReason::DepositExhausted,
                        served: m.served,
                        paid: m.paid,
                    },
                ),
                Ok(ConsumeOutcome::ContentExhausted(m)) => step == StreamStep::Emit(
                    StreamEvent::End {
                        reason: StreamEndReason::Complete,
                        served: m.served,
                        paid: m.paid,
                    },
                ),
                Err(_) => step == StreamStep::Emit(
                    StreamEvent::End {
                        reason: StreamEndReason::ChannelClosed,
                        served: old(self).meter.served,
                        paid: old(self).meter.paid,
                    },
                ),
            },
    {
        match outcome {
            Ok(ConsumeOutcome::Served(meter)) => {
                self.meter = meter;
                self.grace_deadline = None;
                assert(meter.served <= self.content.len());
                let index: usize = (meter.served / STREAM_PRICE_PER_TOKEN - 1) as usize;
                StreamStep::Emit(
                    StreamEvent::Chunk {
                        text: copy(self.content[index].as_str()),
                        served: meter.served,
                        paid: meter.paid,
                    },
                )
            },
            Ok(ConsumeOutcome::PaymentRequired(meter)) => {
                self.meter = meter;
                match self.grace_deadline {
                    None => {
                        self.grace_deadline = Some(now + STREAM_GRACE_MS);
                        StreamStep::Emit(
                            StreamEvent::PaymentRequired { served: meter.served, paid: meter.paid },
                        )
                    },
                    Some(deadline) => {
                        if now >= deadline {
                            self.end(StreamEndReason::PaymentTimeout)
                        } else {
                            StreamStep::Poll
                        }
                    },
                }
            },
            Ok(ConsumeOutcome::DepositExhausted(meter)) => {
                self.meter = meter;
                self.end(StreamEndReason::DepositExhausted)
            },
            Ok(ConsumeOutcome::ContentExhausted(meter)) => {
                self.meter = meter;
                self.end(StreamEndReason::Complete)
            },
            Err(_) => self.end(StreamEndReason::ChannelClosed),
        }
    }
}

/// The content is the same for every session, so a stream that is resumed goes
/// on where the meter left off: what a served total buys does not depend on the
/// session.
pub proof fn resumed_streams_continue(a: &StreamSession, b: &StreamSession)
    requires
        a.wf(),
        b.wf(),
    ensures
        same_tokens(a.content@, b.content@),
{
    splits_are_unique(a.content@, b.content@, ESSAY@);
}

/// The tokens that are sold for the served totals from one on are the essay, in
/// order and without a gap: put together they are all of it. They cost one unit
/// each, and what they cost taken together is the limit of the content.
pub proof fn sold_tokens_are_the_essay(
    session: StreamSession,
    nexts: Seq<StreamSession>,
    paid: u64,
    now: u64,
    texts: Seq<String>,
)
    requires
        session.wf(),
        texts.len() == session.content@.len(),
        nexts.len() == texts.len(),
        forall|k: int|
            0 <= k < texts.len() ==> session.takes(
                nexts[k],
                Ok(ConsumeOutcome::Served(MeterSnapshot { served: (k + 1) as u64, paid })),
                now,
                StreamStep::Emit(
                    StreamEvent::Chunk { text: #[trigger] texts[k], served: (k + 1) as u64, paid },
                ),
            ),
        session.content@.len() <= u64::MAX,
    ensures
        joined(texts) == ESSAY@,
        texts.len() == content_limit(),
{
    assert forall|k: int| 0 <= k < texts.len() implies (#[trigger] texts[k])@
        == session.content@[k]@ by {
        let served = (k + 1) as u64;
        assert(served / STREAM_PRICE_PER_TOKEN - 1 == k);
    }
    lemma_same_joined(texts, session.content@);
}

proof fn lemma_same_joined(a: Seq<String>, b: Seq<String>)
    requires
        a.len() == b.len(),
        forall|k: int| 0 <= k < a.len() ==> (#[trigger] a[k])@ == b[k]@,
    ensures
        joined(a) == joined(b),
    decreases a.len(),
{
    if a.len() > 0 {
        assert forall|k: int| 0 <= k < a.drop_last().len() implies (#[trigger] a.drop_last()[k])@
            == b.drop_last()[k]@ by {
            assert(a[k]@ == b[k]@);
        }
        lemma_same_joined(a.drop_last(), b.drop_last());
        assert(a[a.len() - 1]@ == b[b.len() - 1]@);
    }
}

/// A pause is reported once and lasts five seconds: refusals within that time
/// are not reported again and do not end the stream, the first one at or after
/// it does. A token that is served ends the pause, so that the next one has its
/// full time again.
pub proof fn pauses_last_the_grace_time(
    session: StreamSession,
    paused: StreamSession,
    later: StreamSession,
    first: MeterSnapshot,
    second: MeterSnapshot,
    start: u64,
    now: u64,
    report: StreamStep,
    step: StreamStep,
)
    requires
        session.grace_deadline is None,
        !session.done,
        start + 5_000 <= u64::MAX,
        session.takes(paused, Ok(ConsumeOutcome::PaymentRequired(first)), start, report),
    ensures
        report == StreamStep::Emit(
            StreamEvent::PaymentRequired { served: first.served, paid: first.paid },
        ),
        !paused.done,
        paused.takes(later, Ok(ConsumeOutcome::PaymentRequired(second)), now, step) ==> {
            &&& now < start + 5_000 ==> step == StreamStep::Poll && !later.done
                && later.grace_deadline == paused.grace_deadline
            &&& now >= start + 5_000 ==> later.done && step == StreamStep::Emit(
                StreamEvent::End {
                    reason: StreamEndReason::PaymentTimeout,
                    served: second.served,
                    paid: second.paid,
                },
            )
        },
        paused.takes(later, Ok(ConsumeOutcome::Served(second)), now, step) ==> later.grace_deadline
            is None && !later.done && later.meter == second,
{
}

/// A stream ends for the reason that the charge gave: with its content complete
/// only when the content is used up, with its deposit only when that is, and as
/// closed only when the charge failed, at the last meter that was reported.
pub proof fn streams_end_for_their_reason(
    session: StreamSession,
    next: StreamSession,
    outcome: Result<ConsumeOutcome, String>,
    now: u64,
    step: StreamStep,
)
    requires
        session.takes(next, outcome, now, step),
        !session.done,
    ensures
        next.done <==> step matches StreamStep::Emit(StreamEvent::End { .. }),
        step matches StreamStep::Emit(StreamEvent::End { reason, served, paid }) ==> {
            &&& reason == StreamEndReason::Complete <==> outcome is Ok
                && outcome->Ok_0 is ContentExhausted
            &&& reason == StreamEndReason::DepositExhausted <==> outcome is Ok
                && outcome->Ok_0 is DepositExhausted
            &&& reason == StreamEndReason::PaymentTimeout <==> outcome is Ok
                && outcome->Ok_0 is PaymentRequired
            &&& reason == StreamEndReason::ChannelClosed <==> outcome is Err
            &&& served == next.meter.served
            &&& paid == next.meter.paid
        },
        outcome matches Ok(ConsumeOutcome::Served(meter)) ==> next.meter == meter,
        outcome matches Ok(ConsumeOutcome::PaymentRequired(meter)) ==> next.meter == meter,
        outcome matches Ok(ConsumeOutcome::DepositExhausted(meter)) ==> next.meter == meter
            && next.done,
        outcome matches Ok(ConsumeOutcome::ContentExhausted(meter)) ==> next.meter == meter
            && next.done,
        outcome is Err ==> next.meter == session.meter && next.done,
{
}

/// A stream is admitted exactly if it names a channel and presents what was
/// issued for that channel; everything else is asked to pay.
pub proof fn only_issued_capabilities_are_admitted(
    channel: Option<Result<Vec<u8>, String>>,
    capability: Option<String>,
    issued: Map<Seq<u8>, Seq<char>>,
    admission: Result<Vec<u8>, ApiError>,
)
    requires
        admitted(channel, capability, issued, admission),
    ensures
        admission matches Ok(named) ==> {
            &&& channel == Some(Ok::<Vec<u8>, String>(named))
            &&& capability is Some
            &&& is_authorized(issued, named@, capability->0@)
        },
        (channel matches Some(Ok(named)) && capability matches Some(presented) && is_authorized(
            issued,
            named@,
            presented@,
        )) ==> admission is Ok,
        admission matches Err(error) ==> error.status == 402,
{
}

/// What is advertised is what is charged: the price of a token, the debt up to
/// which a stream runs, and as many tokens as any session sells; the margins are
/// the operator's own.
pub proof fn advertisements_are_kept(
    ad: Advertisement,
    operator: Seq<u8>,
    height: u64,
    min_runway: u64,
    settle_margin: u64,
    session: StreamSession,
)
    requires
        advertises(ad, operator, height, min_runway, settle_margin),
        session.wf(),
    ensures
        ad.operator@ == operator,
        ad.height == height,
        ad.min_runway == min_runway,
        ad.settle_margin == settle_margin,
        ad.tokens == session.content@.len(),
        ad.tokens * ad.price_per_token == content_limit(),
        ad.price_per_token == 1,
        ad.debt_limit == 32,
{
}

/// A channel that can be charged starts a stream at its meter, whatever the
/// charge came to, and one that cannot is asked to pay. Tokens are paced while
/// the stream runs, and not while it is paused.
pub proof fn streams_start_at_the_meter(
    outcome: Result<ConsumeOutcome, String>,
    shown: Result<MeterSnapshot, ApiError>,
    meter: MeterSnapshot,
    session: StreamSession,
)
    requires
        probes(outcome, shown),
    ensures
        shown is Ok <==> outcome is Ok,
        outcome == Ok::<ConsumeOutcome, String>(ConsumeOutcome::Served(meter)) ==> shown == Ok::<
            MeterSnapshot,
            ApiError,
        >(meter),
        outcome == Ok::<ConsumeOutcome, String>(ConsumeOutcome::PaymentRequired(meter)) ==> shown
            == Ok::<MeterSnapshot, ApiError>(meter),
        outcome == Ok::<ConsumeOutcome, String>(ConsumeOutcome::DepositExhausted(meter)) ==> shown
            == Ok::<MeterSnapshot, ApiError>(meter),
        outcome == Ok::<ConsumeOutcome, String>(ConsumeOutcome::ContentExhausted(meter)) ==> shown
            == Ok::<MeterSnapshot, ApiError>(meter),
        shown matches Err(error) ==> error.status == 402 && error.message@ == outcome->Err_0@,
        session.grace_deadline is None ==> session.paced() == 50,
        session.grace_deadline is Some ==> session.paced() == 0,
{
}

} // verus!
