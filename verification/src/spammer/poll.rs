//! Status polls and round ends of a ring spammer.

use crate::spammer::ring::{
    arrives, later, one_more, pending_as, phases, reports_included, same_senders, sender_step,
    EndpointState, RingEvent, SenderPhase, SenderState, SenderStatus, Spammer, TransactionState,
    TransactionStatus,
};
use crate::spammer::spam::{
    backoff_after, classify_submission_error, error_kind, next_retry_backoff, SubmissionErrorKind,
    INITIAL_RETRY_BACKOFF_MILLIS, STATUS_POLL_BATCH_SIZE, STATUS_POLL_INTERVAL_MILLIS,
};
use crate::text::{
    contains_text, copy, decimal, decimal_u64, ends_with_seq, join2, join3, same_text,
    starts_with_seq, texts_contain_their_parts,
};
use vstd::multiset::Multiset;
use vstd::prelude::*;

verus! {

/// The pending senders among the first `n` of `indices`.
pub open spec fn pending_among(indices: Seq<usize>, stands: Seq<SenderPhase>, n: int) -> Seq<usize>
    decreases n,
{
    if n <= 0 {
        Seq::empty()
    } else {
        let earlier = pending_among(indices, stands, n - 1);
        if stands[indices[n - 1] as int] == SenderPhase::Pending {
            earlier.push(indices[n - 1])
        } else {
            earlier
        }
    }
}

/// Whether `chunks` cuts `all` into pieces of one poll, in order: all full but
/// the last, which is not empty.
pub open spec fn are_chunks(chunks: Seq<Vec<usize>>, all: Seq<usize>) -> bool {
    &&& chunks.len() * STATUS_POLL_BATCH_SIZE >= all.len()
    &&& (chunks.len() - 1) * STATUS_POLL_BATCH_SIZE < all.len() || chunks.len() == 0
    &&& forall|c: int|
        0 <= c < chunks.len() ==> (#[trigger] chunks[c])@ == all.subrange(
            c * STATUS_POLL_BATCH_SIZE,
            if (c + 1) * STATUS_POLL_BATCH_SIZE < all.len() {
                (c + 1) * STATUS_POLL_BATCH_SIZE
            } else {
                all.len() as int
            },
        )
}

/// What a poll has found so far.
pub struct PollView {
    pub senders: Seq<SenderState>,
    pub completed: usize,
    pub retries: Seq<(usize, u64)>,
}

/// What a poll has found once sender `i` has `state`: a transfer in a block is
/// counted, a rejected one waits longer than before, one the endpoint does not
/// know waits as long as before.
pub open spec fn poll_step(view: PollView, i: usize, state: TransactionState, now: u64) -> PollView {
    let sender = view.senders[i as int];
    if sender.phase() != SenderPhase::Pending {
        view
    } else {
        match state {
            TransactionState::Pending => view,
            TransactionState::Included => PollView {
                senders: view.senders.update(
                    i as int,
                    SenderState {
                        retry_backoff: INITIAL_RETRY_BACKOFF_MILLIS,
                        status: SenderStatus::Included,
                        ..sender
                    },
                ),
                completed: one_more(view.completed),
                ..view
            },
            TransactionState::Rejected => {
                let backoff = backoff_after(sender.retry_backoff, false);
                PollView {
                    senders: view.senders.update(
                        i as int,
                        SenderState { retry_backoff: backoff, ..sender },
                    ),
                    retries: view.retries.push((i, later(now, backoff))),
                    ..view
                }
            },
            TransactionState::Unknown => PollView {
                retries: view.retries.push((i, later(now, sender.retry_backoff))),
                ..view
            },
        }
    }
}

/// What a poll has found after the first `n` statuses.
pub open spec fn poll_after(
    start: PollView,
    chunk: Seq<usize>,
    statuses: Seq<TransactionStatus>,
    now: u64,
    n: int,
) -> PollView
    decreases n,
{
    if n <= 0 {
        start
    } else {
        poll_step(
            poll_after(start, chunk, statuses, now, n - 1),
            chunk[n - 1],
            statuses[n - 1].state,
            now,
        )
    }
}

/// Whether status number `n` is of another transaction than the one its sender
/// is pending under.
pub open spec fn mismatches(
    start: PollView,
    chunk: Seq<usize>,
    statuses: Seq<TransactionStatus>,
    now: u64,
    n: int,
) -> bool {
    let sender = poll_after(start, chunk, statuses, now, n).senders[chunk[n] as int];
    sender.phase() == SenderPhase::Pending && !pending_as(sender, statuses[n].tx_hash@)
}

/// The message about an endpoint that reported too few or too many statuses.
pub open spec fn count_mismatch(endpoint: Seq<char>, got: nat, asked: nat) -> Seq<char> {
    endpoint + " returned "@ + decimal(got) + " statuses for "@ + decimal(asked)
        + " requested hashes"@
}

/// The message about an endpoint that reported another transaction.
pub open spec fn hash_mismatch(endpoint: Seq<char>, hash: Seq<char>, sender: nat) -> Seq<char> {
    endpoint + " returned mismatched tx hash "@ + hash + " for sender "@ + decimal(sender)
}

proof fn lemma_no_full_mempool()
    ensures
        !crate::spammer::spam::mempool_full("rejected"@),
{
    reveal_strlit("rejected");
    reveal_strlit("mempool full");
    let hay = "rejected"@;
    let needle = "mempool full"@;
    assert(hay.len() == 8);
    assert(needle.len() == 12);
    assert forall|at: int| !crate::text::occurs_at(hay, needle, at) by {}
}

impl Spammer {
    /// The senders of endpoint `e` whose status is asked for, in pieces of one
    /// poll.
    pub fn poll_chunks(&self, e: usize) -> (chunks: Vec<Vec<usize>>)
        requires
            self.wf(),
            e < self.endpoints.len(),
        ensures
            are_chunks(
                chunks@,
                pending_among(
                    self.endpoints@[e as int].sender_indices@,
                    phases(self.senders@),
                    self.endpoints@[e as int].sender_indices@.len() as int,
                ),
            ),
    {
        let indices = &self.endpoints[e].sender_indices;
        assert(self.endpoints@[e as int].wf(self.senders@, e as int));
        let mut pending: Vec<usize> = Vec::new();
        let mut k: usize = 0;
        while k < indices.len()
            invariant
                k <= indices.len(),
                indices@ == crate::spammer::ring::senders_of(
                    self.senders@,
                    e as int,
                    self.senders@.len() as int,
                ),
                pending@ == pending_among(indices@, phases(self.senders@), k as int),
            decreases indices.len() - k,
        {
            let index: usize = indices[k];
            proof {
                assert(self.senders@.len() == self.senders.len());
                crate::spammer::ring::lemma_senders_of(
                    self.senders@,
                    e as int,
                    self.senders@.len() as int,
                    k as int,
                );
                assert(phases(self.senders@)[index as int] == self.senders@[index as int].phase());
            }
            match self.senders[index].status {
                SenderStatus::Pending(_) => {
                    pending.push(index);
                },
                _ => {},
            }
            k = k + 1;
        }
        let mut chunks: Vec<Vec<usize>> = Vec::new();
        let mut at: usize = 0;
        while at < pending.len()
            invariant
                at <= pending.len(),
                at == chunks.len() * STATUS_POLL_BATCH_SIZE || at == pending.len(),
                chunks.len() * STATUS_POLL_BATCH_SIZE >= at,
                chunks.len() > 0 ==> (chunks.len() - 1) * STATUS_POLL_BATCH_SIZE < at,
                forall|c: int|
                    0 <= c < chunks@.len() ==> (#[trigger] chunks@[c])@ == pending@.subrange(
                        c * STATUS_POLL_BATCH_SIZE,
                        if (c + 1) * STATUS_POLL_BATCH_SIZE < pending@.len() {
                            (c + 1) * STATUS_POLL_BATCH_SIZE
                        } else {
                            pending@.len() as int
                        },
                    ),
            decreases pending.len() - at,
        {
            let left: usize = pending.len() - at;
            let size: usize = if left > STATUS_POLL_BATCH_SIZE {
                STATUS_POLL_BATCH_SIZE
            } else {
                left
            };
            let mut chunk: Vec<usize> = Vec::new();
            let mut i: usize = 0;
            while i < size
                invariant
                    i <= size,
                    at + size <= pending.len(),
                    chunk@ == pending@.subrange(at as int, at + i),
                decreases size - i,
            {
                chunk.push(pending[at + i]);
                i = i + 1;
                assert(chunk@ =~= pending@.subrange(at as int, at + i));
            }
            chunks.push(chunk);
            at = at + size;
        }
        chunks
    }

    /// The hashes that the senders of a piece are pending under.
    pub fn pending_hashes(&self, chunk: &Vec<usize>) -> (hashes: Vec<String>)
        requires
            forall|k: int|
                0 <= k < chunk@.len() ==> (#[trigger] chunk@[k]) < self.senders@.len()
                    && self.senders@[chunk@[k] as int].phase() == SenderPhase::Pending,
        ensures
            hashes@.len() == chunk@.len(),
            forall|k: int|
                0 <= k < chunk@.len() ==> pending_as(
                    self.senders@[#[trigger] chunk@[k] as int],
                    hashes@[k]@,
                ),
    {
        let mut hashes: Vec<String> = Vec::new();
        let mut k: usize = 0;
        while k < chunk.len()
            invariant
                k <= chunk.len(),
                forall|k: int|
                    0 <= k < chunk@.len() ==> (#[trigger] chunk@[k]) < self.senders@.len()
                        && self.senders@[chunk@[k] as int].phase() == SenderPhase::Pending,
                hashes@.len() == k,
                forall|j: int|
                    0 <= j < k ==> pending_as(
                        self.senders@[#[trigger] chunk@[j] as int],
                        hashes@[j]@,
                    ),
            decreases chunk.len() - k,
        {
            let index: usize = chunk[k];
            match &self.senders[index].status {
                SenderStatus::Pending(tx_hash) => {
                    hashes.push(copy(tx_hash.as_str()));
                },
                _ => {
                    assert(self.senders@[index as int].phase() == SenderPhase::Pending);
                    hashes.push(String::new());
                },
            }
            k = k + 1;
        }
        hashes
    }

    /// What the poll looks at of endpoint `e`.
    pub open spec fn poll_view(&self, e: int, retries: Seq<(usize, u64)>) -> PollView {
        PollView {
            senders: self.senders@,
            completed: self.endpoints@[e].completed,
            retries,
        }
    }

    /// Takes the statuses that endpoint `e` reported of a piece. Senders to be
    /// submitted again are noted in `retries`.
    pub fn statuses_received(
        &mut self,
        e: usize,
        chunk: &Vec<usize>,
        statuses: &Vec<TransactionStatus>,
        retries: &mut Vec<(usize, u64)>,
        now: u64,
    ) -> (result: Result<(), String>)
        requires
            old(self).wf(),
            e < old(self).endpoints.len(),
            forall|k: int|
                0 <= k < chunk@.len() ==> (#[trigger] chunk@[k]) < old(self).senders@.len(),
            forall|k: int|
                0 <= k < old(retries)@.len() ==> (#[trigger] old(retries)@[k]).0
                    < old(self).senders@.len() && old(self).senders@[old(
                    retries)@[k].0 as int].phase() != SenderPhase::Submitting,
        ensures
            final(self).wf(),
            old(self).steps_to(
                final(self),
                RingEvent::Reported { chunk: chunk@, statuses: statuses@ },
            ),
            same_senders(final(self).senders@, old(self).senders@),
            final(self).others_unchanged(old(self), e as int),
            final(self).endpoints@[e as int] == (EndpointState {
                completed: final(self).endpoints@[e as int].completed,
                ..old(self).endpoints@[e as int]
            }),
            forall|k: int|
                0 <= k < final(retries)@.len() ==> (#[trigger] final(retries)@[k]).0
                    < final(self).senders@.len() && final(self).senders@[final(
                    retries)@[k].0 as int].phase() != SenderPhase::Submitting,
            final(self).base_nonce == old(self).base_nonce,
            final(self).completed_rounds == old(self).completed_rounds,
            final(self).next_status_poll == old(self).next_status_poll,
            ({
                let start = old(self).poll_view(e as int, old(retries)@);
                if statuses@.len() != chunk@.len() {
                    &&& result matches Err(message)
                    &&& message@ == count_mismatch(
                        old(self).endpoints@[e as int].endpoint@,
                        statuses@.len(),
                        chunk@.len(),
                    )
                    &&& final(self).poll_view(e as int, final(retries)@) == start
                } else {
                    match result {
                        Ok(()) => {
                            &&& forall|n: int|
                                0 <= n < chunk@.len() ==> !mismatches(
                                    start,
                                    chunk@,
                                    statuses@,
                                    now,
                                    n,
                                )
                            &&& final(self).poll_view(e as int, final(retries)@) == poll_after(
                                start,
                                chunk@,
                                statuses@,
                                now,
                                chunk@.len() as int,
                            )
                        },
                        Err(message) => exists|n: int|
                            0 <= n < chunk@.len() && #[trigger] mismatches(
                                start,
                                chunk@,
                                statuses@,
                                now,
                                n,
                            ) && message@ == hash_mismatch(
                                old(self).endpoints@[e as int].endpoint@,
                                statuses@[n].tx_hash@,
                                chunk@[n] as nat,
                            ) && final(self).poll_view(e as int, final(retries)@) == poll_after(
                                start,
                                chunk@,
                                statuses@,
                                now,
                                n,
                            ) && forall|m: int|
                                0 <= m < n ==> !mismatches(start, chunk@, statuses@, now, m),
                    }
                }
            }),
    {
        let ghost start = self.poll_view(e as int, retries@);
        let ghost first = self.senders@;
        if statuses.len() != chunk.len() {
            let got = join3(
                self.endpoints[e].endpoint.as_str(),
                " returned ",
                decimal_u64(statuses.len() as u64).as_str(),
            );
            let asked = join3(
                got.as_str(),
                " statuses for ",
                decimal_u64(chunk.len() as u64).as_str(),
            );
            return Err(join2(asked.as_str(), " requested hashes"));
        }
        let mut n: usize = 0;
        while n < chunk.len()
            invariant
                n <= chunk.len(),
                statuses.len() == chunk.len(),
                self.wf(),
                e < self.endpoints.len(),
                start == old(self).poll_view(e as int, old(retries)@),
                first == old(self).senders@,
                same_senders(self.senders@, first),
                self.others_unchanged(old(self), e as int),
                self.endpoints@[e as int] == (EndpointState {
                    completed: self.endpoints@[e as int].completed,
                    ..old(self).endpoints@[e as int]
                }),
                forall|k: int|
                    0 <= k < chunk@.len() ==> (#[trigger] chunk@[k]) < self.senders@.len(),
                forall|k: int|
                    0 <= k < retries@.len() ==> (#[trigger] retries@[k]).0 < self.senders@.len()
                        && self.senders@[retries@[k].0 as int].phase() != SenderPhase::Submitting,
                self.base_nonce == old(self).base_nonce,
                self.completed_rounds == old(self).completed_rounds,
                self.next_status_poll == old(self).next_status_poll,
                self.poll_view(e as int, retries@) == poll_after(
                    start,
                    chunk@,
                    statuses@,
                    now,
                    n as int,
                ),
                forall|m: int|
                    0 <= m < n ==> !mismatches(start, chunk@, statuses@, now, m),
            decreases chunk.len() - n,
        {
            let index: usize = chunk[n];
            let ghost prior = self.senders@;
            let ghost homes = self.endpoints@;
            let ghost noted = retries@;
            let is_pending: bool = match &self.senders[index].status {
                SenderStatus::Pending(tx_hash) => {
                    if !same_text(tx_hash.as_str(), statuses[n].tx_hash.as_str()) {
                        proof {
                            assert(mismatches(start, chunk@, statuses@, now, n as int));
                            lemma_poll_steps(start, chunk@, statuses@, now, n as int);
                        }
                        let head = join3(
                            self.endpoints[e].endpoint.as_str(),
                            " returned mismatched tx hash ",
                            statuses[n].tx_hash.as_str(),
                        );
                        return Err(
                            join3(
                                head.as_str(),
                                " for sender ",
                                decimal_u64(index as u64).as_str(),
                            ),
                        );
                    }
                    true
                },
                _ => false,
            };
            assert(is_pending == (prior[index as int].phase() == SenderPhase::Pending));
            if is_pending {
                match statuses[n].state {
                    TransactionState::Pending => {},
                    TransactionState::Included => {
                        self.senders[index].retry_backoff = INITIAL_RETRY_BACKOFF_MILLIS;
                        self.senders[index].status = SenderStatus::Included;
                        let completed: usize = self.endpoints[e].completed;
                        self.endpoints[e].completed = completed.saturating_add(1);
                        proof {
                            lemma_settled(prior, self.senders@, homes, self.endpoints@, index as int);
                        }
                    },
                    TransactionState::Rejected => {
                        proof {
                            lemma_no_full_mempool();
                        }
                        let backoff: u64 = next_retry_backoff(
                            self.senders[index].retry_backoff,
                            "rejected",
                        );
                        self.senders[index].retry_backoff = backoff;
                        retries.push((index, now.saturating_add(backoff)));
                        proof {
                            lemma_settled(prior, self.senders@, homes, self.endpoints@, index as int);
                        }
                    },
                    TransactionState::Unknown => {
                        let backoff: u64 = self.senders[index].retry_backoff;
                        retries.push((index, now.saturating_add(backoff)));
                    },
                }
            }
            proof {
                let view = poll_after(start, chunk@, statuses@, now, n as int);
                let next = poll_step(view, index, statuses@[n as int].state, now);
                assert(self.senders@ =~= next.senders);
                assert(retries@ =~= next.retries);
                assert(self.poll_view(e as int, retries@) == next);
                assert forall|k: int| 0 <= k < retries@.len() implies (#[trigger] retries@[k]).0
                    < self.senders@.len() && self.senders@[retries@[k].0 as int].phase()
                    != SenderPhase::Submitting by {
                    if k < noted.len() {
                        assert(retries@[k] == noted[k]);
                    }
                }
            }
            n = n + 1;
        }
        proof {
            lemma_poll_steps(start, chunk@, statuses@, now, n as int);
        }
        Ok(())
    }
}

/// A poll moves every sender by what was reported, and keeps the hash that a
/// sender is pending under.
proof fn lemma_poll_steps(
    start: PollView,
    chunk: Seq<usize>,
    statuses: Seq<TransactionStatus>,
    now: u64,
    n: int,
)
    requires
        0 <= n <= chunk.len(),
        chunk.len() == statuses.len(),
        forall|k: int| 0 <= k < chunk.len() ==> (#[trigger] chunk[k]) < start.senders.len(),
        forall|m: int| 0 <= m < n ==> !mismatches(start, chunk, statuses, now, m),
    ensures
        poll_after(start, chunk, statuses, now, n).senders.len() == start.senders.len(),
        forall|i: int|
            0 <= i < start.senders.len() ==> sender_step(
                start.senders[i],
                #[trigger] poll_after(start, chunk, statuses, now, n).senders[i],
                i,
                RingEvent::Reported { chunk, statuses },
            ),
    decreases n,
{
    let event = RingEvent::Reported { chunk, statuses };
    if n > 0 {
        lemma_poll_steps(start, chunk, statuses, now, n - 1);
        let view = poll_after(start, chunk, statuses, now, n - 1);
        let next = poll_after(start, chunk, statuses, now, n);
        let at = chunk[n - 1] as int;
        assert(!mismatches(start, chunk, statuses, now, n - 1));
        assert forall|i: int| 0 <= i < start.senders.len() implies sender_step(
            start.senders[i],
            #[trigger] next.senders[i],
            i,
            event,
        ) by {
            assert(sender_step(start.senders[i], view.senders[i], i, event));
            if i == at && view.senders[i].phase() == SenderPhase::Pending {
                let hash = statuses[n - 1].tx_hash@;
                assert(pending_as(view.senders[i], hash));
                assert(!arrives(event, i, hash));
                assert(pending_as(start.senders[i], hash));
                if statuses[n - 1].state == TransactionState::Included {
                    assert(event->chunk == chunk && event->statuses == statuses);
                    assert(chunk[n - 1] == i);
                    assert(reports_included(event, i, hash));
                }
                assert forall|h: Seq<char>| #[trigger] pending_as(next.senders[i], h) implies
                    pending_as(start.senders[i], h) || arrives(event, i, h) by {
                    assert(pending_as(view.senders[i], h));
                }
            } else {
                assert(next.senders[i] == view.senders[i]);
            }
        }
    }
}

/// Endpoints stay in order when a sender that is not being submitted moves on
/// and no endpoint changes but in what it counts as completed.
proof fn lemma_settled(
    prior: Seq<SenderState>,
    senders: Seq<SenderState>,
    homes: Seq<EndpointState>,
    endpoints: Seq<EndpointState>,
    i: int,
)
    requires
        0 <= i < prior.len(),
        forall|f: int| 0 <= f < homes.len() ==> (#[trigger] homes[f]).wf(prior, f),
        senders =~= prior.update(i, senders[i]),
        senders[i].account == prior[i].account,
        prior[i].phase() != SenderPhase::Submitting,
        senders[i].phase() != SenderPhase::Submitting,
        endpoints.len() == homes.len(),
        forall|f: int|
            0 <= f < homes.len() ==> (#[trigger] endpoints[f]) == (EndpointState {
                completed: endpoints[f].completed,
                ..homes[f]
            }),
    ensures
        forall|f: int| 0 <= f < endpoints.len() ==> (#[trigger] endpoints[f]).wf(senders, f),
{
    assert forall|f: int| 0 <= f < endpoints.len() implies (#[trigger] endpoints[f]).wf(
        senders,
        f,
    ) by {
        assert(homes[f].wf(prior, f));
        crate::spammer::ring::lemma_submitting_update(prior, i, senders[i], f);
        crate::spammer::ring::lemma_senders_of_same(prior, senders, f, prior.len() as int);
        crate::spammer::ring::lemma_belongs_same(prior, senders);
    }
}

/// The entries of `retries` up to `n` for senders of endpoint `e`, as they wait.
pub open spec fn waiting_for(
    retries: Seq<(usize, u64)>,
    senders: Seq<SenderState>,
    e: int,
    n: int,
) -> Multiset<(u64, usize)>
    decreases n,
{
    if n <= 0 {
        Multiset::empty()
    } else {
        let earlier = waiting_for(retries, senders, e, n - 1);
        let (i, ready_at) = retries[n - 1];
        if senders[i as int].account.endpoint_index == e {
            earlier.insert((ready_at, i))
        } else {
            earlier
        }
    }
}

/// Whether sender `i` is noted among the first `n` retries.
pub open spec fn is_noted(retries: Seq<(usize, u64)>, i: int, n: int) -> bool {
    exists|k: int| 0 <= k < n && (#[trigger] retries[k]).0 == i
}

/// Whether something that is set for `at` is due at `now`.
pub open spec fn is_due(at: u64, now: u64) -> bool {
    now >= at
}

/// When statuses are asked for next, after a poll that ended at `now`.
pub open spec fn next_poll(now: u64) -> u64 {
    later(now, STATUS_POLL_INTERVAL_MILLIS)
}

/// A sender after a poll that noted it to be submitted again, or did not.
pub open spec fn requeued(sender: SenderState, noted: bool) -> SenderState {
    if noted {
        SenderState { status: SenderStatus::Ready, ..sender }
    } else {
        sender
    }
}

/// How a round stands.
#[derive(Clone, Copy, Debug, PartialEq, Eq, Structural)]
pub enum RoundEnd {
    /// The round goes on.
    Running,
    /// This many rounds are complete, and another has started.
    Next(u64),
    /// This many rounds are complete, and the run stops.
    Stopped(u64),
}

impl Spammer {
    /// Whether statuses are asked for at `now`.
    pub fn poll_is_due(&self, now: u64) -> (due: bool)
        ensures
            due == is_due(self.next_status_poll, now),
    {
        now >= self.next_status_poll
    }

    /// Takes a poll of endpoint `e` that failed with `err`: one that may pass is
    /// left for the next poll, any other ends the run.
    pub fn status_poll_failed(&self, e: usize, err: &str) -> (result: Result<(), String>)
        requires
            e < self.endpoints.len(),
        ensures
            result is Ok <==> error_kind(err@) != SubmissionErrorKind::Fatal,
            result matches Err(message) ==> message@ == self.endpoints@[e as int].endpoint@
                + " status poll failed: "@ + err@,
    {
        match classify_submission_error(err) {
            SubmissionErrorKind::Fatal => Err(
                join3(self.endpoints[e].endpoint.as_str(), " status poll failed: ", err),
            ),
            _ => Ok(()),
        }
    }

    /// Ends a poll at `now`: every sender that was noted waits to be submitted
    /// again, and the next poll is an interval away.
    pub fn finish_poll(&mut self, retries: &Vec<(usize, u64)>, now: u64)
        requires
            old(self).wf(),
            forall|k: int|
                0 <= k < retries@.len() ==> (#[trigger] retries@[k]).0 < old(self).senders@.len()
                    && old(self).senders@[retries@[k].0 as int].phase() != SenderPhase::Submitting,
        ensures
            final(self).wf(),
            old(self).steps_to(final(self), RingEvent::Quiet),
            same_senders(final(self).senders@, old(self).senders@),
            final(self).same_endpoints(old(self)),
            forall|i: int|
                0 <= i < old(self).senders@.len() ==> (#[trigger] final(self).senders@[i])
                    == requeued(
                    old(self).senders@[i],
                    is_noted(retries@, i, retries@.len() as int),
                ),
            forall|e: int|
                0 <= e < final(self).endpoints@.len() ==> {
                    let was = old(self).endpoints@[e];
                    &&& (#[trigger] final(self).endpoints@[e]).delayed@.to_multiset()
                        =~= was.delayed@.to_multiset().add(
                        waiting_for(retries@, old(self).senders@, e, retries@.len() as int),
                    )
                    &&& final(self).endpoints@[e].ready == was.ready
                    &&& final(self).endpoints@[e].submission_tasks == was.submission_tasks
                },
            final(self).base_nonce == old(self).base_nonce,
            final(self).completed_rounds == old(self).completed_rounds,
            final(self).next_status_poll == next_poll(now),
    {
        broadcast use vstd::seq_lib::group_to_multiset_ensures;

        let ghost first = self.senders@;
        let ghost homes = self.endpoints@;
        let mut n: usize = 0;
        while n < retries.len()
            invariant
                n <= retries.len(),
                self.wf(),
                first == old(self).senders@,
                homes == old(self).endpoints@,
                same_senders(self.senders@, first),
                self.same_endpoints(old(self)),
                forall|k: int|
                    0 <= k < retries@.len() ==> (#[trigger] retries@[k]).0 < self.senders@.len()
                        && self.senders@[retries@[k].0 as int].phase() != SenderPhase::Submitting,
                forall|i: int|
                    0 <= i < first.len() ==> (#[trigger] self.senders@[i]) == (if is_noted(
                        retries@,
                        i,
                        n as int,
                    ) {
                        SenderState { status: SenderStatus::Ready, ..first[i] }
                    } else {
                        first[i]
                    }),
                forall|e: int|
                    0 <= e < homes.len() ==> {
                        &&& (#[trigger] self.endpoints@[e]).delayed@.to_multiset()
                            =~= homes[e].delayed@.to_multiset().add(
                            waiting_for(retries@, first, e, n as int),
                        )
                        &&& self.endpoints@[e].ready == homes[e].ready
                        &&& self.endpoints@[e].submission_tasks == homes[e].submission_tasks
                    },
                self.base_nonce == old(self).base_nonce,
                self.completed_rounds == old(self).completed_rounds,
                self.next_status_poll == old(self).next_status_poll,
            decreases retries.len() - n,
        {
            let (index, ready_at) = retries[n];
            let ghost prior = self.senders@;
            let ghost before = self.endpoints@;
            assert(retries@[n as int].0 == index);
            self.schedule_sender_retry(index, ready_at);
            proof {
                let home = prior[index as int].account.endpoint_index as int;
                assert(prior[index as int].account == first[index as int].account);
                assert forall|i: int| 0 <= i < first.len() implies (#[trigger] self.senders@[i])
                    == (if is_noted(retries@, i, n + 1) {
                    SenderState { status: SenderStatus::Ready, ..first[i] }
                } else {
                    first[i]
                }) by {
                    assert(is_noted(retries@, i, n + 1) == (is_noted(retries@, i, n as int) || i
                        == index)) by {
                        if is_noted(retries@, i, n as int) {
                            let k = choose|k: int|
                                0 <= k < n && (#[trigger] retries@[k]).0 == i;
                            assert(retries@[k].0 == i);
                        }
                        if i == index {
                            assert(retries@[n as int].0 == i);
                        }
                    }
                    assert(prior[i] == (if is_noted(retries@, i, n as int) {
                        SenderState { status: SenderStatus::Ready, ..first[i] }
                    } else {
                        first[i]
                    }));
                }
                assert forall|e: int| 0 <= e < homes.len() implies {
                    &&& (#[trigger] self.endpoints@[e]).delayed@.to_multiset()
                        =~= homes[e].delayed@.to_multiset().add(
                        waiting_for(retries@, first, e, n + 1),
                    )
                    &&& self.endpoints@[e].ready == homes[e].ready
                    &&& self.endpoints@[e].submission_tasks == homes[e].submission_tasks
                } by {
                    if e == home {
                        let was = before[e].delayed@;
                        let is = self.endpoints@[e].delayed@;
                        let at = choose|at: int|
                            0 <= at <= was.len() && is == was.insert(at, (ready_at, index));
                        vstd::seq_lib::to_multiset_insert(was, at, (ready_at, index));
                    } else {
                        assert(self.endpoints@[e] == before[e]);
                    }
                }
            }
            n = n + 1;
        }
        self.next_status_poll = now.saturating_add(STATUS_POLL_INTERVAL_MILLIS);
    }

    /// Ends the round at `now` if it is complete. The next one starts with the
    /// next nonce, unless the run is asked to stop.
    pub fn finish_round(&mut self, now: u64, stop: bool) -> (end: RoundEnd)
        requires
            old(self).wf(),
            old(self).completed_rounds < u64::MAX,
        ensures
            final(self).wf(),
            same_senders(final(self).senders@, old(self).senders@),
            final(self).same_endpoints(old(self)),
            final(self).base_nonce == old(self).base_nonce,
            old(self).steps_to(
                final(self),
                match end {
                    RoundEnd::Running => RingEvent::Quiet,
                    RoundEnd::Next(_) => RingEvent::RoundEnded,
                    RoundEnd::Stopped(_) => RingEvent::Stopped,
                },
            ),
            ({
                let rounds = (old(self).completed_rounds + 1) as u64;
                if !old(self).all_included() {
                    end == RoundEnd::Running && *final(self) == *old(self)
                } else if stop {
                    &&& end == RoundEnd::Stopped(rounds)
                    &&& final(self).completed_rounds == rounds
                    &&& final(self).senders@ == old(self).senders@
                } else {
                    &&& end == RoundEnd::Next(rounds)
                    &&& final(self).completed_rounds == rounds
                    &&& final(self).round_started()
                    &&& final(self).next_status_poll == now
                }
            }),
    {
        if !self.round_is_complete() {
            return RoundEnd::Running;
        }
        self.completed_rounds = self.completed_rounds + 1;
        if stop {
            return RoundEnd::Stopped(self.completed_rounds);
        }
        self.start_round();
        self.next_status_poll = now;
        RoundEnd::Next(self.completed_rounds)
    }

    /// Transfers that were completed and that failed, over all endpoints.
    pub fn totals(&self) -> (totals: (u64, u64))
        ensures
            totals.0 == capped_total(self.endpoints@.map_values(|e: EndpointState| e.completed)),
            totals.1 == capped_total(self.endpoints@.map_values(|e: EndpointState| e.failed)),
            totals == totals_of(self.endpoints@),
    {
        let ghost completions = self.endpoints@.map_values(|e: EndpointState| e.completed);
        let ghost failures = self.endpoints@.map_values(|e: EndpointState| e.failed);
        let mut completed: u64 = 0;
        let mut failed: u64 = 0;
        let mut e: usize = 0;
        while e < self.endpoints.len()
            invariant
                e <= self.endpoints.len(),
                completions == self.endpoints@.map_values(|e: EndpointState| e.completed),
                failures == self.endpoints@.map_values(|e: EndpointState| e.failed),
                completed == capped_total(completions.take(e as int)),
                failed == capped_total(failures.take(e as int)),
            decreases self.endpoints.len() - e,
        {
            completed = completed.saturating_add(self.endpoints[e].completed as u64);
            failed = failed.saturating_add(self.endpoints[e].failed as u64);
            proof {
                assert(completions.take(e + 1).drop_last() =~= completions.take(e as int));
                assert(failures.take(e + 1).drop_last() =~= failures.take(e as int));
            }
            e = e + 1;
        }
        proof {
            assert(completions.take(completions.len() as int) =~= completions);
            assert(failures.take(failures.len() as int) =~= failures);
        }
        (completed, failed)
    }

    /// Whether the run went without a failed transfer.
    pub fn outcome(&self) -> (result: Result<(), String>)
        ensures
            ({
                let failed = capped_total(
                    self.endpoints@.map_values(|e: EndpointState| e.failed),
                );
                &&& result is Ok <==> failed == 0
                &&& result matches Err(message) ==> message@ == "failed: "@ + decimal(
                    failed as nat,
                )
            }),
    {
        let (_, failed) = self.totals();
        if failed == 0 {
            return Ok(());
        }
        Err(join2("failed: ", decimal_u64(failed).as_str()))
    }
}

/// Transfers that were completed and that failed over `endpoints`.
pub open spec fn totals_of(endpoints: Seq<EndpointState>) -> (u64, u64) {
    (
        capped_total(endpoints.map_values(|e: EndpointState| e.completed)),
        capped_total(endpoints.map_values(|e: EndpointState| e.failed)),
    )
}

/// The sum of counts, capped at the largest.
pub open spec fn capped_total(counts: Seq<usize>) -> u64
    decreases counts.len(),
{
    if counts.len() == 0 {
        0
    } else {
        later(capped_total(counts.drop_last()), counts.last() as u64)
    }
}

/// Whether `run` is a run of a spammer from the start of a round: each state
/// follows from the one before it by an event, and nothing follows a stop.
pub open spec fn is_run(run: Seq<Spammer>, events: Seq<RingEvent>) -> bool {
    &&& run.len() == events.len() + 1
    &&& run[0].round_started()
    &&& forall|k: int|
        0 <= k < events.len() ==> (#[trigger] run[k]).steps_to(&run[k + 1], events[k])
    &&& forall|k: int| 0 <= k < events.len() - 1 ==> !((#[trigger] events[k]) is Stopped)
}

/// Whether, before state `k` and in the round after `rounds` complete ones, the
/// transfer of sender `i` arrived under `hash`.
pub open spec fn has_arrived(
    run: Seq<Spammer>,
    events: Seq<RingEvent>,
    i: int,
    hash: Seq<char>,
    rounds: int,
    k: int,
) -> bool {
    exists|a: int|
        0 <= a < k && run[a].completed_rounds == rounds && arrives(#[trigger] events[a], i, hash)
}

/// Whether, before state `k` and in the round after `rounds` complete ones, a
/// transfer of sender `i` arrived and was then reported to be in a block.
pub open spec fn has_been_included(
    run: Seq<Spammer>,
    events: Seq<RingEvent>,
    i: int,
    rounds: int,
    k: int,
) -> bool {
    exists|b: int, hash: Seq<char>|
        0 <= b < k && run[b].completed_rounds == rounds && #[trigger] reports_included(
            events[b],
            i,
            hash,
        ) && has_arrived(run, events, i, hash, rounds, b)
}

proof fn lemma_run(run: Seq<Spammer>, events: Seq<RingEvent>, i: int, k: int)
    requires
        is_run(run, events),
        0 <= k < run.len(),
        0 <= i < run[0].senders@.len(),
    ensures
        run[k].base_nonce == run[0].base_nonce,
        run[k].senders@.len() == run[0].senders@.len(),
        run[0].completed_rounds <= run[k].completed_rounds,
        k > 0 && events[k - 1] is Stopped || {
            &&& forall|hash: Seq<char>| #[trigger]
                pending_as(run[k].senders@[i], hash) ==> has_arrived(
                    run,
                    events,
                    i,
                    hash,
                    run[k].completed_rounds as int,
                    k,
                )
            &&& run[k].senders@[i].phase() == SenderPhase::Included ==> has_been_included(
                run,
                events,
                i,
                run[k].completed_rounds as int,
                k,
            )
        },
        forall|rounds: int|
            run[0].completed_rounds <= rounds < run[k].completed_rounds
                ==> #[trigger] has_been_included(run, events, i, rounds, k),
    decreases k,
{
    if k == 0 {
        assert(run[0].senders@[i].phase() == SenderPhase::Ready);
    } else {
        let p = k - 1;
        lemma_run(run, events, i, p);
        let was = run[p];
        let is = run[k];
        let event = events[p];
        assert(run[p].steps_to(&run[p + 1], events[p]));
        if p > 0 {
            assert(!(events[p - 1] is Stopped));
        }
        let rounds = was.completed_rounds as int;
        assert forall|r: int| has_been_included(run, events, i, r, p) implies
            #[trigger] has_been_included(run, events, i, r, k) by {
            let (b, hash) = choose|b: int, hash: Seq<char>|
                0 <= b < p && run[b].completed_rounds == r && #[trigger] reports_included(
                    events[b],
                    i,
                    hash,
                ) && has_arrived(run, events, i, hash, r, b);
            assert(reports_included(events[b], i, hash));
        }
        if event is RoundEnded || event is Stopped {
            assert(was.senders@[i].phase() == SenderPhase::Included);
            assert(has_been_included(run, events, i, rounds, p));
            if event is RoundEnded {
                assert(is.senders@[i].phase() == SenderPhase::Ready);
            }
        } else {
            assert(sender_step(was.senders@[i], is.senders@[i], i, event));
            assert forall|hash: Seq<char>| #[trigger]
                pending_as(is.senders@[i], hash) implies has_arrived(
                run,
                events,
                i,
                hash,
                rounds,
                k,
            ) by {
                if arrives(event, i, hash) {
                    assert(arrives(events[p], i, hash));
                } else {
                    assert(has_arrived(run, events, i, hash, rounds, p));
                }
            }
            if is.senders@[i].phase() == SenderPhase::Included {
                if was.senders@[i].phase() != SenderPhase::Included {
                    let hash = choose|hash: Seq<char>| #[trigger]
                        pending_as(was.senders@[i], hash) && reports_included(event, i, hash);
                    assert(has_arrived(run, events, i, hash, rounds, p));
                    assert(reports_included(events[p], i, hash));
                }
                assert(has_been_included(run, events, i, rounds, k));
            }
        }
    }
}

/// The nonce moves past a round only after every sender's transfer of that
/// round is in a block: for each sender there is a transfer that arrived in that
/// round and was then, in the same round, reported to be included.
pub proof fn rounds_end_after_inclusion(
    run: Seq<Spammer>,
    events: Seq<RingEvent>,
    k: int,
    rounds: int,
    i: int,
)
    requires
        is_run(run, events),
        0 <= k < run.len(),
        run[0].completed_rounds <= rounds < run[k].completed_rounds,
        0 <= i < run[0].senders@.len(),
    ensures
        has_been_included(run, events, i, rounds, k),
{
    lemma_run(run, events, i, k);
}

/// Nonces start at the base nonce plus the rounds that are complete at the
/// start, and never decrease.
pub proof fn nonces_never_decrease(run: Seq<Spammer>, events: Seq<RingEvent>, j: int, k: int)
    requires
        is_run(run, events),
        0 <= j <= k < run.len(),
    ensures
        run[k].base_nonce == run[0].base_nonce,
        run[j].base_nonce + run[j].completed_rounds <= run[k].base_nonce + run[k].completed_rounds,
    decreases k,
{
    if k > 0 {
        let p = k - 1;
        assert(run[p].steps_to(&run[p + 1], events[p]));
        if j <= p {
            nonces_never_decrease(run, events, j, p);
        } else {
            nonces_never_decrease(run, events, p, p);
        }
    }
}

/// At any time no endpoint has more submissions in flight than the limit, and
/// it has exactly as many as it has senders being submitted.
pub proof fn submissions_are_bounded(spammer: &Spammer, e: int)
    requires
        spammer.wf(),
        0 <= e < spammer.endpoints@.len(),
    ensures
        crate::spammer::ring::submitting(spammer.senders@, e)
            <= crate::spammer::spam::MAX_SUBMISSION_TASKS_PER_ENDPOINT,
{
    assert(spammer.endpoints@[e].wf(spammer.senders@, e));
}

/// At the start of a round every sender of an endpoint is queued exactly once,
/// in order.
pub proof fn rounds_start_with_every_sender(spammer: &Spammer, e: int)
    requires
        spammer.wf(),
        spammer.round_started(),
        0 <= e < spammer.endpoints@.len(),
    ensures
        spammer.endpoints@[e].ready@ == crate::spammer::ring::senders_of(
            spammer.senders@,
            e,
            spammer.senders@.len() as int,
        ),
{
    assert(spammer.endpoints@[e].wf(spammer.senders@, e));
}

/// A poll takes each status at its word: a transfer in a block is counted once
/// and never submitted again; a rejected one is submitted again after twice the
/// backoff and an unknown one after the same backoff, neither before; one that
/// is pending changes nothing. A sender that is not pending is left alone, and
/// so is every other sender.
pub proof fn polls_follow_the_status(view: PollView, i: usize, now: u64, other: int)
    requires
        i < view.senders.len(),
        view.senders[i as int].status is Pending,
        view.completed < usize::MAX,
        view.senders[i as int].retry_backoff <= 2_500,
        now + 5_000 <= u64::MAX,
    ensures
        poll_step(view, i, TransactionState::Pending, now) == view,
        ({
            let backoff = view.senders[i as int].retry_backoff;
            let after = poll_step(view, i, TransactionState::Included, now);
            &&& after.senders[i as int].status is Included
            &&& after.senders[i as int].account == view.senders[i as int].account
            &&& after.senders[i as int].retry_backoff == 100
            &&& after.completed == view.completed + 1
            &&& after.retries == view.retries
            &&& poll_step(after, i, TransactionState::Included, now) == after
            &&& poll_step(after, i, TransactionState::Rejected, now) == after
        }),
        ({
            let backoff = view.senders[i as int].retry_backoff;
            let after = poll_step(view, i, TransactionState::Rejected, now);
            &&& after.senders[i as int].status == view.senders[i as int].status
            &&& after.senders[i as int].account == view.senders[i as int].account
            &&& after.senders[i as int].retry_backoff == 2 * backoff
            &&& after.completed == view.completed
            &&& after.retries.len() == view.retries.len() + 1
            &&& after.retries.last().0 == i
            &&& after.retries.last().1 == now + 2 * backoff
        }),
        ({
            let backoff = view.senders[i as int].retry_backoff;
            let after = poll_step(view, i, TransactionState::Unknown, now);
            &&& after.senders == view.senders
            &&& after.completed == view.completed
            &&& after.retries.len() == view.retries.len() + 1
            &&& after.retries.last().0 == i
            &&& after.retries.last().1 == now + backoff
        }),
        forall|state: TransactionState|
            0 <= other < view.senders.len() && other != i ==> (#[trigger] poll_step(
                view,
                i,
                state,
                now,
            )).senders[other] == view.senders[other],
{
}

/// The statuses that are asked for are those of exactly the pending senders, in
/// order.
pub proof fn pending_senders_are_polled(
    indices: Seq<usize>,
    stands: Seq<SenderPhase>,
    n: int,
    i: usize,
)
    requires
        0 <= n <= indices.len(),
    ensures
        pending_among(indices, stands, n).contains(i) <==> (stands[i as int]
            == SenderPhase::Pending && exists|k: int| 0 <= k < n && #[trigger] indices[k] == i),
    decreases n,
{
    if n > 0 {
        pending_senders_are_polled(indices, stands, n - 1, i);
        let earlier = pending_among(indices, stands, n - 1);
        let all = pending_among(indices, stands, n);
        if earlier.contains(i) {
            let k = choose|k: int| 0 <= k < earlier.len() && earlier[k] == i;
            assert(all[k] == i);
        }
        if all.contains(i) {
            let k = choose|k: int| 0 <= k < all.len() && all[k] == i;
            if k < earlier.len() {
                assert(earlier[k] == i);
            } else {
                assert(indices[n - 1] == i);
            }
        }
        if indices[n - 1] == i && stands[i as int] == SenderPhase::Pending {
            assert(all[all.len() - 1] == i);
        }
    }
}

/// Every sender that is asked for is in one piece, at its place, and no piece
/// asks for more than 32768.
pub proof fn pieces_cover_all_that_is_asked_for(
    chunks: Seq<Vec<usize>>,
    all: Seq<usize>,
    k: int,
)
    requires
        are_chunks(chunks, all),
        0 <= k < all.len(),
    ensures
        ({
            let c = k / 32_768;
            &&& 0 <= c < chunks.len()
            &&& chunks[c]@.len() <= 32_768
            &&& k % 32_768 < chunks[c]@.len()
            &&& chunks[c]@[k % 32_768] == all[k]
        }),
{
    let c = k / 32_768;
    assert(c < chunks.len());
    assert(chunks[c]@ == all.subrange(
        c * STATUS_POLL_BATCH_SIZE,
        if (c + 1) * STATUS_POLL_BATCH_SIZE < all.len() {
            (c + 1) * STATUS_POLL_BATCH_SIZE
        } else {
            all.len() as int
        },
    ));
}

/// Counts add up, as far as counts go.
pub proof fn totals_add_up(counts: Seq<usize>, count: usize)
    requires
        capped_total(counts) + count <= u64::MAX,
        count <= u64::MAX,
    ensures
        capped_total(counts.push(count)) == capped_total(counts) + count,
        capped_total(Seq::empty()) == 0,
{
    assert(counts.push(count).drop_last() =~= counts);
}

/// Whatever its backoff, a rejected sender waits for the next longer one and an
/// unknown one for its own.
pub proof fn rejected_senders_wait_longer(view: PollView, i: usize, now: u64)
    requires
        i < view.senders.len(),
        view.senders[i as int].status is Pending,
    ensures
        ({
            let backoff = view.senders[i as int].retry_backoff;
            let after = poll_step(view, i, TransactionState::Rejected, now);
            &&& after.retries == view.retries.push(
                (i, later(now, after.senders[i as int].retry_backoff)),
            )
            &&& 0 < backoff < 5_000 ==> after.senders[i as int].retry_backoff > backoff
            &&& after.senders[i as int].retry_backoff <= 5_000
        }),
        poll_step(view, i, TransactionState::Unknown, now).retries == view.retries.push(
            (i, later(now, view.senders[i as int].retry_backoff)),
        ),
{
    crate::spammer::spam::retry_backoff_is_bounded(view.senders[i as int].retry_backoff, false);
}

/// What an endpoint is told off for names the counts in the order got, asked for;
/// and a hash that does not belong with the sender that it was reported for.
pub proof fn mismatches_are_told(endpoint: Seq<char>, got: nat, asked: nat, hash: Seq<char>, sender: nat)
    ensures
        starts_with_seq(count_mismatch(endpoint, got, asked), endpoint + " returned "@ + decimal(got)),
        ends_with_seq(
            count_mismatch(endpoint, got, asked),
            decimal(asked) + " requested hashes"@,
        ),
        starts_with_seq(hash_mismatch(endpoint, hash, sender), endpoint),
        ends_with_seq(hash_mismatch(endpoint, hash, sender), " for sender "@ + decimal(sender)),
        contains_text(hash_mismatch(endpoint, hash, sender), hash),
{
    let start = endpoint + " returned "@ + decimal(got);
    let middle = " statuses for "@;
    let end = decimal(asked) + " requested hashes"@;
    let text = count_mismatch(endpoint, got, asked);
    assert(text =~= start + (middle + end));
    texts_contain_their_parts(start, middle + end, Seq::empty());
    assert(text =~= (start + middle) + end);
    texts_contain_their_parts(start + middle, end, Seq::empty());
    let first = endpoint + " returned mismatched tx hash "@;
    let last = " for sender "@ + decimal(sender);
    let other = hash_mismatch(endpoint, hash, sender);
    assert(other =~= first + hash + last);
    texts_contain_their_parts(first, hash, last);
    assert(other =~= endpoint + (" returned mismatched tx hash "@ + hash + last));
    texts_contain_their_parts(endpoint, " returned mismatched tx hash "@ + hash + last, Seq::empty());
    texts_contain_their_parts(first + hash, last, Seq::empty());
}

/// Times are added exactly, as far as times go.
pub proof fn later_times_add_up(a: u64, b: u64)
    ensures
        a + b <= u64::MAX ==> later(a, b) == a + b,
        a + b > u64::MAX ==> later(a, b) == u64::MAX,
{
}

/// Statuses are asked for again once a second has passed since the last poll, and
/// not before.
pub proof fn polls_are_a_second_apart(ended: u64, now: u64)
    requires
        ended + 1_000 <= u64::MAX,
    ensures
        is_due(next_poll(ended), now) <==> now >= ended + 1_000,
{
}

/// Every endpoint adds what it completed to the first total and what failed to
/// the second.
pub proof fn totals_cover_every_endpoint(endpoints: Seq<EndpointState>, endpoint: EndpointState)
    requires
        totals_of(endpoints).0 + endpoint.completed <= u64::MAX,
        totals_of(endpoints).1 + endpoint.failed <= u64::MAX,
        endpoint.completed <= u64::MAX,
        endpoint.failed <= u64::MAX,
    ensures
        totals_of(endpoints.push(endpoint)).0 == totals_of(endpoints).0 + endpoint.completed,
        totals_of(endpoints.push(endpoint)).1 == totals_of(endpoints).1 + endpoint.failed,
{
    let all = endpoints.push(endpoint);
    let completed = endpoints.map_values(|e: EndpointState| e.completed);
    let failed = endpoints.map_values(|e: EndpointState| e.failed);
    assert(all.map_values(|e: EndpointState| e.completed) =~= completed.push(endpoint.completed));
    assert(all.map_values(|e: EndpointState| e.failed) =~= failed.push(endpoint.failed));
    totals_add_up(completed, endpoint.completed);
    totals_add_up(failed, endpoint.failed);
}

/// A sender that a poll noted stands ready again with the backoff that it has,
/// and any other sender stays where it is. What was noted waits at its own
/// endpoint until its time, and nothing else is added there.
pub proof fn noted_senders_wait_at_their_endpoint(
    sender: SenderState,
    retries: Seq<(usize, u64)>,
    senders: Seq<SenderState>,
    e: int,
    n: int,
    k: int,
    waiting: (u64, usize),
)
    requires
        0 <= n <= retries.len(),
        0 <= k < n,
    ensures
        requeued(sender, true).status is Ready,
        requeued(sender, true).account == sender.account,
        requeued(sender, true).retry_backoff == sender.retry_backoff,
        requeued(sender, false) == sender,
        is_noted(retries, retries[k].0 as int, n),
        senders[retries[k].0 as int].account.endpoint_index == e ==> waiting_for(
            retries,
            senders,
            e,
            n,
        ).count((retries[k].1, retries[k].0)) > 0,
        waiting_for(retries, senders, e, n).count(waiting) > 0 ==> senders[waiting.1 as int].account.endpoint_index
            == e && is_noted(retries, waiting.1 as int, n),
{
    if senders[retries[k].0 as int].account.endpoint_index == e {
        lemma_waiting_has(retries, senders, e, n, k);
    }
    lemma_waiting_from(retries, senders, e, n, waiting);
    assert(retries[k].0 == retries[k].0 as int);
}

proof fn lemma_waiting_has(
    retries: Seq<(usize, u64)>,
    senders: Seq<SenderState>,
    e: int,
    n: int,
    k: int,
)
    requires
        0 <= k < n <= retries.len(),
        senders[retries[k].0 as int].account.endpoint_index == e,
    ensures
        waiting_for(retries, senders, e, n).count((retries[k].1, retries[k].0)) > 0,
    decreases n,
{
    if k < n - 1 {
        lemma_waiting_has(retries, senders, e, n - 1, k);
    }
}

proof fn lemma_waiting_from(
    retries: Seq<(usize, u64)>,
    senders: Seq<SenderState>,
    e: int,
    n: int,
    waiting: (u64, usize),
)
    requires
        0 <= n <= retries.len(),
    ensures
        waiting_for(retries, senders, e, n).count(waiting) > 0 ==> senders[waiting.1 as int].account.endpoint_index
            == e && is_noted(retries, waiting.1 as int, n),
    decreases n,
{
    if n > 0 {
        lemma_waiting_from(retries, senders, e, n - 1, waiting);
        if waiting_for(retries, senders, e, n).count(waiting) > 0 {
            let (i, ready_at) = retries[n - 1];
            if waiting_for(retries, senders, e, n - 1).count(waiting) > 0 {
                let k = choose|k: int|
                    0 <= k < n - 1 && (#[trigger] retries[k]).0 == waiting.1 as int;
                assert(retries[k].0 == waiting.1 as int);
            } else {
                assert(waiting == (ready_at, i));
                assert(retries[n - 1].0 == waiting.1 as int);
            }
        }
    }
}

/// A poll of different pending senders moves each by its own status: a sender is
/// in a block exactly if its status says so, any other is still pending under
/// its hash, senders that were not asked about stay as they were, and a status
/// belongs exactly if it is of the transaction that its sender is pending under.
pub proof fn polls_move_each_sender_by_its_status(
    start: PollView,
    chunk: Seq<usize>,
    statuses: Seq<TransactionStatus>,
    now: u64,
    n: int,
    k: int,
    other: int,
)
    requires
        0 <= n <= chunk.len(),
        statuses.len() == chunk.len(),
        forall|j: int| 0 <= j < chunk.len() ==> (#[trigger] chunk[j]) < start.senders.len(),
        forall|j: int|
            0 <= j < chunk.len() ==> start.senders[(#[trigger] chunk[j]) as int].status is Pending,
        forall|a: int, b: int|
            0 <= a < b < chunk.len() ==> (#[trigger] chunk[a]) != (#[trigger] chunk[b]),
        0 <= k < chunk.len(),
    ensures
        ({
            let after = poll_after(start, chunk, statuses, now, n).senders;
            let was = start.senders[chunk[k] as int];
            let is = after[chunk[k] as int];
            &&& after.len() == start.senders.len()
            &&& k < n && statuses[k].state == TransactionState::Included ==> is.status is Included
            &&& k < n && statuses[k].state != TransactionState::Included ==> is.status
                == was.status
            &&& k >= n ==> is == was
            &&& is.account == was.account
            &&& 0 <= other < start.senders.len() && (forall|j: int|
                0 <= j < chunk.len() ==> (#[trigger] chunk[j]) != other) ==> after[other]
                == start.senders[other]
        }),
        mismatches(start, chunk, statuses, now, k) <==> !pending_as(
            start.senders[chunk[k] as int],
            statuses[k].tx_hash@,
        ),
    decreases n,
{
    lemma_poll_moves(start, chunk, statuses, now, n, k, other);
    lemma_poll_moves(start, chunk, statuses, now, k, k, other);
}

proof fn lemma_poll_moves(
    start: PollView,
    chunk: Seq<usize>,
    statuses: Seq<TransactionStatus>,
    now: u64,
    n: int,
    k: int,
    other: int,
)
    requires
        0 <= n <= chunk.len(),
        statuses.len() == chunk.len(),
        forall|j: int| 0 <= j < chunk.len() ==> (#[trigger] chunk[j]) < start.senders.len(),
        forall|j: int|
            0 <= j < chunk.len() ==> start.senders[(#[trigger] chunk[j]) as int].status is Pending,
        forall|a: int, b: int|
            0 <= a < b < chunk.len() ==> (#[trigger] chunk[a]) != (#[trigger] chunk[b]),
        0 <= k < chunk.len(),
    ensures
        ({
            let after = poll_after(start, chunk, statuses, now, n).senders;
            let was = start.senders[chunk[k] as int];
            let is = after[chunk[k] as int];
            &&& after.len() == start.senders.len()
            &&& k < n && statuses[k].state == TransactionState::Included ==> is.status is Included
            &&& k < n && statuses[k].state != TransactionState::Included ==> is.status
                == was.status
            &&& k >= n ==> is == was
            &&& is.account == was.account
            &&& 0 <= other < start.senders.len() && (forall|j: int|
                0 <= j < chunk.len() ==> (#[trigger] chunk[j]) != other) ==> after[other]
                == start.senders[other]
        }),
    decreases n,
{
    if n > 0 {
        lemma_poll_moves(start, chunk, statuses, now, n - 1, k, other);
        lemma_poll_moves(start, chunk, statuses, now, n - 1, n - 1, other);
        if k != n - 1 {
            assert(chunk[k] != chunk[n - 1]);
        }
    }
}

} // verus!
