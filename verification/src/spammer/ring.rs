//! The rounds of a ring spammer.

use crate::keys::copy_bytes;
use crate::spammer::spam::{
    accounts_form_a_ring, backoff_after, classify_submission_error, error_kind,
    format_sender_failure, is_ring, mempool_full, next_retry_backoff, sender_failure, RingAccount,
    SubmissionErrorKind, INITIAL_RETRY_BACKOFF_MILLIS, MAX_SUBMISSION_TASKS_PER_ENDPOINT,
};
use std::collections::VecDeque;
use vstd::prelude::*;

verus! {

/// Where a sender stands in the round.
#[derive(Debug)]
pub enum SenderStatus {
    Ready,
    Submitting,
    /// Submitted under this transaction hash.
    Pending(String),
    Included,
}

/// What a transfer of the ring pays.
pub const ROUND_TRANSFER_VALUE: u64 = 1;

/// A sender's transfer of a round, as it is signed: the key of `seed` pays
/// `value` to the address `to`.
#[derive(Debug)]
pub struct RoundTransfer {
    pub seed: u64,
    pub to: Vec<u8>,
    pub value: u64,
    pub nonce: u64,
}

/// Whether `transfer` is what `sender` pays in the round with `nonce`.
pub open spec fn is_round_transfer(
    transfer: RoundTransfer,
    sender: SenderState,
    nonce: u64,
) -> bool {
    &&& transfer.seed == sender.account.seed
    &&& transfer.to@ == sender.account.to@
    &&& transfer.value == ROUND_TRANSFER_VALUE
    &&& transfer.nonce == nonce
}

/// Where a sender stands in the round, without its transaction hash.
#[derive(Clone, Copy, Debug, PartialEq, Eq, Structural)]
pub enum SenderPhase {
    Ready,
    Submitting,
    Pending,
    Included,
}

/// A sender of the ring.
#[derive(Debug)]
pub struct SenderState {
    pub account: RingAccount,
    pub retry_backoff: u64,
    pub status: SenderStatus,
}

impl SenderState {
    /// Where this sender stands.
    pub open spec fn phase(&self) -> SenderPhase {
        match self.status {
            SenderStatus::Ready => SenderPhase::Ready,
            SenderStatus::Submitting => SenderPhase::Submitting,
            SenderStatus::Pending(_) => SenderPhase::Pending,
            SenderStatus::Included => SenderPhase::Included,
        }
    }

    /// The transfer of this sender at `nonce`.
    pub fn round_transfer(&self, nonce: u64) -> (transfer: RoundTransfer)
        ensures
            transfer.seed == self.account.seed,
            transfer.to@ == self.account.to@,
            transfer.value == ROUND_TRANSFER_VALUE,
            transfer.nonce == nonce,
            is_round_transfer(transfer, *self, nonce),
    {
        RoundTransfer {
            seed: self.account.seed,
            to: copy_bytes(&self.account.to),
            value: ROUND_TRANSFER_VALUE,
            nonce,
        }
    }

    fn is_ready(&self) -> (r: bool)
        ensures
            r == (self.phase() == SenderPhase::Ready),
    {
        match self.status {
            SenderStatus::Ready => true,
            _ => false,
        }
    }
}

/// Where each sender stands.
pub open spec fn phases(senders: Seq<SenderState>) -> Seq<SenderPhase> {
    senders.map_values(|s: SenderState| s.phase())
}

/// Whether two lists hold the same senders, wherever they stand.
pub open spec fn same_senders(a: Seq<SenderState>, b: Seq<SenderState>) -> bool {
    a.len() == b.len() && forall|i: int|
        0 <= i < a.len() ==> (#[trigger] a[i]).account == b[i].account
}

/// Whether a sender of endpoint `e` is being submitted.
pub open spec fn submits_to(sender: SenderState, e: int) -> bool {
    sender.account.endpoint_index == e && sender.phase() == SenderPhase::Submitting
}

/// Senders of endpoint `e` that are being submitted.
pub open spec fn submitting(senders: Seq<SenderState>, e: int) -> nat
    decreases senders.len(),
{
    if senders.len() == 0 {
        0
    } else {
        submitting(senders.drop_last(), e) + (if submits_to(senders.last(), e) {
            1nat
        } else {
            0nat
        })
    }
}

pub(crate) proof fn lemma_submitting_update(senders: Seq<SenderState>, i: int, s: SenderState, e: int)
    requires
        0 <= i < senders.len(),
    ensures
        submitting(senders.update(i, s), e) + (if submits_to(senders[i], e) {
            1nat
        } else {
            0nat
        }) == submitting(senders, e) + (if submits_to(s, e) {
            1nat
        } else {
            0nat
        }),
    decreases senders.len(),
{
    let updated = senders.update(i, s);
    if i == senders.len() - 1 {
        assert(updated.drop_last() =~= senders.drop_last());
    } else {
        lemma_submitting_update(senders.drop_last(), i, s, e);
        assert(updated.drop_last() =~= senders.drop_last().update(i, s));
        assert(updated.last() == senders.last());
    }
}

proof fn lemma_none_submitting(senders: Seq<SenderState>, e: int)
    requires
        forall|i: int|
            0 <= i < senders.len() ==> (#[trigger] senders[i]).phase() != SenderPhase::Submitting,
    ensures
        submitting(senders, e) == 0,
    decreases senders.len(),
{
    if senders.len() > 0 {
        assert(senders.last() == senders[senders.len() - 1]);
        lemma_none_submitting(senders.drop_last(), e);
    }
}

/// The senders of endpoint `e` among the first `n`, ascending.
pub open spec fn senders_of(senders: Seq<SenderState>, e: int, n: int) -> Seq<usize>
    decreases n,
{
    if n <= 0 {
        Seq::empty()
    } else if senders[n - 1].account.endpoint_index == e {
        senders_of(senders, e, n - 1).push((n - 1) as usize)
    } else {
        senders_of(senders, e, n - 1)
    }
}

pub(crate) proof fn lemma_senders_of(senders: Seq<SenderState>, e: int, n: int, k: int)
    requires
        0 <= n <= senders.len(),
        n <= usize::MAX,
        0 <= k < senders_of(senders, e, n).len(),
    ensures
        senders_of(senders, e, n)[k] < n,
        senders[senders_of(senders, e, n)[k] as int].account.endpoint_index == e,
    decreases n,
{
    if n > 0 {
        let shorter = senders_of(senders, e, n - 1);
        if k < shorter.len() {
            lemma_senders_of(senders, e, n - 1, k);
        }
    }
}

/// An endpoint and the senders that submit to it.
#[derive(Debug)]
pub struct EndpointState {
    pub endpoint: String,
    pub sender_indices: Vec<usize>,
    pub ready: VecDeque<usize>,
    /// Senders that wait, by the time they are ready at and their index,
    /// ascending.
    pub delayed: Vec<(u64, usize)>,
    pub submission_tasks: usize,
    pub completed: usize,
    pub failed: usize,
}

/// Whether a waiting sender comes before another.
pub open spec fn waits_before(a: (u64, usize), b: (u64, usize)) -> bool {
    a.0 < b.0 || (a.0 == b.0 && a.1 < b.1)
}

/// Whether `i` is a sender of endpoint `e`.
pub open spec fn belongs(senders: Seq<SenderState>, i: usize, e: int) -> bool {
    i < senders.len() && senders[i as int].account.endpoint_index == e
}

/// Waiting senders that are ready at `now`, at the front.
pub open spec fn due_count(delayed: Seq<(u64, usize)>, now: u64) -> nat
    decreases delayed.len(),
{
    if delayed.len() == 0 || delayed[0].0 > now {
        0
    } else {
        1 + due_count(delayed.skip(1), now)
    }
}

/// The senders among the first `n` waiting ones that still wait to be submitted.
pub open spec fn due_senders(
    delayed: Seq<(u64, usize)>,
    n: nat,
    stands: Seq<SenderPhase>,
) -> Seq<usize>
    decreases n,
{
    if n == 0 {
        Seq::empty()
    } else {
        let earlier = due_senders(delayed, (n - 1) as nat, stands);
        if stands[delayed[n - 1].1 as int] == SenderPhase::Ready {
            earlier.push(delayed[n - 1].1)
        } else {
            earlier
        }
    }
}

/// The senders that are submitted from a queue, in its order: those that stand
/// ready, each once, until the endpoint is at its limit.
pub open spec fn picked(ready: Seq<usize>, stands: Seq<SenderPhase>, tasks: nat) -> Seq<usize>
    decreases ready.len(),
{
    if tasks >= MAX_SUBMISSION_TASKS_PER_ENDPOINT || ready.len() == 0 {
        Seq::empty()
    } else if stands[ready[0] as int] != SenderPhase::Ready {
        picked(ready.skip(1), stands, tasks)
    } else {
        seq![ready[0]] + picked(
            ready.skip(1),
            stands.update(ready[0] as int, SenderPhase::Submitting),
            tasks + 1,
        )
    }
}

/// What is left of the queue then.
pub open spec fn left_ready(ready: Seq<usize>, stands: Seq<SenderPhase>, tasks: nat) -> Seq<usize>
    decreases ready.len(),
{
    if tasks >= MAX_SUBMISSION_TASKS_PER_ENDPOINT || ready.len() == 0 {
        ready
    } else if stands[ready[0] as int] != SenderPhase::Ready {
        left_ready(ready.skip(1), stands, tasks)
    } else {
        left_ready(
            ready.skip(1),
            stands.update(ready[0] as int, SenderPhase::Submitting),
            tasks + 1,
        )
    }
}

impl EndpointState {
    /// An endpoint without senders.
    pub fn new(endpoint: String) -> (state: Self)
        ensures
            state.endpoint == endpoint,
            state.sender_indices@.len() == 0,
            state.ready@.len() == 0,
            state.delayed@.len() == 0,
            state.submission_tasks == 0,
            state.completed == 0,
            state.failed == 0,
    {
        EndpointState {
            endpoint,
            sender_indices: Vec::new(),
            ready: VecDeque::new(),
            delayed: Vec::new(),
            submission_tasks: 0,
            completed: 0,
            failed: 0,
        }
    }

    /// All queued senders belong to endpoint `e`, waiting ones are in order, and
    /// as many submissions are in flight as senders are being submitted, no more
    /// than the limit.
    pub open spec fn wf(&self, senders: Seq<SenderState>, e: int) -> bool {
        &&& self.sender_indices@ == senders_of(senders, e, senders.len() as int)
        &&& forall|k: int|
            0 <= k < self.ready@.len() ==> belongs(senders, #[trigger] self.ready@[k], e)
        &&& forall|k: int|
            0 <= k < self.delayed@.len() ==> belongs(senders, (#[trigger] self.delayed@[k]).1, e)
        &&& forall|i: int, j: int|
            0 <= i < j < self.delayed@.len() ==> !waits_before(self.delayed@[j], self.delayed@[i])
        &&& self.submission_tasks as nat == submitting(senders, e)
        &&& self.submission_tasks <= MAX_SUBMISSION_TASKS_PER_ENDPOINT
    }

    /// Lets a sender wait until `ready_at`.
    fn delay(&mut self, ready_at: u64, sender_index: usize)
        requires
            forall|i: int, j: int|
                0 <= i < j < old(self).delayed@.len() ==> !waits_before(
                    old(self).delayed@[j],
                    old(self).delayed@[i],
                ),
        ensures
            final(self).endpoint == old(self).endpoint,
            final(self).sender_indices == old(self).sender_indices,
            final(self).ready == old(self).ready,
            final(self).submission_tasks == old(self).submission_tasks,
            final(self).completed == old(self).completed,
            final(self).failed == old(self).failed,
            exists|at: int|
                0 <= at <= old(self).delayed@.len() && final(self).delayed@ == old(
                    self).delayed@.insert(at, (ready_at, sender_index)),
            forall|i: int, j: int|
                0 <= i < j < final(self).delayed@.len() ==> !waits_before(
                    final(self).delayed@[j],
                    final(self).delayed@[i],
                ),
    {
        let mut at: usize = 0;
        while at < self.delayed.len() && (self.delayed[at].0 < ready_at || (self.delayed[at].0
            == ready_at && self.delayed[at].1 <= sender_index))
            invariant
                *self == *old(self),
                at <= self.delayed.len(),
                forall|i: int|
                    0 <= i < at ==> !waits_before((ready_at, sender_index), self.delayed@[i]),
            decreases self.delayed.len() - at,
        {
            at = at + 1;
        }
        let ghost prior = self.delayed@;
        let ghost item = (ready_at, sender_index);
        self.delayed.insert(at, (ready_at, sender_index));
        proof {
            assert forall|i: int, j: int| 0 <= i < j < self.delayed@.len() implies !waits_before(
                self.delayed@[j],
                self.delayed@[i],
            ) by {
                if i == at {
                    assert(self.delayed@[j] == prior[j - 1]);
                    assert(waits_before(item, prior[at as int]));
                    if j - 1 > at {
                        assert(!waits_before(prior[j - 1], prior[at as int]));
                    }
                } else if j == at {
                    assert(self.delayed@[i] == prior[i]);
                } else {
                    let a = if i < at {
                        i
                    } else {
                        i - 1
                    };
                    let b = if j < at {
                        j
                    } else {
                        j - 1
                    };
                    assert(self.delayed@[i] == prior[a]);
                    assert(self.delayed@[j] == prior[b]);
                    assert(!waits_before(prior[b], prior[a]));
                }
            }
        }
    }

    /// Queues the waiting senders that are ready at `now`.
    fn activate(&mut self, senders: &Vec<SenderState>, now: u64)
        requires
            forall|k: int|
                0 <= k < old(self).delayed@.len() ==> (#[trigger] old(self).delayed@[k]).1
                    < senders@.len(),
        ensures
            final(self).endpoint == old(self).endpoint,
            final(self).sender_indices == old(self).sender_indices,
            final(self).submission_tasks == old(self).submission_tasks,
            final(self).completed == old(self).completed,
            final(self).failed == old(self).failed,
            ({
                let due = due_count(old(self).delayed@, now);
                &&& due <= old(self).delayed@.len()
                &&& final(self).delayed@ == old(self).delayed@.skip(due as int)
                &&& final(self).ready@ == old(self).ready@ + due_senders(
                    old(self).delayed@,
                    due,
                    phases(senders@),
                )
            }),
    {
        let ghost all = self.delayed@;
        let ghost mut done: nat = 0;
        assert(all.skip(0) =~= all);
        assert(self.ready@ =~= self.ready@ + due_senders(all, 0, phases(senders@)));
        while self.delayed.len() > 0 && self.delayed[0].0 <= now
            invariant
                forall|k: int| 0 <= k < all.len() ==> (#[trigger] all[k]).1 < senders@.len(),
                done <= all.len(),
                self.delayed@ == all.skip(done as int),
                done + due_count(self.delayed@, now) == due_count(all, now),
                self.ready@ == old(self).ready@ + due_senders(all, done, phases(senders@)),
                self.endpoint == old(self).endpoint,
                self.sender_indices == old(self).sender_indices,
                self.submission_tasks == old(self).submission_tasks,
                self.completed == old(self).completed,
                self.failed == old(self).failed,
            decreases self.delayed.len(),
        {
            let ghost before = self.delayed@;
            assert(before[0] == all[done as int]);
            let (_, sender_index) = self.delayed.remove(0);
            assert(self.delayed@ =~= before.skip(1));
            assert(self.delayed@ =~= all.skip(done as int + 1));
            if senders[sender_index].is_ready() {
                self.ready.push_back(sender_index);
            }
            proof {
                assert(phases(senders@)[sender_index as int]
                    == senders@[sender_index as int].phase());
                done = done + 1;
                assert(self.ready@ =~= old(self).ready@ + due_senders(
                    all,
                    done,
                    phases(senders@),
                ));
            }
        }
    }

    /// Takes senders from the queue to be submitted now.
    fn pick(&mut self, senders: &mut Vec<SenderState>, Ghost(e): Ghost<int>) -> (chosen: Vec<usize>)
        requires
            old(self).wf(old(senders)@, e),
        ensures
            final(self).wf(final(senders)@, e),
            final(self).endpoint == old(self).endpoint,
            final(self).delayed == old(self).delayed,
            final(self).completed == old(self).completed,
            final(self).failed == old(self).failed,
            chosen@ == picked(
                old(self).ready@,
                phases(old(senders)@),
                old(self).submission_tasks as nat,
            ),
            final(self).ready@ == left_ready(
                old(self).ready@,
                phases(old(senders)@),
                old(self).submission_tasks as nat,
            ),
            same_senders(final(senders)@, old(senders)@),
            forall|i: int|
                0 <= i < old(senders)@.len() ==> (#[trigger] final(senders)@[i]) == (
                if chosen@.contains(i as usize) {
                    SenderState { status: SenderStatus::Submitting, ..old(senders)@[i] }
                } else {
                    old(senders)@[i]
                }),
            forall|f: int| f != e ==> submitting(final(senders)@, f) == submitting(
                old(senders)@,
                f,
            ),
            forall|k: int| 0 <= k < chosen.len() ==> belongs(old(senders)@, #[trigger] chosen@[k], e),
    {
        let mut chosen: Vec<usize> = Vec::new();
        let ghost was = senders@;
        let ghost goal = picked(self.ready@, phases(senders@), self.submission_tasks as nat);
        let ghost rest = left_ready(self.ready@, phases(senders@), self.submission_tasks as nat);
        assert(goal =~= chosen@ + goal);
        while self.submission_tasks < MAX_SUBMISSION_TASKS_PER_ENDPOINT && self.ready.len() > 0
            invariant
                self.wf(senders@, e),
                was == old(senders)@,
                self.endpoint == old(self).endpoint,
                self.delayed == old(self).delayed,
                self.completed == old(self).completed,
                self.failed == old(self).failed,
                goal == chosen@ + picked(
                    self.ready@,
                    phases(senders@),
                    self.submission_tasks as nat,
                ),
                rest == left_ready(self.ready@, phases(senders@), self.submission_tasks as nat),
                same_senders(senders@, was),
                forall|i: int|
                    0 <= i < was.len() ==> (#[trigger] senders@[i]) == (if chosen@.contains(
                        i as usize,
                    ) {
                        SenderState { status: SenderStatus::Submitting, ..was[i] }
                    } else {
                        was[i]
                    }),
                forall|f: int| f != e ==> submitting(senders@, f) == submitting(was, f),
                forall|k: int| 0 <= k < chosen.len() ==> belongs(was, #[trigger] chosen@[k], e),
            decreases self.ready.len(),
        {
            let ghost queue = self.ready@;
            let ghost stands = phases(senders@);
            let ghost prior = senders@;
            let ghost taken = chosen@;
            match self.ready.pop_front() {
                None => {},
                Some(sender_index) => {
                    assert(belongs(senders@, queue[0], e));
                    assert(self.ready@ =~= queue.skip(1));
                    assert(stands[sender_index as int] == senders@[sender_index as int].phase());
                    if senders[sender_index].is_ready() {
                        senders[sender_index].status = SenderStatus::Submitting;
                        self.submission_tasks = self.submission_tasks + 1;
                        chosen.push(sender_index);
                        proof {
                            let i = sender_index as int;
                            let s = senders@[i];
                            assert(senders@ =~= prior.update(i, s));
                            lemma_submitting_update(prior, i, s, e);
                            assert forall|f: int| f != e implies submitting(senders@, f)
                                == submitting(was, f) by {
                                lemma_submitting_update(prior, i, s, f);
                            }
                            assert(phases(senders@) =~= stands.update(
                                i,
                                SenderPhase::Submitting,
                            ));
                            assert(chosen@ + picked(
                                self.ready@,
                                phases(senders@),
                                self.submission_tasks as nat,
                            ) =~= taken + (seq![sender_index] + picked(
                                self.ready@,
                                phases(senders@),
                                self.submission_tasks as nat,
                            )));
                            lemma_senders_of_same(prior, senders@, e, senders@.len() as int);
                            assert forall|j: int| 0 <= j < was.len() implies (
                            #[trigger] senders@[j]) == (if chosen@.contains(j as usize) {
                                SenderState { status: SenderStatus::Submitting, ..was[j] }
                            } else {
                                was[j]
                            }) by {
                                assert(j <= senders.len());
                                lemma_push_contains(taken, sender_index, j as usize);
                                assert(prior[j] == (if taken.contains(j as usize) {
                                    SenderState { status: SenderStatus::Submitting, ..was[j] }
                                } else {
                                    was[j]
                                }));
                            }
                        }
                    }
                },
            }
        }
        assert(goal =~= chosen@);
        chosen
    }
}

proof fn lemma_push_contains(s: Seq<usize>, x: usize, y: usize)
    ensures
        s.push(x).contains(y) == (s.contains(y) || x == y),
{
    if s.contains(y) {
        let i = choose|i: int| 0 <= i < s.len() && s[i] == y;
        assert(s.push(x)[i] == y);
    }
    if x == y {
        assert(s.push(x)[s.len() as int] == y);
    }
}

pub(crate) proof fn lemma_senders_of_same(a: Seq<SenderState>, b: Seq<SenderState>, e: int, n: int)
    requires
        0 <= n <= a.len(),
        same_senders(a, b),
    ensures
        senders_of(a, e, n) == senders_of(b, e, n),
    decreases n,
{
    if n > 0 {
        assert(a[n - 1].account == b[n - 1].account);
        lemma_senders_of_same(a, b, e, n - 1);
    }
}

/// Senders that all stand ready.
pub fn build_sender_states(accounts: Vec<RingAccount>) -> (senders: Vec<SenderState>)
    ensures
        senders.len() == accounts.len(),
        forall|i: int|
            0 <= i < senders.len() ==> (#[trigger] senders[i]) == (SenderState {
                account: accounts[i],
                retry_backoff: INITIAL_RETRY_BACKOFF_MILLIS,
                status: SenderStatus::Ready,
            }),
{
    let ghost given = accounts@;
    let mut senders: Vec<SenderState> = Vec::new();
    for account in it: accounts.into_iter()
        invariant
            it.seq() == given,
            senders.len() == it.index(),
            forall|i: int|
                0 <= i < senders.len() ==> (#[trigger] senders[i]) == (SenderState {
                    account: given[i],
                    retry_backoff: INITIAL_RETRY_BACKOFF_MILLIS,
                    status: SenderStatus::Ready,
                }),
    {
        senders.push(
            SenderState {
                account,
                retry_backoff: INITIAL_RETRY_BACKOFF_MILLIS,
                status: SenderStatus::Ready,
            },
        );
    }
    senders
}

/// Endpoints with their senders, none queued yet.
pub fn build_endpoint_states(endpoints: Vec<String>, senders: &Vec<SenderState>) -> (states: Vec<
    EndpointState,
>)
    requires
        forall|i: int|
            0 <= i < senders.len() ==> (#[trigger] senders[i]).account.endpoint_index
                < endpoints.len(),
    ensures
        states.len() == endpoints.len(),
        forall|e: int|
            0 <= e < states.len() ==> {
                &&& (#[trigger] states[e]).endpoint == endpoints[e]
                &&& states[e].sender_indices@ == senders_of(senders@, e, senders@.len() as int)
                &&& states[e].ready@.len() == 0
                &&& states[e].delayed@.len() == 0
                &&& states[e].submission_tasks == 0
                &&& states[e].completed == 0
                &&& states[e].failed == 0
            },
{
    let ghost given = endpoints@;
    let mut states: Vec<EndpointState> = Vec::new();
    for endpoint in it: endpoints.into_iter()
        invariant
            it.seq() == given,
            states.len() == it.index(),
            forall|e: int|
                0 <= e < states.len() ==> {
                    &&& (#[trigger] states[e]).endpoint == given[e]
                    &&& states[e].sender_indices@ =~= Seq::<usize>::empty()
                    &&& states[e].ready@.len() == 0
                    &&& states[e].delayed@.len() == 0
                    &&& states[e].submission_tasks == 0
                    &&& states[e].completed == 0
                    &&& states[e].failed == 0
                },
    {
        states.push(EndpointState::new(endpoint));
    }
    let mut i: usize = 0;
    while i < senders.len()
        invariant
            i <= senders.len(),
            states.len() == given.len(),
            forall|k: int|
                0 <= k < senders.len() ==> (#[trigger] senders[k]).account.endpoint_index
                    < given.len(),
            forall|e: int|
                0 <= e < states.len() ==> {
                    &&& (#[trigger] states[e]).endpoint == given[e]
                    &&& states[e].sender_indices@ == senders_of(senders@, e, i as int)
                    &&& states[e].ready@.len() == 0
                    &&& states[e].delayed@.len() == 0
                    &&& states[e].submission_tasks == 0
                    &&& states[e].completed == 0
                    &&& states[e].failed == 0
                },
        decreases senders.len() - i,
    {
        let home: usize = senders[i].account.endpoint_index;
        states[home].sender_indices.push(i);
        i = i + 1;
    }
    states
}

/// A ring spammer.
#[derive(Debug)]
pub struct Spammer {
    pub senders: Vec<SenderState>,
    pub endpoints: Vec<EndpointState>,
    pub base_nonce: u64,
    pub completed_rounds: u64,
    /// When statuses are asked for next.
    pub next_status_poll: u64,
}

/// A submission to make.
#[derive(Clone, Copy, Debug, PartialEq, Eq, Structural)]
pub struct Submission {
    pub endpoint_index: usize,
    pub sender_index: usize,
}

/// What an endpoint says of a transaction.
#[derive(Clone, Copy, Debug, PartialEq, Eq, Structural)]
pub enum TransactionState {
    Pending,
    Included,
    Rejected,
    Unknown,
}

/// A transaction's status as an endpoint reports it.
#[derive(Debug)]
pub struct TransactionStatus {
    pub tx_hash: String,
    pub state: TransactionState,
}

/// Whether a sender is pending under `hash`.
pub open spec fn pending_as(sender: SenderState, hash: Seq<char>) -> bool {
    sender.status matches SenderStatus::Pending(tx_hash) && tx_hash@ == hash
}

/// What happens to a run between two of its states.
pub enum RingEvent {
    /// Senders are queued, submitted or wait; nothing is learned of a transfer.
    Quiet,
    /// A sender's transfer was accepted, or may have arrived, under this hash.
    Arrived { sender: usize, tx_hash: Seq<char> },
    /// An endpoint reported statuses, one for each sender of `chunk`.
    Reported { chunk: Seq<usize>, statuses: Seq<TransactionStatus> },
    /// The round ended and the next one started.
    RoundEnded,
    /// The round ended and the run with it.
    Stopped,
}

/// Whether `event` says that the transfer of sender `i` under `hash` is in a
/// block.
pub open spec fn reports_included(event: RingEvent, i: int, hash: Seq<char>) -> bool {
    event matches RingEvent::Reported { chunk, statuses } && exists|n: int|
        0 <= n < chunk.len() && n < statuses.len() && (#[trigger] chunk[n]) == i
            && statuses[n].tx_hash@ == hash && statuses[n].state == TransactionState::Included
}

/// Whether `event` says that the transfer of sender `i` arrived under `hash`.
pub open spec fn arrives(event: RingEvent, i: int, hash: Seq<char>) -> bool {
    event matches RingEvent::Arrived { sender, tx_hash } && sender == i && tx_hash == hash
}

/// Whether `event` lets sender `i` move from one state to another: it becomes
/// pending only under the hash that its transfer arrived under, and included
/// only when the transfer that it is pending under is reported to be in a block.
pub open spec fn sender_step(was: SenderState, is: SenderState, i: int, event: RingEvent) -> bool {
    &&& is.account == was.account
    &&& forall|hash: Seq<char>| #[trigger]
        pending_as(is, hash) ==> pending_as(was, hash) || arrives(event, i, hash)
    &&& is.phase() == SenderPhase::Included ==> was.phase() == SenderPhase::Included || exists|
        hash: Seq<char>,
    | #[trigger]
        pending_as(was, hash) && reports_included(event, i, hash)
}

/// `a` and `b` together, capped at the largest time.
pub open spec fn later(a: u64, b: u64) -> u64 {
    if a + b > u64::MAX {
        u64::MAX
    } else {
        (a + b) as u64
    }
}

impl Spammer {
    /// Every sender has an endpoint, and every endpoint is in order.
    pub open spec fn wf(&self) -> bool {
        &&& self.endpoints.len() > 0
        &&& forall|i: int|
            0 <= i < self.senders@.len() ==> (#[trigger] self.senders@[i]).account.endpoint_index
                < self.endpoints.len()
        &&& forall|e: int|
            0 <= e < self.endpoints@.len() ==> (#[trigger] self.endpoints@[e]).wf(self.senders@, e)
    }

    /// Whether nothing is queued but every sender, in order, and nothing is in
    /// flight: the start of a round.
    pub open spec fn round_started(&self) -> bool {
        &&& forall|i: int|
            0 <= i < self.senders@.len() ==> (#[trigger] self.senders@[i]).phase()
                == SenderPhase::Ready && self.senders@[i].retry_backoff
                == INITIAL_RETRY_BACKOFF_MILLIS
        &&& forall|e: int|
            0 <= e < self.endpoints@.len() ==> {
                &&& (#[trigger] self.endpoints@[e]).ready@ == self.endpoints@[e].sender_indices@
                &&& self.endpoints@[e].delayed@.len() == 0
                &&& self.endpoints@[e].submission_tasks == 0
            }
    }

    /// Whether every sender's transfer of this round is in a block.
    pub open spec fn all_included(&self) -> bool {
        forall|i: int|
            0 <= i < self.senders@.len() ==> (#[trigger] self.senders@[i]).phase()
                == SenderPhase::Included
    }

    /// Whether a run moves from this state to `next` by `event`. Within a round
    /// the nonce stays; it moves on by one where a round ends, which takes that
    /// every sender's transfer is in a block.
    pub open spec fn steps_to(&self, next: &Self, event: RingEvent) -> bool {
        &&& next.base_nonce == self.base_nonce
        &&& next.senders@.len() == self.senders@.len()
        &&& match event {
            RingEvent::RoundEnded => self.all_included() && next.round_started()
                && next.completed_rounds == self.completed_rounds + 1,
            RingEvent::Stopped => self.all_included() && next.completed_rounds
                == self.completed_rounds + 1,
            _ => next.completed_rounds == self.completed_rounds && forall|i: int|
                0 <= i < self.senders@.len() ==> sender_step(
                    self.senders@[i],
                    #[trigger] next.senders@[i],
                    i,
                    event,
                ),
        }
    }

    /// Whether endpoints keep their address and what they counted.
    pub open spec fn same_endpoints(&self, other: &Self) -> bool {
        &&& self.endpoints@.len() == other.endpoints@.len()
        &&& forall|e: int|
            0 <= e < self.endpoints@.len() ==> {
                &&& (#[trigger] self.endpoints@[e]).endpoint == other.endpoints@[e].endpoint
                &&& self.endpoints@[e].completed == other.endpoints@[e].completed
                &&& self.endpoints@[e].failed == other.endpoints@[e].failed
            }
    }

    /// A spammer at the start of its first round.
    pub fn new(accounts: Vec<RingAccount>, endpoints: Vec<String>, base_nonce: u64, now: u64)
        -> (spammer: Self)
        requires
            endpoints.len() > 0,
            forall|i: int|
                0 <= i < accounts.len() ==> (#[trigger] accounts[i]).endpoint_index
                    < endpoints.len(),
        ensures
            spammer.wf(),
            spammer.round_started(),
            spammer.senders@.len() == accounts@.len(),
            forall|i: int|
                0 <= i < accounts@.len() ==> (#[trigger] spammer.senders@[i]).account
                    == accounts@[i],
            spammer.endpoints@.len() == endpoints@.len(),
            forall|e: int|
                0 <= e < endpoints@.len() ==> (#[trigger] spammer.endpoints@[e]).endpoint
                    == endpoints@[e] && spammer.endpoints@[e].completed == 0
                    && spammer.endpoints@[e].failed == 0,
            spammer.base_nonce == base_nonce,
            spammer.completed_rounds == 0,
            spammer.next_status_poll == now,
    {
        let senders = build_sender_states(accounts);
        let states = build_endpoint_states(endpoints, &senders);
        proof {
            assert forall|e: int| 0 <= e < states@.len() implies (#[trigger] states@[e]).wf(
                senders@,
                e,
            ) by {
                lemma_none_submitting(senders@, e);
            }
        }
        let mut spammer = Spammer {
            senders,
            endpoints: states,
            base_nonce,
            completed_rounds: 0,
            next_status_poll: now,
        };
        spammer.start_round();
        spammer
    }

    /// Starts a round: every sender stands ready and is queued.
    pub fn start_round(&mut self)
        requires
            old(self).wf(),
        ensures
            final(self).wf(),
            final(self).round_started(),
            same_senders(final(self).senders@, old(self).senders@),
            final(self).same_endpoints(old(self)),
            final(self).base_nonce == old(self).base_nonce,
            final(self).completed_rounds == old(self).completed_rounds,
            final(self).next_status_poll == old(self).next_status_poll,
    {
        let ghost first = self.senders@;
        let ghost homes = self.endpoints@;
        let mut i: usize = 0;
        while i < self.senders.len()
            invariant
                i <= self.senders.len(),
                self.endpoints@ == homes,
                same_senders(self.senders@, first),
                self.base_nonce == old(self).base_nonce,
                self.completed_rounds == old(self).completed_rounds,
                self.next_status_poll == old(self).next_status_poll,
                forall|k: int|
                    0 <= k < i ==> (#[trigger] self.senders@[k]).phase() == SenderPhase::Ready
                        && self.senders@[k].retry_backoff == INITIAL_RETRY_BACKOFF_MILLIS,
            decreases self.senders.len() - i,
        {
            self.senders[i].retry_backoff = INITIAL_RETRY_BACKOFF_MILLIS;
            self.senders[i].status = SenderStatus::Ready;
            i = i + 1;
        }
        let ghost ready = self.senders@;
        let mut e: usize = 0;
        while e < self.endpoints.len()
            invariant
                e <= self.endpoints.len(),
                self.senders@ == ready,
                same_senders(ready, first),
                homes.len() == self.endpoints@.len(),
                forall|k: int|
                    0 <= k < ready.len() ==> (#[trigger] ready[k]).phase() == SenderPhase::Ready
                        && ready[k].retry_backoff == INITIAL_RETRY_BACKOFF_MILLIS,
                forall|f: int| 0 <= f < homes.len() ==> (#[trigger] homes[f]).wf(first, f),
                forall|f: int|
                    0 <= f < homes.len() ==> {
                        &&& (#[trigger] self.endpoints@[f]).endpoint == homes[f].endpoint
                        &&& self.endpoints@[f].completed == homes[f].completed
                        &&& self.endpoints@[f].failed == homes[f].failed
                        &&& self.endpoints@[f].sender_indices@ == homes[f].sender_indices@
                    },
                forall|f: int|
                    0 <= f < e ==> {
                        &&& (#[trigger] self.endpoints@[f]).ready@
                            == self.endpoints@[f].sender_indices@
                        &&& self.endpoints@[f].delayed@.len() == 0
                        &&& self.endpoints@[f].submission_tasks == 0
                    },
                self.base_nonce == old(self).base_nonce,
                self.completed_rounds == old(self).completed_rounds,
                self.next_status_poll == old(self).next_status_poll,
            decreases self.endpoints.len() - e,
        {
            self.endpoints[e].restart();
            e = e + 1;
        }
        proof {
            assert forall|f: int| 0 <= f < self.endpoints@.len() implies (
            #[trigger] self.endpoints@[f]).wf(self.senders@, f) by {
                lemma_none_submitting(self.senders@, f);
                assert(homes[f].wf(first, f));
                lemma_senders_of_same(first, self.senders@, f, first.len() as int);
                let n = self.senders@.len() as int;
                assert(n == self.senders.len());
                assert forall|k: int| 0 <= k < self.endpoints@[f].ready@.len() implies belongs(
                    self.senders@,
                    #[trigger] self.endpoints@[f].ready@[k],
                    f,
                ) by {
                    lemma_senders_of(self.senders@, f, n, k);
                }
            }
        }
    }

    /// Whether every sender's transfer of this round is in a block.
    pub fn round_is_complete(&self) -> (complete: bool)
        ensures
            complete == self.all_included(),
    {
        let mut i: usize = 0;
        while i < self.senders.len()
            invariant
                i <= self.senders.len(),
                forall|k: int|
                    0 <= k < i ==> (#[trigger] self.senders@[k]).phase() == SenderPhase::Included,
            decreases self.senders.len() - i,
        {
            match self.senders[i].status {
                SenderStatus::Included => {},
                _ => {
                    assert(self.senders@[i as int].phase() != SenderPhase::Included);
                    return false;
                },
            }
            i = i + 1;
        }
        true
    }

    /// Queues every waiting sender that is ready at `now`.
    pub fn activate_ready_senders(&mut self, now: u64)
        requires
            old(self).wf(),
        ensures
            final(self).wf(),
            final(self).senders@ == old(self).senders@,
            old(self).steps_to(final(self), RingEvent::Quiet),
            final(self).same_endpoints(old(self)),
            forall|e: int|
                0 <= e < final(self).endpoints@.len() ==> {
                    let was = old(self).endpoints@[e];
                    let due = due_count(was.delayed@, now);
                    &&& (#[trigger] final(self).endpoints@[e]).delayed@ == was.delayed@.skip(
                        due as int,
                    )
                    &&& final(self).endpoints@[e].ready@ == was.ready@ + due_senders(
                        was.delayed@,
                        due,
                        phases(old(self).senders@),
                    )
                    &&& final(self).endpoints@[e].submission_tasks == was.submission_tasks
                },
            final(self).base_nonce == old(self).base_nonce,
            final(self).completed_rounds == old(self).completed_rounds,
            final(self).next_status_poll == old(self).next_status_poll,
    {
        let ghost homes = self.endpoints@;
        let mut e: usize = 0;
        while e < self.endpoints.len()
            invariant
                e <= self.endpoints.len(),
                self.senders@ == old(self).senders@,
                homes == old(self).endpoints@,
                homes.len() == self.endpoints@.len(),
                homes.len() > 0,
                forall|i: int|
                    0 <= i < self.senders@.len() ==> (
                    #[trigger] self.senders@[i]).account.endpoint_index < homes.len(),
                forall|f: int| 0 <= f < homes.len() ==> (#[trigger] homes[f]).wf(self.senders@, f),
                forall|f: int|
                    0 <= f < homes.len() ==> (#[trigger] self.endpoints@[f]).wf(self.senders@, f),
                forall|f: int|
                    0 <= f < homes.len() ==> {
                        &&& (#[trigger] self.endpoints@[f]).endpoint == homes[f].endpoint
                        &&& self.endpoints@[f].completed == homes[f].completed
                        &&& self.endpoints@[f].failed == homes[f].failed
                        &&& self.endpoints@[f].submission_tasks == homes[f].submission_tasks
                    },
                forall|f: int|
                    e <= f < homes.len() ==> (#[trigger] self.endpoints@[f]) == homes[f],
                forall|f: int|
                    0 <= f < e ==> {
                        let due = due_count(homes[f].delayed@, now);
                        &&& (#[trigger] self.endpoints@[f]).delayed@ == homes[f].delayed@.skip(
                            due as int,
                        )
                        &&& self.endpoints@[f].ready@ == homes[f].ready@ + due_senders(
                            homes[f].delayed@,
                            due,
                            phases(self.senders@),
                        )
                    },
                self.base_nonce == old(self).base_nonce,
                self.completed_rounds == old(self).completed_rounds,
                self.next_status_poll == old(self).next_status_poll,
            decreases self.endpoints.len() - e,
        {
            let ghost was = self.endpoints@[e as int];
            assert(was.wf(self.senders@, e as int));
            self.endpoints[e].activate(&self.senders, now);
            proof {
                let is = self.endpoints@[e as int];
                let due = due_count(was.delayed@, now);
                assert forall|k: int| 0 <= k < is.ready@.len() implies belongs(
                    self.senders@,
                    #[trigger] is.ready@[k],
                    e as int,
                ) by {
                    if k < was.ready@.len() {
                        assert(is.ready@[k] == was.ready@[k]);
                    } else {
                        lemma_due_belongs(
                            was.delayed@,
                            due,
                            self.senders@,
                            e as int,
                            k - was.ready@.len(),
                        );
                    }
                }
                assert(is.wf(self.senders@, e as int));
            }
            e = e + 1;
        }
    }
}

impl EndpointState {
    /// Queues every sender and forgets what is waiting or in flight.
    fn restart(&mut self)
        ensures
            final(self).endpoint == old(self).endpoint,
            final(self).sender_indices@ == old(self).sender_indices@,
            final(self).completed == old(self).completed,
            final(self).failed == old(self).failed,
            final(self).ready@ == old(self).sender_indices@,
            final(self).delayed@.len() == 0,
            final(self).submission_tasks == 0,
    {
        self.ready.clear();
        self.delayed.clear();
        self.submission_tasks = 0;
        let mut k: usize = 0;
        while k < self.sender_indices.len()
            invariant
                k <= self.sender_indices.len(),
                self.endpoint == old(self).endpoint,
                self.sender_indices@ == old(self).sender_indices@,
                self.completed == old(self).completed,
                self.failed == old(self).failed,
                self.ready@ == self.sender_indices@.take(k as int),
                self.delayed@.len() == 0,
                self.submission_tasks == 0,
            decreases self.sender_indices.len() - k,
        {
            let index: usize = self.sender_indices[k];
            self.ready.push_back(index);
            k = k + 1;
            assert(self.ready@ =~= self.sender_indices@.take(k as int));
        }
        assert(self.sender_indices@.take(self.sender_indices@.len() as int)
            =~= self.sender_indices@);
    }
}

proof fn lemma_due_belongs(
    delayed: Seq<(u64, usize)>,
    n: nat,
    senders: Seq<SenderState>,
    e: int,
    k: int,
)
    requires
        n <= delayed.len(),
        forall|j: int| 0 <= j < delayed.len() ==> belongs(senders, (#[trigger] delayed[j]).1, e),
        0 <= k < due_senders(delayed, n, phases(senders)).len(),
    ensures
        belongs(senders, due_senders(delayed, n, phases(senders))[k], e),
    decreases n,
{
    if n > 0 {
        let earlier = due_senders(delayed, (n - 1) as nat, phases(senders));
        assert(belongs(senders, delayed[n - 1].1, e));
        if k < earlier.len() {
            lemma_due_belongs(delayed, (n - 1) as nat, senders, e, k);
        }
    }
}

impl Spammer {
    /// Whether all endpoints but `e` stayed as they were.
    pub open spec fn others_unchanged(&self, other: &Self, e: int) -> bool {
        &&& self.endpoints@.len() == other.endpoints@.len()
        &&& forall|f: int|
            0 <= f < self.endpoints@.len() && f != e ==> (#[trigger] self.endpoints@[f])
                == other.endpoints@[f]
    }

    /// Whether all senders but `i` stayed as they were.
    pub open spec fn other_senders_unchanged(&self, other: &Self, i: int) -> bool {
        &&& self.senders@.len() == other.senders@.len()
        &&& forall|k: int|
            0 <= k < self.senders@.len() && k != i ==> (#[trigger] self.senders@[k])
                == other.senders@[k]
    }

    /// Lets a sender stand ready from `ready_at` on.
    pub fn schedule_sender_retry(&mut self, sender_index: usize, ready_at: u64)
        requires
            old(self).wf(),
            sender_index < old(self).senders@.len(),
            old(self).senders@[sender_index as int].phase() != SenderPhase::Submitting,
        ensures
            final(self).wf(),
            old(self).steps_to(final(self), RingEvent::Quiet),
            final(self).other_senders_unchanged(old(self), sender_index as int),
            final(self).senders@[sender_index as int] == (SenderState {
                status: SenderStatus::Ready,
                ..old(self).senders@[sender_index as int]
            }),
            ({
                let e = old(self).senders@[sender_index as int].account.endpoint_index as int;
                let was = old(self).endpoints@[e];
                let is = final(self).endpoints@[e];
                &&& final(self).others_unchanged(old(self), e)
                &&& is.ready == was.ready
                &&& exists|at: int|
                    0 <= at <= was.delayed@.len() && is.delayed@ == was.delayed@.insert(
                        at,
                        (ready_at, sender_index),
                    )
                &&& is.submission_tasks == was.submission_tasks
            }),
            final(self).same_endpoints(old(self)),
            final(self).base_nonce == old(self).base_nonce,
            final(self).completed_rounds == old(self).completed_rounds,
            final(self).next_status_poll == old(self).next_status_poll,
    {
        let ghost first = self.senders@;
        let ghost homes = self.endpoints@;
        let home: usize = self.senders[sender_index].account.endpoint_index;
        self.senders[sender_index].status = SenderStatus::Ready;
        assert(homes[home as int].wf(first, home as int));
        self.endpoints[home].delay(ready_at, sender_index);
        proof {
            let i = sender_index as int;
            let s = self.senders@[i];
            assert(self.senders@ =~= first.update(i, s));
            assert forall|f: int| 0 <= f < self.endpoints@.len() implies (
            #[trigger] self.endpoints@[f]).wf(self.senders@, f) by {
                assert(homes[f].wf(first, f));
                lemma_submitting_update(first, i, s, f);
                lemma_senders_of_same(first, self.senders@, f, first.len() as int);
                lemma_belongs_same(first, self.senders@);
                if f == home {
                    let was = homes[f];
                    let is = self.endpoints@[f];
                    let at = choose|at: int|
                        0 <= at <= was.delayed@.len() && is.delayed@ == was.delayed@.insert(
                            at,
                            (ready_at, sender_index),
                        );
                    assert forall|k: int| 0 <= k < is.delayed@.len() implies belongs(
                        self.senders@,
                        (#[trigger] is.delayed@[k]).1,
                        f,
                    ) by {
                        if k < at {
                            assert(is.delayed@[k] == was.delayed@[k]);
                        } else if k > at {
                            assert(is.delayed@[k] == was.delayed@[k - 1]);
                        }
                    }
                }
            }
        }
    }

    /// Takes queued senders to be submitted now, endpoint by endpoint, each up
    /// to its limit.
    pub fn spawn_submissions(&mut self) -> (submissions: Vec<Submission>)
        requires
            old(self).wf(),
        ensures
            final(self).wf(),
            old(self).steps_to(final(self), RingEvent::Quiet),
            same_senders(final(self).senders@, old(self).senders@),
            forall|i: int|
                0 <= i < old(self).senders@.len() ==> (#[trigger] final(self).senders@[i]) == (
                if is_submitted(submissions@, i) {
                    SenderState { status: SenderStatus::Submitting, ..old(self).senders@[i] }
                } else {
                    old(self).senders@[i]
                }),
            final(self).same_endpoints(old(self)),
            submissions@ == submissions_of(
                old(self).endpoints@,
                phases(old(self).senders@),
                old(self).endpoints@.len() as int,
            ),
            forall|k: int|
                0 <= k < submissions.len() ==> {
                    let s = #[trigger] submissions[k];
                    &&& belongs(old(self).senders@, s.sender_index, s.endpoint_index as int)
                    &&& final(self).senders@[s.sender_index as int].phase()
                        == SenderPhase::Submitting
                },
            forall|e: int|
                0 <= e < final(self).endpoints@.len() ==> {
                    let was = old(self).endpoints@[e];
                    &&& (#[trigger] final(self).endpoints@[e]).delayed == was.delayed
                    &&& final(self).endpoints@[e].ready@ == left_ready(
                        was.ready@,
                        phases(old(self).senders@),
                        was.submission_tasks as nat,
                    )
                },
            final(self).base_nonce == old(self).base_nonce,
            final(self).completed_rounds == old(self).completed_rounds,
            final(self).next_status_poll == old(self).next_status_poll,
    {
        let ghost first = self.senders@;
        let ghost homes = self.endpoints@;
        let mut submissions: Vec<Submission> = Vec::new();
        let mut e: usize = 0;
        while e < self.endpoints.len()
            invariant
                e <= self.endpoints.len(),
                homes == old(self).endpoints@,
                first == old(self).senders@,
                homes.len() == self.endpoints@.len(),
                homes.len() > 0,
                same_senders(self.senders@, first),
                forall|i: int|
                    0 <= i < first.len() ==> (#[trigger] first[i]).account.endpoint_index
                        < homes.len(),
                forall|f: int| 0 <= f < homes.len() ==> (#[trigger] homes[f]).wf(first, f),
                forall|f: int|
                    0 <= f < homes.len() ==> (#[trigger] self.endpoints@[f]).wf(self.senders@, f),
                forall|f: int|
                    0 <= f < homes.len() ==> {
                        &&& (#[trigger] self.endpoints@[f]).endpoint == homes[f].endpoint
                        &&& self.endpoints@[f].completed == homes[f].completed
                        &&& self.endpoints@[f].failed == homes[f].failed
                        &&& self.endpoints@[f].delayed == homes[f].delayed
                    },
                forall|f: int|
                    e <= f < homes.len() ==> (#[trigger] self.endpoints@[f]) == homes[f],
                forall|f: int|
                    0 <= f < e ==> (#[trigger] self.endpoints@[f]).ready@ == left_ready(
                        homes[f].ready@,
                        phases(first),
                        homes[f].submission_tasks as nat,
                    ),
                forall|i: int|
                    0 <= i < first.len() && first[i].account.endpoint_index >= e ==> (
                    #[trigger] self.senders@[i]) == first[i],
                forall|i: int|
                    0 <= i < first.len() ==> (#[trigger] self.senders@[i]) == (if is_submitted(
                        submissions@,
                        i,
                    ) {
                        SenderState { status: SenderStatus::Submitting, ..first[i] }
                    } else {
                        first[i]
                    }),
                submissions@ == submissions_of(homes, phases(first), e as int),
                forall|k: int|
                    0 <= k < submissions.len() ==> {
                        let s = #[trigger] submissions[k];
                        &&& belongs(first, s.sender_index, s.endpoint_index as int)
                        &&& s.endpoint_index < e
                        &&& self.senders@[s.sender_index as int].phase() == SenderPhase::Submitting
                    },
                self.base_nonce == old(self).base_nonce,
                self.completed_rounds == old(self).completed_rounds,
                self.next_status_poll == old(self).next_status_poll,
            decreases self.endpoints.len() - e,
        {
            let ghost prior = self.senders@;
            let ghost was = self.endpoints@[e as int];
            let ghost kept = self.endpoints@;
            assert(was.wf(prior, e as int));
            let chosen = self.endpoints[e].pick(&mut self.senders, Ghost(e as int));
            let ghost goal = submissions@;
            let mut k: usize = 0;
            while k < chosen.len()
                invariant
                    k <= chosen.len(),
                    submissions@ == goal + at_endpoint(chosen@.take(k as int), e),
                decreases chosen.len() - k,
            {
                submissions.push(Submission { endpoint_index: e, sender_index: chosen[k] });
                k = k + 1;
                assert(submissions@ =~= goal + at_endpoint(chosen@.take(k as int), e));
            }
            assert(chosen@.take(chosen@.len() as int) =~= chosen@);
            proof {
                lemma_pick_depends_on_own(
                    was.ready@,
                    phases(first),
                    phases(prior),
                    was.submission_tasks as nat,
                    first,
                    e as int,
                );
                assert forall|f: int| 0 <= f < homes.len() implies (
                #[trigger] self.endpoints@[f]).wf(self.senders@, f) by {
                    if f != e {
                        assert(self.endpoints@[f] == kept[f]);
                        assert(kept[f].wf(prior, f));
                        lemma_senders_of_same(prior, self.senders@, f, prior.len() as int);
                        lemma_belongs_same(prior, self.senders@);
                    }
                }
                assert forall|i: int|
                    0 <= i < first.len() && first[i].account.endpoint_index >= e + 1 implies (
                #[trigger] self.senders@[i]) == first[i] by {
                    if chosen@.contains(i as usize) {
                        let j = choose|j: int| 0 <= j < chosen@.len() && chosen@[j] == i as usize;
                        assert(i <= self.senders.len());
                        assert(belongs(prior, chosen@[j], e as int));
                        assert(prior[i].account == first[i].account);
                    }
                    assert(prior[i] == first[i]);
                }
                assert forall|i: int| 0 <= i < first.len() implies (#[trigger] self.senders@[i])
                    == (if is_submitted(submissions@, i) {
                    SenderState { status: SenderStatus::Submitting, ..first[i] }
                } else {
                    first[i]
                }) by {
                    assert(i <= self.senders.len());
                    lemma_submitted_more(goal, chosen@, e, i);
                    assert(prior[i] == (if is_submitted(goal, i) {
                        SenderState { status: SenderStatus::Submitting, ..first[i] }
                    } else {
                        first[i]
                    }));
                }
                assert forall|j: int| 0 <= j < submissions.len() implies {
                    let s = #[trigger] submissions[j];
                    &&& belongs(first, s.sender_index, s.endpoint_index as int)
                    &&& s.endpoint_index < e + 1
                    &&& self.senders@[s.sender_index as int].phase() == SenderPhase::Submitting
                } by {
                    if j < goal.len() {
                        assert(submissions@[j] == goal[j]);
                        let i = goal[j].sender_index as int;
                        assert(self.senders@[i] == (if chosen@.contains(i as usize) {
                            SenderState { status: SenderStatus::Submitting, ..prior[i] }
                        } else {
                            prior[i]
                        }));
                    } else {
                        let m = j - goal.len();
                        assert(submissions@[j] == at_endpoint(chosen@, e)[m]);
                        assert(belongs(prior, chosen@[m], e as int));
                        let i = chosen@[m] as int;
                        assert(chosen@.contains(i as usize));
                        assert(prior[i].account == first[i].account);
                        assert(self.senders@[i].phase() == SenderPhase::Submitting);
                    }
                }
            }
            e = e + 1;
        }
        submissions
    }
}

pub(crate) proof fn lemma_belongs_same(a: Seq<SenderState>, b: Seq<SenderState>)
    requires
        same_senders(a, b),
    ensures
        forall|i: usize, e: int| #[trigger] belongs(a, i, e) == belongs(b, i, e),
{
    assert forall|i: usize, e: int| #[trigger] belongs(a, i, e) == belongs(b, i, e) by {
        if i < a.len() {
            assert(a[i as int].account == b[i as int].account);
        }
    }
}

/// Whether sender `i` is among the submissions.
pub open spec fn is_submitted(submissions: Seq<Submission>, i: int) -> bool {
    exists|k: int| 0 <= k < submissions.len() && (#[trigger] submissions[k]).sender_index == i
}

proof fn lemma_submitted_more(goal: Seq<Submission>, chosen: Seq<usize>, e: usize, i: int)
    requires
        0 <= i <= usize::MAX,
    ensures
        is_submitted(goal + at_endpoint(chosen, e), i) == (is_submitted(goal, i)
            || chosen.contains(i as usize)),
{
    let all = goal + at_endpoint(chosen, e);
    if is_submitted(goal, i) {
        let k = choose|k: int| 0 <= k < goal.len() && (#[trigger] goal[k]).sender_index == i;
        assert(all[k].sender_index == i);
    }
    if chosen.contains(i as usize) {
        let k = choose|k: int| 0 <= k < chosen.len() && chosen[k] == i as usize;
        assert(all[goal.len() + k].sender_index == i);
    }
    if is_submitted(all, i) {
        let k = choose|k: int| 0 <= k < all.len() && (#[trigger] all[k]).sender_index == i;
        if k < goal.len() {
            assert(goal[k].sender_index == i);
        } else {
            assert(chosen[k - goal.len()] == i as usize);
        }
    }
}

/// One submission to endpoint `e` for every chosen sender.
pub open spec fn at_endpoint(chosen: Seq<usize>, e: usize) -> Seq<Submission> {
    chosen.map_values(|i: usize| Submission { endpoint_index: e, sender_index: i })
}

/// The submissions of the first `n` endpoints.
pub open spec fn submissions_of(
    endpoints: Seq<EndpointState>,
    stands: Seq<SenderPhase>,
    n: int,
) -> Seq<Submission>
    decreases n,
{
    if n <= 0 {
        Seq::empty()
    } else {
        let e = endpoints[n - 1];
        submissions_of(endpoints, stands, n - 1) + at_endpoint(
            picked(e.ready@, stands, e.submission_tasks as nat),
            (n - 1) as usize,
        )
    }
}

proof fn lemma_pick_depends_on_own(
    ready: Seq<usize>,
    a: Seq<SenderPhase>,
    b: Seq<SenderPhase>,
    tasks: nat,
    senders: Seq<SenderState>,
    e: int,
)
    requires
        a.len() == senders.len(),
        b.len() == senders.len(),
        forall|k: int| 0 <= k < ready.len() ==> belongs(senders, #[trigger] ready[k], e),
        forall|i: int|
            0 <= i < senders.len() && senders[i].account.endpoint_index == e ==> #[trigger] a[i]
                == b[i],
    ensures
        picked(ready, a, tasks) == picked(ready, b, tasks),
        left_ready(ready, a, tasks) == left_ready(ready, b, tasks),
    decreases ready.len(),
{
    if tasks < MAX_SUBMISSION_TASKS_PER_ENDPOINT && ready.len() > 0 {
        assert(belongs(senders, ready[0], e));
        let i = ready[0] as int;
        assert(a[i] == b[i]);
        let rest = ready.skip(1);
        assert forall|k: int| 0 <= k < rest.len() implies belongs(
            senders,
            #[trigger] rest[k],
            e,
        ) by {
            assert(rest[k] == ready[k + 1]);
        }
        if a[i] != SenderPhase::Ready {
            lemma_pick_depends_on_own(rest, a, b, tasks, senders, e);
        } else {
            lemma_pick_depends_on_own(
                rest,
                a.update(i, SenderPhase::Submitting),
                b.update(i, SenderPhase::Submitting),
                tasks + 1,
                senders,
                e,
            );
        }
    }
}

/// `n + 1`, capped at the largest count.
pub open spec fn one_more(n: usize) -> usize {
    if n == usize::MAX {
        n
    } else {
        (n + 1) as usize
    }
}

/// Whether a submission under `tx_hash` that ended with `result` led a sender
/// from `was` to `is`.
pub open spec fn submission_ends(
    was: SenderState,
    is: SenderState,
    tx_hash: Seq<char>,
    result: Result<(), String>,
) -> bool {
    &&& is.account == was.account
    &&& match result {
        Ok(()) => pending_as(is, tx_hash) && is.retry_backoff == INITIAL_RETRY_BACKOFF_MILLIS,
        Err(err) => match error_kind(err@) {
            SubmissionErrorKind::Fatal => is == was,
            SubmissionErrorKind::RetryRejected => is.status is Ready && is.retry_backoff
                == backoff_after(was.retry_backoff, mempool_full(err@)),
            SubmissionErrorKind::RetryCheckStatus => pending_as(is, tx_hash) && is.retry_backoff
                == backoff_after(was.retry_backoff, mempool_full(err@)),
        },
    }
}

/// Whether a submission of sender `i` that ended with `result` at `now` led its
/// endpoint from `home` to `next`, where the sender's backoff is `backoff`.
pub open spec fn endpoint_goes_on(
    home: EndpointState,
    next: EndpointState,
    backoff: u64,
    i: usize,
    result: Result<(), String>,
    now: u64,
) -> bool {
    &&& next.endpoint == home.endpoint
    &&& next.completed == home.completed
    &&& next.submission_tasks == home.submission_tasks - 1
    &&& if result matches Err(err) && error_kind(err@) == SubmissionErrorKind::Fatal {
        next.failed == one_more(home.failed) && next.delayed == home.delayed
    } else if result matches Err(err) && error_kind(err@) == SubmissionErrorKind::RetryRejected {
        next.failed == home.failed && exists|at: int|
            0 <= at <= home.delayed@.len() && next.delayed@ == home.delayed@.insert(
                at,
                (later(now, backoff), i),
            )
    } else {
        next.failed == home.failed && next.delayed == home.delayed
    }
}

/// Whether a transfer that was submitted with this result arrived, or may have.
pub open spec fn arrived(result: Result<(), String>) -> bool {
    match result {
        Ok(()) => true,
        Err(err) => error_kind(err@) == SubmissionErrorKind::RetryCheckStatus,
    }
}

impl Spammer {
    /// Takes what became of the submission of a sender.
    ///
    /// An accepted transfer is pending under its hash. One that was refused for
    /// now waits and is submitted again; one that may have arrived is pending
    /// too, until its status is known. Any other error ends the run with a
    /// message about the transfer, which was submitted under `nonce`.
    pub fn handle_submission_completion(
        &mut self,
        sender_index: usize,
        tx_hash: String,
        nonce: u64,
        result: Result<(), String>,
        now: u64,
    ) -> (outcome: Result<(), String>)
        requires
            old(self).wf(),
            sender_index < old(self).senders@.len(),
            old(self).senders@[sender_index as int].phase() == SenderPhase::Submitting,
        ensures
            outcome is Err <==> (result matches Err(err) && error_kind(err@)
                == SubmissionErrorKind::Fatal),
            outcome is Ok ==> final(self).wf(),
            old(self).steps_to(
                final(self),
                if arrived(result) {
                    RingEvent::Arrived { sender: sender_index, tx_hash: tx_hash@ }
                } else {
                    RingEvent::Quiet
                },
            ),
            final(self).other_senders_unchanged(old(self), sender_index as int),
            submission_ends(
                old(self).senders@[sender_index as int],
                final(self).senders@[sender_index as int],
                tx_hash@,
                result,
            ),
            endpoint_goes_on(
                old(self).endpoints@[old(
                    self,
                ).senders@[sender_index as int].account.endpoint_index as int],
                final(self).endpoints@[old(
                    self,
                ).senders@[sender_index as int].account.endpoint_index as int],
                final(self).senders@[sender_index as int].retry_backoff,
                sender_index,
                result,
                now,
            ),
            ({
                let was = old(self).senders@[sender_index as int];
                let is = final(self).senders@[sender_index as int];
                let e = was.account.endpoint_index as int;
                let home = old(self).endpoints@[e];
                let now_home = final(self).endpoints@[e];
                &&& final(self).others_unchanged(old(self), e)
                &&& is.account == was.account
                &&& now_home.endpoint == home.endpoint
                &&& now_home.completed == home.completed
                &&& now_home.ready == home.ready
                &&& now_home.submission_tasks == home.submission_tasks - 1
                &&& match result {
                    Ok(()) => is.status == SenderStatus::Pending(tx_hash) && is.retry_backoff
                        == INITIAL_RETRY_BACKOFF_MILLIS && now_home.delayed == home.delayed
                        && now_home.failed == home.failed,
                    Err(err) => match error_kind(err@) {
                        SubmissionErrorKind::Fatal => {
                            &&& outcome matches Err(message)
                            &&& message@ == sender_failure(
                                home.endpoint@,
                                was.account.from@,
                                was.account.to@,
                                nonce,
                                err@,
                            )
                            &&& is == was
                            &&& now_home.failed == one_more(home.failed)
                            &&& now_home.delayed == home.delayed
                        },
                        SubmissionErrorKind::RetryRejected => {
                            let backoff = backoff_after(was.retry_backoff, mempool_full(err@));
                            &&& is.status is Ready
                            &&& is.retry_backoff == backoff
                            &&& now_home.failed == home.failed
                            &&& exists|at: int|
                                0 <= at <= home.delayed@.len() && now_home.delayed@
                                    == home.delayed@.insert(at, (later(now, backoff), sender_index))
                        },
                        SubmissionErrorKind::RetryCheckStatus => {
                            &&& is.status == SenderStatus::Pending(tx_hash)
                            &&& is.retry_backoff == backoff_after(
                                was.retry_backoff,
                                mempool_full(err@),
                            )
                            &&& now_home.failed == home.failed
                            &&& now_home.delayed == home.delayed
                        },
                    },
                }
            }),
            final(self).base_nonce == old(self).base_nonce,
            final(self).completed_rounds == old(self).completed_rounds,
            final(self).next_status_poll == old(self).next_status_poll,
    {
        let ghost first = self.senders@;
        let ghost homes = self.endpoints@;
        let home: usize = self.senders[sender_index].account.endpoint_index;
        proof {
            assert(homes[home as int].wf(first, home as int));
            lemma_submitting_positive(first, sender_index as int, home as int);
        }
        let tasks: usize = self.endpoints[home].submission_tasks;
        self.endpoints[home].submission_tasks = tasks - 1;
        let ghost counted = self.endpoints@;
        match result {
            Ok(()) => {
                self.senders[sender_index].retry_backoff = INITIAL_RETRY_BACKOFF_MILLIS;
                self.senders[sender_index].status = SenderStatus::Pending(tx_hash);
                proof {
                    lemma_left_flight(
                        first,
                        self.senders@,
                        homes,
                        self.endpoints@,
                        sender_index as int,
                    );
                }
                Ok(())
            },
            Err(err) => match classify_submission_error(err.as_str()) {
                SubmissionErrorKind::Fatal => {
                    let failed: usize = self.endpoints[home].failed;
                    self.endpoints[home].failed = failed.saturating_add(1);
                    Err(
                        format_sender_failure(
                            self.endpoints[home].endpoint.as_str(),
                            self.senders[sender_index].account.from.as_slice(),
                            self.senders[sender_index].account.to.as_slice(),
                            nonce,
                            err.as_str(),
                        ),
                    )
                },
                SubmissionErrorKind::RetryRejected => {
                    let backoff: u64 = next_retry_backoff(
                        self.senders[sender_index].retry_backoff,
                        err.as_str(),
                    );
                    self.senders[sender_index].retry_backoff = backoff;
                    self.senders[sender_index].status = SenderStatus::Ready;
                    proof {
                        lemma_left_flight(
                            first,
                            self.senders@,
                            homes,
                            self.endpoints@,
                            sender_index as int,
                        );
                    }
                    self.schedule_sender_retry(sender_index, now.saturating_add(backoff));
                    Ok(())
                },
                SubmissionErrorKind::RetryCheckStatus => {
                    let backoff: u64 = next_retry_backoff(
                        self.senders[sender_index].retry_backoff,
                        err.as_str(),
                    );
                    self.senders[sender_index].retry_backoff = backoff;
                    self.senders[sender_index].status = SenderStatus::Pending(tx_hash);
                    proof {
                        lemma_left_flight(
                            first,
                            self.senders@,
                            homes,
                            self.endpoints@,
                            sender_index as int,
                        );
                    }
                    Ok(())
                },
            },
        }
    }

    /// The nonce of the current round.
    pub open spec fn current_nonce(&self) -> int {
        self.base_nonce + self.completed_rounds
    }

    /// The nonce of the current round.
    pub fn round_nonce(&self) -> (result: Result<u64, String>)
        ensures
            result matches Ok(nonce) ==> nonce == self.base_nonce + self.completed_rounds,
            result matches Ok(nonce) ==> nonce == self.current_nonce(),
            result is Ok <==> self.base_nonce + self.completed_rounds <= u64::MAX,
            result matches Err(message) ==> message@ == "round nonce overflowed"@,
    {
        crate::spammer::spam::current_round_nonce(self.base_nonce, self.completed_rounds)
    }
}

proof fn lemma_submitting_positive(senders: Seq<SenderState>, i: int, e: int)
    requires
        0 <= i < senders.len(),
        submits_to(senders[i], e),
    ensures
        submitting(senders, e) >= 1,
    decreases senders.len(),
{
    if i < senders.len() - 1 {
        lemma_submitting_positive(senders.drop_last(), i, e);
    }
}

/// A sender that is no longer being submitted leaves every endpoint in order
/// once its endpoint counted one submission less.
proof fn lemma_left_flight(
    first: Seq<SenderState>,
    senders: Seq<SenderState>,
    homes: Seq<EndpointState>,
    endpoints: Seq<EndpointState>,
    i: int,
)
    requires
        0 <= i < first.len(),
        first[i].account.endpoint_index < homes.len(),
        forall|f: int| 0 <= f < homes.len() ==> (#[trigger] homes[f]).wf(first, f),
        first[i].phase() == SenderPhase::Submitting,
        senders =~= first.update(i, senders[i]),
        senders[i].account == first[i].account,
        senders[i].phase() != SenderPhase::Submitting,
        endpoints.len() == homes.len(),
        ({
            let e = first[i].account.endpoint_index as int;
            endpoints =~= homes.update(
                e,
                EndpointState {
                    submission_tasks: (homes[e].submission_tasks - 1) as usize,
                    ..homes[e]
                },
            )
        }),
    ensures
        forall|f: int| 0 <= f < endpoints.len() ==> (#[trigger] endpoints[f]).wf(senders, f),
{
    lemma_submitting_positive(first, i, first[i].account.endpoint_index as int);
    assert forall|f: int| 0 <= f < endpoints.len() implies (#[trigger] endpoints[f]).wf(
        senders,
        f,
    ) by {
        assert(homes[f].wf(first, f));
        lemma_submitting_update(first, i, senders[i], f);
        lemma_senders_of_same(first, senders, f, first.len() as int);
        lemma_belongs_same(first, senders);
    }
}

/// In a round over a ring, sender `i` signs with the seed of account `i` and
/// pays one unit to the address of the next account, the last to the first, all
/// under the round's nonce.
pub proof fn rounds_pay_round_the_ring(
    senders: Seq<SenderState>,
    accounts: Seq<RingAccount>,
    addresses: Seq<Vec<u8>>,
    seed_start: u64,
    endpoint_count: usize,
    transfer: RoundTransfer,
    nonce: u64,
    i: int,
)
    requires
        is_ring(accounts, addresses, seed_start, endpoint_count),
        endpoint_count > 0,
        0 <= i < accounts.len(),
        senders.len() == accounts.len(),
        senders[i].account == accounts[i],
        is_round_transfer(transfer, senders[i], nonce),
    ensures
        transfer.seed == seed_start + i,
        transfer.nonce == nonce,
        transfer.value == 1,
        i + 1 < addresses.len() ==> transfer.to@ == addresses[i + 1]@,
        i + 1 == addresses.len() ==> transfer.to@ == addresses[0]@,
        addresses.len() >= 2 && (forall|a: int, b: int|
            0 <= a < b < addresses.len() ==> (#[trigger] addresses[a])@ != (
            #[trigger] addresses[b])@) ==> transfer.to@ != addresses[i]@,
{
    accounts_form_a_ring(accounts, addresses, seed_start, endpoint_count, i);
}

/// A transfer that was accepted, or may have arrived, is pending under the hash
/// it was submitted with; one that was refused for a full mempool stands ready
/// again after at least a second; one that failed for good leaves the sender as
/// it was. Only an acceptance brings the backoff back to a tenth of a second.
pub proof fn submissions_leave_senders_pending_or_ready(
    was: SenderState,
    is: SenderState,
    tx_hash: Seq<char>,
    result: Result<(), String>,
)
    requires
        submission_ends(was, is, tx_hash, result),
        was.status is Submitting,
    ensures
        is.account == was.account,
        arrived(result) <==> pending_as(is, tx_hash),
        result is Ok ==> pending_as(is, tx_hash) && is.retry_backoff == 100,
        is.status is Ready <==> result is Err && error_kind(result->Err_0@)
            == SubmissionErrorKind::RetryRejected,
        is.status is Ready ==> is.retry_backoff >= 1_000,
        is.status is Submitting <==> result is Err && error_kind(result->Err_0@)
            == SubmissionErrorKind::Fatal,
        result is Err && 0 < was.retry_backoff < 5_000 && !(is.status is Submitting)
            ==> is.retry_backoff > was.retry_backoff,
{
    if let Err(err) = result {
        crate::spammer::spam::retry_backoff_is_bounded(was.retry_backoff, mempool_full(err@));
    }
}

/// The nonce stays within a round and is one higher in the next.
pub proof fn nonce_counts_the_rounds(spammer: &Spammer, next: &Spammer, event: RingEvent)
    requires
        spammer.steps_to(next, event),
    ensures
        event is RoundEnded || event is Stopped ==> next.current_nonce() == spammer.current_nonce()
            + 1,
        !(event is RoundEnded) && !(event is Stopped) ==> next.current_nonce()
            == spammer.current_nonce(),
        spammer.completed_rounds == 0 ==> spammer.current_nonce() == spammer.base_nonce,
{
}

/// The senders of an endpoint are exactly those that are dealt to it, each once
/// and in order.
pub proof fn endpoints_have_the_senders_dealt_to_them(
    senders: Seq<SenderState>,
    e: int,
    n: int,
    i: usize,
)
    requires
        0 <= n <= senders.len(),
        n <= usize::MAX,
    ensures
        senders_of(senders, e, n).contains(i) <==> i < n && senders[i as int].account.endpoint_index
            == e,
        forall|a: int, b: int|
            0 <= a < b < senders_of(senders, e, n).len() ==> senders_of(senders, e, n)[a]
                < senders_of(senders, e, n)[b],
        forall|k: int|
            0 <= k < senders_of(senders, e, n).len() ==> (#[trigger] senders_of(senders, e, n)[k])
                < n,
    decreases n,
{
    if n > 0 {
        endpoints_have_the_senders_dealt_to_them(senders, e, n - 1, i);
        let earlier = senders_of(senders, e, n - 1);
        let all = senders_of(senders, e, n);
        if earlier.contains(i) {
            let k = choose|k: int| 0 <= k < earlier.len() && earlier[k] == i;
            assert(all[k] == i);
        }
        if all.contains(i) {
            let k = choose|k: int| 0 <= k < all.len() && all[k] == i;
            if k < earlier.len() {
                assert(earlier[k] == i);
            }
        }
        if i == n - 1 && senders[n - 1].account.endpoint_index == e {
            assert(all[all.len() - 1] == i);
        }
    }
}

/// The senders that wait are ready at their time and not before: those that are
/// due are the ones up to the first whose time has not come, and of these the
/// ones that still wait to be submitted are queued, in order.
pub proof fn senders_are_due_at_their_time(
    delayed: Seq<(u64, usize)>,
    stands: Seq<SenderPhase>,
    now: u64,
)
    ensures
        due_count(delayed, now) <= delayed.len(),
        forall|k: int| 0 <= k < due_count(delayed, now) ==> (#[trigger] delayed[k]).0 <= now,
        due_count(delayed, now) < delayed.len() ==> delayed[due_count(delayed, now) as int].0 > now,
        forall|k: int|
            0 <= k < due_count(delayed, now) && stands[(#[trigger] delayed[k]).1 as int]
                == SenderPhase::Ready ==> due_senders(
                delayed,
                due_count(delayed, now),
                stands,
            ).contains(delayed[k].1),
        forall|k: int|
            0 <= k < due_senders(delayed, due_count(delayed, now), stands).len()
                ==> stands[(#[trigger] due_senders(delayed, due_count(delayed, now), stands)[k])
                as int] == SenderPhase::Ready,
{
    lemma_due_count(delayed, now);
    lemma_due_senders(delayed, due_count(delayed, now), stands);
}

proof fn lemma_due_count(delayed: Seq<(u64, usize)>, now: u64)
    ensures
        due_count(delayed, now) <= delayed.len(),
        forall|k: int| 0 <= k < due_count(delayed, now) ==> (#[trigger] delayed[k]).0 <= now,
        due_count(delayed, now) < delayed.len() ==> delayed[due_count(delayed, now) as int].0 > now,
    decreases delayed.len(),
{
    if delayed.len() > 0 && delayed[0].0 <= now {
        let rest = delayed.skip(1);
        lemma_due_count(rest, now);
        assert forall|k: int| 0 <= k < due_count(delayed, now) implies (#[trigger] delayed[k]).0
            <= now by {
            if k > 0 {
                assert(rest[k - 1] == delayed[k]);
            }
        }
        if due_count(rest, now) < rest.len() {
            assert(rest[due_count(rest, now) as int] == delayed[due_count(delayed, now) as int]);
        }
    }
}

proof fn lemma_due_senders(delayed: Seq<(u64, usize)>, n: nat, stands: Seq<SenderPhase>)
    requires
        n <= delayed.len(),
    ensures
        forall|k: int|
            0 <= k < n && stands[(#[trigger] delayed[k]).1 as int] == SenderPhase::Ready
                ==> due_senders(delayed, n, stands).contains(delayed[k].1),
        forall|k: int|
            0 <= k < due_senders(delayed, n, stands).len() ==> stands[(#[trigger] due_senders(
                delayed,
                n,
                stands,
            )[k]) as int] == SenderPhase::Ready,
    decreases n,
{
    if n > 0 {
        lemma_due_senders(delayed, (n - 1) as nat, stands);
        let earlier = due_senders(delayed, (n - 1) as nat, stands);
        let all = due_senders(delayed, n, stands);
        assert forall|k: int|
            0 <= k < n && stands[(#[trigger] delayed[k]).1 as int]
                == SenderPhase::Ready implies all.contains(delayed[k].1) by {
            if k < n - 1 {
                let j = choose|j: int| 0 <= j < earlier.len() && earlier[j] == delayed[k].1;
                assert(all[j] == delayed[k].1);
            } else {
                assert(all[all.len() - 1] == delayed[k].1);
            }
        }
    }
}

/// An endpoint submits its queued senders in order, each that stands ready and
/// none twice, until 256 submissions are in flight; a sender stays queued only
/// if that limit is reached.
pub proof fn ready_senders_are_submitted_up_to_the_limit(
    ready: Seq<usize>,
    stands: Seq<SenderPhase>,
    tasks: nat,
)
    requires
        tasks <= 256,
        forall|k: int| 0 <= k < ready.len() ==> (#[trigger] ready[k]) < stands.len(),
    ensures
        tasks + picked(ready, stands, tasks).len() <= 256,
        left_ready(ready, stands, tasks).len() > 0 ==> tasks + picked(ready, stands, tasks).len()
            == 256,
        forall|k: int|
            0 <= k < picked(ready, stands, tasks).len() ==> stands[(#[trigger] picked(
                ready,
                stands,
                tasks,
            )[k]) as int] == SenderPhase::Ready,
        picked(ready, stands, tasks).no_duplicates(),
        forall|i: usize| #[trigger]
            picked(ready, stands, tasks).contains(i) ==> ready.contains(i),
        forall|k: int|
            0 <= k < ready.len() && stands[(#[trigger] ready[k]) as int] == SenderPhase::Ready
                ==> picked(ready, stands, tasks).contains(ready[k]) || left_ready(
                ready,
                stands,
                tasks,
            ).contains(ready[k]),
    decreases ready.len(),
{
    if tasks < 256 && ready.len() > 0 {
        let first = ready[0];
        let rest = ready.skip(1);
        let chosen = stands[first as int] == SenderPhase::Ready;
        let then = if chosen {
            stands.update(first as int, SenderPhase::Submitting)
        } else {
            stands
        };
        let count: nat = if chosen {
            tasks + 1
        } else {
            tasks
        };
        assert forall|k: int| 0 <= k < rest.len() implies (#[trigger] rest[k]) < then.len() by {
            assert(rest[k] == ready[k + 1]);
        }
        ready_senders_are_submitted_up_to_the_limit(rest, then, count);
        let more = picked(rest, then, count);
        let all = picked(ready, stands, tasks);
        if chosen {
            assert(all == seq![first] + more);
            assert forall|k: int| 0 <= k < all.len() implies stands[(#[trigger] all[k]) as int]
                == SenderPhase::Ready by {
                if k > 0 {
                    assert(all[k] == more[k - 1]);
                    assert(then[more[k - 1] as int] == SenderPhase::Ready);
                    if more[k - 1] >= stands.len() {
                        assert(more.contains(more[k - 1]));
                        let j = choose|j: int| 0 <= j < rest.len() && rest[j] == more[k - 1];
                        assert(rest[j] < then.len());
                    }
                }
            }
            assert forall|a: int, b: int|
                0 <= a < all.len() && 0 <= b < all.len() && a != b implies all[a] != all[b] by {
                if a == 0 {
                    assert(then[more[b - 1] as int] == SenderPhase::Ready);
                } else if b == 0 {
                    assert(then[more[a - 1] as int] == SenderPhase::Ready);
                } else {
                    assert(more[a - 1] != more[b - 1]);
                }
            }
        } else {
            assert(all == more);
        }
        assert forall|i: usize| #[trigger] all.contains(i) implies ready.contains(i) by {
            let k = choose|k: int| 0 <= k < all.len() && all[k] == i;
            if chosen && k == 0 {
                assert(ready[0] == i);
            } else {
                if chosen {
                    assert(more[k - 1] == i);
                }
                assert(more.contains(i));
                let j = choose|j: int| 0 <= j < rest.len() && rest[j] == i;
                assert(ready[j + 1] == i);
            }
        }
        assert forall|k: int|
            0 <= k < ready.len() && stands[(#[trigger] ready[k]) as int]
                == SenderPhase::Ready implies all.contains(ready[k]) || left_ready(
            ready,
            stands,
            tasks,
        ).contains(ready[k]) by {
            if k == 0 {
                assert(all[0] == ready[0]);
            } else if chosen && ready[k] == first {
                assert(all[0] == ready[k]);
            } else {
                assert(rest[k - 1] == ready[k]);
                assert(then[rest[k - 1] as int] == SenderPhase::Ready);
                if more.contains(ready[k]) && chosen {
                    let j = choose|j: int| 0 <= j < more.len() && more[j] == ready[k];
                    assert(all[j + 1] == ready[k]);
                }
            }
        }
    } else {
        assert forall|k: int|
            0 <= k < ready.len() && stands[(#[trigger] ready[k]) as int]
                == SenderPhase::Ready implies left_ready(ready, stands, tasks).contains(
            ready[k],
        ) by {
            assert(left_ready(ready, stands, tasks)[k] == ready[k]);
        }
    }
}

/// A submission that ends frees its place at the endpoint. A transfer that is
/// refused for now waits there until its backoff has passed, and only one that
/// failed for good is counted as failed.
pub proof fn refused_senders_wait_for_their_backoff(
    home: EndpointState,
    next: EndpointState,
    backoff: u64,
    i: usize,
    result: Result<(), String>,
    now: u64,
)
    requires
        endpoint_goes_on(home, next, backoff, i, result, now),
        home.failed < usize::MAX,
        now + backoff <= u64::MAX,
    ensures
        next.submission_tasks + 1 == home.submission_tasks,
        next.completed == home.completed,
        next.failed == home.failed + 1 <==> result is Err && error_kind(result->Err_0@)
            == SubmissionErrorKind::Fatal,
        result is Ok ==> next.delayed@ == home.delayed@ && next.failed == home.failed,
        result is Err && error_kind(result->Err_0@) == SubmissionErrorKind::RetryRejected ==> {
            &&& next.delayed@.len() == home.delayed@.len() + 1
            &&& next.delayed@.contains(((now + backoff) as u64, i))
        },
        result is Err && error_kind(result->Err_0@) != SubmissionErrorKind::RetryRejected
            ==> next.delayed@ == home.delayed@,
{
    if result is Err && error_kind(result->Err_0@) == SubmissionErrorKind::RetryRejected {
        let at = choose|at: int|
            0 <= at <= home.delayed@.len() && next.delayed@ == home.delayed@.insert(
                at,
                (later(now, backoff), i),
            );
        assert(next.delayed@[at] == ((now + backoff) as u64, i));
    }
}

/// A submission goes to the endpoint whose queue its sender was taken from, and
/// one is made for every sender that was taken.
pub proof fn submissions_go_to_their_endpoint(
    endpoints: Seq<EndpointState>,
    stands: Seq<SenderPhase>,
    n: int,
    e: usize,
    i: usize,
)
    requires
        0 <= n <= endpoints.len(),
        n <= usize::MAX,
    ensures
        submissions_of(endpoints, stands, n).contains(
            Submission { endpoint_index: e, sender_index: i },
        ) <==> e < n && picked(
            endpoints[e as int].ready@,
            stands,
            endpoints[e as int].submission_tasks as nat,
        ).contains(i),
    decreases n,
{
    if n > 0 {
        submissions_go_to_their_endpoint(endpoints, stands, n - 1, e, i);
        let earlier = submissions_of(endpoints, stands, n - 1);
        let home = endpoints[n - 1];
        let chosen = picked(home.ready@, stands, home.submission_tasks as nat);
        let last = at_endpoint(chosen, (n - 1) as usize);
        let all = submissions_of(endpoints, stands, n);
        let one = Submission { endpoint_index: e, sender_index: i };
        assert(all == earlier + last);
        if earlier.contains(one) {
            let k = choose|k: int| 0 <= k < earlier.len() && earlier[k] == one;
            assert(all[k] == one);
        }
        if e == n - 1 && chosen.contains(i) {
            let k = choose|k: int| 0 <= k < chosen.len() && chosen[k] == i;
            assert(last[k] == one);
            assert(all[earlier.len() + k] == one);
        }
        if all.contains(one) {
            let k = choose|k: int| 0 <= k < all.len() && all[k] == one;
            if k < earlier.len() {
                assert(earlier[k] == one);
            } else {
                assert(last[k - earlier.len()] == one);
                assert(chosen[k - earlier.len()] == i);
            }
        }
    }
}

/// Waiting senders are in order of the time they are ready at, and of their
/// index where that is the same.
pub proof fn waiting_is_by_time(a: (u64, usize), b: (u64, usize))
    ensures
        a.0 < b.0 ==> waits_before(a, b) && !waits_before(b, a),
        a.0 == b.0 && a.1 < b.1 ==> waits_before(a, b) && !waits_before(b, a),
        a == b ==> !waits_before(a, b),
{
}

} // verus!
