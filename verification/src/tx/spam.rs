//! Ring transfers at a fixed rate: every account pays the next one, one
//! transfer at a time.

use crate::keys::copy_bytes;
use crate::text::{decimal, decimal_u64, hex, hex_text, join2, join3};
use std::collections::VecDeque;
use vstd::prelude::*;

verus! {

/// What a run is asked to do.
#[derive(Debug)]
pub struct Args {
    /// Number of accounts to create.
    pub count: usize,
    /// Validator HTTP endpoint.
    pub endpoint: String,
    /// Starting seed for deterministic key generation.
    pub seed_start: u64,
    /// Starting nonce for every sender.
    pub nonce: u64,
    /// Fixed submission rate in transactions per second.
    pub tps: u32,
}

/// What a transfer of the ring pays.
pub const RING_TRANSFER_VALUE: u64 = 1;

/// A transfer to submit.
#[derive(Debug)]
pub struct RingTransfer {
    pub sender_index: usize,
    pub seed: u64,
    pub from: Vec<u8>,
    pub to: Vec<u8>,
    pub value: u64,
    pub nonce: u64,
}

/// A sender of the ring, whom it pays and its next nonce. Both accounts are
/// given by address.
#[derive(Debug)]
pub struct RingAccount {
    pub seed: u64,
    pub from: Vec<u8>,
    pub to: Vec<u8>,
    pub next_nonce: u64,
}

/// A ring of `count` accounts from sequential seeds, which have `addresses`:
/// each pays the next, and the last pays the first.
pub fn build_ring_accounts(
    count: usize,
    seed_start: u64,
    nonce: u64,
    addresses: &Vec<Vec<u8>>,
) -> (accounts: Vec<RingAccount>)
    requires
        count > 0,
        seed_start + count - 1 <= u64::MAX,
        addresses.len() == count,
    ensures
        accounts.len() == count,
        forall|i: int|
            0 <= i < count ==> {
                &&& (#[trigger] accounts[i]).seed == seed_start + i
                &&& accounts[i].from@ == addresses[i]@
                &&& accounts[i].to@ == addresses[(i + 1) % count as int]@
                &&& accounts[i].next_nonce == nonce
            },
        is_ring(accounts@, addresses@),
{
    let mut accounts: Vec<RingAccount> = Vec::new();
    let mut at: usize = 0;
    while at < count
        invariant
            at <= count,
            count > 0,
            seed_start + count - 1 <= u64::MAX,
            addresses.len() == count,
            accounts.len() == at,
            forall|i: int|
                0 <= i < at ==> {
                    &&& (#[trigger] accounts[i]).seed == seed_start + i
                    &&& accounts[i].from@ == addresses[i]@
                    &&& accounts[i].to@ == addresses[(i + 1) % count as int]@
                    &&& accounts[i].next_nonce == nonce
                },
        decreases count - at,
    {
        let next: usize = if at + 1 == count {
            0
        } else {
            at + 1
        };
        proof {
            if at + 1 == count {
                vstd::arithmetic::div_mod::lemma_mod_self_0(count as int);
            } else {
                vstd::arithmetic::div_mod::lemma_small_mod((at + 1) as nat, count as nat);
            }
        }
        accounts.push(
            RingAccount {
                seed: seed_start + (at as u64),
                from: copy_bytes(&addresses[at]),
                to: copy_bytes(&addresses[next]),
                next_nonce: nonce,
            },
        );
        at = at + 1;
    }
    accounts
}

/// Whether `accounts` have `addresses`, and each of them pays the next one, the
/// last the first.
pub open spec fn is_ring(accounts: Seq<RingAccount>, addresses: Seq<Vec<u8>>) -> bool {
    &&& accounts.len() == addresses.len()
    &&& forall|i: int|
        0 <= i < accounts.len() ==> {
            &&& (#[trigger] accounts[i]).from@ == addresses[i]@
            &&& accounts[i].to@ == addresses[(i + 1) % accounts.len() as int]@
        }
}

/// Whether `transfer` is the next transfer of sender `i`.
pub open spec fn is_transfer_of(transfer: RingTransfer, accounts: Seq<RingAccount>, i: usize) -> bool {
    let sender = accounts[i as int];
    &&& transfer.sender_index == i
    &&& transfer.seed == sender.seed
    &&& transfer.from@ == sender.from@
    &&& transfer.to@ == sender.to@
    &&& transfer.value == RING_TRANSFER_VALUE
    &&& transfer.nonce == sender.next_nonce
}

/// The next transfer of the sender that has been ready longest.
pub fn next_ring_transfer(accounts: &Vec<RingAccount>, ready: &mut VecDeque<usize>) -> (transfer:
    Option<RingTransfer>)
    requires
        forall|k: int| 0 <= k < old(ready)@.len() ==> (#[trigger] old(ready)@[k]) < accounts@.len(),
    ensures
        transfer is Some <==> old(ready)@.len() > 0,
        transfer matches Some(transfer) ==> is_transfer_of(transfer, accounts@, old(ready)@[0])
            && final(ready)@ == old(ready)@.skip(1),
        transfer is None ==> final(ready)@ == old(ready)@,
{
    let ghost queue = ready@;
    match ready.pop_front() {
        None => None,
        Some(sender_index) => {
            assert(ready@ =~= queue.skip(1));
            assert(queue[0] < accounts@.len());
            let sender = &accounts[sender_index];
            Some(
                RingTransfer {
                    sender_index,
                    seed: sender.seed,
                    from: copy_bytes(&sender.from),
                    to: copy_bytes(&sender.to),
                    value: RING_TRANSFER_VALUE,
                    nonce: sender.next_nonce,
                },
            )
        },
    }
}

/// Transfers that are due after `elapsed_nanos` at `tps` transfers a second.
pub open spec fn due_transfers(elapsed_nanos: u128, tps: u32) -> u64 {
    (elapsed_nanos * tps / 1_000_000_000) as u64
}

/// Transfers that are due after `elapsed_nanos` at `tps` transfers a second.
pub fn dispatch_target(elapsed_nanos: u128, tps: u32) -> (target: u64)
    requires
        elapsed_nanos * tps <= u128::MAX,
    ensures
        target == due_transfers(elapsed_nanos, tps),
{
    #[verifier::truncate]
    ((elapsed_nanos * (tps as u128) / 1_000_000_000) as u64)
}

/// What a run does when nothing more is to be dispatched now.
#[derive(Clone, Copy, Debug, PartialEq, Eq, Structural)]
pub enum Pause {
    /// Let other tasks run, then go on.
    Yield,
    /// Wait for a moment.
    Sleep,
    /// Wait for a submission to end, or for a moment.
    Await,
}

/// What a run does that submitted something, or has something in flight.
pub open spec fn pause_of(submitted: bool, in_flight: bool) -> Pause {
    if submitted {
        Pause::Yield
    } else if !in_flight {
        Pause::Sleep
    } else {
        Pause::Await
    }
}

/// What a run does once it dispatched what it could.
pub fn pause_after(submitted: bool, in_flight: bool) -> (pause: Pause)
    ensures
        pause == pause_of(submitted, in_flight),
{
    if submitted {
        Pause::Yield
    } else if !in_flight {
        Pause::Sleep
    } else {
        Pause::Await
    }
}

/// A run of ring transfers.
pub struct RingRun {
    pub accounts: Vec<RingAccount>,
    pub ready: VecDeque<usize>,
    pub completed: u64,
    pub failed: u64,
    pub dispatched: u64,
    /// Senders whose transfer is in flight.
    pub in_flight: Ghost<Set<usize>>,
}

/// Counts `n` one up, capped at the largest count.
pub open spec fn counted_up(n: u64) -> u64 {
    if n == u64::MAX {
        n
    } else {
        (n + 1) as u64
    }
}

impl RingRun {
    /// Every sender is either ready, once, or has one transfer in flight.
    pub open spec fn wf(&self) -> bool {
        &&& forall|k: int| 0 <= k < self.ready@.len() ==> (#[trigger] self.ready@[k])
            < self.accounts@.len()
        &&& self.ready@.no_duplicates()
        &&& forall|i: usize|
            i < self.accounts@.len() ==> (self.ready@.contains(i) <==> !(
            #[trigger] self.in_flight@.contains(i)))
        &&& forall|i: usize| #[trigger]
            self.in_flight@.contains(i) ==> i < self.accounts@.len()
    }

    /// Whether this is the start of a run over `accounts`.
    pub open spec fn is_start(&self, accounts: Seq<RingAccount>) -> bool {
        &&& self.accounts@ == accounts
        &&& self.ready@ == Seq::new(accounts.len(), |i: int| i as usize)
        &&& self.completed == 0
        &&& self.failed == 0
        &&& self.dispatched == 0
    }

    /// Whether handing `transfer` out led to `next`.
    pub open spec fn dispatches(&self, next: RingRun, transfer: RingTransfer) -> bool {
        &&& is_transfer_of(transfer, self.accounts@, self.ready@[0])
        &&& next.ready@ == self.ready@.skip(1)
        &&& next.accounts == self.accounts
        &&& next.dispatched == self.dispatched + 1
    }

    /// Whether `transfer` ending, `accepted` or not, led to `next`.
    pub open spec fn settles(&self, next: RingRun, transfer: RingTransfer, accepted: bool) -> bool {
        let index = transfer.sender_index as int;
        &&& next.ready@ == self.ready@.push(transfer.sender_index)
        &&& next.dispatched == self.dispatched
        &&& next.completed == counted_up(self.completed)
        &&& next.failed == (if accepted {
            self.failed
        } else {
            counted_up(self.failed)
        })
        &&& next.accounts@ == (if accepted {
            self.accounts@.update(
                index,
                RingAccount {
                    next_nonce: (transfer.nonce + 1) as u64,
                    ..self.accounts@[index]
                },
            )
        } else {
            self.accounts@
        })
    }

    /// A run in which every sender is ready, in order.
    pub fn new(accounts: Vec<RingAccount>) -> (run: Self)
        ensures
            run.wf(),
            run.accounts == accounts,
            run.ready@ == Seq::new(accounts@.len(), |i: int| i as usize),
            run.completed == 0,
            run.failed == 0,
            run.dispatched == 0,
            run.in_flight@ == Set::<usize>::empty(),
            run.is_start(accounts@),
    {
        let mut ready: VecDeque<usize> = VecDeque::new();
        let ghost all = Seq::new(accounts@.len(), |i: int| i as usize);
        let mut i: usize = 0;
        while i < accounts.len()
            invariant
                i <= accounts.len(),
                all == Seq::new(accounts@.len(), |i: int| i as usize),
                ready@ == all.take(i as int),
            decreases accounts.len() - i,
        {
            ready.push_back(i);
            i = i + 1;
            assert(ready@ =~= all.take(i as int));
        }
        proof {
            assert(ready@ =~= all);
            assert forall|k: usize| k < accounts@.len() implies ready@.contains(k) by {
                assert(all[k as int] == k);
            }
            assert forall|a: int, b: int|
                0 <= a < ready@.len() && 0 <= b < ready@.len() && a != b implies ready@[a]
                != ready@[b] by {
                assert(accounts@.len() == accounts.len());
            }
        }
        RingRun {
            accounts,
            ready,
            completed: 0,
            failed: 0,
            dispatched: 0,
            in_flight: Ghost(Set::empty()),
        }
    }

    /// The next transfer, while fewer than `target` were dispatched and a sender
    /// is ready.
    pub fn dispatch(&mut self, target: u64) -> (transfer: Option<RingTransfer>)
        requires
            old(self).wf(),
        ensures
            final(self).wf(),
            final(self).accounts == old(self).accounts,
            final(self).completed == old(self).completed,
            final(self).failed == old(self).failed,
            transfer is Some <==> old(self).dispatched < target && old(self).ready@.len() > 0,
            transfer matches Some(transfer) ==> {
                &&& is_transfer_of(transfer, old(self).accounts@, old(self).ready@[0])
                &&& final(self).ready@ == old(self).ready@.skip(1)
                &&& final(self).dispatched == old(self).dispatched + 1
                &&& !old(self).in_flight@.contains(transfer.sender_index)
                &&& final(self).in_flight@ == old(self).in_flight@.insert(transfer.sender_index)
            },
            transfer is None ==> final(self).ready@ == old(self).ready@ && final(self).dispatched
                == old(self).dispatched && final(self).in_flight@ == old(self).in_flight@,
            transfer matches Some(transfer) ==> old(self).dispatches(*final(self), transfer),
    {
        if self.dispatched >= target {
            return None;
        }
        let ghost queue = self.ready@;
        match next_ring_transfer(&self.accounts, &mut self.ready) {
            None => None,
            Some(transfer) => {
                self.dispatched = self.dispatched + 1;
                self.in_flight = Ghost(self.in_flight@.insert(transfer.sender_index));
                proof {
                    let i = transfer.sender_index;
                    assert(queue.contains(i)) by {
                        assert(queue[0] == i);
                    }
                    assert forall|j: usize| self.ready@.contains(j) == (queue.contains(j) && j
                        != i) by {
                        lemma_skip_contains(queue, j);
                    }
                    assert forall|k: int| 0 <= k < self.ready@.len() implies (
                    #[trigger] self.ready@[k]) < self.accounts@.len() by {
                        assert(self.ready@[k] == queue[k + 1]);
                    }
                }
                Some(transfer)
            },
        }
    }

    /// Takes what became of a sender's transfer: an accepted one moves the
    /// sender's nonce on, and either way the sender is ready again. The result
    /// is the message about a transfer that failed.
    pub fn handle_submission_result(
        &mut self,
        transfer: &RingTransfer,
        submission: Result<(), String>,
    ) -> (message: Option<String>)
        requires
            old(self).wf(),
            old(self).in_flight@.contains(transfer.sender_index),
            submission is Ok ==> transfer.nonce < u64::MAX,
        ensures
            final(self).wf(),
            final(self).completed == counted_up(old(self).completed),
            final(self).ready@ == old(self).ready@.push(transfer.sender_index),
            final(self).in_flight@ == old(self).in_flight@.remove(transfer.sender_index),
            final(self).dispatched == old(self).dispatched,
            match submission {
                Ok(()) => {
                    &&& message is None
                    &&& final(self).failed == old(self).failed
                    &&& final(self).accounts@ == old(self).accounts@.update(
                        transfer.sender_index as int,
                        RingAccount {
                            next_nonce: (transfer.nonce + 1) as u64,
                            ..old(self).accounts@[transfer.sender_index as int]
                        },
                    )
                },
                Err(err) => {
                    &&& message matches Some(text)
                    &&& text@ == hex_text(transfer.from@) + " -> "@ + hex_text(transfer.to@)
                        + " nonce="@ + decimal(transfer.nonce as nat) + ": "@ + err@
                    &&& final(self).failed == counted_up(old(self).failed)
                    &&& final(self).accounts@ == old(self).accounts@
                },
            },
            old(self).settles(*final(self), *transfer, submission is Ok),
    {
        let index: usize = transfer.sender_index;
        let ghost queue = self.ready@;
        self.completed = self.completed.saturating_add(1);
        self.ready.push_back(index);
        self.in_flight = Ghost(self.in_flight@.remove(index));
        proof {
            assert(!queue.contains(index));
            assert forall|j: usize| self.ready@.contains(j) == (queue.contains(j) || j == index) by {
                lemma_pushed(queue, index, j);
            }
        }
        match submission {
            Ok(()) => {
                self.accounts[index].next_nonce = transfer.nonce + 1;
                None
            },
            Err(err) => {
                self.failed = self.failed.saturating_add(1);
                let from = hex(transfer.from.as_slice());
                let to = hex(transfer.to.as_slice());
                let route = join3(from.as_str(), " -> ", to.as_str());
                let numbered = join3(
                    route.as_str(),
                    " nonce=",
                    decimal_u64(transfer.nonce).as_str(),
                );
                Some(join3(numbered.as_str(), ": ", err.as_str()))
            },
        }
    }

    /// Whether the run went without a failed transfer.
    pub fn outcome(&self) -> (result: Result<(), String>)
        ensures
            result is Ok <==> self.failed == 0,
            result matches Err(message) ==> message@ == "failed: "@ + decimal(self.failed as nat),
    {
        if self.failed == 0 {
            return Ok(());
        }
        Err(join2("failed: ", decimal_u64(self.failed).as_str()))
    }
}

proof fn lemma_skip_contains(s: Seq<usize>, j: usize)
    requires
        s.len() > 0,
        s.no_duplicates(),
    ensures
        s.skip(1).contains(j) == (s.contains(j) && j != s[0]),
{
    if s.skip(1).contains(j) {
        let k = choose|k: int| 0 <= k < s.skip(1).len() && s.skip(1)[k] == j;
        assert(s[k + 1] == j);
    }
    if s.contains(j) && j != s[0] {
        let k = choose|k: int| 0 <= k < s.len() && s[k] == j;
        assert(s.skip(1)[k - 1] == j);
    }
}

proof fn lemma_pushed(s: Seq<usize>, x: usize, j: usize)
    ensures
        s.push(x).contains(j) == (s.contains(j) || j == x),
{
    if s.contains(j) {
        let k = choose|k: int| 0 <= k < s.len() && s[k] == j;
        assert(s.push(x)[k] == j);
    }
    if j == x {
        assert(s.push(x)[s.len() as int] == j);
    }
}

/// A sender never has two transfers in flight: while one is, the sender is not
/// ready, so no other can be dispatched.
pub proof fn one_transfer_in_flight(run: &RingRun, i: usize)
    requires
        run.wf(),
        run.in_flight@.contains(i),
    ensures
        !run.ready@.contains(i),
{
}

/// In a ring over given addresses, sender `i` pays from address `i` to address
/// `i + 1`, and the last one to the first. Where the addresses differ, no
/// transfer of two or more accounts pays its own sender.
pub proof fn transfers_go_round_the_ring(
    accounts: Seq<RingAccount>,
    addresses: Seq<Vec<u8>>,
    transfer: RingTransfer,
    i: usize,
)
    requires
        is_ring(accounts, addresses),
        i < accounts.len(),
        is_transfer_of(transfer, accounts, i),
    ensures
        transfer.from@ == addresses[i as int]@,
        i + 1 < addresses.len() ==> transfer.to@ == addresses[i + 1]@,
        i + 1 == addresses.len() ==> transfer.to@ == addresses[0]@,
        transfer.to@ == addresses[(i + 1) % addresses.len() as int]@,
        transfer.value == 1,
        addresses.len() >= 2 && (forall|a: int, b: int|
            0 <= a < b < addresses.len() ==> (#[trigger] addresses[a])@ != (
            #[trigger] addresses[b])@) ==> transfer.to@ != transfer.from@,
{
    let n = addresses.len() as int;
    assert(accounts[i as int].from@ == addresses[i as int]@);
    if i + 1 == n {
        vstd::arithmetic::div_mod::lemma_mod_self_0(n);
        assert(addresses[0]@ == transfer.to@);
    } else {
        vstd::arithmetic::div_mod::lemma_small_mod((i + 1) as nat, n as nat);
        assert(addresses[i + 1]@ == transfer.to@);
    }
}

/// A transfer settles into the sender's next one: after an accepted transfer the
/// sender's nonce is one higher, after a failed one it is the same, and either
/// way sender, recipient and value stay, as does every other account. The ring
/// stays a ring.
pub proof fn nonces_advance_on_acceptance(
    run: RingRun,
    dispatched: RingRun,
    settled: RingRun,
    addresses: Seq<Vec<u8>>,
    first: RingTransfer,
    second: RingTransfer,
    accepted: bool,
)
    requires
        run.wf(),
        run.ready@.len() > 0,
        is_ring(run.accounts@, addresses),
        run.dispatches(dispatched, first),
        dispatched.settles(settled, first, accepted),
        first.nonce < u64::MAX,
        is_transfer_of(second, settled.accounts@, first.sender_index),
    ensures
        first.sender_index == run.ready@[0],
        first.nonce == run.accounts@[run.ready@[0] as int].next_nonce,
        first.seed == run.accounts@[run.ready@[0] as int].seed,
        second.nonce == first.nonce + (if accepted {
            1int
        } else {
            0
        }),
        second.seed == first.seed,
        second.from@ == first.from@,
        second.to@ == first.to@,
        second.value == first.value,
        is_ring(settled.accounts@, addresses),
        forall|j: int|
            0 <= j < run.accounts@.len() && j != first.sender_index ==> settled.accounts@[j]
                == run.accounts@[j],
        settled.dispatched == run.dispatched + 1,
        settled.failed > dispatched.failed ==> !accepted,
        !accepted && dispatched.failed < u64::MAX ==> settled.failed == dispatched.failed + 1,
{
    assert(run.ready@[0] < run.accounts@.len());
    assert(settled.accounts@.len() == run.accounts@.len());
    assert forall|i: int| 0 <= i < settled.accounts@.len() implies {
        &&& (#[trigger] settled.accounts@[i]).from@ == addresses[i]@
        &&& settled.accounts@[i].to@ == addresses[(i + 1) % settled.accounts@.len() as int]@
    } by {
        assert(run.accounts@[i].from@ == addresses[i]@);
    }
}

/// Senders take turns: one whose transfer ended waits behind every sender that
/// was ready before it.
pub proof fn senders_take_turns(
    run: RingRun,
    dispatched: RingRun,
    settled: RingRun,
    transfer: RingTransfer,
    accepted: bool,
)
    requires
        run.ready@.len() > 0,
        run.dispatches(dispatched, transfer),
        dispatched.settles(settled, transfer, accepted),
    ensures
        settled.ready@.len() == run.ready@.len(),
        settled.ready@.last() == run.ready@[0],
        forall|k: int|
            0 <= k < run.ready@.len() - 1 ==> settled.ready@[k] == #[trigger] run.ready@[k + 1],
{
}

/// Every second adds `tps` transfers to what is due, and what is due never
/// shrinks as time passes.
pub proof fn rate_is_kept(seconds: nat, elapsed: u128, later: u128, tps: u32)
    requires
        elapsed <= later,
        later * tps / 1_000_000_000 <= u64::MAX,
        seconds * tps <= u64::MAX,
        seconds * 1_000_000_000 <= u128::MAX,
    ensures
        due_transfers((seconds * 1_000_000_000) as u128, tps) == seconds * tps,
        due_transfers(elapsed, tps) <= due_transfers(later, tps),
        due_transfers(elapsed, tps) * 1_000_000_000 <= elapsed * tps < (due_transfers(elapsed, tps)
            + 1) * 1_000_000_000,
{
    let product = seconds * tps;
    assert((seconds * 1_000_000_000) * tps == product * 1_000_000_000) by (nonlinear_arith)
        requires
            product == seconds * tps,
    ;
    assert(elapsed * tps <= later * tps) by (nonlinear_arith)
        requires
            elapsed <= later,
            0 <= tps,
    ;
    assert(0 <= elapsed * tps) by (nonlinear_arith);
    assert(elapsed * tps / 1_000_000_000 <= later * tps / 1_000_000_000);
}

/// A run starts with the first sender, and every sender is ready in turn before
/// any is ready again.
pub proof fn runs_start_with_the_first_sender(
    run: RingRun,
    accounts: Seq<RingAccount>,
    next: RingRun,
    transfer: RingTransfer,
    i: int,
)
    requires
        run.is_start(accounts),
        accounts.len() <= usize::MAX,
        accounts.len() > 0,
        run.dispatches(next, transfer),
    ensures
        transfer.sender_index == 0,
        transfer.nonce == accounts[0].next_nonce,
        run.dispatched == 0,
        next.dispatched == 1,
        0 <= i < accounts.len() - 1 ==> next.ready@[i] == i + 1,
        next.ready@.len() == accounts.len() - 1,
{
}

/// A run that submitted something goes on at once; one that did not waits, for a
/// submission to end exactly if one is in flight.
pub proof fn idle_runs_wait(submitted: bool, in_flight: bool)
    ensures
        pause_of(submitted, in_flight) == Pause::Yield <==> submitted,
        pause_of(submitted, in_flight) == Pause::Await <==> !submitted && in_flight,
        pause_of(submitted, in_flight) == Pause::Sleep <==> !submitted && !in_flight,
{
}

/// Counts go up by one, as far as counts go.
pub proof fn counts_go_up_by_one(n: u64)
    ensures
        n < u64::MAX ==> counted_up(n) == n + 1,
        n == u64::MAX ==> counted_up(n) == n,
{
}

} // verus!
