//! Concurrent channel lifecycles.
//!
//! Each runner owns a disjoint slice of the channel account ring, so lifecycles
//! never share state: a runner travels into its task and comes back when the
//! lifecycle ends.

use crate::keys::{copy_bytes, sha256};
use crate::spammer::accounts::SpamAccount;
use crate::spammer::channels::{
    receiver_domain, ChannelRunner, OperatorContext, RingFault, CONCURRENT_LIFECYCLES,
};
use vstd::prelude::*;

verus! {

/// Runs several channel runners' lifecycles concurrently.
pub struct LifecyclePool {
    pub idle: Vec<ChannelRunner>,
    /// Runners whose lifecycle is in flight.
    pub busy: usize,
}

/// Runners over a ring of `accounts`: each needs at least two accounts, so small
/// rings get fewer.
pub open spec fn runner_count(accounts: nat) -> nat {
    if accounts / 2 < 1 {
        1
    } else if accounts / 2 > CONCURRENT_LIFECYCLES {
        CONCURRENT_LIFECYCLES as nat
    } else {
        accounts / 2
    }
}

/// The seed of the `index`-th runner's jitter.
pub open spec fn runner_seed(channel_offset: u64, index: int) -> u64 {
    channel_offset.wrapping_add((2 + index) as u64)
}

/// Runners of one pool draw from streams of different seeds, none of them that
/// of the submitter's own draws, which start from the offset plus one.
pub proof fn runners_draw_apart(channel_offset: u64, i: int, j: int)
    requires
        0 <= i < CONCURRENT_LIFECYCLES,
        0 <= j < CONCURRENT_LIFECYCLES,
        i != j,
    ensures
        runner_seed(channel_offset, i) != runner_seed(channel_offset, j),
        runner_seed(channel_offset, i) != channel_offset.wrapping_add(1),
{
}

/// The place of the `k`-th item when every `step`-th is taken from `first` on.
pub open spec fn stride_at(first: int, step: int, k: int) -> int {
    first + k * step
}

/// Whether `item` is the `k`-th item when every `step`-th is taken.
pub open spec fn stride_holds(
    item: SpamAccount,
    whole: Seq<SpamAccount>,
    first: int,
    step: int,
    k: int,
) -> bool {
    &&& 0 <= stride_at(first, step, k)
    &&& stride_at(first, step, k) < whole.len()
    &&& item.same_as(&whole[stride_at(first, step, k)])
}

/// Whether `part` is every `step`-th item of `whole` from `first` on.
pub open spec fn is_stride(
    part: Seq<SpamAccount>,
    whole: Seq<SpamAccount>,
    first: int,
    step: int,
) -> bool {
    &&& forall|k: int|
        0 <= k < part.len() ==> stride_holds(#[trigger] part[k], whole, first, step, k)
    &&& stride_at(first, step, part.len() as int) >= whole.len()
}

fn stride(
    accounts: &Vec<SpamAccount>,
    payers: &Vec<Vec<u8>>,
    first: usize,
    step: usize,
) -> (parts: (Vec<SpamAccount>, Vec<Vec<u8>>))
    requires
        step > 0,
        payers.len() == accounts.len(),
    ensures
        parts.0.len() == parts.1.len(),
        is_stride(parts.0@, accounts@, first as int, step as int),
        forall|k: int|
            0 <= k < parts.1.len() ==> (#[trigger] parts.1@[k])@ == payers@[stride_at(
                first as int,
                step as int,
                k,
            )]@,
        first + step < accounts.len() ==> parts.0.len() >= 2,
{
    let mut slice: Vec<SpamAccount> = Vec::new();
    let mut keys: Vec<Vec<u8>> = Vec::new();
    let mut at: usize = first;
    let mut ended: bool = false;
    while !ended && at < accounts.len()
        invariant
            step > 0,
            payers.len() == accounts.len(),
            slice.len() == keys.len(),
            forall|k: int|
                0 <= k < keys@.len() ==> (#[trigger] keys@[k])@ == payers@[stride_at(
                    first as int,
                    step as int,
                    k,
                )]@,
            forall|k: int|
                0 <= k < slice@.len() ==> stride_holds(
                    #[trigger] slice@[k],
                    accounts@,
                    first as int,
                    step as int,
                    k,
                ),
            !ended ==> at == stride_at(first as int, step as int, slice@.len() as int),
            ended ==> stride_at(first as int, step as int, slice@.len() as int) >= accounts@.len(),
            slice.len() == 0 ==> at == first && !ended,
            slice.len() == 1 ==> ended || at == first + step,
            ended && slice.len() == 1 ==> first + step >= accounts.len(),
        decreases
            (if ended || at >= accounts.len() {
                0int
            } else {
                1 + accounts.len() - at
            }),
    {
        let ghost n = slice@.len() as int;
        proof {
            assert(stride_at(first as int, step as int, n) < accounts@.len());
            assert(n * step >= 0) by (nonlinear_arith)
                requires
                    n >= 0,
                    step >= 0,
            ;
        }
        slice.push(accounts[at].copy());
        keys.push(copy_bytes(&payers[at]));
        proof {
            assert((n + 1) * step == n * step + step) by (nonlinear_arith);
        }
        if step > usize::MAX - at {
            ended = true;
        } else {
            at = at + step;
        }
    }
    (slice, keys)
}

/// Whether `runner` is the `i`-th of `count` runners of a pool at its start: it
/// has every `count`-th account from the `i`-th on, each with the receiver of its
/// own payer, and has done nothing yet.
pub open spec fn is_pool_runner(
    runner: ChannelRunner,
    accounts: Seq<SpamAccount>,
    payers: Seq<Vec<u8>>,
    operator: OperatorContext,
    avg_vouchers: u64,
    channel_offset: u64,
    i: int,
    count: int,
) -> bool {
    &&& runner.wf()
    &&& is_stride(runner.accounts@, accounts, i, count)
    &&& forall|k: int|
        0 <= k < runner.receivers@.len() ==> (#[trigger] runner.receivers@[k])@ == sha256(
            receiver_domain() + payers[stride_at(i, count, k)]@,
        )
    &&& forall|k: int| 0 <= k < runner.nonces@.len() ==> runner.nonces@[k] == 0
    &&& runner.cursor == 0
    &&& runner.expiry_runway == operator.expiry_runway
    &&& runner.voucher_value == operator.voucher_value
    &&& runner.avg_vouchers == avg_vouchers
    &&& runner.rng.seed() == runner_seed(channel_offset, i)
    &&& runner.reclaims@.len() == 0
    &&& !runner.warmed
    &&& runner.channel_txs == 0
    &&& runner.vouchers == 0
}

impl LifecyclePool {
    /// Splits a submitter's channel account ring into per-runner slices so
    /// several lifecycles can be in flight at once.
    pub fn split(
        accounts: &Vec<SpamAccount>,
        payers: &Vec<Vec<u8>>,
        operator: &OperatorContext,
        avg_vouchers: u64,
        channel_offset: u64,
    ) -> (result: Result<Self, RingFault>)
        requires
            payers.len() == accounts.len(),
        ensures
            result is Ok <==> accounts.len() >= 2 && avg_vouchers >= 1 && operator.voucher_value
                >= 1,
            result matches Ok(pool) ==> {
                &&& pool.idle.len() == runner_count(accounts.len() as nat)
                &&& pool.busy == 0
                &&& forall|i: int|
                    0 <= i < pool.idle.len() ==> is_pool_runner(
                        #[trigger] pool.idle[i],
                        accounts@,
                        payers@,
                        *operator,
                        avg_vouchers,
                        channel_offset,
                        i,
                        pool.idle.len() as int,
                    )
            },
            result matches Err(fault) ==> fault == (if accounts.len() < 2 {
                RingFault::TooFewAccounts
            } else if avg_vouchers < 1 {
                RingFault::NoVouchers
            } else {
                RingFault::NoVoucherValue
            }),
    {
        let half: usize = accounts.len() / 2;
        let count: usize = if half < 1 {
            1
        } else if half > CONCURRENT_LIFECYCLES {
            CONCURRENT_LIFECYCLES
        } else {
            half
        };
        let mut idle: Vec<ChannelRunner> = Vec::new();
        let mut index: usize = 0;
        while index < count
            invariant
                index <= count,
                count == runner_count(accounts@.len()),
                1 <= count <= 32,
                payers.len() == accounts.len(),
                accounts.len() >= 2 ==> 2 * count <= accounts.len(),
                idle.len() == index,
                index > 0 ==> accounts.len() >= 2 && avg_vouchers >= 1 && operator.voucher_value
                    >= 1,
                forall|i: int|
                    0 <= i < idle.len() ==> is_pool_runner(
                        #[trigger] idle[i],
                        accounts@,
                        payers@,
                        *operator,
                        avg_vouchers,
                        channel_offset,
                        i,
                        count as int,
                    ),
            decreases count - index,
        {
            let (slice, keys) = stride(accounts, payers, index, count);
            proof {
                if accounts.len() < 2 {
                    assert(slice.len() < 2) by {
                        if slice.len() >= 2 {
                            assert(stride_holds(
                                slice@[1],
                                accounts@,
                                index as int,
                                count as int,
                                1,
                            ));
                        }
                    }
                }
            }
            match ChannelRunner::new(
                slice,
                &keys,
                operator,
                avg_vouchers,
                channel_offset.wrapping_add(2 + (index as u64)),
            ) {
                Err(fault) => {
                    return Err(fault);
                },
                Ok(runner) => {
                    idle.push(runner);
                },
            }
            index = index + 1;
        }
        Ok(LifecyclePool { idle, busy: 0 })
    }

    /// A pool with no runners: channel traffic disabled.
    pub fn disabled() -> (pool: Self)
        ensures
            pool.idle@.len() == 0,
            pool.busy == 0,
    {
        LifecyclePool { idle: Vec::new(), busy: 0 }
    }

    /// Whether the pool has no runners at all.
    pub fn is_empty(&self) -> (empty: bool)
        ensures
            empty == (self.idle.len() == 0 && self.busy == 0),
    {
        self.idle.len() == 0 && self.busy == 0
    }

    /// Whether taking back `finished` and handing out `started` led to `next`.
    pub open spec fn fills(
        &self,
        next: LifecyclePool,
        finished: Seq<ChannelRunner>,
        started: Seq<ChannelRunner>,
    ) -> bool {
        &&& started == (self.idle@ + finished).reverse()
        &&& next.idle@.len() == 0
        &&& next.busy == self.busy + self.idle@.len()
    }

    /// Takes back the runners whose lifecycle finished and hands out every
    /// runner, last first, so that all are busy. Filling the pool, rather than
    /// starting one lifecycle per turn, is what keeps voucher volume up.
    pub fn fill(&mut self, finished: Vec<ChannelRunner>) -> (started: Vec<ChannelRunner>)
        requires
            finished.len() <= old(self).busy,
            old(self).busy + old(self).idle.len() <= usize::MAX,
        ensures
            started@ == (old(self).idle@ + finished@).reverse(),
            final(self).idle@.len() == 0,
            final(self).busy == old(self).busy + old(self).idle.len(),
            old(self).fills(*final(self), finished@, started@),
    {
        let mut finished = finished;
        let ghost all = self.idle@ + finished@;
        let busy: usize = self.busy - finished.len();
        let mut idle: Vec<ChannelRunner> = Vec::new();
        std::mem::swap(&mut idle, &mut self.idle);
        idle.append(&mut finished);
        let count: usize = idle.len();
        let mut started: Vec<ChannelRunner> = Vec::new();
        while idle.len() > 0
            invariant
                count == all.len(),
                idle.len() + started.len() == count,
                idle@ == all.take(idle@.len() as int),
                forall|k: int|
                    0 <= k < started.len() ==> #[trigger] started[k] == all[all.len() - 1 - k],
            decreases idle.len(),
        {
            match idle.pop() {
                None => {},
                Some(runner) => {
                    started.push(runner);
                },
            }
        }
        assert(started@ =~= all.reverse());
        self.busy = busy + count;
        started
    }
}

/// The runners of a pool share the ring out: account `j` belongs to runner
/// `j mod n`, at place `j / n` there, with the receiver of its own payer, and to
/// no other. Every runner starts at its first account with unused nonces.
pub proof fn runners_share_the_ring(
    runners: Seq<ChannelRunner>,
    accounts: Seq<SpamAccount>,
    payers: Seq<Vec<u8>>,
    operator: OperatorContext,
    avg_vouchers: u64,
    channel_offset: u64,
    j: int,
)
    requires
        runners.len() > 0,
        payers.len() == accounts.len(),
        forall|i: int|
            0 <= i < runners.len() ==> is_pool_runner(
                #[trigger] runners[i],
                accounts,
                payers,
                operator,
                avg_vouchers,
                channel_offset,
                i,
                runners.len() as int,
            ),
        0 <= j < accounts.len(),
    ensures
        ({
            let n = runners.len() as int;
            let runner = runners[j % n];
            let k = j / n;
            &&& 0 <= j % n < n
            &&& 0 <= k < runner.accounts@.len()
            &&& runner.accounts@[k].private_key@ == accounts[j].private_key@
            &&& runner.accounts@[k].public_key@ == accounts[j].public_key@
            &&& runner.receivers@[k]@ == sha256(receiver_domain() + payers[j]@)
            &&& runner.nonces@[k] == 0
            &&& runner.cursor == 0
            &&& runner.voucher_value == operator.voucher_value
            &&& runner.expiry_runway == operator.expiry_runway
            &&& runner.avg_vouchers == avg_vouchers
        }),
{
    let n = runners.len() as int;
    let i = j % n;
    let k = j / n;
    vstd::arithmetic::div_mod::lemma_fundamental_div_mod(j, n);
    vstd::arithmetic::div_mod::lemma_mod_bound(j, n);
    vstd::arithmetic::div_mod::lemma_div_pos_is_pos(j, n);
    let runner = runners[i];
    assert(is_pool_runner(
        runner,
        accounts,
        payers,
        operator,
        avg_vouchers,
        channel_offset,
        i,
        n,
    ));
    assert(k * n == n * k) by (nonlinear_arith);
    assert(stride_at(i, n, k) == j);
    let len = runner.accounts@.len() as int;
    if k >= len {
        assert(len * n <= k * n) by (nonlinear_arith)
            requires
                len <= k,
                n > 0,
        ;
        assert(stride_at(i, n, len) >= accounts.len());
        assert(false);
    }
    assert(stride_holds(runner.accounts@[k], accounts, i, n, k));
    assert(runner.receivers@[k]@ == sha256(receiver_domain() + payers[stride_at(i, n, k)]@));
}

/// A pool has one runner for every two accounts, at least one and at most 32.
pub proof fn runners_have_two_accounts_each(accounts: nat)
    ensures
        1 <= runner_count(accounts) <= 32,
        accounts >= 2 ==> 2 * runner_count(accounts) <= accounts,
        2 <= accounts < 66 ==> accounts < 2 * (runner_count(accounts) + 1),
        accounts >= 64 ==> runner_count(accounts) == 32,
{
}

/// Filling a pool makes every runner busy: each that was idle or finished starts,
/// once, the last one first, and no runner is lost or made.
pub proof fn filled_pools_are_busy(
    pool: LifecyclePool,
    next: LifecyclePool,
    finished: Seq<ChannelRunner>,
    started: Seq<ChannelRunner>,
    k: int,
)
    requires
        finished.len() <= pool.busy,
        pool.fills(next, finished, started),
    ensures
        next.idle@.len() == 0,
        next.busy + next.idle@.len() == pool.busy + pool.idle@.len(),
        next.busy == pool.busy - finished.len() + started.len(),
        started.len() == pool.idle@.len() + finished.len(),
        0 <= k < pool.idle@.len() ==> started[started.len() - 1 - k] == pool.idle@[k],
        0 <= k < finished.len() ==> started[finished.len() - 1 - k] == finished[k],
{
}

} // verus!
