//! The consumer of the finalized index queue.
//!
//! Records are read in queue order and admitted within a byte budget. Uploads
//! run concurrently and finish in any order; they are acknowledged in queue
//! order, and payloads are removed once a whole record section is acknowledged.

use crate::validator::budget::{
    charge_of, reservation_of, UploadBudget, UploadCharge, UploadReservation,
};
use crate::validator::capture::{FinalizedQueueRecord, LatestCaptureReceipt};
use crate::validator::payloads::metric;
use std::collections::BTreeMap;
use vstd::prelude::*;

verus! {

broadcast use vstd::std_specs::btree::group_btree_axioms;

/// Queue records per section. Small sections keep the payloads of acknowledged
/// entries on disk only until their section prunes.
pub const FINALIZED_QUEUE_ITEMS_PER_SECTION: u64 = 16;

/// The most uploads that run at once.
pub const MAX_FINALIZED_QUEUE_UPLOADS: usize = 64;

/// A state the consumer must not be in.
#[derive(Clone, Copy, Debug, PartialEq, Eq, Structural)]
pub enum ConsumerFault {
    /// A queue position has no successor.
    PositionOverflow,
    /// A record is not the block of its position.
    Height { position: u64, height: u64 },
    /// A position completed more than once.
    CompletedTwice { position: u64 },
    /// An acknowledged record was never read.
    RecordNotRead { position: u64 },
}

/// A record that waits for the budget.
#[derive(Clone, Copy, Debug, PartialEq, Eq)]
pub struct PendingQueuedUpload {
    pub position: u64,
    pub record: FinalizedQueueRecord,
    pub charge: UploadCharge,
}

/// An upload to start.
#[derive(Clone, Copy, Debug, PartialEq, Eq)]
pub struct UploadStart {
    pub position: u64,
    pub record: FinalizedQueueRecord,
    /// The upload that must have admitted its block first.
    pub turn: Option<u64>,
}

/// What pruning does once a section is acknowledged.
#[derive(Debug)]
pub struct PrunePlan {
    /// Receipt of the last record that is pruned.
    pub receipt: LatestCaptureReceipt,
    /// First position that stays in the queue.
    pub boundary: u64,
    /// Height and length of each payload to remove.
    pub removals: Vec<(u64, u64)>,
}

/// One step of pruning.
#[derive(Clone, Copy, Debug, PartialEq, Eq)]
pub enum PruneStep {
    /// Stores this receipt and syncs it.
    StoreReceipt(LatestCaptureReceipt),
    /// Syncs the queue, which drops every record below this position.
    SyncQueue { boundary: u64 },
    /// Removes the payload of this height, now or later.
    RemovePayload { height: u64, len: u64 },
}

/// The steps of `plan`: the receipt is stored before the queue is synced, and
/// the queue is synced before any payload is removed.
pub open spec fn prune_order(plan: PrunePlan) -> Seq<PruneStep> {
    seq![
        PruneStep::StoreReceipt(plan.receipt),
        PruneStep::SyncQueue { boundary: plan.boundary },
    ] + Seq::new(
        plan.removals@.len(),
        |i: int|
            PruneStep::RemovePayload { height: plan.removals@[i].0, len: plan.removals@[i].1 },
    )
}

/// The steps of `plan`, in order.
///
/// A crash after the receipt is stored leaves one behind a tail that is still
/// there, which recovery accepts, while a crash between a sync and its receipt
/// would leave an empty queue with no boundary. A payload that is not removed is
/// an orphan for the next start to sweep.
pub fn prune_steps(plan: &PrunePlan) -> (steps: Vec<PruneStep>)
    ensures
        steps@ == prune_order(*plan),
{
    let mut steps: Vec<PruneStep> = Vec::new();
    steps.push(PruneStep::StoreReceipt(plan.receipt));
    steps.push(PruneStep::SyncQueue { boundary: plan.boundary });
    let mut i: usize = 0;
    while i < plan.removals.len()
        invariant
            i <= plan.removals.len(),
            steps@ =~= prune_order(*plan).take(2 + i),
        decreases plan.removals.len() - i,
    {
        let (height, len) = plan.removals[i];
        steps.push(PruneStep::RemovePayload { height, len });
        i = i + 1;
    }
    assert(prune_order(*plan).take(prune_order(*plan).len() as int) =~= prune_order(*plan));
    steps
}

/// First position still recoverable after the queue prunes below `ack_floor`.
pub open spec fn section_floor(ack_floor: u64) -> u64 {
    (ack_floor / FINALIZED_QUEUE_ITEMS_PER_SECTION * FINALIZED_QUEUE_ITEMS_PER_SECTION) as u64
}

/// First position still recoverable after the queue prunes below `ack_floor`.
pub fn pruned_record_boundary(ack_floor: u64) -> (boundary: u64)
    ensures
        boundary == section_floor(ack_floor),
{
    ack_floor / FINALIZED_QUEUE_ITEMS_PER_SECTION * FINALIZED_QUEUE_ITEMS_PER_SECTION
}

/// The boundary is the largest whole number of sections at or below the floor,
/// so nothing above the floor is ever pruned, and it never moves back.
pub proof fn boundary_is_the_last_whole_section(ack_floor: u64, later: u64)
    requires
        ack_floor <= later,
    ensures
        section_floor(ack_floor) % FINALIZED_QUEUE_ITEMS_PER_SECTION == 0,
        section_floor(ack_floor) <= ack_floor,
        ack_floor - section_floor(ack_floor) < FINALIZED_QUEUE_ITEMS_PER_SECTION,
        section_floor(ack_floor) <= section_floor(later),
{
}

/// The consumer's state.
pub struct UploadConsumer {
    pub max_active: usize,
    pub budget: UploadBudget,
    /// Positions whose upload runs.
    pub active: Vec<u64>,
    /// Reservations that running uploads hold, by position.
    pub held: Vec<(u64, UploadReservation)>,
    /// Height by position of uploads that finished before their turn to be
    /// acknowledged.
    pub completed: BTreeMap<u64, u64>,
    /// Records read and not yet pruned, by position.
    pub retained: BTreeMap<u64, FinalizedQueueRecord>,
    /// The position to acknowledge next.
    pub next_ack: Option<u64>,
    pub waiting: Option<PendingQueuedUpload>,
    /// The upload that was started last.
    pub admission_turn: Option<u64>,
    /// First position whose payload is still kept.
    pub payload_floor: u64,
    /// Entries not yet acknowledged, as a metric.
    pub pending_uploads: i64,
}

/// Units that reservations hold in all.
pub open spec fn units_held(held: Seq<(u64, UploadReservation)>) -> nat
    decreases held.len(),
{
    if held.len() == 0 {
        0
    } else {
        units_held(held.drop_last()) + held.last().1.permit_units as nat
    }
}

proof fn lemma_units_push(held: Seq<(u64, UploadReservation)>, x: (u64, UploadReservation))
    ensures
        units_held(held.push(x)) == units_held(held) + x.1.permit_units,
{
    assert(held.push(x).drop_last() =~= held);
}

proof fn lemma_units_remove(held: Seq<(u64, UploadReservation)>, i: int)
    requires
        0 <= i < held.len(),
    ensures
        units_held(held.remove(i)) + held[i].1.permit_units == units_held(held),
    decreases held.len(),
{
    if i == held.len() - 1 {
        assert(held.remove(i) =~= held.drop_last());
    } else {
        lemma_units_remove(held.drop_last(), i);
        assert(held.remove(i).drop_last() =~= held.drop_last().remove(i));
        assert(held.remove(i).last() == held.last());
    }
}

/// The fault of a record at a position that is not its block's: position `p`
/// holds the block at height `p + 1`.
pub open spec fn placement_fault(position: u64, record: FinalizedQueueRecord) -> Option<
    ConsumerFault,
> {
    if position == u64::MAX {
        Some(ConsumerFault::PositionOverflow)
    } else if record.receipt.height != position + 1 {
        Some(ConsumerFault::Height { position, height: record.receipt.height })
    } else {
        None
    }
}

/// Whether `plan` prunes the records of `retained` from `floor` to the boundary
/// that `ack_floor` allows.
pub open spec fn is_prune_plan(
    plan: PrunePlan,
    retained: Map<u64, FinalizedQueueRecord>,
    floor: u64,
    ack_floor: u64,
) -> bool {
    let last = (plan.boundary - 1) as u64;
    &&& plan.boundary == section_floor(ack_floor)
    &&& plan.boundary > floor
    &&& retained.contains_key(last)
    &&& plan.receipt == retained[last].receipt
    &&& plan.removals@ == removals_of(retained, floor, plan.boundary)
}

fn check_placement(position: u64, record: &FinalizedQueueRecord) -> (result: Result<
    (),
    ConsumerFault,
>)
    ensures
        match placement_fault(position, *record) {
            Some(fault) => result == Err::<(), ConsumerFault>(fault),
            None => result is Ok,
        },
{
    if position == u64::MAX {
        return Err(ConsumerFault::PositionOverflow);
    }
    if record.receipt.height != position + 1 {
        return Err(ConsumerFault::Height { position, height: record.receipt.height });
    }
    Ok(())
}

/// What pruning up to `boundary` removes: one payload per position from the
/// floor on, with the recorded length where the record was read.
pub open spec fn removals_of(
    retained: Map<u64, FinalizedQueueRecord>,
    floor: u64,
    boundary: u64,
) -> Seq<(u64, u64)> {
    Seq::new(
        (boundary - floor) as nat,
        |i: int|
            (
                (floor + i + 1) as u64,
                if retained.contains_key((floor + i) as u64) {
                    retained[(floor + i) as u64].payload.len
                } else {
                    0
                },
            ),
    )
}

/// What happens to the consumer between two of its states, as far as it bears on
/// acknowledgements.
#[derive(Clone, Copy, Debug, PartialEq, Eq, Structural)]
pub enum ConsumerEvent {
    /// Uploads start, release their budget or are pruned.
    Quiet,
    /// The record at this position was read.
    Read(u64),
    /// The upload at this position was published.
    Completed(u64),
    /// This position is handed out to be acknowledged.
    Taken(u64),
    /// This position was acknowledged.
    Acknowledged(u64),
}

impl UploadConsumer {
    /// Whether the consumer moves from this state to `next` by `event`, as far as
    /// it bears on acknowledgements.
    pub open spec fn steps_to(&self, next: &Self, event: ConsumerEvent) -> bool {
        match event {
            ConsumerEvent::Quiet => next.next_ack == self.next_ack && next.completed@
                == self.completed@,
            ConsumerEvent::Read(position) => next.next_ack == (match self.next_ack {
                Some(ack) => Some(ack),
                None => Some(position),
            }) && next.completed@ == self.completed@,
            ConsumerEvent::Completed(position) => next.next_ack == self.next_ack
                && next.completed@ == self.completed@.insert(position, next.completed@[position]),
            ConsumerEvent::Taken(position) => self.next_ack == Some(position)
                && self.completed@.contains_key(position) && next.next_ack == self.next_ack
                && next.completed@ == self.completed@.remove(position),
            ConsumerEvent::Acknowledged(position) => position < u64::MAX && next.next_ack == Some(
                (position + 1) as u64,
            ) && next.completed@ == self.completed@,
        }
    }

    /// The budget's units are either available or held by a running upload,
    /// and no more uploads run than may.
    pub open spec fn wf(&self) -> bool {
        &&& self.max_active >= 1
        &&& self.active.len() <= self.max_active
        &&& self.budget.wf()
        &&& self.budget.available_units + units_held(self.held@) == self.budget.total_units
        &&& self.waiting matches Some(pending) ==> pending.charge == charge_of(
            self.budget.total_units,
            pending.record.payload.len,
        )
    }

    /// Whether nothing but the budget and the set of uploads moved.
    pub open spec fn same_ledger(&self, other: &Self) -> bool {
        &&& self.max_active == other.max_active
        &&& self.completed@ == other.completed@
        &&& self.retained@ == other.retained@
        &&& self.next_ack == other.next_ack
        &&& self.payload_floor == other.payload_floor
        &&& self.pending_uploads == other.pending_uploads
    }

    /// A consumer that has read nothing.
    pub fn new(max_active: usize, budget: UploadBudget, payload_floor: u64, pending_uploads: i64)
        -> (consumer: Self)
        requires
            budget.wf(),
            budget.available_units == budget.total_units,
        ensures
            consumer.wf(),
            consumer.max_active == (if max_active == 0 {
                1
            } else {
                max_active
            }),
            consumer.budget == budget,
            consumer.active@.len() == 0,
            consumer.held@.len() == 0,
            consumer.completed@ == Map::<u64, u64>::empty(),
            consumer.retained@ == Map::<u64, FinalizedQueueRecord>::empty(),
            consumer.next_ack is None,
            consumer.waiting is None,
            consumer.admission_turn is None,
            consumer.payload_floor == payload_floor,
            consumer.pending_uploads == pending_uploads,
    {
        UploadConsumer {
            max_active: if max_active == 0 {
                1
            } else {
                max_active
            },
            budget,
            active: Vec::new(),
            held: Vec::new(),
            completed: BTreeMap::new(),
            retained: BTreeMap::new(),
            next_ack: None,
            waiting: None,
            admission_turn: None,
            payload_floor,
            pending_uploads,
        }
    }

    /// Whether the consumer reads the queue.
    pub open spec fn reads(&self) -> bool {
        self.waiting is None && self.active.len() < self.max_active
    }

    /// Whether no other upload may run.
    pub open spec fn is_full(&self) -> bool {
        self.active.len() >= self.max_active
    }

    /// Whether the consumer reads the queue: nothing waits for the budget and
    /// another upload may run.
    pub fn wants_record(&self) -> (wants: bool)
        ensures
            wants == self.reads(),
    {
        self.waiting.is_none() && self.active.len() < self.max_active
    }

    /// Whether the next completion frees a place that the consumer is out of.
    pub fn at_capacity(&self) -> (full: bool)
        ensures
            full == self.is_full(),
    {
        self.active.len() >= self.max_active
    }

    fn start(
        &mut self,
        position: u64,
        record: FinalizedQueueRecord,
        reservation: UploadReservation,
    ) -> (start: UploadStart)
        ensures
            start == (UploadStart { position, record, turn: old(self).admission_turn }),
            final(self).active@ == old(self).active@.push(position),
            final(self).held@ == old(self).held@.push((position, reservation)),
            final(self).admission_turn == Some(position),
            final(self).budget == old(self).budget,
            final(self).waiting == old(self).waiting,
            final(self).same_ledger(old(self)),
    {
        let turn: Option<u64> = self.admission_turn;
        self.active.push(position);
        self.held.push((position, reservation));
        self.admission_turn = Some(position);
        UploadStart { position, record, turn }
    }

    /// The consumer after the upload of `charge` was started.
    pub open spec fn started(
        &self,
        before: &Self,
        position: u64,
        charge: UploadCharge,
    ) -> bool {
        &&& self.budget.available_units == before.budget.available_units - charge.permit_units
        &&& self.budget.total_units == before.budget.total_units
        &&& self.active@ == before.active@.push(position)
        &&& self.held@ == before.held@.push((position, reservation_of(charge)))
        &&& self.admission_turn == Some(position)
        &&& self.waiting is None
    }

    /// Whether starting `start` led this consumer to `next`.
    pub open spec fn starts(&self, next: &Self, start: UploadStart) -> bool {
        let charge = charge_of(self.budget.total_units, start.record.payload.len);
        &&& placement_fault(start.position, start.record) is None
        &&& charge.permit_units <= self.budget.available_units
        &&& start.turn == self.admission_turn
        &&& next.started(self, start.position, charge)
    }

    /// Takes a record that was read from the queue.
    ///
    /// It starts at once where the budget admits it, after the upload started
    /// before it; else it waits, and nothing is read behind it.
    pub fn record_read(&mut self, position: u64, record: FinalizedQueueRecord) -> (result: Result<
        Option<UploadStart>,
        ConsumerFault,
    >)
        requires
            old(self).wf(),
            old(self).waiting is None,
            old(self).active.len() < old(self).max_active,
        ensures
            final(self).wf(),
            old(self).steps_to(final(self), ConsumerEvent::Read(position)),
            result matches Ok(Some(start)) ==> old(self).starts(final(self), start),
            final(self).max_active == old(self).max_active,
            final(self).retained@ == old(self).retained@.insert(position, record),
            final(self).next_ack == (match old(self).next_ack {
                Some(next) => Some(next),
                None => Some(position),
            }),
            final(self).completed@ == old(self).completed@,
            final(self).payload_floor == old(self).payload_floor,
            final(self).pending_uploads == old(self).pending_uploads,
            ({
                let charge = charge_of(old(self).budget.total_units, record.payload.len);
                if charge.permit_units <= old(self).budget.available_units {
                    match placement_fault(position, record) {
                        Some(fault) => result == Err::<Option<UploadStart>, ConsumerFault>(fault)
                            && final(self).budget == old(self).budget && final(self).active@
                            == old(self).active@ && final(self).held@ == old(self).held@
                            && final(self).waiting is None && final(self).admission_turn == old(
                            self,
                        ).admission_turn,
                        None => {
                            &&& result == Ok::<Option<UploadStart>, ConsumerFault>(
                                Some(
                                    UploadStart {
                                        position,
                                        record,
                                        turn: old(self).admission_turn,
                                    },
                                ),
                            )
                            &&& final(self).started(old(self), position, charge)
                            &&& final(self).budget == old(self).budget.reserved(charge)
                        },
                    }
                } else {
                    &&& result == Ok::<Option<UploadStart>, ConsumerFault>(None)
                    &&& final(self).waiting == Some(
                        PendingQueuedUpload { position, record, charge },
                    )
                    &&& final(self).active@ == old(self).active@
                    &&& final(self).held@ == old(self).held@
                    &&& final(self).admission_turn == old(self).admission_turn
                    &&& final(self).budget == old(self).budget.blocked(charge)
                }
            }),
    {
        if self.next_ack.is_none() {
            self.next_ack = Some(position);
        }
        self.retained.insert(position, record);
        let charge: UploadCharge = self.budget.charge(record.payload.len);
        if charge.permit_units <= self.budget.available_units {
            match check_placement(position, &record) {
                Err(fault) => {
                    return Err(fault);
                },
                Ok(()) => {},
            }
        }
        match self.budget.try_reserve(charge) {
            Some(reservation) => {
                proof {
                    lemma_units_push(self.held@, (position, reservation));
                }
                Ok(Some(self.start(position, record, reservation)))
            },
            None => {
                self.budget.mark_waiting(charge);
                self.waiting = Some(PendingQueuedUpload { position, record, charge });
                Ok(None)
            },
        }
    }

    /// Starts the waiting upload once the budget admits it and another upload
    /// may run.
    pub fn admit_waiting(&mut self) -> (result: Result<Option<UploadStart>, ConsumerFault>)
        requires
            old(self).wf(),
        ensures
            final(self).wf(),
            old(self).steps_to(final(self), ConsumerEvent::Quiet),
            result matches Ok(Some(start)) ==> old(self).starts(final(self), start),
            final(self).same_ledger(old(self)),
            match old(self).waiting {
                Some(pending) if old(self).active.len() < old(self).max_active
                    && pending.charge.permit_units <= old(self).budget.available_units =>
                    match placement_fault(pending.position, pending.record) {
                        Some(fault) => result == Err::<Option<UploadStart>, ConsumerFault>(fault)
                            && *final(self) == *old(self),
                        None => {
                            &&& result == Ok::<Option<UploadStart>, ConsumerFault>(
                                Some(
                                    UploadStart {
                                        position: pending.position,
                                        record: pending.record,
                                        turn: old(self).admission_turn,
                                    },
                                ),
                            )
                            &&& final(self).started(old(self), pending.position, pending.charge)
                            &&& final(self).budget == old(self).budget.reserved(
                                pending.charge,
                            ).unblocked()
                        },
                    },
                _ => result == Ok::<Option<UploadStart>, ConsumerFault>(None) && *final(self)
                    == *old(self),
            },
    {
        match self.waiting {
            None => Ok(None),
            Some(pending) => {
                if self.active.len() >= self.max_active {
                    return Ok(None);
                }
                if pending.charge.permit_units > self.budget.available_units {
                    return Ok(None);
                }
                match check_placement(pending.position, &pending.record) {
                    Err(fault) => {
                        return Err(fault);
                    },
                    Ok(()) => {},
                }
                match self.budget.try_reserve(pending.charge) {
                    None => Ok(None),
                    Some(reservation) => {
                        proof {
                            lemma_units_push(self.held@, (pending.position, reservation));
                        }
                        self.budget.clear_waiting();
                        self.waiting = None;
                        Ok(Some(self.start(pending.position, pending.record, reservation)))
                    },
                }
            },
        }
    }

    /// Gives back what the upload at `position` holds of the budget, once its
    /// own uploads are durable. It is not held until the upload is published:
    /// publication is in order and can wait on earlier blocks.
    pub fn durable(&mut self, position: u64) -> (released: bool)
        requires
            old(self).wf(),
        ensures
            final(self).wf(),
            old(self).steps_to(final(self), ConsumerEvent::Quiet),
            final(self).same_ledger(old(self)),
            final(self).active@ == old(self).active@,
            final(self).waiting == old(self).waiting,
            final(self).admission_turn == old(self).admission_turn,
            released == (exists|i: int|
                0 <= i < old(self).held.len() && (#[trigger] old(self).held[i]).0 == position),
            !released ==> *final(self) == *old(self),
            released ==> exists|i: int|
                0 <= i < old(self).held.len() && (#[trigger] old(self).held[i]).0 == position
                    && final(self).held@ == old(self).held@.remove(i) && final(self).budget
                    == old(self).budget.released(old(self).held[i].1),
    {
        let mut i: usize = 0;
        while i < self.held.len()
            invariant
                *self == *old(self),
                self.wf(),
                i <= self.held.len(),
                forall|j: int| 0 <= j < i ==> (#[trigger] self.held[j]).0 != position,
            decreases self.held.len() - i,
        {
            if self.held[i].0 == position {
                proof {
                    lemma_units_remove(self.held@, i as int);
                }
                let (_, reservation) = self.held.remove(i);
                assert(old(self).held[i as int] == (position, reservation));
                self.budget.release(reservation);
                return true;
            }
            i = i + 1;
        }
        false
    }

    /// Takes an upload that was published.
    pub fn completed(&mut self, position: u64, height: u64) -> (result: Result<(), ConsumerFault>)
        requires
            old(self).wf(),
        ensures
            final(self).wf(),
            old(self).steps_to(
                final(self),
                if result is Ok {
                    ConsumerEvent::Completed(position)
                } else {
                    ConsumerEvent::Quiet
                },
            ),
            old(self).completed@.contains_key(position) ==> result == Err::<(), ConsumerFault>(
                ConsumerFault::CompletedTwice { position },
            ) && *final(self) == *old(self),
            !old(self).completed@.contains_key(position) ==> {
                &&& result is Ok
                &&& final(self).completed@ == old(self).completed@.insert(position, height)
                &&& final(self).max_active == old(self).max_active
                &&& final(self).budget == old(self).budget
                &&& final(self).held@ == old(self).held@
                &&& final(self).retained@ == old(self).retained@
                &&& final(self).next_ack == old(self).next_ack
                &&& final(self).waiting == old(self).waiting
                &&& final(self).admission_turn == old(self).admission_turn
                &&& final(self).payload_floor == old(self).payload_floor
                &&& final(self).pending_uploads == old(self).pending_uploads
                &&& old(self).active@.contains(position) ==> final(self).active@ == old(
                    self,
                ).active@.remove(old(self).active@.index_of_first(position).unwrap())
                &&& !old(self).active@.contains(position) ==> final(self).active@ == old(
                    self,
                ).active@
            },
    {
        if self.completed.contains_key(&position) {
            return Err(ConsumerFault::CompletedTwice { position });
        }
        let mut i: usize = 0;
        while i < self.active.len()
            invariant
                *self == *old(self),
                self.wf(),
                i <= self.active.len(),
                forall|j: int| 0 <= j < i ==> self.active@[j] != position,
            ensures
                i < self.active.len() ==> self.active@[i as int] == position,
                i <= self.active.len(),
            decreases self.active.len() - i,
        {
            if self.active[i] == position {
                break;
            }
            i = i + 1;
        }
        if i < self.active.len() {
            proof {
                self.active@.index_of_first_ensures(position);
                let k = self.active@.index_of_first(position).unwrap();
                assert(k == i);
            }
            self.active.remove(i);
        }
        self.completed.insert(position, height);
        Ok(())
    }

    /// The entry to acknowledge: the next position in queue order, once its
    /// upload was published.
    pub fn take_ack(&mut self) -> (ack: Option<(u64, u64)>)
        requires
            old(self).wf(),
        ensures
            final(self).wf(),
            old(self).steps_to(
                final(self),
                match ack {
                    Some((position, _)) => ConsumerEvent::Taken(position),
                    None => ConsumerEvent::Quiet,
                },
            ),
            match old(self).next_ack {
                Some(position) if old(self).completed@.contains_key(position) => {
                    &&& ack == Some((position, old(self).completed@[position]))
                    &&& final(self).completed@ == old(self).completed@.remove(position)
                    &&& final(self).max_active == old(self).max_active
                    &&& final(self).budget == old(self).budget
                    &&& final(self).active@ == old(self).active@
                    &&& final(self).held@ == old(self).held@
                    &&& final(self).retained@ == old(self).retained@
                    &&& final(self).next_ack == old(self).next_ack
                    &&& final(self).waiting == old(self).waiting
                    &&& final(self).admission_turn == old(self).admission_turn
                    &&& final(self).payload_floor == old(self).payload_floor
                    &&& final(self).pending_uploads == old(self).pending_uploads
                },
                _ => ack is None && *final(self) == *old(self),
            },
    {
        match self.next_ack {
            None => None,
            Some(position) => {
                if !self.completed.contains_key(&position) {
                    return None;
                }
                match self.completed.remove(&position) {
                    None => None,
                    Some(height) => Some((position, height)),
                }
            },
        }
    }

    /// Moves on to the position after an acknowledged one.
    pub fn acknowledged(&mut self, position: u64) -> (result: Result<(), ConsumerFault>)
        requires
            old(self).wf(),
        ensures
            final(self).wf(),
            old(self).steps_to(
                final(self),
                if result is Ok {
                    ConsumerEvent::Acknowledged(position)
                } else {
                    ConsumerEvent::Quiet
                },
            ),
            final(self).pending_uploads == old(self).pending_uploads.wrapping_sub(1),
            position == u64::MAX ==> result == Err::<(), ConsumerFault>(
                ConsumerFault::PositionOverflow,
            ) && final(self).next_ack == old(self).next_ack,
            position < u64::MAX ==> result is Ok && final(self).next_ack == Some(
                (position + 1) as u64,
            ),
            final(self).max_active == old(self).max_active,
            final(self).budget == old(self).budget,
            final(self).active@ == old(self).active@,
            final(self).held@ == old(self).held@,
            final(self).completed@ == old(self).completed@,
            final(self).retained@ == old(self).retained@,
            final(self).waiting == old(self).waiting,
            final(self).admission_turn == old(self).admission_turn,
            final(self).payload_floor == old(self).payload_floor,
    {
        self.pending_uploads = self.pending_uploads.wrapping_sub(1);
        if position == u64::MAX {
            return Err(ConsumerFault::PositionOverflow);
        }
        self.next_ack = Some(position + 1);
        Ok(())
    }

    /// Plans the pruning that an acknowledgement floor allows.
    ///
    /// Acknowledgements live in memory, and a restart redelivers every record
    /// above the pruning boundary, so payloads outlive their acknowledgement
    /// until the section that holds their record prunes. The receipt of the
    /// last record in the pruned range is stored first.
    pub fn prune(&mut self, ack_floor: u64) -> (result: Result<Option<PrunePlan>, ConsumerFault>)
        requires
            old(self).wf(),
        ensures
            final(self).wf(),
            old(self).steps_to(final(self), ConsumerEvent::Quiet),
            ({
                let floor = old(self).payload_floor;
                let boundary = section_floor(ack_floor);
                let last = (boundary - 1) as u64;
                if boundary <= floor {
                    result == Ok::<Option<PrunePlan>, ConsumerFault>(None) && *final(self) == *old(
                        self,
                    )
                } else if !old(self).retained@.contains_key(last) {
                    result == Err::<Option<PrunePlan>, ConsumerFault>(
                        ConsumerFault::RecordNotRead { position: last },
                    ) && *final(self) == *old(self)
                } else {
                    &&& result matches Ok(Some(plan))
                    &&& is_prune_plan(plan, old(self).retained@, floor, ack_floor)
                    &&& final(self).payload_floor == boundary
                    &&& final(self).retained@ == old(self).retained@.remove_keys(
                        Set::new(|p: u64| floor <= p < boundary),
                    )
                    &&& final(self).max_active == old(self).max_active
                    &&& final(self).budget == old(self).budget
                    &&& final(self).active@ == old(self).active@
                    &&& final(self).held@ == old(self).held@
                    &&& final(self).completed@ == old(self).completed@
                    &&& final(self).next_ack == old(self).next_ack
                    &&& final(self).waiting == old(self).waiting
                    &&& final(self).admission_turn == old(self).admission_turn
                    &&& final(self).pending_uploads == old(self).pending_uploads
                }
            }),
    {
        let boundary: u64 = pruned_record_boundary(ack_floor);
        if boundary <= self.payload_floor {
            return Ok(None);
        }
        let last: u64 = boundary - 1;
        let receipt: LatestCaptureReceipt = match self.retained.get(&last) {
            None => {
                return Err(ConsumerFault::RecordNotRead { position: last });
            },
            Some(record) => record.receipt,
        };
        let ghost floor = self.payload_floor;
        let ghost all = removals_of(old(self).retained@, floor, boundary);
        let mut removals: Vec<(u64, u64)> = Vec::new();
        while self.payload_floor < boundary
            invariant
                self.wf(),
                floor == old(self).payload_floor,
                floor <= self.payload_floor <= boundary,
                all == removals_of(old(self).retained@, floor, boundary),
                removals@ == all.take(self.payload_floor - floor),
                self.retained@ == old(self).retained@.remove_keys(
                    Set::new(|p: u64| floor <= p < self.payload_floor),
                ),
                self.max_active == old(self).max_active,
                self.budget == old(self).budget,
                self.active@ == old(self).active@,
                self.held@ == old(self).held@,
                self.completed@ == old(self).completed@,
                self.next_ack == old(self).next_ack,
                self.waiting == old(self).waiting,
                self.admission_turn == old(self).admission_turn,
                self.pending_uploads == old(self).pending_uploads,
            decreases boundary - self.payload_floor,
        {
            let position: u64 = self.payload_floor;
            let height: u64 = position + 1;
            let ghost before = self.retained@;
            let len: u64 = match self.retained.remove(&position) {
                Some(record) => record.payload.len,
                None => 0,
            };
            removals.push((height, len));
            self.payload_floor = height;
            proof {
                let done = position - floor;
                assert(all[done] == (height, len));
                assert(removals@ =~= all.take(done + 1));
                assert(self.retained@ =~= old(self).retained@.remove_keys(
                    Set::new(|p: u64| floor <= p < height),
                ));
            }
        }
        assert(all.take(all.len() as int) =~= all);
        Ok(Some(PrunePlan { receipt, boundary, removals }))
    }
}

/// The position that was handed out and not yet acknowledged after the first `k`
/// events.
pub open spec fn outstanding(events: Seq<ConsumerEvent>, k: int) -> Option<u64>
    decreases k,
{
    if k <= 0 {
        None
    } else {
        match events[k - 1] {
            ConsumerEvent::Taken(position) => Some(position),
            ConsumerEvent::Acknowledged(_) => None,
            _ => outstanding(events, k - 1),
        }
    }
}

/// The positions that were handed out to be acknowledged in the first `k`
/// events, in order.
pub open spec fn handed_out(events: Seq<ConsumerEvent>, k: int) -> Seq<u64>
    decreases k,
{
    if k <= 0 {
        Seq::empty()
    } else {
        match events[k - 1] {
            ConsumerEvent::Taken(position) => handed_out(events, k - 1).push(position),
            _ => handed_out(events, k - 1),
        }
    }
}

/// Whether the upload at `position` was published in the first `k` events.
pub open spec fn was_completed(events: Seq<ConsumerEvent>, position: u64, k: int) -> bool {
    exists|b: int| 0 <= b < k && #[trigger] events[b] == ConsumerEvent::Completed(position)
}

/// Whether `run` is a run of the consumer in which `first` is the first position
/// that is read, and in which a position that is handed out is acknowledged
/// before another is handed out.
pub open spec fn is_consumer_run(
    run: Seq<UploadConsumer>,
    events: Seq<ConsumerEvent>,
    first: u64,
) -> bool {
    &&& run.len() == events.len() + 1
    &&& run[0].next_ack is None
    &&& run[0].completed@ == Map::<u64, u64>::empty()
    &&& forall|k: int|
        0 <= k < events.len() ==> (#[trigger] run[k]).steps_to(&run[k + 1], events[k])
    &&& forall|k: int|
        0 <= k < events.len() ==> match #[trigger] events[k] {
            ConsumerEvent::Read(position) => run[k].next_ack is None ==> position == first,
            ConsumerEvent::Taken(_) => outstanding(events, k) is None,
            ConsumerEvent::Acknowledged(position) => outstanding(events, k) == Some(position),
            _ => true,
        }
}

/// What holds after the first `k` events of a run.
spec fn run_holds(
    run: Seq<UploadConsumer>,
    events: Seq<ConsumerEvent>,
    first: u64,
    k: int,
) -> bool {
    let out = handed_out(events, k);
    let open = outstanding(events, k);
    &&& forall|i: int| 0 <= i < out.len() ==> #[trigger] out[i] == first + i
    &&& forall|i: int| 0 <= i < out.len() ==> was_completed(events, #[trigger] out[i], k)
    &&& forall|q: u64| #[trigger]
        run[k].completed@.contains_key(q) ==> was_completed(events, q, k)
    &&& open matches Some(position) ==> out.len() > 0 && position == out.last()
        && run[k].next_ack == Some(position)
    &&& match run[k].next_ack {
        None => out.len() == 0,
        Some(position) => open is None ==> position == first + out.len(),
    }
}

proof fn lemma_completed_stays(events: Seq<ConsumerEvent>, q: u64, k: int)
    requires
        was_completed(events, q, k),
    ensures
        was_completed(events, q, k + 1),
{
    let b = choose|b: int| 0 <= b < k && #[trigger] events[b] == ConsumerEvent::Completed(q);
    assert(events[b] == ConsumerEvent::Completed(q));
}

proof fn lemma_run_holds(
    run: Seq<UploadConsumer>,
    events: Seq<ConsumerEvent>,
    first: u64,
    k: int,
)
    requires
        is_consumer_run(run, events, first),
        0 <= k < run.len(),
    ensures
        run_holds(run, events, first, k),
    decreases k,
{
    if k > 0 {
        let p = k - 1;
        lemma_run_holds(run, events, first, p);
        assert(run[p].steps_to(&run[p + 1], events[p]));
        let event = events[p];
        let before = handed_out(events, p);
        let out = handed_out(events, k);
        assert forall|q: u64| #[trigger] run[k].completed@.contains_key(q) implies was_completed(
            events,
            q,
            k,
        ) by {
            if event == ConsumerEvent::Completed(q) {
                assert(events[p] == ConsumerEvent::Completed(q));
            } else {
                assert(run[p].completed@.contains_key(q));
                lemma_completed_stays(events, q, p);
            }
        }
        assert forall|i: int| 0 <= i < out.len() implies was_completed(
            events,
            #[trigger] out[i],
            k,
        ) by {
            if i < before.len() {
                assert(out[i] == before[i]);
                lemma_completed_stays(events, before[i], p);
            } else {
                assert(run[p].completed@.contains_key(out[i]));
                lemma_completed_stays(events, out[i], p);
            }
        }
        assert forall|i: int| 0 <= i < out.len() implies #[trigger] out[i] == first + i by {
            if i < before.len() {
                assert(out[i] == before[i]);
            }
        }
    }
}

proof fn lemma_taken(
    run: Seq<UploadConsumer>,
    events: Seq<ConsumerEvent>,
    first: u64,
    k: int,
    position: u64,
)
    requires
        run_holds(run, events, first, k),
        outstanding(events, k) is None,
        run[k].next_ack == Some(position),
        run[k].completed@.contains_key(position),
    ensures
        position == first + handed_out(events, k).len(),
        forall|i: int|
            0 <= i < handed_out(events, k).len() ==> #[trigger] handed_out(events, k)[i] == first
                + i,
        forall|q: u64| first <= q <= position ==> #[trigger] was_completed(events, q, k),
{
    let out = handed_out(events, k);
    assert forall|q: u64| first <= q <= position implies #[trigger] was_completed(events, q, k) by {
        if q < position {
            assert(out[q - first] == q);
        }
    }
}

/// Positions are acknowledged in queue order without a gap, and each only after
/// the uploads of it and of every position before it were published, in whatever
/// order they finished: a position that is handed out is the one after all that
/// were handed out before it.
pub proof fn acknowledgements_follow_the_queue(
    run: Seq<UploadConsumer>,
    events: Seq<ConsumerEvent>,
    first: u64,
    k: int,
    position: u64,
)
    requires
        is_consumer_run(run, events, first),
        0 <= k < events.len(),
        events[k] == ConsumerEvent::Taken(position),
    ensures
        position == first + handed_out(events, k).len(),
        forall|i: int|
            0 <= i < handed_out(events, k).len() ==> #[trigger] handed_out(events, k)[i] == first
                + i,
        forall|q: u64| first <= q <= position ==> #[trigger] was_completed(events, q, k),
{
    lemma_run_holds(run, events, first, k);
    assert(run[k].steps_to(&run[k + 1], events[k]));
    lemma_taken(run, events, first, k, position);
}

/// While any upload is held, the budget has fewer units to give; the units held
/// never exceed the budget.
pub proof fn held_units_stay_within_the_budget(consumer: &UploadConsumer)
    requires
        consumer.wf(),
    ensures
        units_held(consumer.held@) <= consumer.budget.total_units,
        consumer.active.len() <= consumer.max_active,
{
}

/// A record belongs at a position exactly if its height is one above it, which
/// is so of every entry that a scan of the queue accepts. A fault names the
/// position and the height that does not belong there.
pub proof fn scanned_entries_are_in_place(
    previous: Option<FinalizedQueueRecord>,
    position: u64,
    record: FinalizedQueueRecord,
)
    ensures
        placement_fault(position, record) is None <==> position < u64::MAX && record.receipt.height
            == position + 1,
        crate::validator::recovery::entry_fault(previous, position, record) is None
            ==> placement_fault(position, record) is None,
        placement_fault(position, record) matches Some(
            ConsumerFault::Height { position: at, height },
        ) ==> at == position && height == record.receipt.height,
{
}

/// Uploads admit their blocks in the order in which they start: each waits for
/// the one started before it, and the first for none. An upload takes from the
/// budget what its payload is charged, and holds it.
pub proof fn uploads_take_turns(
    consumer: UploadConsumer,
    between: UploadConsumer,
    after: UploadConsumer,
    first: UploadStart,
    second: UploadStart,
)
    requires
        consumer.starts(&between, first),
        between.starts(&after, second),
    ensures
        second.turn == Some(first.position),
        consumer.admission_turn is None ==> first.turn is None,
        first.record.receipt.height == first.position + 1,
        after.active@ == consumer.active@.push(first.position).push(second.position),
        after.held@.len() == consumer.held@.len() + 2,
        after.held@.last().0 == second.position,
        after.budget.total_units == consumer.budget.total_units,
        after.budget.available_units == consumer.budget.available_units - charge_of(
            consumer.budget.total_units,
            first.record.payload.len,
        ).permit_units - charge_of(
            consumer.budget.total_units,
            second.record.payload.len,
        ).permit_units,
        after.held@.last().1.permit_units == charge_of(
            consumer.budget.total_units,
            second.record.payload.len,
        ).permit_units,
{
}

/// Pruning removes whole sections that are acknowledged, and no payload twice:
/// one for each height above the floor up to the boundary, in order, at its
/// recorded length. The receipt that is stored is that of the last block whose
/// record goes, so that nothing above the boundary is forgotten.
pub proof fn pruning_removes_whole_sections(
    plan: PrunePlan,
    retained: Map<u64, FinalizedQueueRecord>,
    floor: u64,
    ack_floor: u64,
    i: int,
)
    requires
        is_prune_plan(plan, retained, floor, ack_floor),
        forall|p: u64| #[trigger]
            retained.contains_key(p) ==> placement_fault(p, retained[p]) is None,
    ensures
        plan.boundary % 16 == 0,
        floor < plan.boundary <= ack_floor,
        ack_floor - plan.boundary < 16,
        plan.receipt.height == plan.boundary,
        plan.removals@.len() == plan.boundary - floor,
        0 <= i < plan.removals@.len() ==> {
            &&& plan.removals@[i].0 == floor + i + 1
            &&& plan.removals@[i].0 <= plan.receipt.height
            &&& retained.contains_key((floor + i) as u64) ==> plan.removals@[i].0
                == retained[(floor + i) as u64].receipt.height && plan.removals@[i].1
                == retained[(floor + i) as u64].payload.len
        },
        plan.removals@.last().0 == plan.receipt.height,
{
    boundary_is_the_last_whole_section(ack_floor, ack_floor);
    let last = (plan.boundary - 1) as u64;
    assert(placement_fault(last, retained[last]) is None);
    if 0 <= i < plan.removals@.len() && retained.contains_key((floor + i) as u64) {
        assert(placement_fault((floor + i) as u64, retained[(floor + i) as u64]) is None);
    }
}

/// The receipt is stored first, the queue is synced next, and only then is any
/// payload removed, each that is planned and no other.
pub proof fn payloads_go_last(plan: PrunePlan, i: int)
    ensures
        ({
            let order = prune_order(plan);
            &&& order.len() == plan.removals@.len() + 2
            &&& order[0] == PruneStep::StoreReceipt(plan.receipt)
            &&& order[1] == (PruneStep::SyncQueue { boundary: plan.boundary })
            &&& 0 <= i < order.len() ==> (order[i] is RemovePayload <==> i >= 2)
            &&& 0 <= i < plan.removals@.len() ==> order[i + 2] == (PruneStep::RemovePayload {
                height: plan.removals@[i].0,
                len: plan.removals@[i].1,
            })
        }),
{
}

/// A full consumer does not read, nor does one behind whose last record something
/// waits; any other reads, and may then start what it reads.
pub proof fn consumers_read_while_they_have_room(consumer: &UploadConsumer)
    requires
        consumer.wf(),
    ensures
        consumer.is_full() ==> !consumer.reads(),
        consumer.waiting is Some ==> !consumer.reads(),
        consumer.waiting is None && !consumer.is_full() ==> consumer.reads(),
        consumer.reads() ==> consumer.active@.len() + 1 <= consumer.max_active,
        consumer.is_full() <==> consumer.active@.len() == consumer.max_active,
{
}

} // verus!
