//! What a crash leaves of the finalized index queue.
//!
//! Captures and pruning act on three durable things: the queue of records, the
//! payload blobs and the stored receipt. Whatever action a crash interrupts, the
//! next start finds them in agreement.

use crate::validator::capture::{
    capture_order, continues, CaptureAction, CaptureStep, FinalizedQueueRecord,
    LatestCaptureReceipt,
};
use crate::validator::consumer::{
    is_prune_plan, prune_order, removals_of, PrunePlan, PruneStep,
};
use crate::validator::payloads::{
    descriptor_of, payload_read, rewritten_payload_reads_back, write_plan, BlobState,
    PayloadReadError,
};
use crate::validator::recovery::{
    entry_fault, last_record, recovered, recovery_fault, scan_fault, scanned_records_chain,
    sweep_fault,
};
use vstd::prelude::*;

verus! {

/// The durable parts of the queue.
pub struct QueueDisk {
    /// The stored receipt.
    pub receipt: Option<LatestCaptureReceipt>,
    /// The records of the queue, with their positions.
    pub records: Seq<(u64, FinalizedQueueRecord)>,
    /// The payload blobs by height.
    pub blobs: Map<u64, BlobState>,
}

/// The receipt of the last of `records`.
pub open spec fn tail_receipt(records: Seq<(u64, FinalizedQueueRecord)>) -> Option<
    LatestCaptureReceipt,
> {
    match last_record(records) {
        Some(record) => Some(record.receipt),
        None => None,
    }
}

/// The records from position `boundary` on, where positions are consecutive.
pub open spec fn records_from(
    records: Seq<(u64, FinalizedQueueRecord)>,
    boundary: u64,
) -> Seq<(u64, FinalizedQueueRecord)> {
    if records.len() == 0 || boundary <= records[0].0 {
        records
    } else if boundary - records[0].0 >= records.len() {
        Seq::empty()
    } else {
        records.skip(boundary - records[0].0)
    }
}

impl QueueDisk {
    /// Whether a record points at a payload that no crash loses: all of the
    /// blob is durable, and it is what the record describes.
    pub open spec fn backs(&self, record: FinalizedQueueRecord) -> bool {
        let height = record.receipt.height;
        &&& self.blobs.contains_key(height)
        &&& self.blobs[height].contents == self.blobs[height].durable
        &&& descriptor_of(self.blobs[height].durable) == record.payload
    }

    /// Whether every record is in its place and points at a durable payload, and
    /// the stored receipt is that of a captured block and agrees with the queue.
    /// The genesis block, at height zero, is never captured.
    pub open spec fn is_sound(&self) -> bool {
        &&& scan_fault(self.records) is None
        &&& forall|i: int| 0 <= i < self.records.len() ==> self.backs((#[trigger] self.records[i]).1)
        &&& self.receipt matches Some(receipt) ==> receipt.height > 0
        &&& recovery_fault(self.receipt, tail_receipt(self.records)) is None
    }

    /// The receipt that a start recovers.
    pub open spec fn recovers(&self) -> Option<LatestCaptureReceipt> {
        recovered(self.receipt, tail_receipt(self.records))
    }

    /// The sizes of the blobs.
    pub open spec fn lengths(&self) -> Map<u64, u64> {
        Map::new(
            |height: u64| self.blobs.contains_key(height),
            |height: u64| self.blobs[height].contents.len() as u64,
        )
    }

    /// Whether a crash of this disk can leave `left`: the stored receipt, the
    /// records and every blob that is wholly durable are as they were. Of any
    /// other blob nothing is known, not even that it is there or gone.
    pub open spec fn may_leave(&self, left: QueueDisk) -> bool {
        &&& left.receipt == self.receipt
        &&& left.records == self.records
        &&& forall|height: u64| #[trigger]
            self.blobs.contains_key(height) && self.blobs[height].contents
                == self.blobs[height].durable ==> left.blobs.contains_key(height)
                && left.blobs[height] == self.blobs[height]
    }

    /// Whether the queue still holds `record` at `position`.
    pub open spec fn lists(&self, position: u64, record: FinalizedQueueRecord) -> bool {
        exists|i: int| 0 <= i < self.records.len() && #[trigger] self.records[i] == (position, record)
    }

    /// The blob of `height`, empty where there is none.
    pub open spec fn blob(&self, height: u64) -> BlobState {
        if self.blobs.contains_key(height) {
            self.blobs[height]
        } else {
            BlobState { contents: Seq::empty(), durable: Seq::empty() }
        }
    }

    /// The disk after the first `done` steps of writing `payload` to the blob of
    /// `height`.
    pub open spec fn after_blob_steps(&self, height: u64, payload: Seq<u8>, done: nat) -> QueueDisk {
        let blob = self.blob(height);
        QueueDisk {
            blobs: self.blobs.insert(
                height,
                blob.after_steps(payload, write_plan(blob.contents.len()), done),
            ),
            ..*self
        }
    }

    /// The disk after one action of capturing `record` at `position` with
    /// `payload`.
    pub open spec fn after_action(
        &self,
        position: u64,
        record: FinalizedQueueRecord,
        payload: Seq<u8>,
        action: CaptureAction,
    ) -> QueueDisk {
        let height = record.receipt.height;
        match action {
            CaptureAction::PersistPayload => self.after_blob_steps(
                height,
                payload,
                write_plan(self.blob(height).contents.len()).len(),
            ),
            CaptureAction::CommitRecord => QueueDisk {
                records: self.records.push((position, record)),
                ..*self
            },
            _ => *self,
        }
    }

    /// The disk after the first `n` of `actions`.
    pub open spec fn after_actions(
        &self,
        position: u64,
        record: FinalizedQueueRecord,
        payload: Seq<u8>,
        actions: Seq<CaptureAction>,
        n: nat,
    ) -> QueueDisk
        decreases n,
    {
        if n == 0 {
            *self
        } else {
            self.after_actions(position, record, payload, actions, (n - 1) as nat).after_action(
                position,
                record,
                payload,
                actions[n - 1],
            )
        }
    }

    /// The disk after one step of pruning.
    pub open spec fn after_prune_step(&self, step: PruneStep) -> QueueDisk {
        match step {
            PruneStep::StoreReceipt(receipt) => QueueDisk { receipt: Some(receipt), ..*self },
            PruneStep::SyncQueue { boundary } => QueueDisk {
                records: records_from(self.records, boundary),
                ..*self
            },
            PruneStep::RemovePayload { height, .. } => QueueDisk {
                blobs: self.blobs.remove(height),
                ..*self
            },
        }
    }

    /// The disk after the first `n` of `steps`.
    pub open spec fn after_prune_steps(&self, steps: Seq<PruneStep>, n: nat) -> QueueDisk
        decreases n,
    {
        if n == 0 {
            *self
        } else {
            self.after_prune_steps(steps, (n - 1) as nat).after_prune_step(steps[n - 1])
        }
    }
}

proof fn lemma_sweep(disk: QueueDisk, records: Seq<(u64, FinalizedQueueRecord)>)
    requires
        forall|i: int| 0 <= i < records.len() ==> disk.backs((#[trigger] records[i]).1),
    ensures
        sweep_fault(disk.blobs.dom(), disk.lengths(), records) is None,
    decreases records.len(),
{
    if records.len() > 0 {
        let init = records.drop_last();
        assert forall|i: int| 0 <= i < init.len() implies disk.backs((#[trigger] init[i]).1) by {
            assert(init[i] == records[i]);
        }
        lemma_sweep(disk, init);
        let record = records.last().1;
        assert(disk.backs(records[records.len() - 1].1));
        assert(disk.lengths().contains_key(record.receipt.height));
    }
}

/// A start accepts a sound disk: every entry of the queue belongs where it is,
/// every record has a payload of its length that reads back, and the stored
/// receipt is not ahead of the queue.
pub proof fn sound_disk_recovers(disk: QueueDisk, i: int)
    requires
        disk.is_sound(),
        0 <= i < disk.records.len(),
    ensures
        scan_fault(disk.records) is None,
        sweep_fault(disk.blobs.dom(), disk.lengths(), disk.records) is None,
        recovery_fault(disk.receipt, tail_receipt(disk.records)) is None,
        disk.blobs[disk.records[i].1.receipt.height].contents.len() <= u64::MAX ==> payload_read(
            disk.records[i].1.payload,
            disk.blobs[disk.records[i].1.receipt.height].contents,
        ) == Ok::<Seq<u8>, PayloadReadError>(
            disk.blobs[disk.records[i].1.receipt.height].contents,
        ),
{
    lemma_sweep(disk, disk.records);
    assert(disk.backs(disk.records[i].1));
}

proof fn lemma_left_is_sound(disk: QueueDisk, left: QueueDisk)
    requires
        disk.is_sound(),
        disk.may_leave(left),
    ensures
        left.is_sound(),
        left.recovers() == disk.recovers(),
        sweep_fault(left.blobs.dom(), left.lengths(), left.records) is None,
{
    assert forall|i: int| 0 <= i < left.records.len() implies left.backs(
        (#[trigger] left.records[i]).1,
    ) by {
        assert(disk.backs(disk.records[i].1));
        assert(disk.blobs.contains_key(disk.records[i].1.receipt.height));
    }
    lemma_sweep(left, left.records);
}

proof fn lemma_scan_push(
    records: Seq<(u64, FinalizedQueueRecord)>,
    position: u64,
    record: FinalizedQueueRecord,
)
    requires
        scan_fault(records) is None,
        entry_fault(last_record(records), position, record) is None,
    ensures
        scan_fault(records.push((position, record))) is None,
{
    assert(records.push((position, record)).drop_last() =~= records);
}

/// Whether `record` is committed next to the queue of `disk`: it continues what
/// was captured last, at the position of its height.
pub open spec fn is_next_record(
    disk: QueueDisk,
    position: u64,
    record: FinalizedQueueRecord,
) -> bool {
    &&& continues(disk.recovers(), record)
    &&& record.receipt.height == position + 1
}

/// What the disk is after `n` actions of a capture, before and after the payload
/// and the record.
proof fn lemma_actions(
    disk: QueueDisk,
    step: CaptureStep,
    position: u64,
    record: FinalizedQueueRecord,
    payload: Seq<u8>,
    n: nat,
)
    requires
        n <= capture_order(step).len(),
    ensures
        ({
            let actions = capture_order(step);
            let after = disk.after_actions(position, record, payload, actions, n);
            let first: int = if step == (CaptureStep::Capture { validate_namespaces: true }) {
                1
            } else {
                0
            };
            let persisted = disk.after_action(
                position,
                record,
                payload,
                CaptureAction::PersistPayload,
            );
            if n <= first + 1 {
                after == disk
            } else if n <= first + 3 {
                after == persisted
            } else {
                after == persisted.after_action(
                    position,
                    record,
                    payload,
                    CaptureAction::CommitRecord,
                )
            }
        }),
    decreases n,
{
    if n > 0 {
        lemma_actions(disk, step, position, record, payload, (n - 1) as nat);
    }
}

proof fn lemma_payload_is_durable(
    disk: QueueDisk,
    height: u64,
    payload: Seq<u8>,
)
    requires
        payload.len() <= u64::MAX,
    ensures
        ({
            let steps = write_plan(disk.blob(height).contents.len());
            let after = disk.after_blob_steps(height, payload, steps.len());
            after.blobs[height].contents == payload && after.blobs[height].durable == payload
        }),
{
    rewritten_payload_reads_back(disk.blob(height), payload);
}

proof fn lemma_earlier_heights(disk: QueueDisk, position: u64, record: FinalizedQueueRecord, i: int)
    requires
        disk.is_sound(),
        is_next_record(disk, position, record),
        0 <= i < disk.records.len(),
    ensures
        disk.records[i].1.receipt.height < record.receipt.height,
{
    scanned_records_chain(disk.records, i);
    scanned_records_chain(disk.records, disk.records.len() - 1);
}

/// Writing to the blob of a height that no record has leaves the disk sound.
proof fn lemma_blob_steps_keep_sound(
    disk: QueueDisk,
    position: u64,
    record: FinalizedQueueRecord,
    payload: Seq<u8>,
    done: nat,
)
    requires
        disk.is_sound(),
        is_next_record(disk, position, record),
    ensures
        disk.after_blob_steps(record.receipt.height, payload, done).is_sound(),
        disk.after_blob_steps(record.receipt.height, payload, done).recovers() == disk.recovers(),
{
    let after = disk.after_blob_steps(record.receipt.height, payload, done);
    assert forall|i: int| 0 <= i < after.records.len() implies after.backs(
        (#[trigger] after.records[i]).1,
    ) by {
        lemma_earlier_heights(disk, position, record, i);
        assert(disk.backs(disk.records[i].1));
    }
}

proof fn lemma_commit_keeps_sound(
    disk: QueueDisk,
    position: u64,
    record: FinalizedQueueRecord,
    payload: Seq<u8>,
)
    requires
        disk.is_sound(),
        is_next_record(disk, position, record),
        disk.backs(record),
    ensures
        disk.after_action(position, record, payload, CaptureAction::CommitRecord).is_sound(),
        disk.after_action(position, record, payload, CaptureAction::CommitRecord).recovers()
            == Some(record.receipt),
{
    let after = disk.after_action(position, record, payload, CaptureAction::CommitRecord);
    if disk.records.len() > 0 {
        scanned_records_chain(disk.records, disk.records.len() - 1);
    }
    lemma_scan_push(disk.records, position, record);
    assert(last_record(after.records) == Some(record));
    assert forall|i: int| 0 <= i < after.records.len() implies after.backs(
        (#[trigger] after.records[i]).1,
    ) by {
        if i < disk.records.len() {
            assert(disk.backs(disk.records[i].1));
        }
    }
}

/// A committed record never points at bytes that a crash loses. Whatever a crash
/// leaves after the first `n` actions of a capture, and of the next one as many
/// of its blob steps as were `done`, every record has its payload, durable and
/// as described, and the next start accepts the queue. It recovers the capture
/// if and only if the record was committed.
pub proof fn captures_survive_a_crash(
    disk: QueueDisk,
    step: CaptureStep,
    position: u64,
    record: FinalizedQueueRecord,
    payload: Seq<u8>,
    n: nat,
    done: nat,
    left: QueueDisk,
)
    requires
        disk.is_sound(),
        is_next_record(disk, position, record),
        record.payload == descriptor_of(payload),
        payload.len() <= u64::MAX,
        n <= capture_order(step).len(),
        ({
            let actions = capture_order(step);
            let after = disk.after_actions(position, record, payload, actions, n);
            if n < actions.len() && actions[n as int] == CaptureAction::PersistPayload {
                after.after_blob_steps(record.receipt.height, payload, done).may_leave(left)
            } else {
                after.may_leave(left)
            }
        }),
    ensures
        left.is_sound(),
        sweep_fault(left.blobs.dom(), left.lengths(), left.records) is None,
        left.recovers() == (if left.records.len() > disk.records.len() {
            Some(record.receipt)
        } else {
            disk.recovers()
        }),
        left.records.len() > disk.records.len() <==> capture_order(step).take(n as int).contains(
            CaptureAction::CommitRecord,
        ),
{
    let actions = capture_order(step);
    let height = record.receipt.height;
    let first: int = if step == (CaptureStep::Capture { validate_namespaces: true }) {
        1
    } else {
        0
    };
    let persisted = disk.after_action(position, record, payload, CaptureAction::PersistPayload);
    let steps = write_plan(disk.blob(height).contents.len());
    lemma_actions(disk, step, position, record, payload, n);
    lemma_payload_is_durable(disk, height, payload);
    lemma_blob_steps_keep_sound(disk, position, record, payload, done);
    lemma_blob_steps_keep_sound(disk, position, record, payload, steps.len());
    assert(persisted.backs(record));
    lemma_commit_keeps_sound(persisted, position, record, payload);
    if step is Capture {
        assert(actions[first + 1] == CaptureAction::PersistPayload);
        assert(actions[first + 3] == CaptureAction::CommitRecord);
        if n > first + 3 {
            assert(actions.take(n as int)[first + 3] == CaptureAction::CommitRecord);
        }
    }
    if n <= first + 3 {
        assert forall|k: int| 0 <= k < n implies actions.take(n as int)[k]
            != CaptureAction::CommitRecord by {}
    }
    if n < actions.len() && actions[n as int] == CaptureAction::PersistPayload {
        lemma_left_is_sound(disk.after_blob_steps(height, payload, done), left);
    } else {
        lemma_left_is_sound(disk.after_actions(position, record, payload, actions, n), left);
    }
}

proof fn lemma_scan_skip(records: Seq<(u64, FinalizedQueueRecord)>, n: int)
    requires
        scan_fault(records) is None,
        0 <= n <= records.len(),
    ensures
        scan_fault(records.skip(n)) is None,
    decreases records.len(),
{
    if n < records.len() {
        let init = records.drop_last();
        let rest = records.skip(n);
        lemma_scan_skip(init, n);
        assert(rest.drop_last() =~= init.skip(n));
        assert(rest.last() == records.last());
        if n < init.len() {
            assert(init.skip(n).last() == init.last());
        }
    }
}

/// Dropping records from the front, none of which is the tail unless the stored
/// receipt is its, leaves the disk sound.
proof fn lemma_drop_keeps_sound(disk: QueueDisk, n: int)
    requires
        disk.is_sound(),
        0 <= n <= disk.records.len(),
        n == disk.records.len() ==> disk.receipt == tail_receipt(disk.records),
    ensures
        (QueueDisk { records: disk.records.skip(n), ..disk }).is_sound(),
        (QueueDisk { records: disk.records.skip(n), ..disk }).recovers() == disk.recovers(),
{
    let after = QueueDisk { records: disk.records.skip(n), ..disk };
    lemma_scan_skip(disk.records, n);
    assert forall|i: int| 0 <= i < after.records.len() implies after.backs(
        (#[trigger] after.records[i]).1,
    ) by {
        assert(disk.backs(disk.records[n + i].1));
    }
    if n < disk.records.len() {
        assert(after.records.last() == disk.records.last());
    }
}

proof fn lemma_prune_disk(disk: QueueDisk, plan: PrunePlan, n: nat)
    requires
        n <= prune_order(plan).len(),
        forall|i: int|
            0 <= i < plan.removals@.len() ==> (#[trigger] plan.removals@[i]).0 <= plan.boundary,
    ensures
        ({
            let after = disk.after_prune_steps(prune_order(plan), n);
            &&& after.receipt == (if n >= 1 {
                Some(plan.receipt)
            } else {
                disk.receipt
            })
            &&& after.records == (if n >= 2 {
                records_from(disk.records, plan.boundary)
            } else {
                disk.records
            })
            &&& n <= 2 ==> after.blobs == disk.blobs
            &&& forall|height: u64|
                height > plan.boundary ==> (#[trigger] after.blobs.contains_key(height)
                    == disk.blobs.contains_key(height)) && after.blobs[height]
                    == disk.blobs[height]
        }),
    decreases n,
{
    if n > 0 {
        lemma_prune_disk(disk, plan, (n - 1) as nat);
        if n > 2 {
            assert(prune_order(plan)[n - 1] == (PruneStep::RemovePayload {
                height: plan.removals@[n - 3].0,
                len: plan.removals@[n - 3].1,
            }));
            assert(plan.removals@[n - 3].0 <= plan.boundary);
        }
    }
}

/// Pruning can crash after any step and lose nothing. Whatever a crash leaves
/// after the first `n` steps, and of a queue sync under way the `dropped` first
/// records, every record that is still there has its payload, durable and as
/// described, and the next start accepts the queue and recovers the same
/// capture. The records that were read and not pruned are in the queue.
pub proof fn pruning_survives_a_crash(
    disk: QueueDisk,
    plan: PrunePlan,
    retained: Map<u64, FinalizedQueueRecord>,
    floor: u64,
    ack_floor: u64,
    n: nat,
    dropped: int,
    left: QueueDisk,
)
    requires
        disk.is_sound(),
        is_prune_plan(plan, retained, floor, ack_floor),
        forall|position: u64| #[trigger]
            retained.contains_key(position) && floor <= position ==> disk.lists(
                position,
                retained[position],
            ),
        n <= prune_order(plan).len(),
        0 <= dropped,
        dropped > 0 ==> n == 1 && dropped + disk.records[0].0 <= plan.boundary,
        ({
            let after = disk.after_prune_steps(prune_order(plan), n);
            (QueueDisk { records: after.records.skip(dropped), ..after }).may_leave(left)
        }),
    ensures
        left.is_sound(),
        scan_fault(left.records) is None,
        sweep_fault(left.blobs.dom(), left.lengths(), left.records) is None,
        recovery_fault(left.receipt, tail_receipt(left.records)) is None,
        left.recovers() == disk.recovers(),
{
    let last = (plan.boundary - 1) as u64;
    let records = disk.records;
    let order = prune_order(plan);
    assert(plan.removals@ == removals_of(retained, floor, plan.boundary));
    lemma_prune_disk(disk, plan, n);
    assert(retained.contains_key(last));
    assert(disk.lists(last, retained[last]));
    let at = choose|i: int| 0 <= i < records.len() && #[trigger] records[i] == (
        last,
        retained[last],
    );
    scanned_records_chain(records, at);
    scanned_records_chain(records, records.len() - 1);
    assert(at == last - records[0].0);
    let stored = QueueDisk { receipt: Some(plan.receipt), ..disk };
    assert(records.last().1.receipt.height - records[at].1.receipt.height == records.len() - 1
        - at);
    assert(recovery_fault(stored.receipt, tail_receipt(stored.records)) is None);
    assert(stored.is_sound()) by {
        assert forall|i: int| 0 <= i < stored.records.len() implies stored.backs(
            (#[trigger] stored.records[i]).1,
        ) by {
            assert(disk.backs(disk.records[i].1));
        }
    }
    let after = disk.after_prune_steps(order, n);
    let cut = QueueDisk { records: after.records.skip(dropped), ..after };
    if n == 0 {
        assert(cut.records =~= disk.records);
        assert(cut == disk);
        lemma_left_is_sound(disk, left);
    } else if n == 1 {
        lemma_drop_keeps_sound(stored, dropped);
        assert(cut == QueueDisk { records: stored.records.skip(dropped), ..stored });
        lemma_left_is_sound(cut, left);
    } else {
        let kept = at + 1;
        assert(records_from(records, plan.boundary) =~= records.skip(kept));
        lemma_drop_keeps_sound(stored, kept);
        assert(cut.records =~= records.skip(kept));
        let synced = QueueDisk { records: records.skip(kept), ..stored };
        assert forall|i: int| 0 <= i < cut.records.len() implies cut.backs(
            (#[trigger] cut.records[i]).1,
        ) by {
            assert(synced.backs(synced.records[i].1));
            scanned_records_chain(records, kept + i);
            assert(cut.records[i] == records[kept + i]);
            let height = cut.records[i].1.receipt.height;
            assert(height > plan.boundary);
            assert(disk.blobs.contains_key(height));
            assert(after.blobs.contains_key(height));
        }
        assert(cut.is_sound());
        lemma_left_is_sound(cut, left);
    }
}

} // verus!
