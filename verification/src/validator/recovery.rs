//! Recovery of the finalized index queue at start-up.

use crate::validator::capture::{
    requires_fresh_namespace_validation, BlockSummary, CaptureProducer, FinalizedQueueRecord,
    LatestCaptureReceipt, INITIAL_QMDB_END,
};
use crate::ordered::{ascending, ascending_members};
use crate::validator::payloads::{metric, metric_i64};
use std::collections::{BTreeMap, BTreeSet};
use vstd::prelude::*;

verus! {

broadcast use vstd::std_specs::btree::group_btree_axioms;

/// A queue entry that does not belong where it was read.
#[derive(Clone, Copy, Debug, PartialEq, Eq, Structural)]
pub enum ScanFault {
    PositionOverflow,
    Height { actual: u64, expected: u64 },
    FirstStateStart { actual: u64 },
    FirstTransactionStart { actual: u64 },
    HeightGap { actual: u64, previous: u64 },
    StateGap { actual: u64, expected: u64 },
    TransactionGap { actual: u64, expected: u64 },
}

/// The fault of an entry read at `position` after `previous`.
///
/// Position `p` holds the block at height `p + 1`. The first position starts
/// both logs, and every entry continues the one before it.
pub open spec fn entry_fault(
    previous: Option<FinalizedQueueRecord>,
    position: u64,
    record: FinalizedQueueRecord,
) -> Option<ScanFault> {
    if position == u64::MAX {
        Some(ScanFault::PositionOverflow)
    } else if record.receipt.height != position + 1 {
        Some(
            ScanFault::Height { actual: record.receipt.height, expected: (position + 1) as u64 },
        )
    } else if position == 0 && record.state_start != INITIAL_QMDB_END {
        Some(ScanFault::FirstStateStart { actual: record.state_start })
    } else if position == 0 && record.transaction_start != INITIAL_QMDB_END {
        Some(ScanFault::FirstTransactionStart { actual: record.transaction_start })
    } else {
        match previous {
            None => None,
            Some(previous) => if record.receipt.height != previous.receipt.height + 1 {
                Some(
                    ScanFault::HeightGap {
                        actual: record.receipt.height,
                        previous: previous.receipt.height,
                    },
                )
            } else if record.state_start != previous.receipt.state_end {
                Some(
                    ScanFault::StateGap {
                        actual: record.state_start,
                        expected: previous.receipt.state_end,
                    },
                )
            } else if record.transaction_start != previous.receipt.transaction_end {
                Some(
                    ScanFault::TransactionGap {
                        actual: record.transaction_start,
                        expected: previous.receipt.transaction_end,
                    },
                )
            } else {
                None
            },
        }
    }
}

/// The record before the end of `entries`.
pub open spec fn last_record(entries: Seq<(u64, FinalizedQueueRecord)>) -> Option<
    FinalizedQueueRecord,
> {
    if entries.len() == 0 {
        None
    } else {
        Some(entries.last().1)
    }
}

/// The fault of the first entry that does not belong.
pub open spec fn scan_fault(entries: Seq<(u64, FinalizedQueueRecord)>) -> Option<ScanFault>
    decreases entries.len(),
{
    if entries.len() == 0 {
        None
    } else {
        let init = entries.drop_last();
        match scan_fault(init) {
            Some(fault) => Some(fault),
            None => entry_fault(last_record(init), entries.last().0, entries.last().1),
        }
    }
}

/// Checks one entry against the record before it.
pub fn check_entry(
    previous: Option<FinalizedQueueRecord>,
    position: u64,
    record: &FinalizedQueueRecord,
) -> (result: Result<(), ScanFault>)
    ensures
        match entry_fault(previous, position, *record) {
            Some(fault) => result == Err::<(), ScanFault>(fault),
            None => result is Ok,
        },
{
    if position == u64::MAX {
        return Err(ScanFault::PositionOverflow);
    }
    let height: u64 = record.receipt.height;
    if height != position + 1 {
        return Err(ScanFault::Height { actual: height, expected: position + 1 });
    }
    if position == 0 && record.state_start != INITIAL_QMDB_END {
        return Err(ScanFault::FirstStateStart { actual: record.state_start });
    }
    if position == 0 && record.transaction_start != INITIAL_QMDB_END {
        return Err(ScanFault::FirstTransactionStart { actual: record.transaction_start });
    }
    if let Some(previous) = previous {
        let last: u64 = previous.receipt.height;
        if last == u64::MAX || height != last + 1 {
            return Err(ScanFault::HeightGap { actual: height, previous: last });
        }
        if record.state_start != previous.receipt.state_end {
            return Err(
                ScanFault::StateGap {
                    actual: record.state_start,
                    expected: previous.receipt.state_end,
                },
            );
        }
        if record.transaction_start != previous.receipt.transaction_end {
            return Err(
                ScanFault::TransactionGap {
                    actual: record.transaction_start,
                    expected: previous.receipt.transaction_end,
                },
            );
        }
    }
    Ok(())
}

/// Takes every unacknowledged entry in order, or reports the first that does
/// not belong.
pub fn scan_finalized_queue_records(entries: Vec<(u64, FinalizedQueueRecord)>) -> (result: Result<
    Vec<(u64, FinalizedQueueRecord)>,
    ScanFault,
>)
    ensures
        match scan_fault(entries@) {
            Some(fault) => result == Err::<Vec<(u64, FinalizedQueueRecord)>, ScanFault>(fault),
            None => result matches Ok(records) && records@ == entries@,
        },
{
    let mut previous: Option<FinalizedQueueRecord> = None;
    let mut i: usize = 0;
    while i < entries.len()
        invariant
            i <= entries.len(),
            scan_fault(entries@.take(i as int)) is None,
            previous == last_record(entries@.take(i as int)),
        decreases entries.len() - i,
    {
        let (position, record) = entries[i];
        let ghost longer = entries@.take(i + 1);
        assert(longer.drop_last() =~= entries@.take(i as int));
        match check_entry(previous, position, &record) {
            Err(fault) => {
                proof {
                    lemma_scan_fault_persists(entries@, i + 1);
                }
                return Err(fault);
            },
            Ok(()) => {},
        }
        previous = Some(record);
        i = i + 1;
    }
    assert(entries@.take(entries@.len() as int) =~= entries@);
    Ok(entries)
}

proof fn lemma_scan_fault_persists(entries: Seq<(u64, FinalizedQueueRecord)>, n: int)
    requires
        0 <= n <= entries.len(),
        scan_fault(entries.take(n)) is Some,
    ensures
        scan_fault(entries) == scan_fault(entries.take(n)),
    decreases entries.len() - n,
{
    if n < entries.len() {
        assert(entries.take(n + 1).drop_last() =~= entries.take(n));
        lemma_scan_fault_persists(entries, n + 1);
    } else {
        assert(entries.take(n) =~= entries);
    }
}

/// Accepted entries hold consecutive positions, each the position of its
/// block's height, and each continues both logs of the one before it.
pub proof fn scanned_records_chain(entries: Seq<(u64, FinalizedQueueRecord)>, i: int)
    requires
        scan_fault(entries) is None,
        0 <= i < entries.len(),
    ensures
        entries[i].0 == entries[0].0 + i,
        entries[i].1.receipt.height == entries[i].0 + 1,
        i > 0 ==> entries[i].1.state_start == entries[i - 1].1.receipt.state_end,
        i > 0 ==> entries[i].1.transaction_start == entries[i - 1].1.receipt.transaction_end,
    decreases entries.len(),
{
    let init = entries.drop_last();
    if i < entries.len() - 1 {
        scanned_records_chain(init, i);
        if i > 0 {
            assert(init[i - 1] == entries[i - 1]);
        }
    } else if i > 0 {
        scanned_records_chain(init, i - 1);
        assert(init[i - 1] == entries[i - 1]);
    }
}

/// Why the payloads on disk do not back the scanned records.
#[derive(Clone, Copy, Debug, PartialEq, Eq, Structural)]
pub enum SweepFault {
    Missing { height: u64 },
    Length { height: u64, actual: u64, expected: u64 },
}

/// What a startup sweep does.
#[derive(Debug)]
pub struct SweepPlan {
    /// Heights whose payload no record refers to, ascending.
    pub orphans: Vec<u64>,
    /// Payloads that records refer to.
    pub retained: usize,
    /// Bytes of those payloads.
    pub retained_bytes: u64,
}

/// The fault of the first record whose payload is missing or of another length.
pub open spec fn sweep_fault(
    on_disk: Set<u64>,
    lengths: Map<u64, u64>,
    records: Seq<(u64, FinalizedQueueRecord)>,
) -> Option<SweepFault>
    decreases records.len(),
{
    if records.len() == 0 {
        None
    } else {
        match sweep_fault(on_disk, lengths, records.drop_last()) {
            Some(fault) => Some(fault),
            None => {
                let record = records.last().1;
                let height = record.receipt.height;
                if !on_disk.contains(height) {
                    Some(SweepFault::Missing { height })
                } else if lengths[height] != record.payload.len {
                    Some(
                        SweepFault::Length {
                            height,
                            actual: lengths[height],
                            expected: record.payload.len,
                        },
                    )
                } else {
                    None
                }
            },
        }
    }
}

/// The heights that records refer to.
pub open spec fn referenced(records: Seq<(u64, FinalizedQueueRecord)>) -> Set<u64>
    decreases records.len(),
{
    if records.len() == 0 {
        Set::empty()
    } else {
        referenced(records.drop_last()).insert(records.last().1.receipt.height)
    }
}

/// Recorded bytes in all, capped at the largest count.
pub open spec fn recorded_bytes(records: Seq<(u64, FinalizedQueueRecord)>) -> nat
    decreases records.len(),
{
    if records.len() == 0 {
        0
    } else {
        let sum = recorded_bytes(records.drop_last()) + records.last().1.payload.len;
        if sum > u64::MAX {
            u64::MAX as nat
        } else {
            sum as nat
        }
    }
}

proof fn lemma_sweep_fault_persists(
    on_disk: Set<u64>,
    lengths: Map<u64, u64>,
    records: Seq<(u64, FinalizedQueueRecord)>,
    n: int,
)
    requires
        0 <= n <= records.len(),
        sweep_fault(on_disk, lengths, records.take(n)) is Some,
    ensures
        sweep_fault(on_disk, lengths, records) == sweep_fault(on_disk, lengths, records.take(n)),
    decreases records.len() - n,
{
    if n < records.len() {
        assert(records.take(n + 1).drop_last() =~= records.take(n));
        lemma_sweep_fault_persists(on_disk, lengths, records, n + 1);
    } else {
        assert(records.take(n) =~= records);
    }
}

/// Whether `plan` sweeps the payloads on disk that no record refers to.
pub open spec fn is_sweep(
    plan: SweepPlan,
    on_disk: Set<u64>,
    records: Seq<(u64, FinalizedQueueRecord)>,
) -> bool {
    &&& plan.orphans@.to_set() == on_disk.difference(referenced(records))
    &&& plan.retained == referenced(records).len()
    &&& plan.retained_bytes == recorded_bytes(records)
}

/// Reconciles payload blobs with the scanned records.
///
/// Every record must have a payload of the recorded length. A blob without a
/// record is left over from a crash between a payload sync and its record
/// commit, or from a removal that failed after its section pruned.
///
/// `lengths` holds the size of every payload on disk that a record refers to.
pub fn sweep_finalized_payloads(
    on_disk: &BTreeSet<u64>,
    lengths: &BTreeMap<u64, u64>,
    records: &Vec<(u64, FinalizedQueueRecord)>,
) -> (result: Result<SweepPlan, SweepFault>)
    requires
        forall|i: int|
            0 <= i < records.len() && on_disk@.contains((#[trigger] records[i]).1.receipt.height)
                ==> lengths@.contains_key(records[i].1.receipt.height),
    ensures
        match sweep_fault(on_disk@, lengths@, records@) {
            Some(fault) => result == Err::<SweepPlan, SweepFault>(fault),
            None => result matches Ok(plan) && plan.orphans@.to_set() == on_disk@.difference(
                referenced(records@),
            ) && ascending(plan.orphans@)
                && plan.retained == referenced(records@).len() && plan.retained_bytes
                == recorded_bytes(records@) && is_sweep(plan, on_disk@, records@),
        },
{
    let mut keep: BTreeSet<u64> = BTreeSet::new();
    let mut retained_bytes: u64 = 0;
    let mut i: usize = 0;
    while i < records.len()
        invariant
            i <= records.len(),
            forall|i: int|
                0 <= i < records.len() && on_disk@.contains(
                    (#[trigger] records[i]).1.receipt.height,
                ) ==> lengths@.contains_key(records[i].1.receipt.height),
            sweep_fault(on_disk@, lengths@, records@.take(i as int)) is None,
            keep@ == referenced(records@.take(i as int)),
            retained_bytes == recorded_bytes(records@.take(i as int)),
        decreases records.len() - i,
    {
        let record = &records[i].1;
        let height: u64 = record.receipt.height;
        let ghost longer = records@.take(i + 1);
        assert(longer.drop_last() =~= records@.take(i as int));
        assert(longer.last() == records@[i as int]);
        if !on_disk.contains(&height) {
            proof {
                lemma_sweep_fault_persists(on_disk@, lengths@, records@, i + 1);
            }
            return Err(SweepFault::Missing { height });
        }
        assert(on_disk@.contains(records[i as int].1.receipt.height));
        let len: u64 = *lengths.get(&height).unwrap();
        if len != record.payload.len {
            proof {
                lemma_sweep_fault_persists(on_disk@, lengths@, records@, i + 1);
            }
            return Err(
                SweepFault::Length { height, actual: len, expected: record.payload.len },
            );
        }
        keep.insert(height);
        retained_bytes = retained_bytes.saturating_add(len);
        i = i + 1;
    }
    assert(records@.take(records@.len() as int) =~= records@);
    let members = ascending_members(on_disk);
    let mut orphans: Vec<u64> = Vec::new();
    let mut k: usize = 0;
    while k < members.len()
        invariant
            k <= members.len(),
            members@.to_set() == on_disk@,
            ascending(members@),
            ascending(orphans@),
            forall|h: u64| #[trigger]
                orphans@.contains(h) <==> members@.take(k as int).contains(h) && !keep@.contains(h),
        decreases members.len() - k,
    {
        let height: u64 = members[k];
        let ghost shorter = members@.take(k as int);
        let ghost longer = members@.take(k + 1);
        let ghost before = orphans@;
        assert(longer =~= shorter.push(height));
        assert(forall|h: u64| longer.contains(h) <==> shorter.contains(h) || h == height) by {
            lemma_push_contains(shorter, height);
        }
        if !keep.contains(&height) {
            proof {
                assert forall|i: int| 0 <= i < before.len() implies before[i] < height by {
                    assert(before.contains(before[i]));
                    let j = choose|j: int| 0 <= j < shorter.len() && shorter[j] == before[i];
                    assert(members@[j] == shorter[j]);
                }
                lemma_push_contains(before, height);
            }
            orphans.push(height);
        }
        k = k + 1;
    }
    assert(members@.take(members@.len() as int) =~= members@);
    assert(orphans@.to_set() =~= on_disk@.difference(keep@)) by {
        assert forall|h: u64| orphans@.to_set().contains(h) <==> on_disk@.difference(
            keep@,
        ).contains(h) by {
            assert(members@.to_set().contains(h) <==> members@.contains(h));
            assert(orphans@.to_set().contains(h) <==> orphans@.contains(h));
        }
    }
    Ok(SweepPlan { orphans, retained: keep.len(), retained_bytes })
}

proof fn lemma_push_contains(s: Seq<u64>, x: u64)
    ensures
        forall|h: u64| #[trigger] s.push(x).contains(h) <==> s.contains(h) || h == x,
{
    assert forall|h: u64| #[trigger] s.push(x).contains(h) <==> s.contains(h) || h == x by {
        if s.contains(h) {
            let i = choose|i: int| 0 <= i < s.len() && s[i] == h;
            assert(s.push(x)[i] == h);
        }
        if h == x {
            assert(s.push(x)[s.len() as int] == h);
        }
    }
}

/// The sweep removes no payload that a record refers to, and leaves only those.
pub proof fn sweep_keeps_recorded_payloads(
    on_disk: Set<u64>,
    records: Seq<(u64, FinalizedQueueRecord)>,
    i: int,
)
    requires
        0 <= i < records.len(),
    ensures
        !on_disk.difference(referenced(records)).contains(records[i].1.receipt.height),
        on_disk.difference(on_disk.difference(referenced(records))).subset_of(
            referenced(records),
        ),
{
    lemma_referenced(records, i);
}

proof fn lemma_referenced(records: Seq<(u64, FinalizedQueueRecord)>, i: int)
    requires
        0 <= i < records.len(),
    ensures
        referenced(records).contains(records[i].1.receipt.height),
    decreases records.len(),
{
    if i < records.len() - 1 {
        lemma_referenced(records.drop_last(), i);
    }
}

/// Two durable receipts that cannot both be true.
#[derive(Clone, Copy, Debug, PartialEq, Eq, Structural)]
pub enum RecoveryFault {
    Conflict,
    AheadOfQueue,
}

impl RecoveryFault {
    /// The message of this fault.
    pub open spec fn message(self) -> Seq<char> {
        match self {
            RecoveryFault::Conflict => "capture receipt conflicts with queue tail"@,
            RecoveryFault::AheadOfQueue => "capture receipt is ahead of the durable queue tail"@,
        }
    }

    /// The message of this fault as text.
    pub fn to_text(self) -> (text: String)
        ensures
            text@ == self.message(),
    {
        match self {
            RecoveryFault::Conflict => "capture receipt conflicts with queue tail".to_owned(),
            RecoveryFault::AheadOfQueue =>
                "capture receipt is ahead of the durable queue tail".to_owned(),
        }
    }
}

/// The fault of a receipt against the queue tail.
pub open spec fn recovery_fault(
    metadata: Option<LatestCaptureReceipt>,
    queue: Option<LatestCaptureReceipt>,
) -> Option<RecoveryFault> {
    match (metadata, queue) {
        (Some(metadata), Some(queue)) => if metadata.height == queue.height {
            if metadata == queue {
                None
            } else {
                Some(RecoveryFault::Conflict)
            }
        } else if metadata.height > queue.height {
            Some(RecoveryFault::AheadOfQueue)
        } else {
            None
        },
        _ => None,
    }
}

/// The receipt that recovery settles on: the queue tail, or the stored receipt
/// of an empty queue.
pub open spec fn recovered(
    metadata: Option<LatestCaptureReceipt>,
    queue: Option<LatestCaptureReceipt>,
) -> Option<LatestCaptureReceipt> {
    match queue {
        Some(queue) => Some(queue),
        None => metadata,
    }
}

/// Settles on a receipt, or says why the two stored ones contradict.
pub fn check_recovery(
    metadata: Option<LatestCaptureReceipt>,
    queue: Option<LatestCaptureReceipt>,
) -> (result: Result<Option<LatestCaptureReceipt>, RecoveryFault>)
    ensures
        match recovery_fault(metadata, queue) {
            Some(fault) => result == Err::<Option<LatestCaptureReceipt>, RecoveryFault>(fault),
            None => result == Ok::<Option<LatestCaptureReceipt>, RecoveryFault>(
                recovered(metadata, queue),
            ),
        },
{
    match (metadata, queue) {
        (Some(metadata), Some(queue)) => {
            if metadata.height == queue.height {
                if !metadata.same(&queue) {
                    return Err(RecoveryFault::Conflict);
                }
            } else if metadata.height > queue.height {
                return Err(RecoveryFault::AheadOfQueue);
            }
            Ok(Some(queue))
        },
        (None, Some(queue)) => Ok(Some(queue)),
        (Some(metadata), None) => Ok(Some(metadata)),
        (None, None) => Ok(None),
    }
}

/// Settles on a receipt where the two stored ones agree.
pub fn recover_capture_receipt(
    metadata: Option<LatestCaptureReceipt>,
    queue: Option<LatestCaptureReceipt>,
) -> (receipt: Option<LatestCaptureReceipt>)
    requires
        recovery_fault(metadata, queue) is None,
    ensures
        receipt == recovered(metadata, queue),
{
    match queue {
        Some(queue) => Some(queue),
        None => metadata,
    }
}

/// What start-up takes from the durable queue and receipt.
#[derive(Clone, Copy, Debug, PartialEq, Eq)]
pub struct QueueRecovery {
    /// The latest capture.
    pub receipt: Option<LatestCaptureReceipt>,
    /// Whether the stored receipt is replaced by the recovered one.
    pub persist: bool,
    /// Whether the remote namespaces must be fresh.
    pub require_fresh: bool,
    /// Entries to upload, as a metric.
    pub pending_uploads: i64,
}

/// What start-up takes from the stored receipt and the scanned records.
pub open spec fn queue_recovery(
    metadata: Option<LatestCaptureReceipt>,
    records: Seq<(u64, FinalizedQueueRecord)>,
) -> Result<QueueRecovery, RecoveryFault> {
    let tail = match last_record(records) {
        Some(record) => Some(record.receipt),
        None => None,
    };
    match recovery_fault(metadata, tail) {
        Some(fault) => Err(fault),
        None => Ok(
            QueueRecovery {
                receipt: recovered(metadata, tail),
                persist: metadata != recovered(metadata, tail),
                require_fresh: metadata is None && records.len() == 0,
                pending_uploads: metric(records.len()),
            },
        ),
    }
}

/// Recovers capture from the stored receipt and the scanned records.
pub fn recover_queue(
    metadata: Option<LatestCaptureReceipt>,
    records: &Vec<(u64, FinalizedQueueRecord)>,
) -> (result: Result<QueueRecovery, RecoveryFault>)
    ensures
        result == queue_recovery(metadata, records@),
{
    let tail: Option<LatestCaptureReceipt> = if records.len() == 0 {
        None
    } else {
        Some(records[records.len() - 1].1.receipt)
    };
    match check_recovery(metadata, tail) {
        Err(fault) => Err(fault),
        Ok(receipt) => {
            let persist: bool = match (metadata, receipt) {
                (Some(stored), Some(found)) => !stored.same(&found),
                (None, None) => false,
                _ => true,
            };
            Ok(
                QueueRecovery {
                    receipt,
                    persist,
                    require_fresh: requires_fresh_namespace_validation(receipt),
                    pending_uploads: metric_i64(records.len() as u64),
                },
            )
        },
    }
}

/// Recovery never moves capture back: the receipt it settles on is at or above
/// both stored ones, and there is one to persist whenever the stored one is not
/// it.
pub proof fn recovery_never_regresses(
    metadata: Option<LatestCaptureReceipt>,
    queue: Option<LatestCaptureReceipt>,
)
    requires
        recovery_fault(metadata, queue) is None,
    ensures
        metadata matches Some(stored) ==> recovered(metadata, queue) matches Some(found)
            && found.height >= stored.height,
        queue matches Some(tail) ==> recovered(metadata, queue) == Some(tail),
        metadata != recovered(metadata, queue) ==> recovered(metadata, queue) is Some,
{
}

/// An entry belongs where it is read exactly if its height is one above its
/// position and it continues both logs of the entry before it; the entry at the
/// first position starts both logs at one. A fault says what was found and what
/// was expected.
pub proof fn entries_continue_the_one_before(
    previous: FinalizedQueueRecord,
    position: u64,
    record: FinalizedQueueRecord,
)
    requires
        position < u64::MAX,
        previous.receipt.height < u64::MAX,
    ensures
        position > 0 ==> (entry_fault(Some(previous), position, record) is None
            <==> record.receipt.height == position + 1 && record.receipt.height
            == previous.receipt.height + 1 && record.state_start == previous.receipt.state_end
            && record.transaction_start == previous.receipt.transaction_end),
        entry_fault(None, 0, record) is None <==> record.receipt.height == 1 && record.state_start
            == 1 && record.transaction_start == 1,
        position > 0 ==> (entry_fault(None, position, record) is None <==> record.receipt.height
            == position + 1),
        entry_fault(Some(previous), position, record) matches Some(
            ScanFault::Height { actual, expected },
        ) ==> actual == record.receipt.height && expected == position + 1,
        entry_fault(Some(previous), position, record) matches Some(
            ScanFault::HeightGap { actual, previous: before },
        ) ==> actual == record.receipt.height && before == previous.receipt.height,
        entry_fault(Some(previous), position, record) matches Some(
            ScanFault::StateGap { actual, expected },
        ) ==> actual == record.state_start && expected == previous.receipt.state_end,
        entry_fault(Some(previous), position, record) matches Some(
            ScanFault::TransactionGap { actual, expected },
        ) ==> actual == record.transaction_start && expected == previous.receipt.transaction_end,
        entry_fault(Some(previous), 0, record) matches Some(ScanFault::FirstStateStart { actual })
            ==> actual == record.state_start && actual != 1,
        entry_fault(Some(previous), 0, record) matches Some(
            ScanFault::FirstTransactionStart { actual },
        ) ==> actual == record.transaction_start && actual != 1,
{
}

/// A sweep accepts the records exactly if every one has its payload on disk at
/// the recorded length; what it refuses is a record of which that is not so.
pub proof fn swept_records_have_their_payload(
    on_disk: Set<u64>,
    lengths: Map<u64, u64>,
    records: Seq<(u64, FinalizedQueueRecord)>,
)
    ensures
        sweep_fault(on_disk, lengths, records) is None <==> forall|i: int|
            0 <= i < records.len() ==> on_disk.contains((#[trigger] records[i]).1.receipt.height)
                && lengths[records[i].1.receipt.height] == records[i].1.payload.len,
        sweep_fault(on_disk, lengths, records) matches Some(SweepFault::Missing { height })
            ==> !on_disk.contains(height) && referenced(records).contains(height),
        sweep_fault(on_disk, lengths, records) matches Some(
            SweepFault::Length { height, actual, expected },
        ) ==> on_disk.contains(height) && lengths[height] == actual && actual != expected
            && exists|i: int|
            0 <= i < records.len() && (#[trigger] records[i]).1.receipt.height == height
                && records[i].1.payload.len == expected,
    decreases records.len(),
{
    if records.len() > 0 {
        let init = records.drop_last();
        swept_records_have_their_payload(on_disk, lengths, init);
        let last = records[records.len() - 1];
        assert(records.last() == last);
        assert forall|i: int| 0 <= i < init.len() implies init[i] == #[trigger] records[i] by {}
        if sweep_fault(on_disk, lengths, records) is None {
            assert forall|i: int| 0 <= i < records.len() implies on_disk.contains(
                (#[trigger] records[i]).1.receipt.height,
            ) && lengths[records[i].1.receipt.height] == records[i].1.payload.len by {
                if i < init.len() {
                    assert(init[i] == records[i]);
                }
            }
        } else if sweep_fault(on_disk, lengths, init) is Some {
            if forall|i: int|
                0 <= i < records.len() ==> on_disk.contains(
                    (#[trigger] records[i]).1.receipt.height,
                ) && lengths[records[i].1.receipt.height] == records[i].1.payload.len {
                assert forall|i: int| 0 <= i < init.len() implies on_disk.contains(
                    (#[trigger] init[i]).1.receipt.height,
                ) && lengths[init[i].1.receipt.height] == init[i].1.payload.len by {
                    assert(records[i] == init[i]);
                }
            }
            if let Some(SweepFault::Length { height, actual, expected }) = sweep_fault(
                on_disk,
                lengths,
                init,
            ) {
                let i = choose|i: int|
                    0 <= i < init.len() && (#[trigger] init[i]).1.receipt.height == height
                        && init[i].1.payload.len == expected;
                assert(records[i].1.receipt.height == height);
            }
        } else {
            assert(records[records.len() - 1].1.receipt.height == last.1.receipt.height);
        }
    }
}

/// The heights that are referred to are those of the records and no others, and
/// recorded bytes add up as records follow one another.
pub proof fn references_are_those_of_the_records(
    records: Seq<(u64, FinalizedQueueRecord)>,
    next: (u64, FinalizedQueueRecord),
    height: u64,
)
    ensures
        referenced(records).contains(height) <==> exists|i: int|
            0 <= i < records.len() && (#[trigger] records[i]).1.receipt.height == height,
        recorded_bytes(records) + next.1.payload.len <= u64::MAX ==> recorded_bytes(
            records.push(next),
        ) == recorded_bytes(records) + next.1.payload.len,
        recorded_bytes(Seq::empty()) == 0,
    decreases records.len(),
{
    assert(records.push(next).drop_last() =~= records);
    if records.len() > 0 {
        let init = records.drop_last();
        references_are_those_of_the_records(init, next, height);
        if referenced(init).contains(height) {
            let i = choose|i: int|
                0 <= i < init.len() && (#[trigger] init[i]).1.receipt.height == height;
            assert(records[i].1.receipt.height == height);
        }
        if exists|i: int| 0 <= i < records.len() && (#[trigger] records[i]).1.receipt.height
            == height {
            let i = choose|i: int|
                0 <= i < records.len() && (#[trigger] records[i]).1.receipt.height == height;
            if i < init.len() {
                assert(init[i].1.receipt.height == height);
            }
        }
        if records.last().1.receipt.height == height {
            assert(records[records.len() - 1].1.receipt.height == height);
        }
    }
}

/// A recovered validator goes on where the queue ends: the last record's block is
/// recognized, and the block after it is captured if it starts both logs where
/// that record ended them. With an empty queue the stored receipt takes the
/// place of the last record, and fresh namespaces are asked for only if there is
/// neither.
pub proof fn recovered_capture_continues_the_queue(
    metadata: Option<LatestCaptureReceipt>,
    records: Seq<(u64, FinalizedQueueRecord)>,
    recovery: QueueRecovery,
    producer: CaptureProducer,
    next: BlockSummary,
    state_start: u64,
    transaction_start: u64,
)
    requires
        queue_recovery(metadata, records) == Ok::<QueueRecovery, RecoveryFault>(recovery),
        producer.receipt == recovery.receipt,
        records.len() <= i64::MAX,
    ensures
        recovery.pending_uploads == records.len(),
        recovery.require_fresh <==> recovery.receipt is None,
        recovery.require_fresh <==> metadata is None && records.len() == 0,
        recovery.persist <==> metadata != recovery.receipt,
        records.len() > 0 ==> {
            let last = records.last().1;
            &&& recovery.receipt == Some(last.receipt)
            &&& 0 < next.height && next.height == last.receipt.height + 1 ==> (producer.decision(
                next,
                state_start,
                transaction_start,
            ) is Ok <==> state_start == last.receipt.state_end && transaction_start
                == last.receipt.transaction_end)
        },
        records.len() == 0 ==> recovery.receipt == metadata && !recovery.persist,
        metadata matches Some(stored) ==> (records.len() > 0 ==> stored.height
            <= records.last().1.receipt.height),
{
}

/// A sweep removes exactly the payloads on disk that no record has the height of.
pub proof fn sweeps_remove_what_no_record_has(
    plan: SweepPlan,
    on_disk: Set<u64>,
    records: Seq<(u64, FinalizedQueueRecord)>,
    height: u64,
)
    requires
        is_sweep(plan, on_disk, records),
    ensures
        plan.orphans@.contains(height) <==> on_disk.contains(height) && forall|i: int|
            0 <= i < records.len() ==> (#[trigger] records[i]).1.receipt.height != height,
        records.len() == 0 ==> plan.retained == 0 && plan.retained_bytes == 0,
{
    if records.len() > 0 {
        references_are_those_of_the_records(records, records[0], height);
    }
    assert(plan.orphans@.contains(height) <==> plan.orphans@.to_set().contains(height));
}

} // verus!
