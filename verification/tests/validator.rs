//! The validator: captures, uploads, payloads, relaying and start-up plans.

use constantinople::codec::DecodeError;
use constantinople::validator::budget::{
    BudgetFault, UploadBudget, FINALIZED_UPLOAD_BUDGET_QUANTUM_BYTES,
};
use constantinople::validator::capture::{
    capture_actions, capture_position, check_capture_position, check_upload, current_time_micros,
    requires_fresh_namespace_validation, validate_next_capture, BlockSummary, CaptureAction,
    CaptureFault, CapturePosition, CaptureProducer, CaptureStep, FinalizedQueueRecord,
    LatestCaptureReceipt, UploadSummary, RECORD_SIZE,
};
use constantinople::validator::consumer::{
    prune_steps, pruned_record_boundary, ConsumerFault, PruneStep, UploadConsumer,
    FINALIZED_QUEUE_ITEMS_PER_SECTION,
};
use constantinople::validator::payloads::{
    blob_name, check_length, check_payload, describe, heights, metric_i64, parse_height,
    write_steps, BlobStep, PayloadCleanup, PayloadDescriptor, PayloadReadError, PayloadStore,
    Removal, RemoveOutcome, RetainedPayloads, CLEANUP_CAPACITY,
};
use constantinople::validator::recovery::{
    check_recovery, recover_capture_receipt, recover_queue, scan_finalized_queue_records,
    sweep_finalized_payloads, RecoveryFault, ScanFault, SweepFault,
};
use std::collections::{BTreeMap, BTreeSet};

fn capture_receipt(height: u64, state_end: u64, transaction_end: u64) -> LatestCaptureReceipt {
    LatestCaptureReceipt {
        height,
        block_digest: [height as u8; 32],
        state_end,
        transaction_end,
    }
}

fn record(height: u64, len: u64) -> FinalizedQueueRecord {
    FinalizedQueueRecord {
        receipt: capture_receipt(height, height + 1, height + 1),
        state_start: height,
        transaction_start: height,
        payload: PayloadDescriptor { len, crc: 0 },
    }
}

#[test]
fn capture_receipt_round_trips() {
    let receipt = capture_receipt(7, 11, 13);
    assert_eq!(
        LatestCaptureReceipt::decode(&receipt.encode()).expect("receipt decodes"),
        receipt
    );
}

#[test]
fn queue_record_round_trips() {
    let record = FinalizedQueueRecord {
        receipt: capture_receipt(7, 11, 13),
        state_start: 5,
        transaction_start: 6,
        payload: PayloadDescriptor {
            len: 31_000_000,
            crc: 0xdead_beef,
        },
    };
    let encoded = record.encode();
    assert_eq!(encoded.len(), RECORD_SIZE);
    assert_eq!(
        FinalizedQueueRecord::decode(&encoded).expect("record decodes"),
        record
    );
    assert_eq!(record.height(), 7);
    assert_eq!(
        FinalizedQueueRecord::decode(&encoded[..83]),
        Err(DecodeError::EndOfBuffer)
    );
    let mut longer = encoded.clone();
    longer.push(0);
    assert_eq!(
        FinalizedQueueRecord::decode(&longer),
        Err(DecodeError::ExtraData(1))
    );
    assert_eq!(&encoded[..8], &7u64.to_be_bytes());
}

#[test]
fn pruned_record_boundary_rounds_down_to_a_section() {
    let section = FINALIZED_QUEUE_ITEMS_PER_SECTION;
    assert_eq!(pruned_record_boundary(0), 0);
    assert_eq!(pruned_record_boundary(section - 1), 0);
    assert_eq!(pruned_record_boundary(section), section);
    assert_eq!(pruned_record_boundary(3 * section + 5), 3 * section);
}

#[test]
fn capture_receipt_covers_older_replays() {
    let receipt = capture_receipt(7, 11, 13);

    assert_eq!(capture_position(None, 1), CapturePosition::Next);
    assert_eq!(
        capture_position(Some(receipt), 6),
        CapturePosition::Captured
    );
    assert_eq!(
        capture_position(Some(receipt), 7),
        CapturePosition::Captured
    );
    assert_eq!(capture_position(Some(receipt), 8), CapturePosition::Next);
}

#[test]
#[should_panic(expected = "genesis must not invoke finalized capture")]
fn capture_receipt_rejects_genesis() {
    check_capture_position(None, 0)
        .map_err(|fault| fault.to_text())
        .unwrap();
}

#[test]
#[should_panic(expected = "finalized capture height must advance without gaps")]
fn capture_receipt_rejects_future_gap() {
    check_capture_position(Some(capture_receipt(7, 11, 13)), 9)
        .map_err(|fault| fault.to_text())
        .unwrap();
}

#[test]
fn queue_tail_repairs_an_older_capture_receipt() {
    let metadata = capture_receipt(7, 11, 13);
    let queue = capture_receipt(8, 14, 17);

    assert_eq!(
        recover_capture_receipt(Some(metadata), Some(queue)),
        Some(queue)
    );
    assert_eq!(recover_capture_receipt(None, Some(queue)), Some(queue));
    assert_eq!(
        recover_capture_receipt(Some(metadata), None),
        Some(metadata)
    );
}

#[test]
fn fresh_validation_only_precedes_the_first_capture() {
    assert!(requires_fresh_namespace_validation(None));
    assert!(!requires_fresh_namespace_validation(Some(capture_receipt(
        1, 2, 3
    ))));
}

#[test]
#[should_panic(expected = "capture receipt is ahead of the durable queue tail")]
fn capture_receipt_cannot_advance_past_a_nonempty_queue() {
    let metadata = capture_receipt(8, 14, 17);
    let queue = capture_receipt(7, 11, 13);

    check_recovery(Some(metadata), Some(queue))
        .map_err(|fault| fault.to_text())
        .unwrap();
}

#[test]
#[should_panic(expected = "capture receipt conflicts with queue tail")]
fn capture_receipt_must_match_the_queue_tail() {
    let metadata = capture_receipt(7, 11, 13);
    let queue = capture_receipt(7, 12, 13);

    check_recovery(Some(metadata), Some(queue))
        .map_err(|fault| fault.to_text())
        .unwrap();
}

#[test]
fn captures_continue_the_chain_and_replays_are_recognized() {
    let block = |height| BlockSummary {
        height,
        seal: [height as u8; 32],
        state_end: height + 1,
        transaction_end: height + 1,
    };
    let upload = |height| UploadSummary {
        height,
        seal: [height as u8; 32],
        state_start: height,
        state_end: height + 1,
        transaction_start: height,
        transaction_end: height + 1,
    };
    let mut producer = CaptureProducer {
        receipt: None,
        pending_uploads: 0,
    };
    assert_eq!(
        producer.begin(&block(1), 1, 1),
        Ok(CaptureStep::Capture {
            validate_namespaces: true,
        })
    );
    let first = CaptureProducer::record(&upload(1), describe(b"x"));
    producer.count_pending();
    producer.committed(&first);
    assert_eq!(producer.pending_uploads, 1);
    assert_eq!(producer.begin(&block(1), 1, 1), Ok(CaptureStep::AlreadyCaptured));
    assert_eq!(
        producer.begin(&block(2), 2, 2),
        Ok(CaptureStep::Capture {
            validate_namespaces: false,
        })
    );
    let mut forged = block(1);
    forged.seal = [9; 32];
    assert_eq!(
        producer.begin(&forged, 1, 1),
        Err(CaptureFault::ReplayConflict)
    );
    assert_eq!(
        validate_next_capture(producer.receipt, 2, 3, 2),
        Err(CaptureFault::StateStart {
            actual: 3,
            expected: 2,
        })
    );
    assert_eq!(
        validate_next_capture(producer.receipt, 2, 2, 1),
        Err(CaptureFault::TransactionStart {
            actual: 1,
            expected: 2,
        })
    );
    assert_eq!(current_time_micros(Some(5)), 5);
    assert_eq!(current_time_micros(None), 0);
}

#[test]
fn restart_sweeps_payloads_left_after_durable_prune() {
    let section = FINALIZED_QUEUE_ITEMS_PER_SECTION;
    let budget = UploadBudget::new(1 << 30);
    let mut consumer = UploadConsumer::new(64, budget, 0, section as i64 + 1);
    for height in 1..=section + 1 {
        let start = consumer
            .record_read(height - 1, record(height, 7))
            .expect("records are in place")
            .expect("the budget has room");
        assert_eq!(start.position, height - 1);
        assert!(consumer.durable(height - 1));
        consumer.completed(height - 1, height).expect("first completion");
    }
    for position in 0..section {
        assert_eq!(consumer.take_ack(), Some((position, position + 1)));
        consumer.acknowledged(position).expect("positions go on");
    }
    let plan = consumer
        .prune(section)
        .expect("records were read")
        .expect("a section is whole");
    assert_eq!(plan.receipt, capture_receipt(section, section + 1, section + 1));
    assert_eq!(plan.removals.len(), section as usize);
    let steps = prune_steps(&plan);
    assert_eq!(steps.len(), section as usize + 2);
    assert_eq!(steps[0], PruneStep::StoreReceipt(plan.receipt));
    assert_eq!(steps[1], PruneStep::SyncQueue { boundary: section });
    assert_eq!(steps[2], PruneStep::RemovePayload { height: 1, len: 7 });
    assert_eq!(
        steps[section as usize + 1],
        PruneStep::RemovePayload {
            height: section,
            len: 7,
        }
    );
    assert_eq!(consumer.payload_floor, section);
    assert_eq!(
        consumer.retained.keys().copied().collect::<Vec<_>>(),
        vec![section]
    );

    let records = scan_finalized_queue_records(vec![(section, record(section + 1, 7))])
        .expect("records chain");
    let on_disk = BTreeSet::from([1, section + 1]);
    let lengths = BTreeMap::from([(1, 7), (section + 1, 7)]);
    let sweep = sweep_finalized_payloads(&on_disk, &lengths, &records).expect("payloads are there");
    assert_eq!(sweep.orphans, vec![1]);
    assert_eq!(sweep.retained, 1);
    assert_eq!(sweep.retained_bytes, 7);
    let recovery = recover_queue(Some(plan.receipt), &records).expect("receipts agree");
    assert_eq!(recovery.receipt, Some(records[0].1.receipt));
    assert!(recovery.persist);
    assert!(!recovery.require_fresh);
}

/// What is on disk: the stored receipt, the queue and the payloads.
#[derive(Clone)]
struct Disk {
    receipt: Option<LatestCaptureReceipt>,
    records: Vec<(u64, FinalizedQueueRecord)>,
    payloads: BTreeMap<u64, Vec<u8>>,
}

impl Disk {
    /// Starts from this disk, and gives the latest capture.
    fn start(&self) -> Option<LatestCaptureReceipt> {
        let records = scan_finalized_queue_records(self.records.clone()).expect("records chain");
        let on_disk: BTreeSet<u64> = self.payloads.keys().copied().collect();
        let lengths = self
            .payloads
            .iter()
            .map(|(height, bytes)| (*height, bytes.len() as u64))
            .collect();
        sweep_finalized_payloads(&on_disk, &lengths, &records).expect("payloads back records");
        for (_, record) in &records {
            let blob = &self.payloads[&record.height()];
            assert!(PayloadStore::read(record.payload, blob).is_ok());
        }
        recover_queue(self.receipt, &records)
            .expect("the receipt agrees with the queue")
            .receipt
    }
}

#[test]
fn pruning_can_crash_after_any_step() {
    let section = FINALIZED_QUEUE_ITEMS_PER_SECTION;
    for tail in [section, section + 3] {
        let mut disk = Disk {
            receipt: None,
            records: Vec::new(),
            payloads: BTreeMap::new(),
        };
        let mut consumer = UploadConsumer::new(64, UploadBudget::new(1 << 30), 0, tail as i64);
        for height in 1..=tail {
            let bytes = vec![height as u8; 7];
            let mut entry = record(height, 7);
            entry.payload = describe(&bytes);
            consumer.record_read(height - 1, entry).expect("in place");
            disk.records.push((height - 1, entry));
            disk.payloads.insert(height, bytes);
        }
        let latest = disk.start();
        let plan = consumer
            .prune(section)
            .expect("records were read")
            .expect("a section is whole");
        for step in prune_steps(&plan) {
            match step {
                PruneStep::StoreReceipt(receipt) => disk.receipt = Some(receipt),
                PruneStep::SyncQueue { boundary } => {
                    disk.records.retain(|(position, _)| *position >= boundary);
                }
                PruneStep::RemovePayload { height, .. } => {
                    disk.payloads.remove(&height);
                }
            }
            assert_eq!(disk.start(), latest);
        }
        assert_eq!(disk.payloads.len() as u64, tail - section);
    }
}

#[test]
fn captures_can_crash_after_any_action() {
    let stale = vec![9u8; 64];
    let payload = vec![1u8; 7];
    let mut disk = Disk {
        receipt: None,
        records: Vec::new(),
        payloads: BTreeMap::from([(1, stale)]),
    };
    let upload = UploadSummary {
        height: 1,
        seal: [1; 32],
        state_start: 1,
        state_end: 2,
        transaction_start: 1,
        transaction_end: 2,
    };
    let actions = capture_actions(CaptureStep::Capture {
        validate_namespaces: true,
    });
    assert_eq!(actions[0], CaptureAction::ValidateNamespaces);
    let mut record = None;
    for action in actions {
        let committed = !disk.records.is_empty();
        assert_eq!(disk.start().is_some(), committed);
        match action {
            CaptureAction::PersistPayload => {
                let (descriptor, _) = PayloadStore::write(&payload, 64);
                disk.payloads.insert(1, payload.clone());
                record = Some(CaptureProducer::record(&upload, descriptor));
            }
            CaptureAction::CommitRecord => {
                disk.records.push((0, record.expect("the payload is durable")));
            }
            CaptureAction::TakeReceipt | CaptureAction::WakeConsumer => assert!(committed),
            CaptureAction::ValidateNamespaces
            | CaptureAction::Construct
            | CaptureAction::CountPending => assert!(!committed),
        }
    }
    assert_eq!(disk.start(), record.map(|record| record.receipt));
    assert!(capture_actions(CaptureStep::AlreadyCaptured).is_empty());
    assert_eq!(
        capture_actions(CaptureStep::Capture {
            validate_namespaces: false,
        })[0],
        CaptureAction::Construct
    );
}

#[test]
fn payloads_must_match_their_records() {
    let upload = UploadSummary {
        height: 4,
        seal: [4; 32],
        state_start: 4,
        state_end: 5,
        transaction_start: 4,
        transaction_end: 5,
    };
    let record = CaptureProducer::record(&upload, describe(b"x"));
    assert_eq!(check_upload(&record, &upload), Ok(()));
    let other = UploadSummary {
        seal: [5; 32],
        ..upload
    };
    let fault = check_upload(&record, &other).expect_err("another block");
    assert_eq!(fault, CaptureFault::Payload { height: 4 });
    assert_eq!(
        fault.to_text(),
        "finalized index payload at height 4 does not match its record"
    );
}

#[test]
fn scans_and_sweeps_name_what_is_wrong() {
    assert_eq!(
        scan_finalized_queue_records(vec![(3, record(5, 7))]).err(),
        Some(ScanFault::Height {
            actual: 5,
            expected: 4,
        })
    );
    let mut gap = record(2, 7);
    gap.state_start = 9;
    assert_eq!(
        scan_finalized_queue_records(vec![(0, record(1, 7)), (1, gap)]).err(),
        Some(ScanFault::StateGap {
            actual: 9,
            expected: 2,
        })
    );
    let records = vec![(0, record(1, 7))];
    assert_eq!(
        sweep_finalized_payloads(&BTreeSet::new(), &BTreeMap::new(), &records).err(),
        Some(SweepFault::Missing { height: 1 })
    );
    assert_eq!(
        sweep_finalized_payloads(
            &BTreeSet::from([1]),
            &BTreeMap::from([(1, 6)]),
            &records,
        )
        .err(),
        Some(SweepFault::Length {
            height: 1,
            actual: 6,
            expected: 7,
        })
    );
    assert_eq!(
        check_recovery(Some(capture_receipt(9, 1, 1)), Some(capture_receipt(8, 1, 1))),
        Err(RecoveryFault::AheadOfQueue)
    );
}

#[test]
fn uploads_acknowledge_in_order_and_at_most_once() {
    let mut consumer = UploadConsumer::new(2, UploadBudget::new(1 << 30), 0, 3);
    assert!(consumer.wants_record());
    consumer.record_read(0, record(1, 7)).expect("in place");
    consumer.record_read(1, record(2, 7)).expect("in place");
    assert!(consumer.at_capacity());
    consumer.completed(1, 2).expect("first completion");
    assert_eq!(consumer.take_ack(), None);
    assert_eq!(
        consumer.completed(1, 2),
        Err(ConsumerFault::CompletedTwice { position: 1 })
    );
    consumer.completed(0, 1).expect("first completion");
    assert_eq!(consumer.take_ack(), Some((0, 1)));
    consumer.acknowledged(0).expect("positions go on");
    assert_eq!(consumer.take_ack(), Some((1, 2)));
    assert!(consumer.prune(5).expect("nothing to read").is_none());
}

#[test]
fn uploads_wait_for_the_budget() {
    let mut consumer = UploadConsumer::new(
        8,
        UploadBudget::new(FINALIZED_UPLOAD_BUDGET_QUANTUM_BYTES),
        0,
        2,
    );
    assert!(consumer.record_read(0, record(1, 7)).expect("in place").is_some());
    assert!(consumer.record_read(1, record(2, 7)).expect("in place").is_none());
    assert!(!consumer.wants_record());
    assert!(consumer.admit_waiting().expect("in place").is_none());
    assert!(consumer.durable(0));
    assert!(!consumer.durable(0));
    let start = consumer
        .admit_waiting()
        .expect("in place")
        .expect("the budget has room again");
    assert_eq!(start.position, 1);
    assert_eq!(start.turn, Some(0));
}

#[test]
fn upload_budget_blocks_until_reservations_drop() {
    let mut budget = UploadBudget::new(2 * FINALIZED_UPLOAD_BUDGET_QUANTUM_BYTES);
    let one_unit_encoded = FINALIZED_UPLOAD_BUDGET_QUANTUM_BYTES / 8;
    let one_unit = budget.charge(one_unit_encoded);
    let two_units = budget.charge(one_unit_encoded + 1);

    let first = budget
        .try_reserve(one_unit)
        .expect("first charge fits budget");
    assert!(budget.try_reserve(two_units).is_none());
    budget.mark_waiting(two_units);
    assert_eq!(budget.metrics.admission_blocked, 1);
    assert_eq!(
        budget.metrics.waiting_bytes,
        i64::try_from(two_units.estimated_bytes).expect("test charge fits metric")
    );
    assert_eq!(budget.metrics.admitted, 1);

    budget.release(first);
    let second = budget
        .try_reserve(two_units)
        .expect("released capacity admits waiting charge");
    budget.clear_waiting();
    assert_eq!(budget.metrics.waiting_bytes, 0);
    assert_eq!(budget.metrics.admitted, 1);
    assert_eq!(
        budget.metrics.reserved_bytes,
        i64::try_from(two_units.estimated_bytes).expect("test charge fits metric")
    );

    budget.release(second);
    assert_eq!(budget.metrics.reserved_bytes, 0);
    assert_eq!(budget.metrics.admitted, 0);
    assert_eq!(budget.available_units, 2);
}

#[test]
fn oversized_upload_reserves_the_entire_budget() {
    let configured_bytes = 2 * FINALIZED_UPLOAD_BUDGET_QUANTUM_BYTES;
    let mut budget = UploadBudget::new(configured_bytes);
    let regular_charge = budget.charge(FINALIZED_UPLOAD_BUDGET_QUANTUM_BYTES / 8);
    let oversized_charge = budget.charge(configured_bytes / 8 + 1);
    assert!(oversized_charge.oversized);

    let regular = budget
        .try_reserve(regular_charge)
        .expect("regular charge fits budget");
    assert!(budget.try_reserve(oversized_charge).is_none());
    budget.release(regular);

    let oversized = budget
        .try_reserve(oversized_charge)
        .expect("oversized charge runs alone");
    assert_eq!(budget.available_units, 0);
    assert!(budget.try_reserve(regular_charge).is_none());
    assert_eq!(budget.metrics.oversized, 1);
    assert!(
        budget.metrics.reserved_bytes
            > i64::try_from(configured_bytes).expect("test budget fits metric")
    );

    budget.release(oversized);
    assert!(budget.try_reserve(regular_charge).is_some());
}

#[test]
fn budgets_must_be_positive_and_countable() {
    assert_eq!(UploadBudget::check_new(0).err(), Some(BudgetFault::Zero));
    assert_eq!(
        UploadBudget::check_new(u64::MAX).err(),
        Some(BudgetFault::TooLarge)
    );
    assert_eq!(
        UploadBudget::check_new(1).map(|budget| budget.total_units),
        Ok(1)
    );
}

#[test]
fn payload_round_trips_and_is_removed() {
    let payload = vec![7u8; 4096];
    let descriptor = describe(&payload);
    assert_eq!(descriptor.len, 4096);
    let names = vec![blob_name(3).to_vec()];
    assert_eq!(
        heights(&names).expect("names are heights").into_iter().collect::<Vec<_>>(),
        vec![3]
    );
    assert!(check_payload(descriptor, &payload).is_ok());
    let mut gauges = RetainedPayloads::new();
    gauges.written(descriptor);
    assert_eq!(gauges.retained, 1);
    assert_eq!(gauges.retained_bytes, 4096);

    gauges
        .removed(RemoveOutcome::Removed, descriptor.len)
        .expect("removed");
    assert_eq!(gauges.retained, 0);
    assert_eq!(gauges.retained_bytes, 0);

    // Removing an absent payload is idempotent.
    gauges
        .removed(RemoveOutcome::BlobMissing, descriptor.len)
        .expect("nothing to remove");
    assert_eq!(gauges.retained, 0);
    assert_eq!(
        gauges.removed(RemoveOutcome::Failed("io".to_string()), 1),
        Err("io".to_string())
    );
    gauges.set_retained(2, 10);
    assert_eq!((gauges.retained, gauges.retained_bytes), (2, 10));
}

#[test]
fn read_rejects_length_and_checksum_mismatches() {
    let descriptor = describe(b"payload");

    let longer = PayloadDescriptor {
        len: descriptor.len + 1,
        ..descriptor
    };
    assert!(matches!(
        check_payload(longer, b"payload"),
        Err(PayloadReadError::Length {
            expected: 8,
            actual: 7
        })
    ));

    let corrupted = PayloadDescriptor {
        crc: descriptor.crc ^ 1,
        ..descriptor
    };
    assert!(matches!(
        check_payload(corrupted, b"payload"),
        Err(PayloadReadError::Checksum { .. })
    ));

    assert!(matches!(
        check_length(descriptor, 0),
        Err(PayloadReadError::Length { actual: 0, .. })
    ));
    assert!(PayloadReadError::Length {
        expected: 8,
        actual: 7,
    }
    .to_text()
    .contains('8'));
}

#[test]
fn payload_checksums_are_castagnoli() {
    assert_eq!(describe(b"123456789").crc, 0xe306_9283);
}

#[test]
fn rewrite_truncates_a_stale_payload() {
    let mut blob: Vec<u8> = Vec::new();
    let mut write = |payload: &[u8]| {
        let (descriptor, steps) = PayloadStore::write(payload, blob.len() as u64);
        for step in steps {
            match step {
                BlobStep::Truncate => blob.clear(),
                BlobStep::Write => {
                    let tail = blob.split_off(payload.len().min(blob.len()));
                    blob = [payload, tail.as_slice()].concat();
                }
                BlobStep::Sync => {}
            }
        }
        (descriptor, blob.clone())
    };
    write(&[1u8; 1024]);
    let replacement = vec![2u8; 16];
    let (descriptor, read) = write(&replacement);

    assert_eq!(descriptor.len, 16);
    assert_eq!(read, replacement);
    assert!(check_payload(descriptor, &read).is_ok());
    assert!(matches!(PayloadStore::read(descriptor, &read), Ok(bytes) if bytes == replacement));
    assert!(matches!(
        PayloadStore::read(descriptor, &[1u8; 1024]),
        Err(PayloadReadError::Length { expected: 16, actual: 1024 })
    ));
    assert!(matches!(
        PayloadStore::read(descriptor, &[1u8; 16]),
        Err(PayloadReadError::Checksum { .. })
    ));
    assert_eq!(write_steps(0), vec![BlobStep::Write, BlobStep::Sync]);
    assert_eq!(
        write_steps(1024),
        vec![BlobStep::Truncate, BlobStep::Write, BlobStep::Sync]
    );
}

#[test]
fn heights_are_ordered() {
    let names: Vec<Vec<u8>> = [12u64, 3, 7]
        .iter()
        .map(|height| blob_name(*height).to_vec())
        .collect();
    assert_eq!(
        heights(&names).expect("names are heights").into_iter().collect::<Vec<_>>(),
        vec![3, 7, 12]
    );
    assert_eq!(parse_height(&[0, 0, 0, 0, 0, 0, 1, 0]), Ok(256));
    assert!(parse_height(b"short").is_err());
    assert_eq!(metric_i64(u64::MAX), i64::MAX);
}

#[test]
fn cleanup_is_bounded_retries_and_drains_without_blocking_payload_io() {
    let count = CLEANUP_CAPACITY as u64 + 2;
    let mut gauges = RetainedPayloads::new();
    for _ in 1..=count {
        gauges.written(describe(b"x"));
    }
    let removal = |height| Removal { height, len: 1 };
    let mut cleanup = PayloadCleanup::new();
    assert!(cleanup.enqueue(removal(1)));
    assert_eq!(cleanup.next(), Some(removal(1)));
    for height in 2..count {
        assert!(cleanup.enqueue(removal(height)));
    }
    assert!(!cleanup.enqueue(removal(count)), "the queue is full");
    assert_eq!(cleanup.pending() as u64, count - 1);
    assert_eq!(gauges.retained, count as i64);

    gauges.written(describe(b"new"));
    let mut attempts = 1;
    assert!(cleanup.ended(RemoveOutcome::Failed("io".to_string()), &mut gauges));
    assert_eq!(cleanup.pending() as u64, count - 1);
    assert_eq!(cleanup.next(), Some(removal(1)), "a failed removal is tried again");

    let mut removed = Vec::new();
    let mut blocked = Some(removal(count));
    while let Some(next) = cleanup.next() {
        attempts += 1;
        assert!(!cleanup.ended(RemoveOutcome::Removed, &mut gauges));
        removed.push(next.height);
        if let Some(waiting) = blocked {
            if cleanup.enqueue(waiting) {
                blocked = None;
            }
        }
    }
    assert_eq!(cleanup.pending(), 0);
    assert_eq!(attempts, count + 1);
    assert_eq!(removed, (1..=count).collect::<Vec<_>>());
    assert_eq!(gauges.retained, 1);
    assert_eq!(gauges.retained_bytes, 3);
}
