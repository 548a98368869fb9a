//! Capture of finalized blocks into the durable index queue.
//!
//! Every finalized block is captured once, in height order. The queue holds
//! one record per block; the latest receipt tells where capture stands.

use crate::codec::{
    be_bytes, be_round_trip, be_value, be_value_round_trip, get_be, lemma_radix_values, put_be,
    DecodeError,
};
use crate::text::{
    contains_text, decimal, decimal_u64, join3, starts_with_seq, texts_contain_their_parts,
};
use crate::validator::payloads::PayloadDescriptor;
use vstd::prelude::*;

verus! {

/// End of both operation logs before the first block.
pub const INITIAL_QMDB_END: u64 = 1;

/// Bytes of an encoded receipt.
pub const RECEIPT_SIZE: usize = 56;

/// Bytes of an encoded queue record.
pub const RECORD_SIZE: usize = 84;

/// The latest block that was captured.
#[derive(Clone, Copy, Debug, PartialEq, Eq)]
pub struct LatestCaptureReceipt {
    pub height: u64,
    pub block_digest: [u8; 32],
    pub state_end: u64,
    pub transaction_end: u64,
}

/// Durable queue entry for one finalized block.
///
/// The queue holds only this record. The encoded upload lives in the payload
/// partition, so a restart recovers the queue without reading any payload.
#[derive(Clone, Copy, Debug, PartialEq, Eq)]
pub struct FinalizedQueueRecord {
    pub receipt: LatestCaptureReceipt,
    pub state_start: u64,
    pub transaction_start: u64,
    pub payload: PayloadDescriptor,
}

/// What capture reads of a finalized block.
#[derive(Clone, Copy, Debug, PartialEq, Eq)]
pub struct BlockSummary {
    pub height: u64,
    pub seal: [u8; 32],
    pub state_end: u64,
    pub transaction_end: u64,
}

/// What capture reads of an upload.
#[derive(Clone, Copy, Debug, PartialEq, Eq)]
pub struct UploadSummary {
    pub height: u64,
    pub seal: [u8; 32],
    pub state_start: u64,
    pub state_end: u64,
    pub transaction_start: u64,
    pub transaction_end: u64,
}

/// Where a finalized height stands against the latest receipt.
#[derive(Clone, Copy, Debug, PartialEq, Eq, Structural)]
pub enum CapturePosition {
    Captured,
    Next,
}

/// A finalized block that capture cannot accept.
#[derive(Clone, Copy, Debug, PartialEq, Eq, Structural)]
pub enum CaptureFault {
    Genesis,
    FirstHeight,
    Gap,
    ReplayConflict,
    Height { actual: u64, expected: u64 },
    StateStart { actual: u64, expected: u64 },
    TransactionStart { actual: u64, expected: u64 },
    /// A payload is not that of its record.
    Payload { height: u64 },
}

impl CaptureFault {
    /// The message of this fault.
    pub open spec fn message(self) -> Seq<char> {
        match self {
            CaptureFault::Genesis => "genesis must not invoke finalized capture"@,
            CaptureFault::FirstHeight => "first finalized capture must have height one"@,
            CaptureFault::Gap => "finalized capture height must advance without gaps"@,
            CaptureFault::ReplayConflict =>
                "finalized replay conflicts with the durable capture receipt"@,
            CaptureFault::Height { .. } => "finalized block height is not the next height"@,
            CaptureFault::StateStart { .. } => "state operations do not start at the last end"@,
            CaptureFault::TransactionStart { .. } =>
                "transaction operations do not start at the last end"@,
            CaptureFault::Payload { height } => "finalized index payload at height "@ + decimal(
                height as nat,
            ) + " does not match its record"@,
        }
    }

    /// The message of this fault as text.
    pub fn to_text(self) -> (text: String)
        ensures
            text@ == self.message(),
    {
        let text = match self {
            CaptureFault::Genesis => "genesis must not invoke finalized capture",
            CaptureFault::FirstHeight => "first finalized capture must have height one",
            CaptureFault::Gap => "finalized capture height must advance without gaps",
            CaptureFault::ReplayConflict =>
                "finalized replay conflicts with the durable capture receipt",
            CaptureFault::Height { .. } => "finalized block height is not the next height",
            CaptureFault::StateStart { .. } => "state operations do not start at the last end",
            CaptureFault::TransactionStart { .. } =>
                "transaction operations do not start at the last end",
            CaptureFault::Payload { height } => {
                return join3(
                    "finalized index payload at height ",
                    decimal_u64(height).as_str(),
                    " does not match its record",
                );
            },
        };
        text.to_owned()
    }
}

fn same_digest(a: &[u8; 32], b: &[u8; 32]) -> (same: bool)
    ensures
        same == (*a == *b),
{
    let mut i: usize = 0;
    while i < 32
        invariant
            i <= 32,
            forall|j: int| 0 <= j < i ==> a@[j] == b@[j],
        decreases 32 - i,
    {
        if a[i] != b[i] {
            return false;
        }
        i = i + 1;
    }
    assert(*a =~= *b);
    true
}

/// The receipt of `upload`.
pub open spec fn receipt_of(upload: UploadSummary) -> LatestCaptureReceipt {
    LatestCaptureReceipt {
        height: upload.height,
        block_digest: upload.seal,
        state_end: upload.state_end,
        transaction_end: upload.transaction_end,
    }
}

/// The receipt of `block`.
pub open spec fn block_receipt(block: BlockSummary) -> LatestCaptureReceipt {
    LatestCaptureReceipt {
        height: block.height,
        block_digest: block.seal,
        state_end: block.state_end,
        transaction_end: block.transaction_end,
    }
}

/// The bytes of an encoded receipt.
pub open spec fn receipt_bytes(receipt: LatestCaptureReceipt) -> Seq<u8> {
    be_bytes(receipt.height as nat, 8) + receipt.block_digest@ + be_bytes(
        receipt.state_end as nat,
        8,
    ) + be_bytes(receipt.transaction_end as nat, 8)
}

/// The bytes of an encoded record.
pub open spec fn record_bytes(record: FinalizedQueueRecord) -> Seq<u8> {
    receipt_bytes(record.receipt) + be_bytes(record.state_start as nat, 8) + be_bytes(
        record.transaction_start as nat,
        8,
    ) + be_bytes(record.payload.len as nat, 8) + be_bytes(record.payload.crc as nat, 4)
}

proof fn lemma_u64_bytes(n: u64)
    ensures
        be_bytes(n as nat, 8).len() == 8,
        be_value(be_bytes(n as nat, 8)) == n,
{
    lemma_radix_values();
    be_round_trip(n as nat, 8);
}

proof fn lemma_u32_bytes(n: u32)
    ensures
        be_bytes(n as nat, 4).len() == 4,
        be_value(be_bytes(n as nat, 4)) == n,
{
    lemma_radix_values();
    be_round_trip(n as nat, 4);
}

proof fn lemma_receipt_layout(receipt: LatestCaptureReceipt)
    ensures
        receipt_bytes(receipt).len() == RECEIPT_SIZE,
        receipt_bytes(receipt).subrange(0, 8) == be_bytes(receipt.height as nat, 8),
        receipt_bytes(receipt).subrange(8, 40) == receipt.block_digest@,
        receipt_bytes(receipt).subrange(40, 48) == be_bytes(receipt.state_end as nat, 8),
        receipt_bytes(receipt).subrange(48, 56) == be_bytes(receipt.transaction_end as nat, 8),
{
    lemma_u64_bytes(receipt.height);
    lemma_u64_bytes(receipt.state_end);
    lemma_u64_bytes(receipt.transaction_end);
    let b = receipt_bytes(receipt);
    assert(b.subrange(0, 8) =~= be_bytes(receipt.height as nat, 8));
    assert(b.subrange(8, 40) =~= receipt.block_digest@);
    assert(b.subrange(40, 48) =~= be_bytes(receipt.state_end as nat, 8));
    assert(b.subrange(48, 56) =~= be_bytes(receipt.transaction_end as nat, 8));
}

/// Two receipts with the same encoding are the same receipt.
pub proof fn receipt_encoding_is_injective(a: LatestCaptureReceipt, b: LatestCaptureReceipt)
    requires
        receipt_bytes(a) == receipt_bytes(b),
    ensures
        a == b,
{
    lemma_receipt_layout(a);
    lemma_receipt_layout(b);
    lemma_u64_bytes(a.height);
    lemma_u64_bytes(b.height);
    lemma_u64_bytes(a.state_end);
    lemma_u64_bytes(b.state_end);
    lemma_u64_bytes(a.transaction_end);
    lemma_u64_bytes(b.transaction_end);
    assert(a.block_digest =~= b.block_digest);
}

proof fn lemma_record_layout(record: FinalizedQueueRecord)
    ensures
        record_bytes(record).len() == RECORD_SIZE,
        record_bytes(record).subrange(0, 56) == receipt_bytes(record.receipt),
        record_bytes(record).subrange(56, 64) == be_bytes(record.state_start as nat, 8),
        record_bytes(record).subrange(64, 72) == be_bytes(record.transaction_start as nat, 8),
        record_bytes(record).subrange(72, 80) == be_bytes(record.payload.len as nat, 8),
        record_bytes(record).subrange(80, 84) == be_bytes(record.payload.crc as nat, 4),
{
    lemma_receipt_layout(record.receipt);
    lemma_u64_bytes(record.state_start);
    lemma_u64_bytes(record.transaction_start);
    lemma_u64_bytes(record.payload.len);
    lemma_u32_bytes(record.payload.crc);
    let b = record_bytes(record);
    assert(b.subrange(0, 56) =~= receipt_bytes(record.receipt));
    assert(b.subrange(56, 64) =~= be_bytes(record.state_start as nat, 8));
    assert(b.subrange(64, 72) =~= be_bytes(record.transaction_start as nat, 8));
    assert(b.subrange(72, 80) =~= be_bytes(record.payload.len as nat, 8));
    assert(b.subrange(80, 84) =~= be_bytes(record.payload.crc as nat, 4));
}

/// Two records with the same encoding are the same record.
pub proof fn record_encoding_is_injective(a: FinalizedQueueRecord, b: FinalizedQueueRecord)
    requires
        record_bytes(a) == record_bytes(b),
    ensures
        a == b,
{
    lemma_record_layout(a);
    lemma_record_layout(b);
    receipt_encoding_is_injective(a.receipt, b.receipt);
    lemma_u64_bytes(a.state_start);
    lemma_u64_bytes(b.state_start);
    lemma_u64_bytes(a.transaction_start);
    lemma_u64_bytes(b.transaction_start);
    lemma_u64_bytes(a.payload.len);
    lemma_u64_bytes(b.payload.len);
    lemma_u32_bytes(a.payload.crc);
    lemma_u32_bytes(b.payload.crc);
}

impl LatestCaptureReceipt {
    /// The receipt of an upload.
    pub fn from_upload(upload: &UploadSummary) -> (receipt: Self)
        ensures
            receipt == receipt_of(*upload),
    {
        LatestCaptureReceipt {
            height: upload.height,
            block_digest: upload.seal,
            state_end: upload.state_end,
            transaction_end: upload.transaction_end,
        }
    }

    /// Whether two receipts agree in every field.
    pub fn same(&self, other: &Self) -> (same: bool)
        ensures
            same == (*self == *other),
    {
        self.height == other.height && same_digest(&self.block_digest, &other.block_digest)
            && self.state_end == other.state_end && self.transaction_end == other.transaction_end
    }

    /// Whether this is the receipt of `block`.
    pub fn matches_block(&self, block: &BlockSummary) -> (matched: bool)
        ensures
            matched == (*self == block_receipt(*block)),
    {
        self.height == block.height && same_digest(&self.block_digest, &block.seal)
            && self.state_end == block.state_end && self.transaction_end == block.transaction_end
    }

    /// The encoded receipt.
    pub fn encode(&self) -> (bytes: Vec<u8>)
        ensures
            bytes@ == receipt_bytes(*self),
            bytes.len() == RECEIPT_SIZE,
    {
        let mut out: Vec<u8> = Vec::new();
        self.write_to(&mut out);
        proof {
            lemma_receipt_layout(*self);
        }
        assert(out@ =~= receipt_bytes(*self));
        out
    }

    fn write_to(&self, out: &mut Vec<u8>)
        ensures
            final(out)@ == old(out)@ + receipt_bytes(*self),
    {
        put_be(out, self.height, 8);
        let mut i: usize = 0;
        while i < 32
            invariant
                i <= 32,
                out@ == old(out)@ + be_bytes(self.height as nat, 8)
                    + self.block_digest@.take(i as int),
            decreases 32 - i,
        {
            out.push(self.block_digest[i]);
            i = i + 1;
            assert(self.block_digest@.take(i as int) =~= self.block_digest@.take(i - 1).push(
                self.block_digest@[i - 1],
            ));
            assert(out@ =~= old(out)@ + be_bytes(self.height as nat, 8) + self.block_digest@.take(
                i as int,
            ));
        }
        assert(self.block_digest@.take(32) =~= self.block_digest@);
        put_be(out, self.state_end, 8);
        put_be(out, self.transaction_end, 8);
        assert(out@ =~= old(out)@ + receipt_bytes(*self));
    }

    fn read_from(bytes: &[u8]) -> (receipt: Self)
        requires
            bytes.len() >= RECEIPT_SIZE,
        ensures
            receipt_bytes(receipt) == bytes@.take(RECEIPT_SIZE as int),
    {
        let mut digest: [u8; 32] = [0u8;32];
        let mut i: usize = 0;
        while i < 32
            invariant
                i <= 32,
                bytes.len() >= RECEIPT_SIZE,
                forall|j: int| 0 <= j < i ==> digest@[j] == bytes@[8 + j],
            decreases 32 - i,
        {
            digest[i] = bytes[8 + i];
            i = i + 1;
        }
        let receipt = LatestCaptureReceipt {
            height: get_be(bytes, 0, 8),
            block_digest: digest,
            state_end: get_be(bytes, 40, 8),
            transaction_end: get_be(bytes, 48, 8),
        };
        proof {
            be_value_round_trip(bytes@.subrange(0, 8));
            be_value_round_trip(bytes@.subrange(40, 48));
            be_value_round_trip(bytes@.subrange(48, 56));
            assert(digest@ =~= bytes@.subrange(8, 40));
            assert(receipt_bytes(receipt) =~= bytes@.take(56));
        }
        receipt
    }

    /// The receipt that `bytes` encode.
    pub fn decode(bytes: &[u8]) -> (result: Result<Self, DecodeError>)
        ensures
            result matches Ok(receipt) ==> bytes@ == receipt_bytes(receipt),
            result is Ok <==> bytes.len() == RECEIPT_SIZE,
            bytes.len() < RECEIPT_SIZE ==> result == Err::<Self, DecodeError>(
                DecodeError::EndOfBuffer,
            ),
            bytes.len() > RECEIPT_SIZE ==> result == Err::<Self, DecodeError>(
                DecodeError::ExtraData((bytes.len() - RECEIPT_SIZE) as usize),
            ),
    {
        if bytes.len() < RECEIPT_SIZE {
            return Err(DecodeError::EndOfBuffer);
        }
        if bytes.len() > RECEIPT_SIZE {
            return Err(DecodeError::ExtraData(bytes.len() - RECEIPT_SIZE));
        }
        assert(bytes@.take(56) =~= bytes@);
        Ok(Self::read_from(bytes))
    }
}

impl FinalizedQueueRecord {
    /// The height of the recorded block.
    pub fn height(&self) -> (height: u64)
        ensures
            height == self.receipt.height,
    {
        self.receipt.height
    }

    /// The encoded record.
    pub fn encode(&self) -> (bytes: Vec<u8>)
        ensures
            bytes@ == record_bytes(*self),
            bytes.len() == RECORD_SIZE,
    {
        let mut out: Vec<u8> = Vec::new();
        self.receipt.write_to(&mut out);
        put_be(&mut out, self.state_start, 8);
        put_be(&mut out, self.transaction_start, 8);
        put_be(&mut out, self.payload.len, 8);
        put_be(&mut out, self.payload.crc as u64, 4);
        proof {
            lemma_record_layout(*self);
        }
        assert(out@ =~= record_bytes(*self));
        out
    }

    /// The record that `bytes` encode.
    pub fn decode(bytes: &[u8]) -> (result: Result<Self, DecodeError>)
        ensures
            result matches Ok(record) ==> bytes@ == record_bytes(record),
            result is Ok <==> bytes.len() == RECORD_SIZE,
            bytes.len() < RECORD_SIZE ==> result == Err::<Self, DecodeError>(
                DecodeError::EndOfBuffer,
            ),
            bytes.len() > RECORD_SIZE ==> result == Err::<Self, DecodeError>(
                DecodeError::ExtraData((bytes.len() - RECORD_SIZE) as usize),
            ),
    {
        if bytes.len() < RECORD_SIZE {
            return Err(DecodeError::EndOfBuffer);
        }
        if bytes.len() > RECORD_SIZE {
            return Err(DecodeError::ExtraData(bytes.len() - RECORD_SIZE));
        }
        proof {
            lemma_radix_values();
            be_value_round_trip(bytes@.subrange(56, 64));
            be_value_round_trip(bytes@.subrange(64, 72));
            be_value_round_trip(bytes@.subrange(72, 80));
            be_value_round_trip(bytes@.subrange(80, 84));
        }
        let record = FinalizedQueueRecord {
            receipt: LatestCaptureReceipt::read_from(bytes),
            state_start: get_be(bytes, 56, 8),
            transaction_start: get_be(bytes, 64, 8),
            payload: PayloadDescriptor {
                len: get_be(bytes, 72, 8),
                crc: get_be(bytes, 80, 4) as u32,
            },
        };
        assert(record_bytes(record) =~= bytes@);
        Ok(record)
    }
}

/// A receipt is decoded from the bytes it encodes to.
pub proof fn receipt_round_trip(receipt: LatestCaptureReceipt, decoded: LatestCaptureReceipt)
    ensures
        receipt_bytes(receipt).len() == RECEIPT_SIZE,
        receipt_bytes(receipt) == receipt_bytes(decoded) ==> decoded == receipt,
{
    lemma_receipt_layout(receipt);
    if receipt_bytes(receipt) == receipt_bytes(decoded) {
        receipt_encoding_is_injective(receipt, decoded);
    }
}

/// A record is decoded from the bytes it encodes to.
pub proof fn record_round_trip(record: FinalizedQueueRecord, decoded: FinalizedQueueRecord)
    ensures
        record_bytes(record).len() == RECORD_SIZE,
        record_bytes(record) == record_bytes(decoded) ==> decoded == record,
{
    lemma_record_layout(record);
    if record_bytes(record) == record_bytes(decoded) {
        record_encoding_is_injective(record, decoded);
    }
}

/// The fault of a finalized `height` that the latest receipt does not admit.
pub open spec fn position_fault(
    current: Option<LatestCaptureReceipt>,
    height: u64,
) -> Option<CaptureFault> {
    if height == 0 {
        Some(CaptureFault::Genesis)
    } else {
        match current {
            None => if height == 1 {
                None
            } else {
                Some(CaptureFault::FirstHeight)
            },
            Some(receipt) => if height <= receipt.height + 1 {
                None
            } else {
                Some(CaptureFault::Gap)
            },
        }
    }
}

/// Where an admitted `height` stands: captured up to the receipt, next above it.
pub open spec fn position_of(
    current: Option<LatestCaptureReceipt>,
    height: u64,
) -> CapturePosition {
    match current {
        Some(receipt) if height <= receipt.height => CapturePosition::Captured,
        _ => CapturePosition::Next,
    }
}

/// Where `height` stands against the latest receipt, or why it cannot stand
/// anywhere: capture starts at height one and advances without gaps.
pub fn check_capture_position(current: Option<LatestCaptureReceipt>, height: u64) -> (result:
    Result<CapturePosition, CaptureFault>)
    ensures
        match position_fault(current, height) {
            Some(fault) => result == Err::<CapturePosition, CaptureFault>(fault),
            None => result == Ok::<CapturePosition, CaptureFault>(position_of(current, height)),
        },
{
    if height == 0 {
        return Err(CaptureFault::Genesis);
    }
    match current {
        None => {
            if height != 1 {
                return Err(CaptureFault::FirstHeight);
            }
            Ok(CapturePosition::Next)
        },
        Some(receipt) => {
            if height <= receipt.height {
                return Ok(CapturePosition::Captured);
            }
            if height != receipt.height + 1 {
                return Err(CaptureFault::Gap);
            }
            Ok(CapturePosition::Next)
        },
    }
}

/// Where an admissible `height` stands against the latest receipt.
pub fn capture_position(current: Option<LatestCaptureReceipt>, height: u64) -> (position:
    CapturePosition)
    requires
        position_fault(current, height) is None,
    ensures
        position == position_of(current, height),
{
    match current {
        Some(receipt) => if height <= receipt.height {
            CapturePosition::Captured
        } else {
            CapturePosition::Next
        },
        None => CapturePosition::Next,
    }
}

/// The height, state start and transaction start that the next capture has.
pub open spec fn next_capture(current: Option<LatestCaptureReceipt>) -> (int, u64, u64) {
    match current {
        None => (1, INITIAL_QMDB_END, INITIAL_QMDB_END),
        Some(receipt) => (receipt.height + 1, receipt.state_end, receipt.transaction_end),
    }
}

/// The fault of a next capture that does not continue where the last one ended.
pub open spec fn continuation_fault(
    current: Option<LatestCaptureReceipt>,
    height: u64,
    state_start: u64,
    transaction_start: u64,
) -> Option<CaptureFault> {
    let (expected_height, expected_state, expected_transaction) = next_capture(current);
    if height != expected_height {
        Some(CaptureFault::Height { actual: height, expected: expected_height as u64 })
    } else if state_start != expected_state {
        Some(CaptureFault::StateStart { actual: state_start, expected: expected_state })
    } else if transaction_start != expected_transaction {
        Some(
            CaptureFault::TransactionStart {
                actual: transaction_start,
                expected: expected_transaction,
            },
        )
    } else {
        None
    }
}

/// Checks that the next capture continues both operation logs where the last
/// one ended.
pub fn validate_next_capture(
    current: Option<LatestCaptureReceipt>,
    height: u64,
    state_start: u64,
    transaction_start: u64,
) -> (result: Result<(), CaptureFault>)
    requires
        current matches Some(receipt) ==> receipt.height < u64::MAX,
    ensures
        match continuation_fault(current, height, state_start, transaction_start) {
            Some(fault) => result == Err::<(), CaptureFault>(fault),
            None => result is Ok,
        },
{
    let (expected_height, expected_state, expected_transaction): (u64, u64, u64) = match current {
        None => (1, INITIAL_QMDB_END, INITIAL_QMDB_END),
        Some(receipt) => (receipt.height + 1, receipt.state_end, receipt.transaction_end),
    };
    if height != expected_height {
        return Err(CaptureFault::Height { actual: height, expected: expected_height });
    }
    if state_start != expected_state {
        return Err(CaptureFault::StateStart { actual: state_start, expected: expected_state });
    }
    if transaction_start != expected_transaction {
        return Err(
            CaptureFault::TransactionStart {
                actual: transaction_start,
                expected: expected_transaction,
            },
        );
    }
    Ok(())
}

/// Remote namespaces are validated as fresh only before the first capture.
pub fn requires_fresh_namespace_validation(capture_receipt: Option<LatestCaptureReceipt>) -> (fresh:
    bool)
    ensures
        fresh == (capture_receipt is None),
{
    capture_receipt.is_none()
}

/// Microseconds since the epoch as a timestamp.
pub open spec fn micros_of(elapsed: Option<u128>) -> i64 {
    match elapsed {
        Some(elapsed) => elapsed as i64,
        None => 0,
    }
}

/// Microseconds since the epoch as a timestamp, given the time that passed
/// since then. A clock before the epoch gives zero.
pub fn current_time_micros(elapsed: Option<u128>) -> (micros: i64)
    ensures
        micros == micros_of(elapsed),
{
    match elapsed {
        Some(elapsed) =>
        #[verifier::truncate]
        (elapsed as i64),
        None => 0,
    }
}

/// Whether `upload` is the one that `record` was made for.
pub open spec fn backs_record(record: FinalizedQueueRecord, upload: UploadSummary) -> bool {
    receipt_of(upload) == record.receipt
}

/// Rejects an upload, decoded from a payload, that is not the one its record was
/// made for.
pub fn check_upload(record: &FinalizedQueueRecord, upload: &UploadSummary) -> (result: Result<
    (),
    CaptureFault,
>)
    ensures
        result is Ok <==> receipt_of(*upload) == record.receipt,
        result is Ok <==> backs_record(*record, *upload),
        result matches Err(fault) ==> fault == (CaptureFault::Payload {
            height: record.receipt.height,
        }),
{
    if LatestCaptureReceipt::from_upload(upload).same(&record.receipt) {
        Ok(())
    } else {
        Err(CaptureFault::Payload { height: record.receipt.height })
    }
}

/// The upload that a record was made for is accepted with it, and any upload
/// that is accepted with it has its height, its block and both of its log ends.
pub proof fn recorded_upload_is_accepted(
    upload: UploadSummary,
    record: FinalizedQueueRecord,
    decoded: UploadSummary,
)
    requires
        record.receipt == receipt_of(upload),
    ensures
        decoded == upload ==> receipt_of(decoded) == record.receipt,
        receipt_of(decoded) == record.receipt ==> decoded.height == upload.height && decoded.seal
            == upload.seal && decoded.state_end == upload.state_end && decoded.transaction_end
            == upload.transaction_end,
{
}

/// What the finalized hook does with a block.
#[derive(Clone, Copy, Debug, PartialEq, Eq, Structural)]
pub enum CaptureStep {
    /// The block is in the queue already.
    AlreadyCaptured,
    /// The block is captured now, after the remote namespaces were validated
    /// where that is asked for.
    Capture { validate_namespaces: bool },
}

/// One action of the finalized hook.
#[derive(Clone, Copy, Debug, PartialEq, Eq, Structural)]
pub enum CaptureAction {
    /// Connects to the remote namespaces, which must be fresh.
    ValidateNamespaces,
    /// Encodes the upload of the block with its finalization.
    Construct,
    /// Writes and syncs the payload of the upload.
    PersistPayload,
    /// Counts the capture before the consumer can complete it.
    CountPending,
    /// Commits the record of the upload to the queue.
    CommitRecord,
    /// Takes the committed record as the latest capture.
    TakeReceipt,
    WakeConsumer,
}

/// The actions that `step` takes: the payload is durable before its record is
/// committed, and only a committed record becomes the latest capture.
pub open spec fn capture_order(step: CaptureStep) -> Seq<CaptureAction> {
    match step {
        CaptureStep::AlreadyCaptured => Seq::empty(),
        CaptureStep::Capture { validate_namespaces } => (if validate_namespaces {
            seq![CaptureAction::ValidateNamespaces]
        } else {
            Seq::empty()
        }) + seq![
            CaptureAction::Construct,
            CaptureAction::PersistPayload,
            CaptureAction::CountPending,
            CaptureAction::CommitRecord,
            CaptureAction::TakeReceipt,
            CaptureAction::WakeConsumer,
        ],
    }
}

/// The actions that `step` takes, in order.
pub fn capture_actions(step: CaptureStep) -> (actions: Vec<CaptureAction>)
    ensures
        actions@ == capture_order(step),
{
    let mut actions: Vec<CaptureAction> = Vec::new();
    match step {
        CaptureStep::AlreadyCaptured => {},
        CaptureStep::Capture { validate_namespaces } => {
            if validate_namespaces {
                actions.push(CaptureAction::ValidateNamespaces);
            }
            actions.push(CaptureAction::Construct);
            actions.push(CaptureAction::PersistPayload);
            actions.push(CaptureAction::CountPending);
            actions.push(CaptureAction::CommitRecord);
            actions.push(CaptureAction::TakeReceipt);
            actions.push(CaptureAction::WakeConsumer);
        },
    }
    assert(actions@ =~= capture_order(step));
    actions
}

/// The finalized hook's side of the queue.
#[derive(Clone, Copy, Debug, PartialEq, Eq)]
pub struct CaptureProducer {
    /// The latest block that was captured.
    pub receipt: Option<LatestCaptureReceipt>,
    /// Queue entries not yet acknowledged, as a metric.
    pub pending_uploads: i64,
}

/// The fault of handing `block` to the hook.
pub open spec fn capture_fault(
    current: Option<LatestCaptureReceipt>,
    block: BlockSummary,
    state_start: u64,
    transaction_start: u64,
) -> Option<CaptureFault> {
    match position_fault(current, block.height) {
        Some(fault) => Some(fault),
        None => match position_of(current, block.height) {
            CapturePosition::Captured => match current {
                Some(receipt) if receipt.height == block.height && receipt != block_receipt(block) =>
                    Some(CaptureFault::ReplayConflict),
                _ => None,
            },
            CapturePosition::Next => continuation_fault(
                current,
                block.height,
                state_start,
                transaction_start,
            ),
        },
    }
}

/// Whether `record` continues both logs from `current`.
pub open spec fn continues(
    current: Option<LatestCaptureReceipt>,
    record: FinalizedQueueRecord,
) -> bool {
    (record.receipt.height as int, record.state_start, record.transaction_start) == next_capture(
        current,
    )
}

/// The record of `upload`, whose payload is the one described.
pub open spec fn record_of(
    upload: UploadSummary,
    payload: PayloadDescriptor,
) -> FinalizedQueueRecord {
    FinalizedQueueRecord {
        receipt: receipt_of(upload),
        state_start: upload.state_start,
        transaction_start: upload.transaction_start,
        payload,
    }
}

impl CaptureProducer {
    /// What the hook does with `block`, whose operations start both logs there.
    pub open spec fn decision(
        &self,
        block: BlockSummary,
        state_start: u64,
        transaction_start: u64,
    ) -> Result<CaptureStep, CaptureFault> {
        match capture_fault(self.receipt, block, state_start, transaction_start) {
            Some(fault) => Err(fault),
            None => Ok(
                match position_of(self.receipt, block.height) {
                    CapturePosition::Captured => CaptureStep::AlreadyCaptured,
                    CapturePosition::Next => CaptureStep::Capture {
                        validate_namespaces: self.receipt is None,
                    },
                },
            ),
        }
    }

    /// The hook once a capture was counted.
    pub open spec fn after_count(&self) -> Self {
        CaptureProducer {
            receipt: self.receipt,
            pending_uploads: self.pending_uploads.wrapping_add(1),
        }
    }

    /// The hook once the queue committed `record`.
    pub open spec fn after_commit(&self, record: FinalizedQueueRecord) -> Self {
        CaptureProducer {
            receipt: Some(record.receipt),
            pending_uploads: self.pending_uploads,
        }
    }

    /// Decides what to do with a finalized block.
    ///
    /// A replay of the latest block must carry the receipt that is durable; an
    /// older replay is taken as captured.
    pub fn begin(&self, block: &BlockSummary, state_start: u64, transaction_start: u64) -> (result:
        Result<CaptureStep, CaptureFault>)
        ensures
            result == self.decision(*block, state_start, transaction_start),
    {
        match check_capture_position(self.receipt, block.height) {
            Err(fault) => {
                return Err(fault);
            },
            Ok(CapturePosition::Captured) => {
                if let Some(receipt) = self.receipt {
                    if receipt.height == block.height && !receipt.matches_block(block) {
                        return Err(CaptureFault::ReplayConflict);
                    }
                }
                return Ok(CaptureStep::AlreadyCaptured);
            },
            Ok(CapturePosition::Next) => {},
        }
        match validate_next_capture(self.receipt, block.height, state_start, transaction_start) {
            Err(fault) => Err(fault),
            Ok(()) => Ok(
                CaptureStep::Capture {
                    validate_namespaces: requires_fresh_namespace_validation(self.receipt),
                },
            ),
        }
    }

    /// The record of an upload whose payload is durable.
    pub fn record(upload: &UploadSummary, payload: PayloadDescriptor) -> (record:
        FinalizedQueueRecord)
        ensures
            record == record_of(*upload, payload),
    {
        FinalizedQueueRecord {
            receipt: LatestCaptureReceipt::from_upload(upload),
            state_start: upload.state_start,
            transaction_start: upload.transaction_start,
            payload,
        }
    }

    /// Counts a capture before the consumer can complete it.
    pub fn count_pending(&mut self)
        ensures
            final(self).receipt == old(self).receipt,
            final(self).pending_uploads == old(self).pending_uploads.wrapping_add(1),
            *final(self) == old(self).after_count(),
    {
        self.pending_uploads = self.pending_uploads.wrapping_add(1);
    }

    /// Takes a record that the queue committed as the latest capture.
    pub fn committed(&mut self, record: &FinalizedQueueRecord)
        ensures
            *final(self) == old(self).after_commit(*record),
    {
        self.receipt = Some(record.receipt);
    }
}

/// A block that the hook captures gives a record that continues the queue: the
/// next height, and both logs from where the last capture ended.
pub proof fn captured_block_continues(
    current: Option<LatestCaptureReceipt>,
    block: BlockSummary,
    record: FinalizedQueueRecord,
)
    requires
        capture_fault(current, block, record.state_start, record.transaction_start) is None,
        position_of(current, block.height) == CapturePosition::Next,
        record.receipt == block_receipt(block),
    ensures
        continues(current, record),
        position_of(Some(record.receipt), block.height) == CapturePosition::Captured,
{
}

/// Once a block is captured, handing the same block to the hook again is
/// accepted and captures nothing.
pub proof fn replay_is_idempotent(
    block: BlockSummary,
    state_start: u64,
    transaction_start: u64,
)
    requires
        block.height > 0,
    ensures
        capture_fault(Some(block_receipt(block)), block, state_start, transaction_start) is None,
        position_of(Some(block_receipt(block)), block.height) == CapturePosition::Captured,
{
}

/// Heights at or below a receipt stay captured as the receipt advances.
pub proof fn captured_stays_captured(
    earlier: LatestCaptureReceipt,
    later: LatestCaptureReceipt,
    height: u64,
)
    requires
        earlier.height <= later.height,
        position_of(Some(earlier), height) == CapturePosition::Captured,
    ensures
        position_of(Some(later), height) == CapturePosition::Captured,
{
}

/// The receipt of an upload is that of the block it was made from. So once its
/// record is committed, the block is recognized when it is handed over again,
/// whatever starts come with it, and the block after it is captured exactly if
/// it starts both logs where the upload ended them.
pub proof fn captured_upload_is_its_block(
    producer: CaptureProducer,
    block: BlockSummary,
    upload: UploadSummary,
    payload: PayloadDescriptor,
    next: BlockSummary,
    state_start: u64,
    transaction_start: u64,
)
    requires
        0 < block.height,
        upload.height == block.height,
        upload.seal == block.seal,
        upload.state_end == block.state_end,
        upload.transaction_end == block.transaction_end,
        next.height == block.height + 1,
    ensures
        ({
            let record = record_of(upload, payload);
            let after = producer.after_commit(record);
            &&& record.receipt.height == upload.height
            &&& record.receipt.block_digest == upload.seal
            &&& record.receipt.state_end == upload.state_end
            &&& record.receipt.transaction_end == upload.transaction_end
            &&& record.state_start == upload.state_start
            &&& record.transaction_start == upload.transaction_start
            &&& record.payload == payload
            &&& after.pending_uploads == producer.pending_uploads
            &&& after.decision(block, state_start, transaction_start) == Ok::<
                CaptureStep,
                CaptureFault,
            >(CaptureStep::AlreadyCaptured)
            &&& after.decision(next, state_start, transaction_start) is Ok <==> state_start
                == upload.state_end && transaction_start == upload.transaction_end
            &&& after.decision(next, upload.state_end, upload.transaction_end) == Ok::<
                CaptureStep,
                CaptureFault,
            >(CaptureStep::Capture { validate_namespaces: false })
        }),
{
}

/// A block that differs from the one captured at its height, in its seal or in
/// either of its log ends, is refused when it is handed over as a replay.
pub proof fn conflicting_replay_is_refused(
    producer: CaptureProducer,
    upload: UploadSummary,
    payload: PayloadDescriptor,
    block: BlockSummary,
    state_start: u64,
    transaction_start: u64,
)
    requires
        0 < block.height,
        upload.height == block.height,
        upload.seal != block.seal || upload.state_end != block.state_end
            || upload.transaction_end != block.transaction_end,
    ensures
        producer.after_commit(record_of(upload, payload)).decision(
            block,
            state_start,
            transaction_start,
        ) == Err::<CaptureStep, CaptureFault>(CaptureFault::ReplayConflict),
{
}

/// A hook that captured nothing yet takes only the block at height one, which
/// starts both logs at one, and only then has the namespaces validated.
pub proof fn capture_starts_at_the_first_block(
    producer: CaptureProducer,
    block: BlockSummary,
    state_start: u64,
    transaction_start: u64,
)
    requires
        producer.receipt is None,
    ensures
        producer.decision(block, state_start, transaction_start) is Ok <==> block.height == 1
            && state_start == 1 && transaction_start == 1,
        producer.decision(block, state_start, transaction_start) matches Ok(step) ==> step
            == (CaptureStep::Capture { validate_namespaces: true }),
        block.height == 0 ==> producer.decision(block, state_start, transaction_start) == Err::<
            CaptureStep,
            CaptureFault,
        >(CaptureFault::Genesis),
        block.height > 1 ==> producer.decision(block, state_start, transaction_start) == Err::<
            CaptureStep,
            CaptureFault,
        >(CaptureFault::FirstHeight),
{
}

/// A hook with a receipt takes every lower height as captured, and refuses a
/// height that would leave a gap.
pub proof fn captures_leave_no_gap(
    producer: CaptureProducer,
    receipt: LatestCaptureReceipt,
    block: BlockSummary,
    state_start: u64,
    transaction_start: u64,
)
    requires
        producer.receipt == Some(receipt),
    ensures
        0 < block.height < receipt.height ==> producer.decision(
            block,
            state_start,
            transaction_start,
        ) == Ok::<CaptureStep, CaptureFault>(CaptureStep::AlreadyCaptured),
        block.height > receipt.height + 1 ==> producer.decision(
            block,
            state_start,
            transaction_start,
        ) == Err::<CaptureStep, CaptureFault>(CaptureFault::Gap),
        block.height == 0 ==> producer.decision(block, state_start, transaction_start) == Err::<
            CaptureStep,
            CaptureFault,
        >(CaptureFault::Genesis),
        block.height == receipt.height + 1 && state_start != receipt.state_end
            ==> producer.decision(block, state_start, transaction_start) == Err::<
            CaptureStep,
            CaptureFault,
        >(
            CaptureFault::StateStart { actual: state_start, expected: receipt.state_end },
        ),
        block.height == receipt.height + 1 && state_start == receipt.state_end && transaction_start
            != receipt.transaction_end ==> producer.decision(block, state_start, transaction_start)
            == Err::<CaptureStep, CaptureFault>(
            CaptureFault::TransactionStart {
                actual: transaction_start,
                expected: receipt.transaction_end,
            },
        ),
{
}

/// An encoded receipt holds the height, the block's digest, the state end and
/// the transaction end, in that order and most significant byte first.
pub proof fn receipt_layout(receipt: LatestCaptureReceipt)
    ensures
        receipt_bytes(receipt).len() == 56,
        be_value(receipt_bytes(receipt).subrange(0, 8)) == receipt.height,
        receipt_bytes(receipt).subrange(8, 40) == receipt.block_digest@,
        be_value(receipt_bytes(receipt).subrange(40, 48)) == receipt.state_end,
        be_value(receipt_bytes(receipt).subrange(48, 56)) == receipt.transaction_end,
{
    let bytes = receipt_bytes(receipt);
    lemma_radix_values();
    be_round_trip(receipt.height as nat, 8);
    be_round_trip(receipt.state_end as nat, 8);
    be_round_trip(receipt.transaction_end as nat, 8);
    assert(bytes.subrange(0, 8) =~= be_bytes(receipt.height as nat, 8));
    assert(bytes.subrange(8, 40) =~= receipt.block_digest@);
    assert(bytes.subrange(40, 48) =~= be_bytes(receipt.state_end as nat, 8));
    assert(bytes.subrange(48, 56) =~= be_bytes(receipt.transaction_end as nat, 8));
}

/// An encoded record holds its receipt, then where both logs start and the
/// length and checksum of its payload.
pub proof fn record_layout(record: FinalizedQueueRecord)
    ensures
        record_bytes(record).len() == 84,
        record_bytes(record).subrange(0, 56) == receipt_bytes(record.receipt),
        be_value(record_bytes(record).subrange(56, 64)) == record.state_start,
        be_value(record_bytes(record).subrange(64, 72)) == record.transaction_start,
        be_value(record_bytes(record).subrange(72, 80)) == record.payload.len,
        be_value(record_bytes(record).subrange(80, 84)) == record.payload.crc,
{
    receipt_layout(record.receipt);
    lemma_radix_values();
    be_round_trip(record.state_start as nat, 8);
    be_round_trip(record.transaction_start as nat, 8);
    be_round_trip(record.payload.len as nat, 8);
    be_round_trip(record.payload.crc as nat, 4);
    lemma_parts(
        receipt_bytes(record.receipt),
        be_bytes(record.state_start as nat, 8),
        be_bytes(record.transaction_start as nat, 8),
        be_bytes(record.payload.len as nat, 8),
        be_bytes(record.payload.crc as nat, 4),
    );
}

proof fn lemma_parts(a: Seq<u8>, b: Seq<u8>, c: Seq<u8>, d: Seq<u8>, e: Seq<u8>)
    requires
        a.len() == 56,
        b.len() == 8,
        c.len() == 8,
        d.len() == 8,
        e.len() == 4,
    ensures
        (a + b + c + d + e).len() == 84,
        (a + b + c + d + e).subrange(0, 56) == a,
        (a + b + c + d + e).subrange(56, 64) == b,
        (a + b + c + d + e).subrange(64, 72) == c,
        (a + b + c + d + e).subrange(72, 80) == d,
        (a + b + c + d + e).subrange(80, 84) == e,
{
    let all = a + b + c + d + e;
    assert(all.subrange(0, 56) =~= a);
    assert(all.subrange(56, 64) =~= b);
    assert(all.subrange(64, 72) =~= c);
    assert(all.subrange(72, 80) =~= d);
    assert(all.subrange(80, 84) =~= e);
}

/// A capture writes its payload before it commits the record, counts the
/// capture before the consumer can see the record, and takes the receipt and
/// wakes the consumer only once the record is committed. The namespaces are
/// validated before anything is written, and a replay does nothing.
pub proof fn captures_persist_before_they_commit(validate_namespaces: bool)
    ensures
        ({
            let order = capture_order(CaptureStep::Capture { validate_namespaces });
            let at = |action: CaptureAction| order.index_of(action);
            &&& order.contains(CaptureAction::ValidateNamespaces) <==> validate_namespaces
            &&& validate_namespaces ==> order[0] == CaptureAction::ValidateNamespaces
            &&& order.contains(CaptureAction::Construct)
            &&& order.contains(CaptureAction::PersistPayload)
            &&& order.contains(CaptureAction::CountPending)
            &&& order.contains(CaptureAction::CommitRecord)
            &&& order.contains(CaptureAction::TakeReceipt)
            &&& order.contains(CaptureAction::WakeConsumer)
            &&& at(CaptureAction::Construct) < at(CaptureAction::PersistPayload)
            &&& at(CaptureAction::PersistPayload) < at(CaptureAction::CommitRecord)
            &&& at(CaptureAction::CountPending) < at(CaptureAction::CommitRecord)
            &&& at(CaptureAction::CommitRecord) < at(CaptureAction::TakeReceipt)
            &&& at(CaptureAction::CommitRecord) < at(CaptureAction::WakeConsumer)
        }),
        capture_order(CaptureStep::AlreadyCaptured).len() == 0,
{
    let order = capture_order(CaptureStep::Capture { validate_namespaces });
    let first: int = if validate_namespaces {
        1
    } else {
        0
    };
    assert(order.len() == first + 6);
    assert(order[first] == CaptureAction::Construct);
    assert(order[first + 1] == CaptureAction::PersistPayload);
    assert(order[first + 2] == CaptureAction::CountPending);
    assert(order[first + 3] == CaptureAction::CommitRecord);
    assert(order[first + 4] == CaptureAction::TakeReceipt);
    assert(order[first + 5] == CaptureAction::WakeConsumer);
    assert forall|k: int| 0 <= k < order.len() implies order.index_of(#[trigger] order[k]) == k by {
        let found = order.index_of(order[k]);
        assert(order.contains(order[k]));
        assert(0 <= found < order.len() && order[found] == order[k]);
    }
}

/// An upload is accepted with the record of another exactly if both have the same
/// height, block and log ends.
pub proof fn records_back_their_own_upload(
    upload: UploadSummary,
    decoded: UploadSummary,
    payload: PayloadDescriptor,
)
    ensures
        backs_record(record_of(upload, payload), decoded) <==> decoded.height == upload.height
            && decoded.seal == upload.seal && decoded.state_end == upload.state_end
            && decoded.transaction_end == upload.transaction_end,
{
}

/// A capture is counted by one and, being counted, is not yet the latest; times
/// from the epoch on are shown as they are.
pub proof fn captures_are_counted_before_they_are_taken(producer: CaptureProducer, elapsed: u128)
    requires
        producer.pending_uploads < i64::MAX,
        elapsed <= i64::MAX,
    ensures
        producer.after_count().pending_uploads == producer.pending_uploads + 1,
        producer.after_count().receipt == producer.receipt,
        micros_of(Some(elapsed)) == elapsed,
        micros_of(None) == 0,
{
}

/// A fault says which log does not continue, and a payload that does not belong
/// is told of with its height.
pub proof fn faults_are_told_apart(actual: u64, expected: u64)
    ensures
        starts_with_seq(
            CaptureFault::StateStart { actual, expected }.message(),
            "state operations"@,
        ),
        starts_with_seq(
            CaptureFault::TransactionStart { actual, expected }.message(),
            "transaction operations"@,
        ),
        starts_with_seq(CaptureFault::Genesis.message(), "genesis"@),
        starts_with_seq(CaptureFault::FirstHeight.message(), "first"@),
        starts_with_seq(CaptureFault::ReplayConflict.message(), "finalized replay"@),
        contains_text(CaptureFault::Payload { height: actual }.message(), decimal(actual as nat)),
{
    reveal_strlit("state operations");
    reveal_strlit("state operations do not start at the last end");
    reveal_strlit("transaction operations");
    reveal_strlit("transaction operations do not start at the last end");
    reveal_strlit("genesis");
    reveal_strlit("genesis must not invoke finalized capture");
    reveal_strlit("first");
    reveal_strlit("first finalized capture must have height one");
    reveal_strlit("finalized replay");
    reveal_strlit("finalized replay conflicts with the durable capture receipt");
    assert("state operations do not start at the last end"@.take(16) =~= "state operations"@);
    assert("transaction operations do not start at the last end"@.take(22)
        =~= "transaction operations"@);
    assert("genesis must not invoke finalized capture"@.take(7) =~= "genesis"@);
    assert("first finalized capture must have height one"@.take(5) =~= "first"@);
    assert("finalized replay conflicts with the durable capture receipt"@.take(16)
        =~= "finalized replay"@);
    texts_contain_their_parts(
        "finalized index payload at height "@,
        decimal(actual as nat),
        " does not match its record"@,
    );
}

} // verus!
