//! Durable payload blobs for the finalized index queue.
//!
//! The finalized index queue holds one small record per block. The encoded
//! upload lives in one blob per block, named by height, and the record carries
//! the blob's length and checksum.

use crate::codec::{
    be_bytes, be_round_trip, be_value, be_value_round_trip, get_be, lemma_radix_values,
    most_significant_byte_is_first, put_be, radix,
};
use crate::text::{
    decimal, decimal_u64, ends_with_seq, hex, hex_text, join2, join3, starts_with_seq,
    texts_contain_their_parts,
};
use std::collections::{BTreeSet, VecDeque};
use vstd::prelude::*;

verus! {

broadcast use vstd::std_specs::btree::group_btree_axioms;

/// Removals that may wait for the cleanup task.
pub const CLEANUP_CAPACITY: usize = 64;

/// Length and checksum of a durable payload.
///
/// The queue record carries this so a later read rejects a truncated or
/// corrupted blob before decoding it.
#[derive(Clone, Copy, Debug, PartialEq, Eq, Structural)]
pub struct PayloadDescriptor {
    pub len: u64,
    pub crc: u32,
}

/// Why a payload read did not produce the recorded bytes.
#[derive(Debug)]
#[allow(inconsistent_fields)]
pub enum PayloadReadError {
    Storage(String),
    Length { expected: u64, actual: u64 },
    Checksum { expected: u32, actual: u32 },
}

/// The CRC32C checksum of a byte string.
pub uninterp spec fn crc32(bytes: Seq<u8>) -> u32;

/// `commonware_cryptography::crc32::Crc32::checksum` is a function of the
/// bytes it is given; what it computes of them is not said here.
#[verifier::external_body]
fn checksum(bytes: &[u8]) -> (crc: u32)
    ensures
        crc == crc32(bytes@),
{
    commonware_cryptography::crc32::Crc32::checksum(bytes)
}

/// `0x` and eight lowercase hexadecimal digits.
pub open spec fn crc_text(crc: u32) -> Seq<char> {
    "0x"@ + hex_text(be_bytes(crc as nat, 4))
}

fn crc_to_text(crc: u32) -> (text: String)
    ensures
        text@ == crc_text(crc),
{
    let mut bytes: Vec<u8> = Vec::new();
    put_be(&mut bytes, crc as u64, 4);
    assert(bytes@ =~= be_bytes(crc as nat, 4));
    join2("0x", hex(bytes.as_slice()).as_str())
}

impl PayloadReadError {
    /// The message of this error.
    pub open spec fn message(&self) -> Seq<char> {
        match *self {
            PayloadReadError::Storage(text) => "storage error: "@ + text@,
            PayloadReadError::Length { expected, actual } => "payload length "@ + decimal(
                actual as nat,
            ) + " does not match record "@ + decimal(expected as nat),
            PayloadReadError::Checksum { expected, actual } => "payload checksum "@ + crc_text(
                actual,
            ) + " does not match record "@ + crc_text(expected),
        }
    }

    /// The message of this error as text.
    pub fn to_text(&self) -> (text: String)
        ensures
            text@ == self.message(),
    {
        match self {
            PayloadReadError::Storage(text) => join2("storage error: ", text.as_str()),
            PayloadReadError::Length { expected, actual } => join2(
                join3(
                    "payload length ",
                    decimal_u64(*actual).as_str(),
                    " does not match record ",
                ).as_str(),
                decimal_u64(*expected).as_str(),
            ),
            PayloadReadError::Checksum { expected, actual } => join2(
                join3(
                    "payload checksum ",
                    crc_to_text(*actual).as_str(),
                    " does not match record ",
                ).as_str(),
                crc_to_text(*expected).as_str(),
            ),
        }
    }
}

/// What the descriptor of `payload` says.
pub open spec fn descriptor_of(payload: Seq<u8>) -> PayloadDescriptor {
    PayloadDescriptor { len: payload.len() as u64, crc: crc32(payload) }
}

/// The descriptor of `payload`.
pub fn describe(payload: &[u8]) -> (descriptor: PayloadDescriptor)
    ensures
        descriptor == descriptor_of(payload@),
        descriptor.len == payload.len(),
{
    PayloadDescriptor { len: payload.len() as u64, crc: checksum(payload) }
}

/// One step of writing a payload to its blob.
#[derive(Clone, Copy, Debug, PartialEq, Eq, Structural)]
pub enum BlobStep {
    /// Resizes the blob to nothing.
    Truncate,
    /// Writes the payload at the start of the blob.
    Write,
    /// Makes the blob's bytes durable.
    Sync,
}

/// The steps that write a payload to a blob that already holds `existing`
/// bytes.
pub open spec fn write_plan(existing: nat) -> Seq<BlobStep> {
    if existing == 0 {
        seq![BlobStep::Write, BlobStep::Sync]
    } else {
        seq![BlobStep::Truncate, BlobStep::Write, BlobStep::Sync]
    }
}

/// The steps that write a payload to a blob that already holds `existing`
/// bytes.
///
/// A blob left behind by an earlier crash never reached a committed record, so
/// it is truncated. The payload is synced last, so a record committed afterwards
/// never points at bytes that a crash loses.
pub fn write_steps(existing: u64) -> (steps: Vec<BlobStep>)
    ensures
        steps@ == write_plan(existing as nat),
{
    let mut steps: Vec<BlobStep> = Vec::new();
    if existing != 0 {
        steps.push(BlobStep::Truncate);
    }
    steps.push(BlobStep::Write);
    steps.push(BlobStep::Sync);
    assert(steps@ =~= write_plan(existing as nat));
    steps
}

/// What a blob holds, and what of it a crash does not lose.
pub struct BlobState {
    pub contents: Seq<u8>,
    pub durable: Seq<u8>,
}

impl BlobState {
    /// The blob after one step of writing `payload`. A write changes the bytes
    /// that it covers and no others.
    pub open spec fn after(self, payload: Seq<u8>, step: BlobStep) -> BlobState {
        match step {
            BlobStep::Truncate => BlobState { contents: Seq::empty(), ..self },
            BlobStep::Write => BlobState {
                contents: if payload.len() < self.contents.len() {
                    payload + self.contents.skip(payload.len() as int)
                } else {
                    payload
                },
                ..self
            },
            BlobStep::Sync => BlobState { durable: self.contents, ..self },
        }
    }

    /// The blob after the first `n` of `steps`.
    pub open spec fn after_steps(
        self,
        payload: Seq<u8>,
        steps: Seq<BlobStep>,
        n: nat,
    ) -> BlobState
        decreases n,
    {
        if n == 0 {
            self
        } else {
            self.after_steps(payload, steps, (n - 1) as nat).after(payload, steps[n - 1])
        }
    }
}

/// Rejects a blob whose size is not the recorded length, before it is read.
pub fn check_length(descriptor: PayloadDescriptor, actual: u64) -> (result: Result<
    (),
    PayloadReadError,
>)
    ensures
        result is Ok <==> actual == descriptor.len,
        result matches Err(error) ==> error == (PayloadReadError::Length {
            expected: descriptor.len,
            actual,
        }),
{
    if actual != descriptor.len {
        return Err(PayloadReadError::Length { expected: descriptor.len, actual });
    }
    Ok(())
}

/// The checksum that is compared with the record, given the one computed over
/// the bytes that were read.
pub fn compare_checksum(descriptor: PayloadDescriptor, crc: u32) -> (result: Result<
    (),
    PayloadReadError,
>)
    ensures
        result is Ok <==> crc == descriptor.crc,
        result matches Err(error) ==> error == (PayloadReadError::Checksum {
            expected: descriptor.crc,
            actual: crc,
        }),
{
    if crc != descriptor.crc {
        return Err(PayloadReadError::Checksum { expected: descriptor.crc, actual: crc });
    }
    Ok(())
}

/// Rejects bytes whose checksum is not the recorded one.
pub fn check_checksum(descriptor: PayloadDescriptor, bytes: &[u8]) -> (result: Result<
    (),
    PayloadReadError,
>)
    ensures
        result is Ok <==> crc32(bytes@) == descriptor.crc,
        result matches Err(error) ==> error == (PayloadReadError::Checksum {
            expected: descriptor.crc,
            actual: crc32(bytes@),
        }),
{
    compare_checksum(descriptor, checksum(bytes))
}

/// Rejects any disagreement between a blob's bytes and `descriptor`, length
/// first.
pub fn check_payload(descriptor: PayloadDescriptor, bytes: &[u8]) -> (result: Result<
    (),
    PayloadReadError,
>)
    ensures
        result is Ok <==> descriptor == descriptor_of(bytes@),
        result matches Err(error) ==> error == (if bytes.len() != descriptor.len {
            PayloadReadError::Length { expected: descriptor.len, actual: bytes.len() as u64 }
        } else {
            PayloadReadError::Checksum { expected: descriptor.crc, actual: crc32(bytes@) }
        }),
{
    match check_length(descriptor, bytes.len() as u64) {
        Err(error) => Err(error),
        Ok(()) => check_checksum(descriptor, bytes),
    }
}

/// A payload that was described when it was written passes the check when the
/// same bytes are read back, and no other length does.
pub proof fn written_payload_reads_back(payload: Seq<u8>, read: Seq<u8>)
    requires
        payload.len() <= u64::MAX,
        read.len() <= u64::MAX,
    ensures
        read == payload ==> descriptor_of(payload) == descriptor_of(read),
        descriptor_of(payload) == descriptor_of(read) ==> read.len() == payload.len(),
{
}

/// What a read of a blob that holds `blob` gives: its bytes where they are what
/// `descriptor` says, else how they are not, length first.
pub open spec fn payload_read(descriptor: PayloadDescriptor, blob: Seq<u8>) -> Result<
    Seq<u8>,
    PayloadReadError,
> {
    if blob.len() != descriptor.len {
        Err(PayloadReadError::Length { expected: descriptor.len, actual: blob.len() as u64 })
    } else if crc32(blob) != descriptor.crc {
        Err(PayloadReadError::Checksum { expected: descriptor.crc, actual: crc32(blob) })
    } else {
        Ok(blob)
    }
}

/// The store of payloads, one blob per block.
pub struct PayloadStore;

impl PayloadStore {
    /// The descriptor of `payload`, and the steps that write it to a blob that
    /// already holds `existing` bytes.
    pub fn write(payload: &[u8], existing: u64) -> (written: (PayloadDescriptor, Vec<BlobStep>))
        ensures
            written.0 == descriptor_of(payload@),
            written.1@ == write_plan(existing as nat),
    {
        (describe(payload), write_steps(existing))
    }

    /// The bytes of a blob, which must be what `descriptor` says.
    pub fn read<'a>(descriptor: PayloadDescriptor, blob: &'a [u8]) -> (result: Result<
        &'a [u8],
        PayloadReadError,
    >)
        ensures
            match payload_read(descriptor, blob@) {
                Ok(bytes) => result matches Ok(read) && read@ == bytes,
                Err(error) => result matches Err(fault) && fault == error,
            },
    {
        match check_payload(descriptor, blob) {
            Ok(()) => Ok(blob),
            Err(error) => Err(error),
        }
    }
}

/// A payload that is written over whatever an earlier crash left reads back:
/// nothing of the stale bytes survives, a crash loses none of the new ones, and
/// a read with the new descriptor gives the payload.
pub proof fn rewritten_payload_reads_back(stale: BlobState, payload: Seq<u8>)
    requires
        payload.len() <= u64::MAX,
    ensures
        ({
            let steps = write_plan(stale.contents.len());
            let blob = stale.after_steps(payload, steps, steps.len());
            &&& blob.contents == payload
            &&& blob.durable == payload
            &&& descriptor_of(payload).len == payload.len()
            &&& payload_read(descriptor_of(payload), blob.contents) == Ok::<
                Seq<u8>,
                PayloadReadError,
            >(payload)
            &&& payload_read(descriptor_of(payload), blob.durable) == Ok::<
                Seq<u8>,
                PayloadReadError,
            >(payload)
        }),
{
    let steps = write_plan(stale.contents.len());
    if stale.contents.len() == 0 {
        reveal_with_fuel(BlobState::after_steps, 3);
        assert(stale.after_steps(payload, steps, 2).contents == payload);
    } else {
        reveal_with_fuel(BlobState::after_steps, 4);
        assert(stale.after_steps(payload, steps, 3).contents == payload);
    }
}

/// The name of the blob of `height`.
pub open spec fn name_of(height: u64) -> Seq<u8> {
    be_bytes(height as nat, 8)
}

/// The blob of `height`: eight bytes, most significant first.
pub fn blob_name(height: u64) -> (name: [u8; 8])
    ensures
        name@ == name_of(height),
{
    let mut bytes: Vec<u8> = Vec::new();
    put_be(&mut bytes, height, 8);
    assert(bytes@ =~= be_bytes(height as nat, 8));
    proof {
        crate::codec::lemma_radix_values();
        be_round_trip(height as nat, 8);
    }
    let name: [u8; 8] = [
        bytes[0],
        bytes[1],
        bytes[2],
        bytes[3],
        bytes[4],
        bytes[5],
        bytes[6],
        bytes[7],
    ];
    assert(name@ =~= bytes@);
    name
}

/// The message about a blob that is not named by a height.
pub open spec fn unexpected_blob(name: Seq<u8>) -> Seq<char> {
    "unexpected blob "@ + hex_text(name) + " in the finalized payload partition"@
}

/// Whether a blob called `name` is that of `height`.
pub open spec fn is_named(name: Seq<u8>, height: u64) -> bool {
    be_value(name) == height
}

/// The height that a blob is named by. A name of any other length than eight
/// bytes is refused.
pub fn parse_height(name: &[u8]) -> (result: Result<u64, String>)
    ensures
        result is Ok <==> name.len() == 8,
        result matches Ok(height) ==> height as nat == be_value(name@),
        result matches Ok(height) ==> is_named(name@, height),
        result matches Err(message) ==> message@ == unexpected_blob(name@),
{
    if name.len() != 8 {
        return Err(
            join3(
                "unexpected blob ",
                hex(name).as_str(),
                " in the finalized payload partition",
            ),
        );
    }
    assert(name@.subrange(0, 8) =~= name@);
    Ok(get_be(name, 0, 8))
}

/// A blob's name gives back the height it was made from, and a name of eight
/// bytes is the name of the height it gives.
pub proof fn blob_names_are_heights(height: u64, name: Seq<u8>)
    requires
        name.len() == 8,
    ensures
        be_bytes(height as nat, 8).len() == 8,
        be_value(be_bytes(height as nat, 8)) == height,
        be_value(name) <= u64::MAX,
        be_bytes(be_value(name), 8) == name,
{
    crate::codec::lemma_radix_values();
    be_round_trip(height as nat, 8);
    be_value_round_trip(name);
}

/// The heights that `names` spell.
pub open spec fn named_heights(names: Seq<Vec<u8>>) -> Set<u64> {
    Set::new(
        |h: u64|
            exists|i: int|
                0 <= i < names.len() && be_value((#[trigger] names[i])@) == h,
    )
}

/// Whether every name is eight bytes.
pub open spec fn all_named(names: Seq<Vec<u8>>) -> bool {
    forall|i: int| 0 <= i < names.len() ==> (#[trigger] names[i])@.len() == 8
}

/// The heights with a payload on disk, from the names a partition scan found.
/// The first name that is no height is refused.
pub fn heights(names: &Vec<Vec<u8>>) -> (result: Result<BTreeSet<u64>, String>)
    ensures
        result is Ok <==> all_named(names@),
        result matches Ok(found) ==> found@ == named_heights(names@),
        result matches Err(message) ==> exists|i: int|
            0 <= i < names.len() && (#[trigger] names[i])@.len() != 8 && message@
                == unexpected_blob(names[i]@) && forall|j: int|
                0 <= j < i ==> (#[trigger] names[j])@.len() == 8,
{
    let mut found: BTreeSet<u64> = BTreeSet::new();
    let mut i: usize = 0;
    while i < names.len()
        invariant
            i <= names.len(),
            forall|j: int| 0 <= j < i ==> (#[trigger] names[j])@.len() == 8,
            found@ == named_heights(names@.take(i as int)),
        decreases names.len() - i,
    {
        match parse_height(names[i].as_slice()) {
            Err(message) => {
                return Err(message);
            },
            Ok(height) => {
                let ghost before = found@;
                found.insert(height);
                proof {
                    let shorter = names@.take(i as int);
                    let longer = names@.take(i + 1);
                    assert forall|h: u64| #[trigger] named_heights(longer).contains(h)
                        <==> before.insert(height).contains(h) by {
                        if before.contains(h) {
                            let k = choose|k: int|
                                0 <= k < shorter.len() && be_value((#[trigger] shorter[k])@) == h;
                            assert(longer[k] == shorter[k]);
                        }
                        if h == height {
                            assert(be_value(longer[i as int]@) == h);
                        }
                        if named_heights(longer).contains(h) {
                            let k = choose|k: int|
                                0 <= k < longer.len() && be_value((#[trigger] longer[k])@) == h;
                            if k < i {
                                assert(shorter[k] == longer[k]);
                                assert(before.contains(h));
                            }
                        }
                    }
                    assert(found@ =~= named_heights(longer));
                }
            },
        }
        i = i + 1;
    }
    assert(names@.take(names@.len() as int) =~= names@);
    Ok(found)
}

/// A count as a metric value, capped at the largest one.
pub open spec fn metric(value: nat) -> i64 {
    if value <= i64::MAX {
        value as i64
    } else {
        i64::MAX
    }
}

/// `value` as a metric value, capped at the largest one.
pub fn metric_i64(value: u64) -> (metric_value: i64)
    ensures
        metric_value == metric(value as nat),
{
    if value <= 0x7fff_ffff_ffff_ffffu64 {
        value as i64
    } else {
        i64::MAX
    }
}

/// The outcome of removing a blob.
#[derive(Debug)]
pub enum RemoveOutcome {
    Removed,
    BlobMissing,
    Failed(String),
}

/// Gauges over the payload blobs on disk.
#[derive(Clone, Copy, Debug, PartialEq, Eq, Structural)]
pub struct RetainedPayloads {
    pub retained: i64,
    pub retained_bytes: i64,
}

impl RetainedPayloads {
    /// The gauges with one payload of `len` bytes more.
    pub open spec fn with_payload(self, len: u64) -> RetainedPayloads {
        RetainedPayloads {
            retained: self.retained.wrapping_add(1),
            retained_bytes: self.retained_bytes.wrapping_add(metric(len as nat)),
        }
    }

    /// The gauges with one payload of `len` bytes less.
    pub open spec fn without_payload(self, len: u64) -> RetainedPayloads {
        RetainedPayloads {
            retained: self.retained.wrapping_sub(1),
            retained_bytes: self.retained_bytes.wrapping_sub(metric(len as nat)),
        }
    }

    /// The gauges of `count` payloads of `bytes` bytes in all.
    pub open spec fn found(count: nat, bytes: nat) -> RetainedPayloads {
        RetainedPayloads { retained: metric(count), retained_bytes: metric(bytes) }
    }

    /// Gauges of a store nothing was written to.
    pub fn new() -> (gauges: Self)
        ensures
            gauges == (RetainedPayloads { retained: 0, retained_bytes: 0 }),
    {
        RetainedPayloads { retained: 0, retained_bytes: 0 }
    }

    /// Counts a payload that was written and synced.
    pub fn written(&mut self, descriptor: PayloadDescriptor)
        ensures
            *final(self) == old(self).with_payload(descriptor.len),
    {
        self.retained = self.retained.wrapping_add(1);
        self.retained_bytes = self.retained_bytes.wrapping_add(metric_i64(descriptor.len));
    }

    /// Counts a removal. A payload that is already gone is no error and
    /// changes nothing.
    pub fn removed(&mut self, outcome: RemoveOutcome, len: u64) -> (result: Result<(), String>)
        ensures
            outcome is Removed ==> result is Ok && *final(self) == old(self).without_payload(len),
            outcome is BlobMissing ==> result is Ok && *final(self) == *old(self),
            outcome matches RemoveOutcome::Failed(message) ==> result == Err::<(), String>(message)
                && *final(self) == *old(self),
    {
        match outcome {
            RemoveOutcome::Removed => {
                self.retained = self.retained.wrapping_sub(1);
                self.retained_bytes = self.retained_bytes.wrapping_sub(metric_i64(len));
                Ok(())
            },
            RemoveOutcome::BlobMissing => Ok(()),
            RemoveOutcome::Failed(message) => Err(message),
        }
    }

    /// Resets the gauges to what a startup sweep found on disk.
    pub fn set_retained(&mut self, count: usize, bytes: u64)
        ensures
            *final(self) == RetainedPayloads::found(count as nat, bytes as nat),
    {
        self.retained = metric_i64(count as u64);
        self.retained_bytes = metric_i64(bytes);
    }
}

/// Writing a payload and then removing it leaves the gauges as they were.
pub proof fn removal_undoes_write(retained: i64, bytes: i64, len: u64)
    ensures
        retained.wrapping_add(1).wrapping_sub(1) == retained,
        bytes.wrapping_add(metric(len as nat)).wrapping_sub(metric(len as nat)) == bytes,
{
}

/// Milliseconds before a removal that failed is tried again.
pub const CLEANUP_RETRY_MILLIS: u64 = 1_000;

/// A payload that is to be removed.
#[derive(Clone, Copy, Debug, PartialEq, Eq, Structural)]
pub struct Removal {
    pub height: u64,
    pub len: u64,
}

/// Payloads that await removal, in the order in which they were queued. The
/// queue is bounded; one more payload may be in removal.
pub struct PayloadCleanup {
    pub queue: VecDeque<Removal>,
    pub removing: Option<Removal>,
}

impl PayloadCleanup {
    /// The queue holds no more than it may.
    pub open spec fn wf(&self) -> bool {
        self.queue@.len() <= CLEANUP_CAPACITY
    }

    /// All payloads that await removal, the one in removal first.
    pub open spec fn awaiting(&self) -> Seq<Removal> {
        match self.removing {
            Some(removal) => seq![removal] + self.queue@,
            None => self.queue@,
        }
    }

    /// Whether queueing `removal` led to `next`.
    pub open spec fn queues(&self, next: PayloadCleanup, removal: Removal) -> bool {
        &&& next.awaiting() == self.awaiting().push(removal)
        &&& next.removing == self.removing
    }

    /// Whether taking `removal` to be removed led to `next`.
    pub open spec fn takes(&self, next: PayloadCleanup, removal: Removal) -> bool {
        &&& self.awaiting().len() > 0
        &&& removal == self.awaiting()[0]
        &&& next.awaiting() == self.awaiting()
        &&& next.removing == Some(removal)
    }

    /// Whether the end of the removal that is under way led to `next`.
    pub open spec fn finishes(&self, next: PayloadCleanup) -> bool {
        &&& next.removing is None
        &&& next.awaiting() == self.awaiting().skip(1)
    }

    /// Nothing to remove.
    pub fn new() -> (cleanup: Self)
        ensures
            cleanup.wf(),
            cleanup.awaiting() == Seq::<Removal>::empty(),
            cleanup.removing is None,
    {
        PayloadCleanup { queue: VecDeque::new(), removing: None }
    }

    /// How many payloads await removal.
    pub fn pending(&self) -> (pending: usize)
        requires
            self.wf(),
        ensures
            pending == self.awaiting().len(),
    {
        match self.removing {
            Some(_) => self.queue.len() + 1,
            None => self.queue.len(),
        }
    }

    /// Queues a payload, unless the queue is full: the payload then has to wait.
    pub fn enqueue(&mut self, removal: Removal) -> (queued: bool)
        requires
            old(self).wf(),
        ensures
            final(self).wf(),
            final(self).removing == old(self).removing,
            queued == (old(self).queue@.len() < CLEANUP_CAPACITY),
            queued ==> old(self).queues(*final(self), removal),
            queued ==> final(self).awaiting() == old(self).awaiting().push(removal),
            !queued ==> *final(self) == *old(self),
    {
        if self.queue.len() >= CLEANUP_CAPACITY {
            return false;
        }
        let ghost before = self.awaiting();
        self.queue.push_back(removal);
        assert(self.awaiting() =~= before.push(removal));
        true
    }

    /// The payload to remove now: the one in removal, or else the first one in
    /// the queue.
    pub fn next(&mut self) -> (removal: Option<Removal>)
        requires
            old(self).wf(),
        ensures
            final(self).wf(),
            final(self).awaiting() == old(self).awaiting(),
            final(self).removing == removal,
            removal matches Some(removal) ==> old(self).takes(*final(self), removal),
            removal == (if old(self).awaiting().len() == 0 {
                None
            } else {
                Some(old(self).awaiting()[0])
            }),
    {
        let ghost before = self.awaiting();
        if self.removing.is_none() {
            self.removing = self.queue.pop_front();
        }
        assert(self.awaiting() =~= before);
        self.removing
    }

    /// Takes the outcome of a removal and counts it. A removal that failed is
    /// tried again, so the payload still awaits it.
    pub fn ended(&mut self, outcome: RemoveOutcome, gauges: &mut RetainedPayloads) -> (retry: bool)
        requires
            old(self).wf(),
            old(self).removing is Some,
        ensures
            final(self).wf(),
            retry == (outcome is Failed),
            retry ==> *final(self) == *old(self) && *final(gauges) == *old(gauges),
            !retry ==> final(self).removing is None && final(self).awaiting()
                == old(self).awaiting().skip(1),
            !retry ==> old(self).finishes(*final(self)),
            outcome is BlobMissing ==> *final(gauges) == *old(gauges),
            outcome is Removed ==> *final(gauges) == old(gauges).without_payload(
                old(self).removing->0.len,
            ),
    {
        let len: u64 = match self.removing {
            Some(removal) => removal.len,
            None => 0,
        };
        let ghost before = self.awaiting();
        match gauges.removed(outcome, len) {
            Ok(()) => {
                self.removing = None;
                assert(self.awaiting() =~= before.skip(1));
                false
            },
            Err(_) => true,
        }
    }
}

/// No more payloads await removal than the queue holds and the one in removal.
pub proof fn cleanup_is_bounded(cleanup: &PayloadCleanup)
    requires
        cleanup.wf(),
    ensures
        cleanup.awaiting().len() <= CLEANUP_CAPACITY + 1,
{
}

/// A count below the largest metric value is shown as it is.
pub proof fn metrics_show_the_count(value: nat)
    ensures
        value <= i64::MAX ==> metric(value) == value,
        value > i64::MAX ==> metric(value) == i64::MAX,
{
}

/// The gauges count payloads and their bytes: a payload adds one and its length,
/// and its removal takes both away again. What a sweep found is shown as it is.
pub proof fn gauges_count_payloads(gauges: RetainedPayloads, payload: Seq<u8>, count: nat, bytes: nat)
    requires
        0 <= gauges.retained < i64::MAX,
        0 <= gauges.retained_bytes,
        gauges.retained_bytes + payload.len() <= i64::MAX,
        count <= i64::MAX,
        bytes <= i64::MAX,
    ensures
        ({
            let len = descriptor_of(payload).len;
            let after = gauges.with_payload(len);
            &&& after.retained == gauges.retained + 1
            &&& after.retained_bytes == gauges.retained_bytes + payload.len()
            &&& after.without_payload(len) == gauges
            &&& RetainedPayloads::found(count, bytes).retained == count
            &&& RetainedPayloads::found(count, bytes).retained_bytes == bytes
        }),
{
}

/// A read gives bytes only if they have the recorded length and checksum, and
/// then all of them; a refusal says what was recorded and what was found.
pub proof fn reads_agree_with_the_record(descriptor: PayloadDescriptor, blob: Seq<u8>)
    requires
        blob.len() <= u64::MAX,
    ensures
        payload_read(descriptor, blob) is Ok <==> blob.len() == descriptor.len && crc32(blob)
            == descriptor.crc,
        payload_read(descriptor, blob) matches Ok(bytes) ==> bytes == blob && descriptor
            == descriptor_of(blob),
        payload_read(descriptor, blob) matches Err(PayloadReadError::Length { expected, actual })
            ==> expected == descriptor.len && actual == blob.len() && expected != actual,
        payload_read(descriptor, blob) matches Err(PayloadReadError::Checksum { expected, actual })
            ==> expected == descriptor.crc && actual == crc32(blob) && blob.len() == descriptor.len,
        !(payload_read(descriptor, blob) matches Err(PayloadReadError::Storage(_))),
{
}

/// Payloads are removed in the order in which they were queued: a queued one
/// comes after all that await removal, the first of them is taken, and once it
/// is gone the one behind it is first.
pub proof fn payloads_are_removed_in_order(
    cleanup: PayloadCleanup,
    queued: PayloadCleanup,
    taken: PayloadCleanup,
    ended: PayloadCleanup,
    removal: Removal,
    first: Removal,
)
    requires
        cleanup.queues(queued, removal),
        queued.takes(taken, first),
        taken.finishes(ended),
    ensures
        cleanup.awaiting().len() > 0 ==> first == cleanup.awaiting()[0],
        cleanup.awaiting().len() == 0 ==> first == removal,
        queued.awaiting().last() == removal,
        ended.awaiting().len() == cleanup.awaiting().len(),
        cleanup.awaiting().len() > 1 ==> ended.awaiting()[0] == cleanup.awaiting()[1],
        cleanup.awaiting().len() > 0 ==> ended.awaiting().last() == removal,
{
}

/// A blob's name is read back as the height that it is made from, and as no
/// other; its first byte is the most significant one of the height and its last
/// the least. The heights on disk are those whose blob is there.
pub proof fn blobs_are_found_by_their_height(height: u64, read: u64, names: Seq<Vec<u8>>, i: int)
    ensures
        name_of(height).len() == 8,
        is_named(name_of(height), read) <==> read == height,
        name_of(height)[0] as nat == height / 0x100_0000_0000_0000,
        name_of(height)[7] as nat == height % 256,
        0 <= i < names.len() && names[i]@ == name_of(height) ==> named_heights(names).contains(
            height,
        ),
{
    lemma_radix_values();
    be_round_trip(height as nat, 8);
    most_significant_byte_is_first(height as nat, 8);
    assert(radix(7) == 0x100_0000_0000_0000) by {
        reveal_with_fuel(radix, 8);
    }
    assert(name_of(height).last() == name_of(height)[7]);
    if 0 <= i < names.len() && names[i]@ == name_of(height) {
        assert(be_value(names[i]@) == height);
    }
}

/// A refused read is told with what was found before what was recorded.
pub proof fn refused_reads_are_told(expected: u64, actual: u64, recorded: u32, found: u32)
    ensures
        starts_with_seq(
            PayloadReadError::Length { expected, actual }.message(),
            "payload length "@ + decimal(actual as nat),
        ),
        ends_with_seq(
            PayloadReadError::Length { expected, actual }.message(),
            decimal(expected as nat),
        ),
        starts_with_seq(
            PayloadReadError::Checksum { expected: recorded, actual: found }.message(),
            "payload checksum "@ + ("0x"@ + hex_text(be_bytes(found as nat, 4))),
        ),
        ends_with_seq(
            PayloadReadError::Checksum { expected: recorded, actual: found }.message(),
            "0x"@ + hex_text(be_bytes(recorded as nat, 4)),
        ),
{
    lemma_message_parts(
        "payload length "@ + decimal(actual as nat),
        " does not match record "@,
        decimal(expected as nat),
    );
    lemma_message_parts(
        "payload checksum "@ + ("0x"@ + hex_text(be_bytes(found as nat, 4))),
        " does not match record "@,
        "0x"@ + hex_text(be_bytes(recorded as nat, 4)),
    );
}

/// A message in three parts starts with the first and ends with the last.
proof fn lemma_message_parts(first: Seq<char>, middle: Seq<char>, last: Seq<char>)
    ensures
        starts_with_seq(first + middle + last, first),
        ends_with_seq(first + middle + last, last),
{
    texts_contain_their_parts(first, middle + last, Seq::empty());
    texts_contain_their_parts(first + middle, last, Seq::empty());
    assert(first + middle + last =~= first + (middle + last));
}

} // verus!
