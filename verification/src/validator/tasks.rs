//! What a validator's long-running tasks do after each outcome.

use crate::text::{ends_with_seq, join2};
use vstd::prelude::*;

verus! {

/// Milliseconds before a failed storage or connection step is tried again.
pub const RETRY_DELAY_MILLIS: u64 = 1_000;

/// How a connection attempt of the index publisher ended.
#[derive(Debug)]
pub enum ConnectOutcome {
    Connected,
    NonFreshNamespace(String),
    Failed(String),
}

/// What the publisher slot does next.
#[derive(Debug)]
pub enum PublisherStep {
    /// The publisher is connected and shared.
    Ready,
    /// Connect, with the namespaces validated as fresh where that is asked for.
    Connect { fresh: bool },
    /// Wait, then connect again.
    RetryAfter { millis: u64 },
    /// The process cannot go on.
    Abort { message: String },
}

/// Connects the index publisher only when finalized data is ready to upload.
#[derive(Clone, Copy, Debug, PartialEq, Eq, Structural)]
pub struct LazyPublisher {
    pub require_fresh: bool,
    pub connected: bool,
}

impl LazyPublisher {
    /// A publisher that is not connected yet.
    pub fn new(require_fresh: bool) -> (slot: Self)
        ensures
            slot == (LazyPublisher { require_fresh, connected: false }),
    {
        LazyPublisher { require_fresh, connected: false }
    }

    /// What a caller that needs the publisher does.
    pub open spec fn needed(&self) -> PublisherStep {
        if self.connected {
            PublisherStep::Ready
        } else {
            PublisherStep::Connect { fresh: self.require_fresh }
        }
    }

    /// Whether a connection attempt that ended with `outcome` led to `step` and
    /// this slot to `next`.
    pub open spec fn connects(
        &self,
        next: LazyPublisher,
        outcome: ConnectOutcome,
        step: PublisherStep,
    ) -> bool {
        &&& next.require_fresh == self.require_fresh
        &&& next.connected == (self.connected || outcome is Connected)
        &&& match outcome {
            ConnectOutcome::Connected => step is Ready,
            ConnectOutcome::NonFreshNamespace(error) => step matches PublisherStep::Abort {
                message,
            } && message@ == "fresh namespace validation failed. "@ + error@,
            ConnectOutcome::Failed(_) => step == (PublisherStep::RetryAfter {
                millis: RETRY_DELAY_MILLIS,
            }),
        }
    }

    /// What a caller that needs the publisher does.
    pub fn publisher(&self) -> (step: PublisherStep)
        ensures
            step == self.needed(),
    {
        if self.connected {
            PublisherStep::Ready
        } else {
            PublisherStep::Connect { fresh: self.require_fresh }
        }
    }

    /// What follows a connection attempt. Concurrent callers share the one
    /// publisher that connects; a namespace that is not fresh is final, any
    /// other failure is tried again.
    pub fn connect_ended(&mut self, outcome: ConnectOutcome) -> (step: PublisherStep)
        ensures
            old(self).connects(*final(self), outcome, step),
            final(self).require_fresh == old(self).require_fresh,
            final(self).connected == (old(self).connected || outcome is Connected),
            match outcome {
                ConnectOutcome::Connected => step is Ready,
                ConnectOutcome::NonFreshNamespace(error) => step matches PublisherStep::Abort {
                    message,
                } && message@ == "fresh namespace validation failed. "@ + error@,
                ConnectOutcome::Failed(_) => step == (PublisherStep::RetryAfter {
                    millis: RETRY_DELAY_MILLIS,
                }),
            },
    {
        match outcome {
            ConnectOutcome::Connected => {
                self.connected = true;
                PublisherStep::Ready
            },
            ConnectOutcome::NonFreshNamespace(error) => PublisherStep::Abort {
                message: join2("fresh namespace validation failed. ", error.as_str()),
            },
            ConnectOutcome::Failed(_) => PublisherStep::RetryAfter { millis: RETRY_DELAY_MILLIS },
        }
    }
}

/// What storing a capture receipt does next.
#[derive(Clone, Copy, Debug, PartialEq, Eq, Structural)]
pub enum ReceiptStep {
    /// Put the receipt and sync.
    PutAndSync,
    /// Open the metadata again.
    Reopen,
    /// Wait, then open the metadata again.
    WaitThenReopen,
    Done,
}

/// What follows `step`, which succeeded or failed.
pub open spec fn receipt_step_after(step: ReceiptStep, succeeded: bool) -> ReceiptStep {
    match (step, succeeded) {
        (ReceiptStep::PutAndSync, true) => ReceiptStep::Done,
        (ReceiptStep::PutAndSync, false) => ReceiptStep::Reopen,
        (ReceiptStep::Reopen, true) => ReceiptStep::PutAndSync,
        (ReceiptStep::Reopen, false) => ReceiptStep::WaitThenReopen,
        (ReceiptStep::WaitThenReopen, true) => ReceiptStep::PutAndSync,
        (ReceiptStep::WaitThenReopen, false) => ReceiptStep::WaitThenReopen,
        (ReceiptStep::Done, _) => ReceiptStep::Done,
    }
}

/// What follows `step`, which succeeded or failed. A failed sync consumes the
/// metadata, so it is opened again before the receipt is put again.
pub fn persist_capture_receipt(step: ReceiptStep, succeeded: bool) -> (next: ReceiptStep)
    ensures
        next == receipt_step_after(step, succeeded),
{
    match step {
        ReceiptStep::PutAndSync => if succeeded {
            ReceiptStep::Done
        } else {
            ReceiptStep::Reopen
        },
        ReceiptStep::Reopen => if succeeded {
            ReceiptStep::PutAndSync
        } else {
            ReceiptStep::WaitThenReopen
        },
        ReceiptStep::WaitThenReopen => if succeeded {
            ReceiptStep::PutAndSync
        } else {
            ReceiptStep::WaitThenReopen
        },
        ReceiptStep::Done => ReceiptStep::Done,
    }
}

/// A receipt counts as stored only right after a sync that succeeded.
pub proof fn stored_only_by_a_sync(step: ReceiptStep, succeeded: bool)
    requires
        step != ReceiptStep::Done,
        receipt_step_after(step, succeeded) == ReceiptStep::Done,
    ensures
        step == ReceiptStep::PutAndSync && succeeded,
{
}

/// Where one destination of a finalized upload stands.
#[derive(Debug)]
pub enum UploadProgress {
    Running,
    Durable,
    Failed(String),
}

/// Which destination of a finalized upload failed.
#[derive(Debug)]
pub enum FinalizedUploadFailure {
    Qmdb(String),
    Simplex(String),
}

/// The joint outcome of both destinations.
pub open spec fn joint_outcome(qmdb: UploadProgress, simplex: UploadProgress) -> Option<
    Result<(), FinalizedUploadFailure>,
> {
    match (qmdb, simplex) {
        (UploadProgress::Failed(error), _) => Some(Err(FinalizedUploadFailure::Qmdb(error))),
        (_, UploadProgress::Failed(error)) => Some(Err(FinalizedUploadFailure::Simplex(error))),
        (UploadProgress::Durable, UploadProgress::Durable) => Some(Ok(())),
        _ => None,
    }
}

/// The joint outcome of both destinations: durable once both are, failed as
/// soon as one is, and open until then.
pub fn finalized_uploads(qmdb: UploadProgress, simplex: UploadProgress) -> (outcome: Option<
    Result<(), FinalizedUploadFailure>,
>)
    ensures
        outcome == joint_outcome(qmdb, simplex),
{
    match qmdb {
        UploadProgress::Failed(error) => Some(Err(FinalizedUploadFailure::Qmdb(error))),
        UploadProgress::Running => match simplex {
            UploadProgress::Failed(error) => Some(Err(FinalizedUploadFailure::Simplex(error))),
            _ => None,
        },
        UploadProgress::Durable => match simplex {
            UploadProgress::Failed(error) => Some(Err(FinalizedUploadFailure::Simplex(error))),
            UploadProgress::Durable => Some(Ok(())),
            UploadProgress::Running => None,
        },
    }
}

/// A task whose exit ends the validator.
#[derive(Clone, Copy, Debug, PartialEq, Eq, Structural)]
pub enum CriticalTask {
    Probe,
    Indexer,
    Engine,
    Mempool,
    Network,
}

/// A task of the index pipeline.
#[derive(Clone, Copy, Debug, PartialEq, Eq, Structural)]
pub enum IndexerTask {
    Certificates,
    Uploads,
    Cleanup,
}

/// Whether a pipeline task that ended with `result` is told of by `text` and ends
/// `critical`.
pub open spec fn ends_pipeline(
    result: Result<(), String>,
    text: Seq<char>,
    critical: CriticalTask,
) -> bool {
    &&& critical == CriticalTask::Indexer
    &&& match result {
        Ok(_) => ends_with_seq(text, " exited"@),
        Err(error) => ends_with_seq(text, " failed: "@ + error@),
    }
}

/// What is said of a task of the index pipeline that ended, and the critical
/// task that ends with it. The pipeline ends with the first of its tasks.
pub fn indexer_critical_task(task: IndexerTask, result: Result<(), String>) -> (ended: (
    String,
    CriticalTask,
))
    ensures
        ended.0@ == (match task {
            IndexerTask::Certificates => "Simplex certificate uploader"@,
            IndexerTask::Uploads => "finalized index uploader"@,
            IndexerTask::Cleanup => "finalized payload cleanup"@,
        }) + (match result {
            Ok(_) => " exited"@,
            Err(error) => " failed: "@ + error@,
        }),
        ended.1 == CriticalTask::Indexer,
        ends_pipeline(result, ended.0@, ended.1),
{
    let name = match task {
        IndexerTask::Certificates => "Simplex certificate uploader",
        IndexerTask::Uploads => "finalized index uploader",
        IndexerTask::Cleanup => "finalized payload cleanup",
    };
    let ghost tail = if result is Ok {
        " exited"@
    } else {
        " failed: "@ + result->Err_0@
    };
    let text = match result {
        Ok(()) => join2(name, " exited"),
        Err(error) => join2(name, join2(" failed: ", error.as_str()).as_str()),
    };
    proof {
        assert(text@.skip(text@.len() - tail.len()) =~= tail);
    }
    (text, CriticalTask::Indexer)
}

/// How the validator ends.
#[derive(Debug)]
pub enum ExitAction {
    Warn(String),
    Panic(String),
}

/// Whether `action` is how the validator ends when `task` exits.
pub open spec fn ends_validator(task: CriticalTask, action: ExitAction) -> bool {
    match task {
        CriticalTask::Indexer => action is Panic,
        _ => action is Warn,
    }
}

/// How the validator ends when `task` exits. Only the exit of the index
/// pipeline is a failure of the process.
pub fn critical_task_exit(task: CriticalTask) -> (action: ExitAction)
    ensures
        match task {
            CriticalTask::Probe => action matches ExitAction::Warn(text) && text@
                == "probe exited"@,
            CriticalTask::Indexer => action matches ExitAction::Panic(text) && text@
                == "critical indexer task exited"@,
            CriticalTask::Engine => action matches ExitAction::Warn(text) && text@
                == "engine exited"@,
            CriticalTask::Mempool => action matches ExitAction::Warn(text) && text@
                == "mempool exited"@,
            CriticalTask::Network => action matches ExitAction::Warn(text) && text@
                == "network exited"@,
        },
        ends_validator(task, action),
{
    match task {
        CriticalTask::Probe => ExitAction::Warn("probe exited".to_owned()),
        CriticalTask::Indexer => ExitAction::Panic("critical indexer task exited".to_owned()),
        CriticalTask::Engine => ExitAction::Warn("engine exited".to_owned()),
        CriticalTask::Mempool => ExitAction::Warn("mempool exited".to_owned()),
        CriticalTask::Network => ExitAction::Warn("network exited".to_owned()),
    }
}

/// Concurrent account lookups allowed on the consensus runtime.
pub const ACCOUNT_READ_MAX_IN_FLIGHT: usize = 32;

/// Buffered metrics scrapes; further scrapes are turned away.
pub const METRICS_SCRAPE_BUFFER: usize = 1;

/// An account's balance and nonce window.
#[derive(Clone, Copy, Debug, PartialEq, Eq, Structural)]
pub struct AccountRecord {
    pub balance: u64,
    pub nonce_base: u64,
    pub nonce_bitmap: u64,
}

/// The answer to an account lookup.
#[derive(Clone, Copy, Debug, PartialEq, Eq, Structural)]
pub enum AccountLookup {
    Found(AccountRecord),
    Missing,
    Unavailable,
}

/// The answer to a lookup that was queued, or was not, and replied to, or not.
pub open spec fn lookup_across(queued: bool, reply: Option<AccountLookup>) -> AccountLookup {
    match reply {
        Some(reply) if queued => reply,
        _ => AccountLookup::Unavailable,
    }
}

/// The answer to a lookup that crossed to the consensus runtime. A request that
/// was not queued, or whose reply was dropped, means that the service is gone:
/// unavailable, not that the account does not exist.
pub fn bridged_lookup(queued: bool, reply: Option<AccountLookup>) -> (answer: AccountLookup)
    ensures
        answer == lookup_across(queued, reply),
{
    if !queued {
        return AccountLookup::Unavailable;
    }
    match reply {
        Some(reply) => reply,
        None => AccountLookup::Unavailable,
    }
}

/// How log lines are formatted and filtered.
#[derive(Clone, Copy, Debug, PartialEq, Eq, Structural)]
pub struct TelemetryPlan {
    pub json: bool,
    /// Whether only events are logged, rather than all that the level filter
    /// lets through.
    pub events_only: bool,
    pub export_traces: bool,
    pub serve_metrics: bool,
}

/// The telemetry of a validator.
pub open spec fn telemetry_of(json: bool, traces: bool, metrics: bool) -> TelemetryPlan {
    TelemetryPlan { json, events_only: !traces, export_traces: traces, serve_metrics: metrics }
}

/// The telemetry of a validator. With traces exported, logs go through the
/// same filter as the traces.
pub fn telemetry_plan(json: bool, traces: bool, metrics: bool) -> (plan: TelemetryPlan)
    ensures
        plan == telemetry_of(json, traces, metrics),
{
    TelemetryPlan { json, events_only: !traces, export_traces: traces, serve_metrics: metrics }
}

/// The response to a metrics scrape that was queued, or was not, and encoded.
pub open spec fn scraped(queued: bool, encoded: Option<String>) -> (u16, Option<String>) {
    match encoded {
        Some(text) if queued => (200u16, Some(text)),
        _ => (503u16, None),
    }
}

/// The response to a metrics scrape: status, and the encoded metrics of one
/// that was served.
pub fn scrape_response(queued: bool, encoded: Option<String>) -> (response: (u16, Option<String>))
    ensures
        response == scraped(queued, encoded),
{
    if !queued {
        return (503, None);
    }
    match encoded {
        Some(text) => (200, Some(text)),
        None => (503, None),
    }
}

/// An upload is durable only if both destinations are, and fails as soon as
/// either does, as the failure of that destination; otherwise it is open.
pub proof fn both_destinations_decide(qmdb: UploadProgress, simplex: UploadProgress)
    ensures
        joint_outcome(qmdb, simplex) == Some(Ok::<(), FinalizedUploadFailure>(())) <==> qmdb is
            Durable && simplex is Durable,
        joint_outcome(qmdb, simplex) is None <==> !(qmdb is Failed) && !(simplex is Failed) && (
        qmdb is Running || simplex is Running),
        qmdb matches UploadProgress::Failed(error) ==> joint_outcome(qmdb, simplex) == Some(
            Err::<(), FinalizedUploadFailure>(FinalizedUploadFailure::Qmdb(error)),
        ),
        !(qmdb is Failed) && simplex is Failed ==> joint_outcome(qmdb, simplex) == Some(
            Err::<(), FinalizedUploadFailure>(
                FinalizedUploadFailure::Simplex(simplex->Failed_0),
            ),
        ),
{
}

/// The publisher is connected at most once: after a success every caller shares
/// it. A namespace that is not fresh ends the process, and every other failure
/// is tried again after a second, with fresh namespaces asked for as before.
pub proof fn publishers_connect_once(
    slot: LazyPublisher,
    next: LazyPublisher,
    outcome: ConnectOutcome,
    step: PublisherStep,
)
    requires
        slot.connects(next, outcome, step),
    ensures
        outcome is Connected ==> step is Ready && next.needed() is Ready,
        !slot.connected && !(outcome is Connected) ==> next.needed() == (PublisherStep::Connect {
            fresh: slot.require_fresh,
        }),
        slot.connected ==> next.needed() is Ready,
        step is Abort <==> outcome is NonFreshNamespace,
        outcome is Failed ==> step == (PublisherStep::RetryAfter { millis: 1_000 }),
{
}

/// A receipt is put only when the metadata was just opened, and metadata that
/// could not be opened is waited for.
pub proof fn receipts_are_put_into_open_metadata(step: ReceiptStep, succeeded: bool)
    ensures
        receipt_step_after(step, succeeded) == ReceiptStep::PutAndSync ==> succeeded && (step
            == ReceiptStep::Reopen || step == ReceiptStep::WaitThenReopen),
        succeeded && (step == ReceiptStep::Reopen || step == ReceiptStep::WaitThenReopen)
            ==> receipt_step_after(step, succeeded) == ReceiptStep::PutAndSync,
        step == ReceiptStep::PutAndSync && !succeeded ==> receipt_step_after(step, succeeded)
            == ReceiptStep::Reopen,
        (step == ReceiptStep::Reopen || step == ReceiptStep::WaitThenReopen) && !succeeded
            ==> receipt_step_after(step, succeeded) == ReceiptStep::WaitThenReopen,
        step == ReceiptStep::PutAndSync && succeeded ==> receipt_step_after(step, succeeded)
            == ReceiptStep::Done,
        receipt_step_after(ReceiptStep::Done, succeeded) == ReceiptStep::Done,
{
}

/// An account counts as found or missing only if the service replied so to a
/// lookup that reached it.
pub proof fn unanswered_lookups_are_unavailable(queued: bool, reply: Option<AccountLookup>)
    ensures
        queued && reply is Some ==> lookup_across(queued, reply) == reply->0,
        !queued || reply is None ==> lookup_across(queued, reply) == AccountLookup::Unavailable,
{
}

/// A task of the index pipeline that ends takes the process down, however it
/// ended; the exit of any other task is a warning.
pub proof fn index_pipeline_takes_the_process_down(
    result: Result<(), String>,
    text: Seq<char>,
    critical: CriticalTask,
    action: ExitAction,
    task: CriticalTask,
    other: ExitAction,
)
    requires
        ends_pipeline(result, text, critical),
        ends_validator(critical, action),
        ends_validator(task, other),
    ensures
        action is Panic,
        other is Panic <==> task == CriticalTask::Indexer,
        result matches Err(error) ==> text.len() >= error@.len() && text.skip(
            text.len() - error@.len(),
        ) == error@,
{
    if let Err(error) = result {
        let tail = " failed: "@ + error@;
        assert(text.skip(text.len() - tail.len()) == tail);
        assert(text.skip(text.len() - error@.len()) =~= tail.skip(tail.len() - error@.len()));
        assert(tail.skip(tail.len() - error@.len()) =~= error@);
    }
}

/// A scrape is served only if it was queued and encoded, with what was encoded.
/// Logs are cut down to events exactly while no traces are exported.
pub proof fn scrapes_and_logs_follow_their_switches(
    queued: bool,
    encoded: Option<String>,
    json: bool,
    traces: bool,
    metrics: bool,
)
    ensures
        queued && encoded is Some ==> scraped(queued, encoded).0 == 200 && scraped(
            queued,
            encoded,
        ).1 == encoded,
        !queued || encoded is None ==> scraped(queued, encoded).0 == 503 && scraped(
            queued,
            encoded,
        ).1 is None,
        telemetry_of(json, traces, metrics).json == json,
        telemetry_of(json, traces, metrics).export_traces == traces,
        telemetry_of(json, traces, metrics).events_only != traces,
        telemetry_of(json, traces, metrics).serve_metrics == metrics,
{
}

} // verus!
