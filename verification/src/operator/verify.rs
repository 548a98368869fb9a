//! Deciding what a channel's open transaction proves, and the answers an
//! operator gives.

use crate::keys::same_bytes;
use crate::operator::capability::{is_authorized, Capabilities};
use crate::text::{copy, join2, same_text, trim_end_slashes, trim_slashes};
use crate::validator::relayer::TxStatus;
use vstd::prelude::*;

verus! {

/// Why the operator does not serve a request.
#[derive(Debug, PartialEq, Eq)]
pub enum OperatorError {
    /// The request can never be served.
    Rejected(String),
    /// Something the operator depends on may recover.
    Unavailable(String),
}

/// Whether `error` is a passing failure described by `text`.
pub open spec fn is_unavailable(error: OperatorError, text: Seq<char>) -> bool {
    error matches OperatorError::Unavailable(message) && message@ == text
}

/// Whether `error` is a final refusal described by `text`.
pub open spec fn is_rejected(error: OperatorError, text: Seq<char>) -> bool {
    error matches OperatorError::Rejected(message) && message@ == text
}

fn unavailable(message: &str) -> (error: OperatorError)
    ensures
        is_unavailable(error, message@),
{
    OperatorError::Unavailable(copy(message))
}

fn rejected(message: &str) -> (error: OperatorError)
    ensures
        is_rejected(error, message@),
{
    OperatorError::Rejected(copy(message))
}

fn failed(context: &str, cause: &str) -> (error: OperatorError)
    ensures
        is_unavailable(error, context@ + cause@),
{
    OperatorError::Unavailable(join2(context, cause))
}

/// An HTTP answer that reports a failure.
#[derive(Debug, PartialEq, Eq)]
pub struct ApiError {
    pub status: u16,
    pub message: String,
}

/// Whether `api` is how `error` is answered.
pub open spec fn reports_error(error: OperatorError, api: ApiError) -> bool {
    match error {
        OperatorError::Rejected(message) => answers(api, 400, message@),
        OperatorError::Unavailable(message) => answers(api, 503, message@),
    }
}

/// Whether `error` answers with `status` and `text`.
pub open spec fn answers(error: ApiError, status: int, text: Seq<char>) -> bool {
    error.status == status && error.message@ == text
}

impl ApiError {
    /// The request is malformed.
    pub fn bad_request(message: &str) -> (error: Self)
        ensures
            answers(error, 400, message@),
    {
        ApiError { status: 400, message: copy(message) }
    }

    /// The request lacks authority.
    pub fn forbidden(message: &str) -> (error: Self)
        ensures
            answers(error, 403, message@),
    {
        ApiError { status: 403, message: copy(message) }
    }

    /// The request has no channel that can pay.
    pub fn payment_required(message: &str) -> (error: Self)
        ensures
            answers(error, 402, message@),
    {
        ApiError { status: 402, message: copy(message) }
    }

    /// A final refusal answers 400, a passing failure 503, so that clients know
    /// which errors are worth retrying.
    pub fn from_operator(error: OperatorError) -> (api: Self)
        ensures
            match error {
                OperatorError::Rejected(message) => answers(api, 400, message@),
                OperatorError::Unavailable(message) => answers(api, 503, message@),
            },
            reports_error(error, api),
    {
        match error {
            OperatorError::Rejected(message) => ApiError { status: 400, message },
            OperatorError::Unavailable(message) => ApiError { status: 503, message },
        }
    }
}

/// What the indexer keeps of a finalized transaction.
#[derive(Debug, PartialEq, Eq)]
pub struct TransactionMetadata {
    /// The transaction's place in the transaction log.
    pub qmdb_location: u64,
    /// The encoded transaction.
    pub bytes: Vec<u8>,
}

/// What the operator reads of the latest certified header.
#[derive(Debug, PartialEq, Eq)]
pub struct TipHeader {
    pub height: u64,
    /// One past the last transaction of the header's range.
    pub transactions_end: u64,
    pub transactions_root: Vec<u8>,
}

/// The inclusion proof to ask for, and what is kept until it is answered.
#[derive(Debug, PartialEq, Eq)]
pub struct ProofPlan {
    pub tip: u64,
    pub start_location: u64,
    pub max_locations: u32,
    pub transactions_root: Vec<u8>,
    pub tip_height: u64,
    /// The encoded transaction, to be decoded once it is proved.
    pub bytes: Vec<u8>,
}

/// One operation of an inclusion proof: its place in the log and the value it
/// appends, if it appends one.
#[derive(Debug, PartialEq, Eq)]
pub struct ProvedOperation {
    pub location: u64,
    pub value: Option<Vec<u8>>,
}

/// What a transaction does.
#[derive(Debug, PartialEq, Eq)]
pub enum OpenOperation {
    OpenChannel {
        receiver: Vec<u8>,
        operator: Vec<u8>,
        voucher_key: Vec<u8>,
        deposit: u64,
        expiry: u64,
    },
    Other,
}

/// A decoded transaction.
#[derive(Debug, PartialEq, Eq)]
pub struct DecodedTransaction {
    /// The sender's account, when its key decodes.
    pub sender: Option<Vec<u8>>,
    pub nonce: u64,
    pub operation: OpenOperation,
}

/// A channel whose open transaction is finalized.
#[derive(Debug, PartialEq, Eq)]
pub struct VerifiedOpenChannel {
    pub payer: Vec<u8>,
    pub receiver: Vec<u8>,
    pub voucher_key: Vec<u8>,
    pub operator: Vec<u8>,
    pub open_nonce: u64,
    pub deposit: u64,
    pub expiry: u64,
    pub tip_height: u64,
}

/// What the lookups of an open transaction's metadata and of the latest header
/// lead to.
pub open spec fn planned(
    metadata: Result<Option<TransactionMetadata>, String>,
    latest: Result<Option<TipHeader>, String>,
    plan: Result<ProofPlan, OperatorError>,
) -> bool {
    match metadata {
        Err(e) => plan matches Err(f) && is_unavailable(
            f,
            "open transaction metadata lookup failed: "@ + e@,
        ),
        Ok(None) => plan matches Err(f) && is_unavailable(f, "open transaction is not finalized"@),
        Ok(Some(m)) => match latest {
            Err(e) => plan matches Err(f) && is_unavailable(
                f,
                "latest finalized header lookup failed: "@ + e@,
            ),
            Ok(None) => plan matches Err(f) && is_unavailable(f, "no finalized header available"@),
            Ok(Some(h)) => if h.transactions_end == 0 {
                plan matches Err(f) && is_unavailable(
                    f,
                    "latest finalized transaction range is empty"@,
                )
            } else if m.qmdb_location > h.transactions_end - 1 {
                plan matches Err(f) && is_unavailable(
                    f,
                    "open transaction is beyond the latest finalized transaction tip"@,
                )
            } else {
                plan matches Ok(p) && p.tip == h.transactions_end - 1 && p.start_location
                    == m.qmdb_location && p.max_locations == 1 && p.transactions_root
                    == h.transactions_root && p.tip_height == h.height && p.bytes == m.bytes
            },
        },
    }
}

/// Which inclusion proof to ask for, given the two lookups: exactly the open
/// transaction, against the latest finalized tip.
pub fn plan_proof(
    metadata: Result<Option<TransactionMetadata>, String>,
    latest: Result<Option<TipHeader>, String>,
) -> (plan: Result<ProofPlan, OperatorError>)
    ensures
        planned(metadata, latest, plan),
{
    let metadata = match metadata {
        Err(e) => return Err(failed("open transaction metadata lookup failed: ", e.as_str())),
        Ok(None) => return Err(unavailable("open transaction is not finalized")),
        Ok(Some(m)) => m,
    };
    let header = match latest {
        Err(e) => return Err(failed("latest finalized header lookup failed: ", e.as_str())),
        Ok(None) => return Err(unavailable("no finalized header available")),
        Ok(Some(h)) => h,
    };
    if header.transactions_end == 0 {
        return Err(unavailable("latest finalized transaction range is empty"));
    }
    let tip: u64 = header.transactions_end - 1;
    if metadata.qmdb_location > tip {
        return Err(
            unavailable("open transaction is beyond the latest finalized transaction tip"),
        );
    }
    Ok(
        ProofPlan {
            tip,
            start_location: metadata.qmdb_location,
            max_locations: 1,
            transactions_root: header.transactions_root,
            tip_height: header.height,
            bytes: metadata.bytes,
        },
    )
}

/// What the answer to a planned proof shows of the transaction with `digest`.
pub open spec fn proof_checked(
    location: u64,
    digest: Seq<u8>,
    reply: Result<Vec<ProvedOperation>, String>,
    checked: Result<(), OperatorError>,
) -> bool {
    match reply {
        Err(e) => checked matches Err(f) && is_unavailable(
            f,
            "open transaction inclusion proof failed: "@ + e@,
        ),
        Ok(operations) => if operations@.len() == 0 {
            checked matches Err(f) && is_unavailable(
                f,
                "open transaction proof returned no operation"@,
            )
        } else if operations@[0].location != location {
            checked matches Err(f) && is_unavailable(
                f,
                "open transaction proof returned the wrong location"@,
            )
        } else if operations@[0].value matches Some(value) && value@ == digest {
            checked is Ok
        } else {
            checked matches Err(f) && is_unavailable(
                f,
                "open transaction proof does not contain the requested digest"@,
            )
        },
    }
}

/// Whether the proof contains the requested transaction.
pub fn check_proof(
    plan: &ProofPlan,
    digest: &Vec<u8>,
    reply: Result<Vec<ProvedOperation>, String>,
) -> (checked: Result<(), OperatorError>)
    ensures
        proof_checked(plan.start_location, digest@, reply, checked),
{
    let operations = match reply {
        Err(e) => return Err(failed("open transaction inclusion proof failed: ", e.as_str())),
        Ok(operations) => operations,
    };
    if operations.len() == 0 {
        return Err(unavailable("open transaction proof returned no operation"));
    }
    if operations[0].location != plan.start_location {
        return Err(unavailable("open transaction proof returned the wrong location"));
    }
    if let Some(value) = &operations[0].value {
        if same_bytes(value, digest) {
            return Ok(());
        }
    }
    Err(unavailable("open transaction proof does not contain the requested digest"))
}

/// What a decoded transaction opens.
pub open spec fn open_checked(
    tip_height: u64,
    decoded: Result<DecodedTransaction, String>,
    verified: Result<VerifiedOpenChannel, OperatorError>,
) -> bool {
    match decoded {
        Err(e) => verified matches Err(f) && is_rejected(
            f,
            "open transaction decode failed: "@ + e@,
        ),
        Ok(tx) => match (tx.sender, tx.operation) {
            (None, _) => verified matches Err(f) && is_rejected(
                f,
                "open transaction sender did not decode"@,
            ),
            (Some(_), OpenOperation::Other) => verified matches Err(f) && is_rejected(
                f,
                "open transaction is not an OpenChannel"@,
            ),
            (
                Some(payer),
                OpenOperation::OpenChannel { receiver, operator, voucher_key, deposit, expiry },
            ) => verified == Ok::<VerifiedOpenChannel, OperatorError>(
                VerifiedOpenChannel {
                    payer,
                    receiver,
                    voucher_key,
                    operator,
                    open_nonce: tx.nonce,
                    deposit,
                    expiry,
                    tip_height,
                },
            ),
        },
    }
}

/// The channel that a proved transaction opens.
pub fn check_open(plan: &ProofPlan, decoded: Result<DecodedTransaction, String>) -> (verified:
    Result<VerifiedOpenChannel, OperatorError>)
    ensures
        open_checked(plan.tip_height, decoded, verified),
{
    let tx = match decoded {
        Err(e) => return Err(
            OperatorError::Rejected(join2("open transaction decode failed: ", e.as_str())),
        ),
        Ok(tx) => tx,
    };
    let payer = match tx.sender {
        None => return Err(rejected("open transaction sender did not decode")),
        Some(payer) => payer,
    };
    match tx.operation {
        OpenOperation::Other => Err(rejected("open transaction is not an OpenChannel")),
        OpenOperation::OpenChannel { receiver, operator, voucher_key, deposit, expiry } => Ok(
            VerifiedOpenChannel {
                payer,
                receiver,
                voucher_key,
                operator,
                open_nonce: tx.nonce,
                deposit,
                expiry,
                tip_height: plan.tip_height,
            },
        ),
    }
}

/// A channel is verified only by a finalized transaction: its place lies in the
/// latest header's range, and the proof at that place holds its digest.
pub proof fn verified_channels_are_finalized(
    metadata: TransactionMetadata,
    header: TipHeader,
    digest: Seq<u8>,
    plan: ProofPlan,
    operations: Vec<ProvedOperation>,
)
    requires
        planned(Ok(Some(metadata)), Ok(Some(header)), Ok(plan)),
        proof_checked(plan.start_location, digest, Ok(operations), Ok(())),
    ensures
        metadata.qmdb_location < header.transactions_end,
        operations@.len() > 0,
        operations@[0].location == metadata.qmdb_location,
        operations@[0].value matches Some(value) && value@ == digest,
        plan.tip_height == header.height,
{
}

/// Height at which a status reports a transaction of the batch in a block.
pub open spec fn inclusion(status: TxStatus) -> Option<u64> {
    match status {
        TxStatus::Finalized { height } => Some(height),
        TxStatus::PartiallyFinalized { height, included, .. } => if included > 0 {
            Some(height)
        } else {
            None
        },
        TxStatus::Dropped => None,
    }
}

/// Height at which a batch of one transaction finalized, wholly or in part, or
/// nothing if it was concluded without the transaction.
pub fn included_height(status: &TxStatus) -> (height: Option<u64>)
    ensures
        height == inclusion(*status),
{
    match *status {
        TxStatus::Finalized { height } => Some(height),
        TxStatus::PartiallyFinalized { height, included, filtered: _ } => if included > 0 {
            Some(height)
        } else {
            None
        },
        TxStatus::Dropped => None,
    }
}

/// Whether a settlement request may settle the channel.
pub fn authorize_settlement(
    capabilities: &Capabilities,
    channel: &Vec<u8>,
    presented: &str,
) -> (authorized: Result<(), ApiError>)
    requires
        capabilities.wf(),
    ensures
        match authorized {
            Ok(()) => capabilities@.contains_key(channel@) && capabilities@[channel@]
                == presented@,
            Err(error) => !(capabilities@.contains_key(channel@) && capabilities@[channel@]
                == presented@) && answers(error, 403, "invalid channel capability"@),
        },
        authorized is Ok <==> is_authorized(capabilities@, channel@, presented@),
{
    if capabilities.authorizes(channel, presented) {
        Ok(())
    } else {
        Err(ApiError::forbidden("invalid channel capability"))
    }
}

/// What a settlement came to.
#[derive(Clone, Copy, Debug, PartialEq, Eq, Structural)]
pub struct SettleOutcome {
    pub settled: bool,
    pub cumulative: u64,
}

/// Whether `answer` is what a settlement task that ended as `joined` answers.
pub open spec fn settles_with(
    joined: Result<Result<SettleOutcome, OperatorError>, String>,
    answer: Result<SettleOutcome, ApiError>,
) -> bool {
    match joined {
        Ok(Ok(outcome)) => answer == Ok::<SettleOutcome, ApiError>(outcome),
        Ok(Err(OperatorError::Rejected(message))) => answer matches Err(api) && answers(
            api,
            400,
            message@,
        ),
        Ok(Err(OperatorError::Unavailable(message))) => answer matches Err(api) && answers(
            api,
            503,
            message@,
        ),
        Err(cause) => answer matches Err(api) && answers(
            api,
            503,
            "settlement task failed: "@ + cause@,
        ),
    }
}

/// What a settlement task answers: its outcome, its error, or the failure of
/// the task itself.
pub fn settlement_answer(joined: Result<Result<SettleOutcome, OperatorError>, String>) -> (answer:
    Result<SettleOutcome, ApiError>)
    ensures
        match joined {
            Ok(Ok(outcome)) => answer == Ok::<SettleOutcome, ApiError>(outcome),
            Ok(Err(OperatorError::Rejected(message))) => answer matches Err(api) && answers(
                api,
                400,
                message@,
            ),
            Ok(Err(OperatorError::Unavailable(message))) => answer matches Err(api) && answers(
                api,
                503,
                message@,
            ),
            Err(cause) => answer matches Err(api) && answers(
                api,
                503,
                "settlement task failed: "@ + cause@,
            ),
        },
        settles_with(joined, answer),
{
    match joined {
        Ok(Ok(outcome)) => Ok(outcome),
        Ok(Err(error)) => Err(ApiError::from_operator(error)),
        Err(cause) => Err(
            ApiError::from_operator(failed("settlement task failed: ", cause.as_str())),
        ),
    }
}

/// A route nested under a base URL.
pub open spec fn nested_url(base: Seq<char>, route: Seq<char>) -> Seq<char> {
    trim_slashes(base) + route
}

/// Where the transaction log is served: its route nested under the proof
/// service's base URL.
pub fn transactions_url(qmdb_url: &str, route: &str) -> (url: String)
    ensures
        url@ == nested_url(qmdb_url@, route@),
{
    let base = trim_end_slashes(qmdb_url);
    join2(base.as_str(), route)
}

/// A host of the deployer's hosts file.
#[derive(Debug, PartialEq, Eq)]
pub struct Host {
    pub name: String,
    pub ip: String,
}

/// Whether `i` is the last host called `name`.
pub open spec fn is_last_named(hosts: Seq<Host>, name: Seq<char>, i: int) -> bool {
    &&& 0 <= i < hosts.len()
    &&& hosts[i].name@ == name
    &&& forall|j: int| i < j < hosts.len() ==> (#[trigger] hosts[j]).name@ != name
}

/// The address of a named host: the last entry of that name counts.
pub fn host_address(hosts: &Vec<Host>, name: &str) -> (ip: Option<String>)
    ensures
        match ip {
            Some(ip) => exists|i: int| #[trigger]
                is_last_named(hosts@, name@, i) && ip@ == hosts@[i].ip@,
            None => forall|j: int| 0 <= j < hosts@.len() ==> (#[trigger] hosts@[j]).name@ != name@,
        },
{
    let mut i: usize = hosts.len();
    while i > 0
        invariant
            i <= hosts.len(),
            forall|j: int| i <= j < hosts@.len() ==> (#[trigger] hosts@[j]).name@ != name@,
        decreases i,
    {
        i = i - 1;
        if same_text(hosts[i].name.as_str(), name) {
            assert(is_last_named(hosts@, name@, i as int));
            return Some(copy(hosts[i].ip.as_str()));
        }
    }
    None
}

/// The operator's runtime configuration.
#[derive(Debug, PartialEq, Eq)]
pub struct OperatorConfig {
    pub http_port: u16,
    pub listen_addr: String,
    pub relayer_url: String,
    pub indexer_url: String,
    pub qmdb_url: String,
    pub operator_seed: u64,
    pub min_runway: u64,
    pub settle_margin: u64,
}

/// The operator's command line, without a configuration file.
#[derive(Debug, PartialEq, Eq)]
pub struct OperatorFlags {
    pub port: u16,
    pub listen_addr: String,
    pub relayer_url: Option<String>,
    pub indexer_url: Option<String>,
    pub qmdb_url: Option<String>,
    pub operator_seed: u64,
    pub min_runway: u64,
    pub settle_margin: u64,
}

/// Whether `config` is what `flags` configure, or the first of them that is
/// missing.
pub open spec fn configures(flags: OperatorFlags, config: Result<OperatorConfig, String>) -> bool {
    match (flags.relayer_url, flags.indexer_url, flags.qmdb_url) {
        (None, _, _) => config matches Err(e) && e@ == "provide --relayer-url or --config"@,
        (Some(_), None, _) => config matches Err(e) && e@ == "provide --indexer-url or --config"@,
        (Some(_), Some(_), None) => config matches Err(e) && e@
            == "provide --qmdb-url or --config"@,
        (Some(relayer_url), Some(indexer_url), Some(qmdb_url)) => config == Ok::<
            OperatorConfig,
            String,
        >(
            OperatorConfig {
                http_port: flags.port,
                listen_addr: flags.listen_addr,
                relayer_url,
                indexer_url,
                qmdb_url,
                operator_seed: flags.operator_seed,
                min_runway: flags.min_runway,
                settle_margin: flags.settle_margin,
            },
        ),
    }
}

/// What bare flags configure, or which of them is missing.
pub fn operator_config(flags: OperatorFlags) -> (config: Result<OperatorConfig, String>)
    ensures
        configures(flags, config),
{
    let relayer_url = match flags.relayer_url {
        None => return Err(copy("provide --relayer-url or --config")),
        Some(url) => url,
    };
    let indexer_url = match flags.indexer_url {
        None => return Err(copy("provide --indexer-url or --config")),
        Some(url) => url,
    };
    let qmdb_url = match flags.qmdb_url {
        None => return Err(copy("provide --qmdb-url or --config")),
        Some(url) => url,
    };
    Ok(
        OperatorConfig {
            http_port: flags.port,
            listen_addr: flags.listen_addr,
            relayer_url,
            indexer_url,
            qmdb_url,
            operator_seed: flags.operator_seed,
            min_runway: flags.min_runway,
            settle_margin: flags.settle_margin,
        },
    )
}

/// A verified channel names the parties that its open transaction names: its
/// receiver, operator and voucher key are each the field of that name, as are
/// its deposit and expiry; its payer is the sender, and its nonce the
/// transaction's. It stands as of the tip that it was proved against.
pub proof fn verified_channel_names_its_parties(
    tip_height: u64,
    transaction: DecodedTransaction,
    channel: VerifiedOpenChannel,
)
    requires
        open_checked(tip_height, Ok(transaction), Ok(channel)),
    ensures
        transaction.sender == Some(channel.payer),
        transaction.operation is OpenChannel,
        channel.receiver == transaction.operation->receiver,
        channel.operator == transaction.operation->operator,
        channel.voucher_key == transaction.operation->voucher_key,
        channel.deposit == transaction.operation->deposit,
        channel.expiry == transaction.operation->expiry,
        channel.open_nonce == transaction.nonce,
        channel.tip_height == tip_height,
{
}

/// A decoded transaction verifies exactly if it has a sender and opens a
/// channel; one that does not is refused for good, not as a passing failure.
pub proof fn only_open_transactions_verify(
    tip_height: u64,
    decoded: Result<DecodedTransaction, String>,
    verified: Result<VerifiedOpenChannel, OperatorError>,
)
    requires
        open_checked(tip_height, decoded, verified),
    ensures
        verified is Ok <==> decoded is Ok && decoded->Ok_0.sender is Some
            && decoded->Ok_0.operation is OpenChannel,
        verified matches Err(error) ==> error is Rejected,
{
}

/// A proof is asked for exactly if both lookups found something and the
/// transaction lies below the end of the finalized log. It is then asked of that
/// one place, at the last place of the log, against the header's root; every
/// refusal may pass.
pub proof fn proofs_are_asked_at_the_tip(
    metadata: Result<Option<TransactionMetadata>, String>,
    latest: Result<Option<TipHeader>, String>,
    plan: Result<ProofPlan, OperatorError>,
)
    requires
        planned(metadata, latest, plan),
    ensures
        plan is Ok <==> (metadata matches Ok(Some(m)) && latest matches Ok(Some(h))
            && m.qmdb_location < h.transactions_end),
        plan matches Err(error) ==> error is Unavailable,
        plan matches Ok(p) ==> {
            let m = metadata->Ok_0->0;
            let h = latest->Ok_0->0;
            &&& p.start_location == m.qmdb_location
            &&& p.tip + 1 == h.transactions_end
            &&& p.start_location <= p.tip
            &&& p.max_locations == 1
            &&& p.transactions_root@ == h.transactions_root@
            &&& p.tip_height == h.height
            &&& p.bytes@ == m.bytes@
        },
{
}

/// A proof is accepted exactly if its first operation stands at the requested
/// place and appends the digest; any other reply is a passing failure.
pub proof fn proofs_show_the_digest(
    location: u64,
    digest: Seq<u8>,
    reply: Result<Vec<ProvedOperation>, String>,
    checked: Result<(), OperatorError>,
)
    requires
        proof_checked(location, digest, reply, checked),
    ensures
        checked is Ok <==> (reply matches Ok(operations) && operations@.len() > 0
            && operations@[0].location == location && (operations@[0].value matches Some(value)
            && value@ == digest)),
        checked matches Err(error) ==> error is Unavailable,
{
}

/// A transaction is in a block exactly if its batch finalized, or finalized in
/// part with something included, and then at the reported height.
pub proof fn inclusion_needs_a_block(height: u64, included: u64, filtered: u64)
    ensures
        inclusion(TxStatus::Finalized { height }) == Some(height),
        included > 0 ==> inclusion(TxStatus::PartiallyFinalized { height, included, filtered })
            == Some(height),
        inclusion(TxStatus::PartiallyFinalized { height, included: 0, filtered }) is None,
        inclusion(TxStatus::Dropped) is None,
{
}

/// A settlement succeeds only if its task did, with the same outcome. A failure
/// that may pass is answered by a status from 500 on, a final one below that.
pub proof fn settlement_answers_are_honest(
    joined: Result<Result<SettleOutcome, OperatorError>, String>,
    answer: Result<SettleOutcome, ApiError>,
)
    requires
        settles_with(joined, answer),
    ensures
        answer matches Ok(outcome) ==> joined == Ok::<Result<SettleOutcome, OperatorError>, String>(
            Ok(outcome),
        ),
        joined matches Ok(Ok(outcome)) ==> answer == Ok::<SettleOutcome, ApiError>(outcome),
        answer matches Err(api) ==> (api.status >= 500 <==> !(joined matches Ok(
            Err(OperatorError::Rejected(_)),
        ))),
        answer matches Err(api) ==> api.status == 503 || api.status == 400,
        joined matches Ok(Err(OperatorError::Rejected(message))) ==> answer->Err_0.message@
            == message@,
        joined matches Ok(Err(OperatorError::Unavailable(message))) ==> answer->Err_0.message@
            == message@,
{
}

/// Every flag configures the setting of its own name, and flags configure an
/// operator exactly if all three URLs are given.
pub proof fn flags_configure_their_settings(
    flags: OperatorFlags,
    config: Result<OperatorConfig, String>,
)
    requires
        configures(flags, config),
    ensures
        config is Ok <==> flags.relayer_url is Some && flags.indexer_url is Some
            && flags.qmdb_url is Some,
        config matches Ok(config) ==> {
            &&& flags.relayer_url == Some(config.relayer_url)
            &&& flags.indexer_url == Some(config.indexer_url)
            &&& flags.qmdb_url == Some(config.qmdb_url)
            &&& config.http_port == flags.port
            &&& config.listen_addr == flags.listen_addr
            &&& config.operator_seed == flags.operator_seed
            &&& config.min_runway == flags.min_runway
            &&& config.settle_margin == flags.settle_margin
        },
{
}

/// A refusal is final exactly if it is answered below 500, and the message is the
/// operator's own.
pub proof fn final_refusals_are_told_apart(error: OperatorError, api: ApiError)
    requires
        reports_error(error, api),
    ensures
        error is Rejected <==> api.status == 400,
        error is Unavailable <==> api.status == 503,
        error matches OperatorError::Rejected(message) ==> api.message@ == message@,
        error matches OperatorError::Unavailable(message) ==> api.message@ == message@,
{
}

/// The latest entry of a name counts: adding a host makes it the one that its
/// name stands for, and leaves what other names stand for.
pub proof fn latest_host_counts(hosts: Seq<Host>, host: Host, name: Seq<char>, i: int)
    ensures
        is_last_named(hosts.push(host), host.name@, hosts.len() as int),
        name != host.name@ ==> (is_last_named(hosts.push(host), name, i) <==> is_last_named(
            hosts,
            name,
            i,
        )),
        is_last_named(hosts.push(host), host.name@, i) ==> i == hosts.len(),
{
    let all = hosts.push(host);
    assert(all[hosts.len() as int] == host);
    assert forall|j: int| 0 <= j < hosts.len() implies all[j] == #[trigger] hosts[j] by {}
    if name != host.name@ && is_last_named(hosts, name, i) {
        assert forall|j: int| i < j < all.len() implies (#[trigger] all[j]).name@ != name by {
            if j < hosts.len() {
                assert(hosts[j].name@ != name);
            }
        }
    }
    if name != host.name@ && is_last_named(all, name, i) {
        assert forall|j: int| i < j < hosts.len() implies (#[trigger] hosts[j]).name@ != name by {
            assert(all[j].name@ != name);
        }
    }
}

/// A nested URL is its base and its route, whether or not the base ends in
/// slashes.
pub proof fn nested_urls_ignore_slashes_at_the_end(base: Seq<char>, route: Seq<char>)
    ensures
        nested_url(base.push('/'), route) == nested_url(base, route),
        base.len() > 0 && base.last() != '/' ==> nested_url(base, route) == base + route,
{
    assert(base.push('/').drop_last() =~= base);
}

} // verus!
