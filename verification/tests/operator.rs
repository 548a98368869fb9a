//! The operator: content, capabilities, metered streams and open channels.

use constantinople::operator::capability::{
    capability_matches, generate_capability, hex_lower, Capabilities,
};
use constantinople::operator::content::{tokenize, tokens, ESSAY};
use constantinople::operator::stream::{
    admit_stream, advertise, probe, stream_content_limit, ConsumeOutcome, MeterSnapshot,
    StreamEndReason, StreamEvent, StreamSession, StreamStep, STREAM_DEBT_LIMIT,
    STREAM_PRICE_PER_TOKEN,
};
use constantinople::operator::verify::{
    authorize_settlement, check_open, check_proof, host_address, included_height, operator_config,
    plan_proof, settlement_answer, transactions_url, ApiError, DecodedTransaction, Host,
    OpenOperation, OperatorError, OperatorFlags, ProofPlan, ProvedOperation, SettleOutcome,
    TipHeader, TransactionMetadata,
};
use constantinople::validator::relayer::TxStatus;

#[test]
fn tokens_reassemble_the_essay() {
    assert_eq!(tokens().concat(), ESSAY);
    assert!(tokens().iter().all(|token| !token.trim().is_empty()));
    // The demo's pacing assumes a few hundred tokens, and clients size their
    // deposit so that a paying session ends with the content.
    assert!((300..600).contains(&tokens().len()));
}

#[test]
fn a_token_is_a_word_and_the_white_space_behind_it() {
    assert_eq!(tokenize("a  b\n\nc"), vec!["a  ", "b\n\n", "c"]);
    assert_eq!(tokenize(" a\u{a0}b"), vec![" ", "a\u{a0}", "b"]);
    assert!(tokenize("").is_empty());
    assert_eq!(tokenize("word "), vec!["word "]);
}

#[test]
fn capability_is_fresh_256_bit_bearer_material() {
    let first = generate_capability();
    let second = generate_capability();

    assert_eq!(first.len(), 64);
    assert!(first.bytes().all(|byte| byte.is_ascii_hexdigit()));
    assert_ne!(first, second);
    assert!(capability_matches(&first, &first));
    assert!(!capability_matches(&first, &second));
}

#[test]
fn capabilities_compare_by_every_byte() {
    assert_eq!(hex_lower(&[0x00, 0x9f, 0xff]), "009fff");
    assert!(!capability_matches("ab", "abc"));
    assert!(!capability_matches("ab", "ac"));
    assert!(capability_matches("", ""));
    assert!(!capability_matches("é", "e"));
}

#[test]
fn replayed_registrations_keep_their_capability() {
    let mut capabilities = Capabilities::new();
    let channel = vec![1u8; 32];
    let other = vec![2u8; 32];
    let first = capabilities.issue_capability(&channel);
    assert_eq!(capabilities.issue_capability(&channel), first);
    let second = capabilities.issue_capability(&other);
    assert_ne!(first, second);
    assert!(capabilities.authorizes(&channel, &first));
    assert!(!capabilities.authorizes(&channel, &second));
    assert!(!capabilities.authorizes(&vec![3u8; 32], &first));
    assert_eq!(capabilities.issue(&channel, "fresh".to_string()), first);
    assert_eq!(authorize_settlement(&capabilities, &other, &second), Ok(()));
    assert_eq!(
        authorize_settlement(&capabilities, &other, &first),
        Err(ApiError {
            status: 403,
            message: "invalid channel capability".to_string(),
        })
    );
}

#[test]
fn content_limit_prices_every_existing_token_once() {
    assert_eq!(
        stream_content_limit(),
        u64::try_from(tokens().len()).expect("token count fits u64") * STREAM_PRICE_PER_TOKEN
    );
    let ad = advertise(vec![9; 32], 5, 6, 7);
    assert_eq!(ad.tokens, stream_content_limit());
    assert_eq!(ad.debt_limit, STREAM_DEBT_LIMIT);
    assert_eq!((ad.height, ad.min_runway, ad.settle_margin), (5, 6, 7));
}

fn payment_required(message: &str) -> ApiError {
    ApiError {
        status: 402,
        message: message.to_string(),
    }
}

#[test]
fn streams_without_a_registered_channel_require_payment() {
    let mut capabilities = Capabilities::new();
    let channel = vec![1u8; 32];
    let capability = capabilities.issue_capability(&channel);

    assert_eq!(
        admit_stream(None, None, &capabilities),
        Err(payment_required(
            "open and register a channel, then pass ?channel=<hex>"
        ))
    );
    assert_eq!(
        admit_stream(Some(Err("bad hex".to_string())), None, &capabilities),
        Err(payment_required("bad hex"))
    );
    assert_eq!(
        admit_stream(Some(Ok(channel.clone())), None, &capabilities),
        Err(payment_required("registration capability required"))
    );
    assert_eq!(
        admit_stream(Some(Ok(channel.clone())), Some("x".to_string()), &capabilities),
        Err(payment_required("invalid channel capability"))
    );
    assert_eq!(
        admit_stream(Some(Ok(channel.clone())), Some(capability), &capabilities),
        Ok(channel)
    );
    let meter = MeterSnapshot { served: 3, paid: 2 };
    assert_eq!(probe(Ok(ConsumeOutcome::PaymentRequired(meter))), Ok(meter));
    assert_eq!(
        probe(Err("closed".to_string())),
        Err(payment_required("closed"))
    );
}

#[test]
fn a_stream_pauses_resumes_and_times_out() {
    let at = |served, paid| MeterSnapshot { served, paid };
    let mut session = StreamSession::new(at(0, 0));
    assert_eq!(session.pace(), 50);
    assert_eq!(
        session.step(Ok(ConsumeOutcome::Served(at(1, 0))), 1_000),
        StreamStep::Emit(StreamEvent::Chunk {
            text: "Every ".to_string(),
            served: 1,
            paid: 0,
        })
    );
    let refused = ConsumeOutcome::PaymentRequired(at(32, 0));
    assert_eq!(
        session.step(Ok(refused), 2_000),
        StreamStep::Emit(StreamEvent::PaymentRequired {
            served: 32,
            paid: 0,
        })
    );
    assert_eq!(session.pace(), 0);
    assert_eq!(session.step(Ok(refused), 6_999), StreamStep::Poll);
    // A fresher voucher resumes the stream and clears the clock.
    assert_eq!(
        session.step(Ok(ConsumeOutcome::Served(at(2, 2))), 6_999),
        StreamStep::Emit(StreamEvent::Chunk {
            text: "payment ".to_string(),
            served: 2,
            paid: 2,
        })
    );
    assert_eq!(session.grace_deadline, None);
    session.step(Ok(refused), 10_000);
    assert_eq!(
        session.step(Ok(refused), 15_000),
        StreamStep::Emit(StreamEvent::End {
            reason: StreamEndReason::PaymentTimeout,
            served: 32,
            paid: 0,
        })
    );
    assert!(session.done);
}

#[test]
fn a_stream_ends_with_its_deposit_content_or_channel() {
    let meter = MeterSnapshot { served: 7, paid: 6 };
    let ends = |outcome, reason| {
        let mut session = StreamSession::new(meter);
        assert_eq!(
            session.step(outcome, 0),
            StreamStep::Emit(StreamEvent::End {
                reason,
                served: 7,
                paid: 6,
            })
        );
        assert!(session.done);
    };
    ends(
        Ok(ConsumeOutcome::DepositExhausted(meter)),
        StreamEndReason::DepositExhausted,
    );
    ends(
        Ok(ConsumeOutcome::ContentExhausted(meter)),
        StreamEndReason::Complete,
    );
    ends(Err("gone".to_string()), StreamEndReason::ChannelClosed);
}

fn unavailable(message: &str) -> OperatorError {
    OperatorError::Unavailable(message.to_string())
}

fn rejected(message: &str) -> OperatorError {
    OperatorError::Rejected(message.to_string())
}

fn metadata(qmdb_location: u64) -> Result<Option<TransactionMetadata>, String> {
    Ok(Some(TransactionMetadata {
        qmdb_location,
        bytes: vec![1, 2],
    }))
}

fn latest(transactions_end: u64) -> Result<Option<TipHeader>, String> {
    Ok(Some(TipHeader {
        height: 40,
        transactions_end,
        transactions_root: vec![9],
    }))
}

#[test]
fn open_transactions_are_proved_against_the_latest_tip() {
    assert_eq!(
        plan_proof(metadata(4), latest(5)),
        Ok(ProofPlan {
            tip: 4,
            start_location: 4,
            max_locations: 1,
            transactions_root: vec![9],
            tip_height: 40,
            bytes: vec![1, 2],
        })
    );
    assert_eq!(
        plan_proof(metadata(5), latest(5)),
        Err(unavailable(
            "open transaction is beyond the latest finalized transaction tip"
        ))
    );
    assert_eq!(
        plan_proof(metadata(0), latest(0)),
        Err(unavailable("latest finalized transaction range is empty"))
    );
    assert_eq!(
        plan_proof(metadata(0), Ok(None)),
        Err(unavailable("no finalized header available"))
    );
    assert_eq!(
        plan_proof(metadata(0), Err("x".to_string())),
        Err(unavailable("latest finalized header lookup failed: x"))
    );
    assert_eq!(
        plan_proof(Ok(None), Err("x".to_string())),
        Err(unavailable("open transaction is not finalized"))
    );
    assert_eq!(
        plan_proof(Err("y".to_string()), Ok(None)),
        Err(unavailable("open transaction metadata lookup failed: y"))
    );
}

#[test]
fn proofs_must_hold_the_requested_digest_in_its_place() {
    let plan = plan_proof(metadata(4), latest(5)).expect("plan");
    let digest = vec![7u8; 32];
    let proved = |location, value| Ok(vec![ProvedOperation { location, value }]);
    assert_eq!(check_proof(&plan, &digest, proved(4, Some(digest.clone()))), Ok(()));
    assert_eq!(
        check_proof(&plan, &digest, proved(3, Some(digest.clone()))),
        Err(unavailable("open transaction proof returned the wrong location"))
    );
    let missing = unavailable("open transaction proof does not contain the requested digest");
    assert_eq!(
        check_proof(&plan, &digest, proved(4, Some(vec![8]))),
        Err(missing)
    );
    assert_eq!(
        check_proof(&plan, &digest, proved(4, None)),
        Err(unavailable(
            "open transaction proof does not contain the requested digest"
        ))
    );
    assert_eq!(
        check_proof(&plan, &digest, Ok(Vec::new())),
        Err(unavailable("open transaction proof returned no operation"))
    );
    assert_eq!(
        check_proof(&plan, &digest, Err("z".to_string())),
        Err(unavailable("open transaction inclusion proof failed: z"))
    );
}

#[test]
fn only_open_channel_transactions_register() {
    let plan = plan_proof(metadata(4), latest(5)).expect("plan");
    let tx = |sender, operation| {
        Ok(DecodedTransaction {
            sender,
            nonce: 3,
            operation,
        })
    };
    let open = || OpenOperation::OpenChannel {
        receiver: vec![1],
        operator: vec![2],
        voucher_key: vec![3],
        deposit: 50,
        expiry: 60,
    };
    let verified = check_open(&plan, tx(Some(vec![5]), open())).expect("channel opens");
    assert_eq!(verified.payer, vec![5]);
    assert_eq!(verified.open_nonce, 3);
    assert_eq!((verified.deposit, verified.expiry), (50, 60));
    assert_eq!(verified.tip_height, 40);
    assert_eq!(
        check_open(&plan, tx(None, open())),
        Err(rejected("open transaction sender did not decode"))
    );
    assert_eq!(
        check_open(&plan, tx(Some(vec![5]), OpenOperation::Other)),
        Err(rejected("open transaction is not an OpenChannel"))
    );
    assert_eq!(
        check_open(&plan, Err("bad".to_string())),
        Err(rejected("open transaction decode failed: bad"))
    );
}

#[test]
fn operator_errors_tell_what_is_worth_retrying() {
    assert_eq!(ApiError::from_operator(rejected("no")).status, 400);
    assert_eq!(ApiError::from_operator(unavailable("later")).status, 503);
    assert_eq!(ApiError::bad_request("x").status, 400);
    let outcome = SettleOutcome {
        settled: true,
        cumulative: 9,
    };
    assert_eq!(settlement_answer(Ok(Ok(outcome))), Ok(outcome));
    assert_eq!(
        settlement_answer(Ok(Err(rejected("no")))).unwrap_err().status,
        400
    );
    assert_eq!(
        settlement_answer(Err("panicked".to_string())),
        Err(ApiError {
            status: 503,
            message: "settlement task failed: panicked".to_string(),
        })
    );
}

#[test]
fn included_batches_report_their_height() {
    assert_eq!(included_height(&TxStatus::Finalized { height: 7 }), Some(7));
    let partial = |included| TxStatus::PartiallyFinalized {
        height: 8,
        included,
        filtered: 1,
    };
    assert_eq!(included_height(&partial(1)), Some(8));
    assert_eq!(included_height(&partial(0)), None);
    assert_eq!(included_height(&TxStatus::Dropped), None);
}

#[test]
fn operator_flags_name_every_service() {
    let flags = |relayer: Option<&str>, indexer: Option<&str>, qmdb: Option<&str>| OperatorFlags {
        port: 8100,
        listen_addr: "0.0.0.0".to_string(),
        relayer_url: relayer.map(|url| url.to_string()),
        indexer_url: indexer.map(|url| url.to_string()),
        qmdb_url: qmdb.map(|url| url.to_string()),
        operator_seed: 1,
        min_runway: 2,
        settle_margin: 3,
    };
    let config = operator_config(flags(Some("r"), Some("i"), Some("q"))).expect("config");
    assert_eq!(config.http_port, 8100);
    assert_eq!(config.qmdb_url, "q");
    assert_eq!(
        operator_config(flags(None, None, None)),
        Err("provide --relayer-url or --config".to_string())
    );
    assert_eq!(
        operator_config(flags(Some("r"), None, None)),
        Err("provide --indexer-url or --config".to_string())
    );
    assert_eq!(
        operator_config(flags(Some("r"), Some("i"), None)),
        Err("provide --qmdb-url or --config".to_string())
    );
}

#[test]
fn hosts_and_routes_resolve() {
    let host = |name: &str, ip: &str| Host {
        name: name.to_string(),
        ip: ip.to_string(),
    };
    let hosts = vec![host("a", "10.0.0.1"), host("b", "10.0.0.2"), host("a", "10.0.0.3")];
    assert_eq!(host_address(&hosts, "a"), Some("10.0.0.3".to_string()));
    assert_eq!(host_address(&hosts, "c"), None);
    assert_eq!(
        transactions_url("http://q:1//", "/transactions"),
        "http://q:1/transactions"
    );
}
