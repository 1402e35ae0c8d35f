//! The request and response sides of a pairing attempt.

use local_transfer_core::pairing::{
    PairingAttemptId, PairingMessage, PairingMessageError, PairingRejectionReason, PairingRequest,
    PairingRequestEvent, PairingRequestFailure, PairingRequestIgnored, PairingRequestState,
    PairingResponse, PairingResponseError, PairingResponseEvent, PairingResponseIgnored,
    PairingResponseState, BASE_MESSAGE_LEN, KIND_REQUEST, KIND_REQUEST_REJECTED,
    MAX_PAIRING_MESSAGE_BYTES, PAIRING_PROTOCOL_VERSION, REJECTED_MESSAGE_LEN,
};
use local_transfer_core::time::Duration;

const ATTEMPT_ID_LEN: usize = 16;
const VERSION_OFFSET: usize = 0;
const KIND_OFFSET: usize = 1;
const REASON_OFFSET: usize = 18;

fn at(seconds: u64) -> Duration {
    Duration::from_secs(seconds)
}

fn id(byte: u8) -> PairingAttemptId {
    PairingAttemptId::from_bytes([byte; ATTEMPT_ID_LEN])
}

fn initiated() -> PairingRequest {
    PairingRequest::with_attempt_id(id(1), at(30))
}

fn awaiting() -> PairingRequest {
    let mut request = initiated();
    assert_eq!(
        request.mark_request_sent(at(0)),
        PairingRequestEvent::AwaitingResponse
    );
    request
}

#[test]
fn initiation_is_explicit_and_takes_no_discovery_or_peer_types() {
    // The public constructor takes only a deadline and generates the
    // correlation token in core. No discovery type, and no caller-supplied
    // id, can flow in, so no discovery observation can start an attempt and
    // no caller can reuse a token.
    let _: fn(Duration) -> PairingRequest = PairingRequest::initiate;

    let request = PairingRequest::initiate(at(30));
    assert_eq!(request.state(), PairingRequestState::RequestCreated);
    assert!(!request.is_terminal());
    assert!(!request.is_ready_for_next_pairing_stage());
}

#[test]
fn attempt_ids_round_trip_through_their_wire_form() {
    // Fixed bytes keep this deterministic: no assertion depends on two
    // generated identifiers differing.
    let fixed = id(7);
    assert_eq!(PairingAttemptId::from_bytes(fixed.to_bytes()), fixed);

    // A core-generated identifier also survives the same round trip.
    let generated = PairingRequest::initiate(at(30)).attempt_id();
    assert_eq!(
        PairingAttemptId::from_bytes(generated.to_bytes()),
        generated
    );
}

#[test]
fn request_message_is_an_idempotent_view_available_only_before_sending() {
    let mut request = initiated();

    let first = request
        .request_message(at(1))
        .expect("the request is available before it is sent");
    assert!(first.len() <= MAX_PAIRING_MESSAGE_BYTES);
    assert_eq!(
        PairingMessage::decode(&first).unwrap(),
        PairingMessage::request(id(1))
    );

    // Repeated retrieval returns the same bytes and never advances the
    // attempt: no retransmission, no retry, no new attempt.
    let second = request.request_message(at(2)).expect("still pending");
    assert_eq!(first, second);
    assert_eq!(request.state(), PairingRequestState::RequestCreated);

    assert_eq!(
        request.mark_request_sent(at(3)),
        PairingRequestEvent::AwaitingResponse
    );
    assert_eq!(request.state(), PairingRequestState::AwaitingRemoteResponse);
    assert!(request.request_message(at(4)).is_none());
}

#[test]
fn request_message_will_not_serve_bytes_for_an_expired_attempt() {
    let mut request = PairingRequest::with_attempt_id(id(1), at(10));

    assert!(request.request_message(at(10)).is_none());
    assert_eq!(request.state(), PairingRequestState::TimedOut);
    // A retry after expiry requires a fresh explicit initiation, not another
    // retrieval of the old request bytes.
    assert!(request.request_message(at(5)).is_none());
}

#[test]
fn marking_the_request_sent_again_is_a_deterministic_noop() {
    let mut request = awaiting();

    assert_eq!(
        request.mark_request_sent(at(1)),
        PairingRequestEvent::Ignored(PairingRequestIgnored::AlreadySent)
    );
    assert_eq!(request.state(), PairingRequestState::AwaitingRemoteResponse);
}

#[test]
fn a_valid_acceptance_reaches_only_readiness_for_the_next_pairing_stage() {
    let mut request = awaiting();

    let event = request.handle_remote_message(&PairingMessage::accepted(id(1)).encode(), at(5));

    assert_eq!(event, PairingRequestEvent::ReadyForNextPairingStage);
    assert_eq!(
        request.state(),
        PairingRequestState::ReadyForNextPairingStage
    );
    assert!(request.is_ready_for_next_pairing_stage());
    assert!(request.is_terminal());
    // This is the most advanced state the phase can reach. There is no
    // `is_trusted`, `is_authenticated`, or `is_verified` accessor, no
    // trusted-peer type in this module, and nothing was persisted.
}

#[test]
fn a_valid_rejection_is_terminal_untrusted_and_surfaces_its_reason() {
    for reason in [
        PairingRejectionReason::Unspecified,
        PairingRejectionReason::Busy,
        PairingRejectionReason::Declined,
    ] {
        let mut request = awaiting();

        let event = request
            .handle_remote_message(&PairingMessage::rejected(id(1), reason).encode(), at(5));

        assert_eq!(event, PairingRequestEvent::Rejected(reason));
        assert_eq!(request.state(), PairingRequestState::Rejected(reason));
        assert!(request.is_terminal());
        assert!(!request.is_ready_for_next_pairing_stage());
    }
}

#[test]
fn a_retry_is_a_fresh_independent_attempt_that_shares_no_state() {
    let mut failed = awaiting();
    let _ = failed.handle_remote_message(
        &PairingMessage::rejected(id(1), PairingRejectionReason::Declined).encode(),
        at(1),
    );
    assert!(failed.is_terminal());

    // A retry is another explicit call to the production constructor. It is
    // a distinct object that starts clean; core owns its correlation token.
    let retry = PairingRequest::initiate(at(60));
    assert_eq!(retry.state(), PairingRequestState::RequestCreated);
    assert!(!retry.is_terminal());

    // No input revives the failed attempt, and none of its inputs touched
    // the retry object.
    assert_eq!(
        failed.mark_request_sent(at(2)),
        PairingRequestEvent::Ignored(PairingRequestIgnored::AlreadyResolved)
    );
    assert_eq!(
        failed.cancel(),
        PairingRequestEvent::Ignored(PairingRequestIgnored::AlreadyResolved)
    );
    assert_eq!(
        failed.check_deadline(at(2)),
        PairingRequestEvent::Ignored(PairingRequestIgnored::AlreadyResolved)
    );
    assert_eq!(
        failed.handle_remote_message(&PairingMessage::accepted(id(1)).encode(), at(2)),
        PairingRequestEvent::Ignored(PairingRequestIgnored::AlreadyResolved)
    );
    assert_eq!(
        failed.state(),
        PairingRequestState::Rejected(PairingRejectionReason::Declined)
    );
    assert_eq!(retry.state(), PairingRequestState::RequestCreated);
}

#[test]
fn the_deadline_is_evaluated_only_against_caller_supplied_time() {
    let mut request = awaiting();

    assert_eq!(request.check_deadline(at(29)), PairingRequestEvent::Pending);
    assert_eq!(request.state(), PairingRequestState::AwaitingRemoteResponse);

    assert_eq!(
        request.check_deadline(at(30)),
        PairingRequestEvent::TimedOut
    );
    assert_eq!(request.state(), PairingRequestState::TimedOut);

    // Repeated checks, even with an earlier time, stay a deterministic no-op.
    for now in [at(31), at(1)] {
        assert_eq!(
            request.check_deadline(now),
            PairingRequestEvent::Ignored(PairingRequestIgnored::AlreadyResolved)
        );
        assert_eq!(request.state(), PairingRequestState::TimedOut);
    }
}

#[test]
fn a_late_acceptance_at_or_after_the_deadline_cannot_revive_the_attempt() {
    let mut request = awaiting();
    let accepted = PairingMessage::accepted(id(1)).encode();

    assert_eq!(
        request.handle_remote_message(&accepted, at(30)),
        PairingRequestEvent::TimedOut
    );
    assert_eq!(request.state(), PairingRequestState::TimedOut);

    assert_eq!(
        request.handle_remote_message(&accepted, at(31)),
        PairingRequestEvent::Ignored(PairingRequestIgnored::AlreadyResolved)
    );
    assert_eq!(request.state(), PairingRequestState::TimedOut);
}

#[test]
fn timeout_can_occur_before_the_request_is_sent() {
    let mut request = PairingRequest::with_attempt_id(id(1), at(10));

    assert_eq!(
        request.mark_request_sent(at(10)),
        PairingRequestEvent::TimedOut
    );
    assert_eq!(request.state(), PairingRequestState::TimedOut);
    assert!(request.request_message(at(11)).is_none());
}

#[test]
fn cancellation_is_explicit_and_terminal_from_every_in_progress_state() {
    let mut created = initiated();
    assert_eq!(created.cancel(), PairingRequestEvent::Cancelled);
    assert_eq!(created.state(), PairingRequestState::Cancelled);

    let mut waiting = awaiting();
    assert_eq!(waiting.cancel(), PairingRequestEvent::Cancelled);
    assert_eq!(waiting.state(), PairingRequestState::Cancelled);
}

#[test]
fn repeated_cancellation_and_late_responses_after_cancellation_are_ignored() {
    let mut request = awaiting();
    let _ = request.cancel();

    assert_eq!(
        request.cancel(),
        PairingRequestEvent::Ignored(PairingRequestIgnored::AlreadyResolved)
    );
    for message in [
        PairingMessage::accepted(id(1)),
        PairingMessage::rejected(id(1), PairingRejectionReason::Busy),
    ] {
        assert_eq!(
            request.handle_remote_message(&message.encode(), at(2)),
            PairingRequestEvent::Ignored(PairingRequestIgnored::AlreadyResolved)
        );
    }
    assert_eq!(request.state(), PairingRequestState::Cancelled);
}

#[test]
fn a_transport_failure_fails_the_attempt_closed() {
    let mut request = awaiting();

    assert_eq!(
        request.note_transport_failure(),
        PairingRequestEvent::Failed(PairingRequestFailure::TransportFailure)
    );
    assert!(request.is_terminal());
    assert!(!request.is_ready_for_next_pairing_stage());
    assert_eq!(
        request.note_transport_failure(),
        PairingRequestEvent::Ignored(PairingRequestIgnored::AlreadyResolved)
    );
}

#[test]
fn an_early_response_is_ignored_and_is_never_cached_or_replayed() {
    let mut request = initiated();

    // An acceptance that arrives before the request was marked sent.
    assert_eq!(
        request.handle_remote_message(&PairingMessage::accepted(id(1)).encode(), at(1)),
        PairingRequestEvent::Ignored(PairingRequestIgnored::NotAwaitingResponse)
    );
    assert_eq!(request.state(), PairingRequestState::RequestCreated);

    assert_eq!(
        request.mark_request_sent(at(2)),
        PairingRequestEvent::AwaitingResponse
    );

    // The early acceptance was not buffered: the attempt still waits, and it
    // is the next properly ordered response that decides the outcome. Here a
    // rejection wins, proving the earlier acceptance was discarded.
    assert_eq!(request.check_deadline(at(3)), PairingRequestEvent::Pending);
    assert_eq!(
        request.handle_remote_message(
            &PairingMessage::rejected(id(1), PairingRejectionReason::Declined).encode(),
            at(4),
        ),
        PairingRequestEvent::Rejected(PairingRejectionReason::Declined)
    );
    assert_eq!(
        request.state(),
        PairingRequestState::Rejected(PairingRejectionReason::Declined)
    );
}

#[test]
fn a_properly_ordered_response_still_succeeds_after_an_early_response() {
    let mut request = initiated();
    let _ = request.handle_remote_message(&PairingMessage::accepted(id(1)).encode(), at(1));
    assert_eq!(
        request.mark_request_sent(at(2)),
        PairingRequestEvent::AwaitingResponse
    );

    assert_eq!(
        request.handle_remote_message(&PairingMessage::accepted(id(1)).encode(), at(3)),
        PairingRequestEvent::ReadyForNextPairingStage
    );
}

#[test]
fn a_request_role_message_received_by_the_initiator_fails_closed() {
    let mut request = awaiting();

    assert_eq!(
        request.handle_remote_message(&PairingMessage::request(id(1)).encode(), at(1)),
        PairingRequestEvent::Failed(PairingRequestFailure::UnexpectedMessage)
    );
    assert_eq!(
        request.state(),
        PairingRequestState::Failed(PairingRequestFailure::UnexpectedMessage)
    );
}

#[test]
fn a_response_for_a_different_attempt_is_ignored_without_disturbing_the_attempt() {
    let mut request = awaiting();

    assert_eq!(
        request.handle_remote_message(&PairingMessage::accepted(id(2)).encode(), at(1)),
        PairingRequestEvent::Ignored(PairingRequestIgnored::AttemptIdMismatch)
    );
    assert_eq!(request.state(), PairingRequestState::AwaitingRemoteResponse);

    assert_eq!(
        request.handle_remote_message(&PairingMessage::accepted(id(1)).encode(), at(2)),
        PairingRequestEvent::ReadyForNextPairingStage
    );
}

#[test]
fn duplicate_and_conflicting_responses_after_resolution_are_ignored() {
    let mut request = awaiting();
    let _ = request.handle_remote_message(&PairingMessage::accepted(id(1)).encode(), at(1));

    for message in [
        PairingMessage::accepted(id(1)),
        PairingMessage::rejected(id(1), PairingRejectionReason::Declined),
    ] {
        assert_eq!(
            request.handle_remote_message(&message.encode(), at(2)),
            PairingRequestEvent::Ignored(PairingRequestIgnored::AlreadyResolved)
        );
    }
    assert_eq!(
        request.state(),
        PairingRequestState::ReadyForNextPairingStage
    );
}

#[test]
fn messages_round_trip_through_their_bounded_encoding() {
    let cases = [
        PairingMessage::request(id(3)),
        PairingMessage::accepted(id(3)),
        PairingMessage::rejected(id(3), PairingRejectionReason::Unspecified),
        PairingMessage::rejected(id(3), PairingRejectionReason::Busy),
        PairingMessage::rejected(id(3), PairingRejectionReason::Declined),
    ];

    for message in cases {
        let encoded = message.encode();
        assert!(encoded.len() <= MAX_PAIRING_MESSAGE_BYTES);
        assert_eq!(encoded[VERSION_OFFSET], PAIRING_PROTOCOL_VERSION);

        let decoded = PairingMessage::decode(&encoded).unwrap();
        assert_eq!(decoded, message);
        assert_eq!(decoded.attempt_id(), id(3));
    }
}

#[test]
fn decode_rejects_input_outside_the_length_bounds() {
    for len in [
        0_usize,
        1,
        BASE_MESSAGE_LEN - 1,
        MAX_PAIRING_MESSAGE_BYTES + 1,
        128,
    ] {
        let bytes = vec![PAIRING_PROTOCOL_VERSION; len];
        assert_eq!(
            PairingMessage::decode(&bytes).unwrap_err(),
            PairingMessageError::InvalidLength { len }
        );
    }
}

#[test]
fn decode_accepts_messages_at_the_exact_length_limits() {
    let request = PairingMessage::request(id(1)).encode();
    assert_eq!(request.len(), BASE_MESSAGE_LEN);
    assert!(PairingMessage::decode(&request).is_ok());

    let rejection = PairingMessage::rejected(id(1), PairingRejectionReason::Declined).encode();
    assert_eq!(rejection.len(), REJECTED_MESSAGE_LEN);
    assert_eq!(rejection.len(), MAX_PAIRING_MESSAGE_BYTES);
    assert!(PairingMessage::decode(&rejection).is_ok());
}

#[test]
fn decode_rejects_an_unsupported_protocol_version() {
    let mut bytes = PairingMessage::request(id(1)).encode();
    bytes[VERSION_OFFSET] = PAIRING_PROTOCOL_VERSION + 1;

    assert_eq!(
        PairingMessage::decode(&bytes).unwrap_err(),
        PairingMessageError::UnsupportedVersion {
            version: PAIRING_PROTOCOL_VERSION + 1
        }
    );
}

#[test]
fn decode_rejects_an_unknown_message_kind() {
    for kind in [0_u8, 4, 200] {
        let mut bytes = PairingMessage::request(id(1)).encode();
        bytes[KIND_OFFSET] = kind;

        assert_eq!(
            PairingMessage::decode(&bytes).unwrap_err(),
            PairingMessageError::UnknownMessageKind { kind }
        );
    }
}

#[test]
fn decode_rejects_an_unknown_rejection_reason() {
    let mut bytes = PairingMessage::rejected(id(1), PairingRejectionReason::Busy).encode();
    bytes[REASON_OFFSET] = 250;

    assert_eq!(
        PairingMessage::decode(&bytes).unwrap_err(),
        PairingMessageError::UnknownRejectionReason { reason: 250 }
    );
}

#[test]
fn decode_rejects_a_length_that_disagrees_with_the_message_kind() {
    let mut long_request = PairingMessage::request(id(1)).encode();
    long_request.push(0);
    assert_eq!(
        PairingMessage::decode(&long_request).unwrap_err(),
        PairingMessageError::LengthKindMismatch {
            kind: KIND_REQUEST,
            len: REJECTED_MESSAGE_LEN,
        }
    );

    let full = PairingMessage::rejected(id(1), PairingRejectionReason::Busy).encode();
    assert_eq!(
        PairingMessage::decode(&full[..BASE_MESSAGE_LEN]).unwrap_err(),
        PairingMessageError::LengthKindMismatch {
            kind: KIND_REQUEST_REJECTED,
            len: BASE_MESSAGE_LEN,
        }
    );
}

#[test]
fn a_malformed_remote_message_fails_the_attempt_closed() {
    let mut request = awaiting();

    assert_eq!(
        request.handle_remote_message(&[0xff, 0xff, 0xff], at(1)),
        PairingRequestEvent::Failed(PairingRequestFailure::Protocol(
            PairingMessageError::InvalidLength { len: 3 }
        ))
    );
    assert!(request.is_terminal());
}

#[test]
fn an_unsupported_version_from_the_remote_fails_the_attempt_closed() {
    let mut request = awaiting();
    let mut bytes = PairingMessage::accepted(id(1)).encode();
    bytes[VERSION_OFFSET] = 9;

    assert_eq!(
        request.handle_remote_message(&bytes, at(1)),
        PairingRequestEvent::Failed(PairingRequestFailure::Protocol(
            PairingMessageError::UnsupportedVersion { version: 9 }
        ))
    );
}

#[test]
fn the_success_terminal_carries_no_peer_key_or_record_data() {
    // The trust boundary is enforced by the API shape, the fields the type
    // owns (a correlation id, a deadline, a state discriminant), the absence
    // of any persistence, crypto, or discovery dependency, and the behaviour
    // below -- not by any size or reflection trick.
    let mut request = awaiting();
    let _ = request.handle_remote_message(&PairingMessage::accepted(id(1)).encode(), at(1));

    // The strongest positive signal the phase can give is a unit variant.
    // There is no `is_trusted`/`is_authenticated`/`is_verified` accessor and
    // no payload to carry a peer, key, fingerprint, or record.
    assert_eq!(
        request.state(),
        PairingRequestState::ReadyForNextPairingStage
    );
    assert!(request.is_ready_for_next_pairing_stage());

    // Reaching success starts nothing else: the attempt just sits terminal
    // and every further input is an ignored no-op.
    assert_eq!(
        request.mark_request_sent(at(2)),
        PairingRequestEvent::Ignored(PairingRequestIgnored::AlreadyResolved)
    );
    assert_eq!(
        request.handle_remote_message(&PairingMessage::accepted(id(1)).encode(), at(3)),
        PairingRequestEvent::Ignored(PairingRequestIgnored::AlreadyResolved)
    );
    assert_eq!(request.request_message(at(4)), None);
}

#[test]
fn failure_categories_expose_their_typed_source() {
    let failure =
        PairingRequestFailure::Protocol(PairingMessageError::UnsupportedVersion { version: 2 });
    assert!(failure.source().is_some());
    assert!(PairingRequestFailure::TransportFailure.source().is_none());
    assert!(!failure.message().is_empty());
}

// ----- responder side -----

fn request_bytes(attempt: u8) -> Vec<u8> {
    PairingMessage::request(id(attempt)).encode()
}

fn presented() -> PairingResponse {
    let responder = PairingResponse::from_request(&request_bytes(1), at(30)).unwrap();
    assert_eq!(responder.state(), PairingResponseState::AwaitingDecision);
    responder
}

fn decoded_reply(event: &PairingResponseEvent) -> PairingMessage {
    let bytes = match event {
        PairingResponseEvent::Accepted(bytes) | PairingResponseEvent::Rejected(bytes) => bytes,
        other => panic!("expected a reply-bearing event, got {other:?}"),
    };
    assert!(bytes.len() <= MAX_PAIRING_MESSAGE_BYTES);
    PairingMessage::decode(bytes).unwrap()
}

#[test]
fn a_valid_request_creates_the_presentation_state_and_nothing_more() {
    let responder = presented();

    assert_eq!(responder.attempt_id(), id(1));
    assert_eq!(responder.state(), PairingResponseState::AwaitingDecision);
    assert!(!responder.is_terminal());
    assert!(!responder.is_ready_for_next_pairing_stage());
    // No automatic acceptance: presentation requires an explicit local
    // decision, and there is no trusted/authenticated/verified accessor.
}

#[test]
fn the_responder_starts_only_from_a_request_message() {
    // A reply message cannot begin responder state.
    for reply in [
        PairingMessage::accepted(id(1)).encode(),
        PairingMessage::rejected(id(1), PairingRejectionReason::Busy).encode(),
    ] {
        assert_eq!(
            PairingResponse::from_request(&reply, at(30)).unwrap_err(),
            PairingResponseError::NotARequest
        );
    }
}

#[test]
fn malformed_oversized_and_unsupported_request_bytes_cannot_create_state() {
    // Out of length bounds.
    for bytes in [
        vec![],
        vec![1_u8; 3],
        vec![1_u8; MAX_PAIRING_MESSAGE_BYTES + 1],
    ] {
        assert!(matches!(
            PairingResponse::from_request(&bytes, at(30)).unwrap_err(),
            PairingResponseError::Protocol(_)
        ));
    }

    // Unsupported version.
    let mut wrong_version = request_bytes(1);
    wrong_version[VERSION_OFFSET] = PAIRING_PROTOCOL_VERSION + 1;
    assert_eq!(
        PairingResponse::from_request(&wrong_version, at(30)).unwrap_err(),
        PairingResponseError::Protocol(PairingMessageError::UnsupportedVersion {
            version: PAIRING_PROTOCOL_VERSION + 1
        })
    );

    // Unknown kind.
    let mut wrong_kind = request_bytes(1);
    wrong_kind[KIND_OFFSET] = 0;
    assert_eq!(
        PairingResponse::from_request(&wrong_kind, at(30)).unwrap_err(),
        PairingResponseError::Protocol(PairingMessageError::UnknownMessageKind { kind: 0 })
    );
}

#[test]
fn explicit_acceptance_reaches_readiness_only_after_a_successful_local_send() {
    let mut responder = presented();

    // Local accept alone is not readiness: it produces the reply and waits
    // for a successful local transport send.
    let event = responder.accept(at(5));
    assert_eq!(
        decoded_reply(&event),
        PairingMessage::accepted(id(1)),
        "the acceptance reply echoes the request attempt id"
    );
    assert_eq!(
        responder.state(),
        PairingResponseState::AcceptedAwaitingSend
    );
    assert!(!responder.is_terminal());
    assert!(!responder.is_ready_for_next_pairing_stage());

    // Readiness requires the explicit successful-local-send notification.
    assert_eq!(
        responder.mark_reply_sent(at(6)),
        PairingResponseEvent::ReadyForNextPairingStage
    );
    assert_eq!(
        responder.state(),
        PairingResponseState::ReadyForNextPairingStage
    );
    assert!(responder.is_ready_for_next_pairing_stage());
    assert!(responder.is_terminal());
    // ReadyForNextPairingStage carries no payload: no trusted record, key,
    // fingerprint, or remote-delivery acknowledgement. It is only permission
    // for this side to proceed to the authenticated stage; the initiator may
    // never have received the reply, in which case later stages fail or time
    // out safely.
}

#[test]
fn explicit_rejection_produces_the_reply_and_is_immediately_terminal() {
    for reason in [
        PairingRejectionReason::Unspecified,
        PairingRejectionReason::Busy,
        PairingRejectionReason::Declined,
    ] {
        let mut responder = presented();

        let event = responder.reject(reason, at(5));
        assert_eq!(
            decoded_reply(&event),
            PairingMessage::rejected(id(1), reason),
            "the rejection reply echoes the request attempt id and carries the typed reason"
        );
        assert_eq!(responder.state(), PairingResponseState::Rejected(reason));
        assert!(responder.is_terminal());
        assert!(!responder.is_ready_for_next_pairing_stage());
    }
}

#[test]
fn there_is_no_automatic_acceptance_from_presentation_or_time() {
    let mut responder = presented();

    // Merely checking the deadline never accepts.
    assert_eq!(
        responder.check_deadline(at(1)),
        PairingResponseEvent::Pending
    );
    assert_eq!(
        responder.check_deadline(at(29)),
        PairingResponseEvent::Pending
    );
    assert_eq!(responder.state(), PairingResponseState::AwaitingDecision);
    assert!(!responder.is_ready_for_next_pairing_stage());
}

#[test]
fn the_responder_never_mints_a_replacement_attempt_id() {
    let mut accepting = PairingResponse::from_request(&request_bytes(9), at(30)).unwrap();
    let mut rejecting = PairingResponse::from_request(&request_bytes(9), at(30)).unwrap();

    assert_eq!(accepting.attempt_id(), id(9));
    assert_eq!(decoded_reply(&accepting.accept(at(1))).attempt_id(), id(9));
    assert_eq!(
        decoded_reply(&rejecting.reject(PairingRejectionReason::Declined, at(1))).attempt_id(),
        id(9)
    );
}

#[test]
fn the_responder_deadline_is_evaluated_only_against_caller_supplied_time() {
    let mut responder = presented();

    assert_eq!(
        responder.check_deadline(at(29)),
        PairingResponseEvent::Pending
    );
    assert_eq!(responder.state(), PairingResponseState::AwaitingDecision);

    assert_eq!(
        responder.check_deadline(at(30)),
        PairingResponseEvent::TimedOut
    );
    assert_eq!(responder.state(), PairingResponseState::TimedOut);

    for now in [at(31), at(1)] {
        assert_eq!(
            responder.check_deadline(now),
            PairingResponseEvent::Ignored(PairingResponseIgnored::AlreadyResolved)
        );
    }
}

#[test]
fn acceptance_at_or_after_the_deadline_times_out_instead_of_accepting() {
    let mut responder = presented();

    assert_eq!(responder.accept(at(30)), PairingResponseEvent::TimedOut);
    assert_eq!(responder.state(), PairingResponseState::TimedOut);
    assert_eq!(
        responder.accept(at(31)),
        PairingResponseEvent::Ignored(PairingResponseIgnored::AlreadyResolved)
    );
}

#[test]
fn a_reply_cannot_be_marked_sent_once_the_deadline_has_passed() {
    let mut responder = presented();
    assert!(matches!(
        responder.accept(at(5)),
        PairingResponseEvent::Accepted(_)
    ));

    assert_eq!(
        responder.mark_reply_sent(at(30)),
        PairingResponseEvent::TimedOut
    );
    assert_eq!(responder.state(), PairingResponseState::TimedOut);
}

#[test]
fn rejection_after_the_deadline_times_out() {
    let mut responder = presented();
    assert_eq!(
        responder.reject(PairingRejectionReason::Declined, at(30)),
        PairingResponseEvent::TimedOut
    );
    assert_eq!(responder.state(), PairingResponseState::TimedOut);
}

#[test]
fn cancellation_ends_the_attempt_and_blocks_any_later_decision() {
    // From the presentation state.
    let mut from_presentation = presented();
    assert_eq!(from_presentation.cancel(), PairingResponseEvent::Cancelled);
    assert_eq!(from_presentation.state(), PairingResponseState::Cancelled);

    // From after acceptance but before the reply's local send (an interruption).
    let mut after_accept = presented();
    let _ = after_accept.accept(at(1));
    assert_eq!(after_accept.cancel(), PairingResponseEvent::Cancelled);
    assert_eq!(after_accept.state(), PairingResponseState::Cancelled);

    // No later decision can revive either.
    for mut responder in [from_presentation, after_accept] {
        assert_eq!(
            responder.cancel(),
            PairingResponseEvent::Ignored(PairingResponseIgnored::AlreadyResolved)
        );
        assert_eq!(
            responder.accept(at(2)),
            PairingResponseEvent::Ignored(PairingResponseIgnored::AlreadyResolved)
        );
        assert_eq!(
            responder.reject(PairingRejectionReason::Busy, at(2)),
            PairingResponseEvent::Ignored(PairingResponseIgnored::AlreadyResolved)
        );
        assert_eq!(
            responder.mark_reply_sent(at(2)),
            PairingResponseEvent::Ignored(PairingResponseIgnored::AlreadyResolved)
        );
    }
}

#[test]
fn a_transport_failure_fails_the_responder_attempt_closed() {
    let mut responder = presented();
    let _ = responder.accept(at(1));

    assert_eq!(
        responder.note_transport_failure(),
        PairingResponseEvent::Failed
    );
    assert!(responder.is_terminal());
    assert!(!responder.is_ready_for_next_pairing_stage());
    assert_eq!(
        responder.mark_reply_sent(at(2)),
        PairingResponseEvent::Ignored(PairingResponseIgnored::AlreadyResolved)
    );
}

#[test]
fn duplicate_and_conflicting_local_decisions_are_deterministic_no_ops() {
    // Accept twice: the second accept does not re-emit a reply.
    let mut accept_twice = presented();
    assert!(matches!(
        accept_twice.accept(at(1)),
        PairingResponseEvent::Accepted(_)
    ));
    assert_eq!(
        accept_twice.accept(at(1)),
        PairingResponseEvent::Ignored(PairingResponseIgnored::DecisionAlreadyMade)
    );
    assert_eq!(
        accept_twice.state(),
        PairingResponseState::AcceptedAwaitingSend
    );

    // Reject after accept: the acceptance stands.
    assert_eq!(
        accept_twice.reject(PairingRejectionReason::Declined, at(1)),
        PairingResponseEvent::Ignored(PairingResponseIgnored::DecisionAlreadyMade)
    );
    assert_eq!(
        accept_twice.state(),
        PairingResponseState::AcceptedAwaitingSend
    );

    // Reject twice, then accept after reject.
    let mut reject_twice = presented();
    assert!(matches!(
        reject_twice.reject(PairingRejectionReason::Busy, at(1)),
        PairingResponseEvent::Rejected(_)
    ));
    assert_eq!(
        reject_twice.reject(PairingRejectionReason::Busy, at(1)),
        PairingResponseEvent::Ignored(PairingResponseIgnored::AlreadyResolved)
    );
    assert_eq!(
        reject_twice.accept(at(1)),
        PairingResponseEvent::Ignored(PairingResponseIgnored::AlreadyResolved)
    );
    assert_eq!(
        reject_twice.state(),
        PairingResponseState::Rejected(PairingRejectionReason::Busy)
    );
}

#[test]
fn marking_a_reply_sent_before_acceptance_is_a_no_op() {
    let mut responder = presented();
    assert_eq!(
        responder.mark_reply_sent(at(1)),
        PairingResponseEvent::Ignored(PairingResponseIgnored::NoAcceptedReply)
    );
    assert_eq!(responder.state(), PairingResponseState::AwaitingDecision);
}

#[test]
fn readiness_is_absorbing_and_carries_no_trust_payload() {
    let mut responder = presented();
    let _ = responder.accept(at(1));
    assert_eq!(
        responder.mark_reply_sent(at(2)),
        PairingResponseEvent::ReadyForNextPairingStage
    );

    // The success terminal is a unit variant. Every later input is a no-op.
    for event in [
        responder.accept(at(3)),
        responder.reject(PairingRejectionReason::Declined, at(3)),
        responder.mark_reply_sent(at(3)),
        responder.cancel(),
        responder.note_transport_failure(),
        responder.check_deadline(at(3)),
    ] {
        assert_eq!(
            event,
            PairingResponseEvent::Ignored(PairingResponseIgnored::AlreadyResolved)
        );
    }
    assert_eq!(
        responder.state(),
        PairingResponseState::ReadyForNextPairingStage
    );
}

#[test]
fn a_responder_retry_requires_a_fresh_request_and_a_new_decision() {
    let mut done = presented();
    assert!(matches!(
        done.reject(PairingRejectionReason::Declined, at(1)),
        PairingResponseEvent::Rejected(_)
    ));
    assert!(done.is_terminal());

    // A retry is a brand-new responder object built from a fresh incoming
    // request. It shares no state and needs its own explicit decision.
    let fresh = PairingResponse::from_request(&request_bytes(2), at(60)).unwrap();
    assert_eq!(fresh.state(), PairingResponseState::AwaitingDecision);
    assert!(!fresh.is_terminal());

    // The old object stays terminal forever.
    assert_eq!(
        done.accept(at(2)),
        PairingResponseEvent::Ignored(PairingResponseIgnored::AlreadyResolved)
    );
    assert_eq!(
        done.state(),
        PairingResponseState::Rejected(PairingRejectionReason::Declined)
    );
    assert_eq!(fresh.state(), PairingResponseState::AwaitingDecision);
}

#[test]
fn receiving_a_request_and_accepting_it_are_both_distinct_from_trust() {
    // Receiving: presentation state only, no trust signal.
    let mut responder = presented();
    assert!(!responder.is_ready_for_next_pairing_stage());

    // Accepting: local willingness only. Still not ready, not terminal, and
    // the reply has not been sent.
    let _ = responder.accept(at(1));
    assert!(!responder.is_ready_for_next_pairing_stage());
    assert!(!responder.is_terminal());

    // Success: only readiness for the authenticated stage. The strongest
    // positive signal is a bool from a unit state; the type has no
    // fingerprint, key, verified name, trusted-peer record, or remote-
    // delivery acknowledgement, and no accessor that could expose one.
    let _ = responder.mark_reply_sent(at(2));
    assert!(responder.is_ready_for_next_pairing_stage());
}

#[test]
fn a_timeout_before_the_successful_send_notification_prevents_readiness() {
    let mut responder = presented();
    let _ = responder.accept(at(1));

    // The deadline passes while the caller is still trying to send the reply.
    assert_eq!(
        responder.check_deadline(at(30)),
        PairingResponseEvent::TimedOut
    );
    assert_eq!(responder.state(), PairingResponseState::TimedOut);
    assert!(!responder.is_ready_for_next_pairing_stage());

    // A later successful-send notification cannot revive it.
    assert_eq!(
        responder.mark_reply_sent(at(31)),
        PairingResponseEvent::Ignored(PairingResponseIgnored::AlreadyResolved)
    );
    assert!(!responder.is_ready_for_next_pairing_stage());
}

#[test]
fn responder_error_categories_expose_their_typed_source() {
    let protocol =
        PairingResponseError::Protocol(PairingMessageError::InvalidLength { len: 0 });
    assert!(protocol.source().is_some());
    assert!(!protocol.message().is_empty());
    assert!(PairingResponseError::NotARequest.source().is_none());
}
