//! Pairing-request phase: initiator and responder.
//!
//! This module implements only the first phase of a pairing attempt, an explicit,
//! local decision to begin pairing between two currently untrusted devices, as two
//! deterministic state machines that share one small bounded wire message family:
//!
//! - [`PairingRequest`]: the initiator asks a device to begin pairing.
//! - [`PairingResponse`]: the responder presents an incoming request for an
//!   explicit local decision and emits the accept or reject reply.
//!
//! Reaching either machine's successful terminal state means only that this side
//! finished its local request-phase work and the attempt may proceed to the next,
//! authenticated pairing stage. It never means the remote device is trusted,
//! authenticated, verified, or authorized for any transfer. Nothing here is
//! persisted, and no cryptography is performed.
//!
//! Both machines read no clock: callers supply monotonic durations and an explicit
//! deadline. Neither retries on its own. A retry is a brand-new state-machine
//! object that shares no state with the previous attempt.

use vstd::prelude::*;

use crate::text;
use crate::text::decimal_text;
use crate::time::Duration;
use crate::uuids;
use crate::uuids::{hyphenated_text, random_uuid};

verus! {

/// The pairing-request protocol version implemented by this release.
pub const PAIRING_PROTOCOL_VERSION: u8 = 1;

/// The size of a message without a reason: version, kind and attempt identifier.
pub const BASE_MESSAGE_LEN: usize = 18;

/// The size of a rejection, which carries a reason.
pub const REJECTED_MESSAGE_LEN: usize = 19;

/// The maximum encoded size, in bytes, of any pairing-request-phase message.
///
/// A decoder must reject anything longer before inspecting it.
pub const MAX_PAIRING_MESSAGE_BYTES: usize = 19;

/// The kind of a request.
pub const KIND_REQUEST: u8 = 1;

/// The kind of an acceptance.
pub const KIND_REQUEST_ACCEPTED: u8 = 2;

/// The kind of a rejection.
pub const KIND_REQUEST_REJECTED: u8 = 3;

/// A bounded, non-cryptographic token that correlates the messages of one
/// transient pairing attempt.
///
/// It is never persisted and is never a peer identity, a credential, proof of
/// possession, or a trust anchor. Anyone who observes the pairing request can
/// copy it, so it provides message correlation only, not authentication. Its view
/// is its sixteen bytes.
#[derive(Clone, Copy, Debug, Hash)]
pub struct PairingAttemptId {
    bytes: [u8; 16],
}

impl View for PairingAttemptId {
    type V = Seq<u8>;

    closed spec fn view(&self) -> Seq<u8> {
        self.bytes@
    }
}

impl PartialEq for PairingAttemptId {
    fn eq(&self, other: &Self) -> (r: bool) {
        let mut i: usize = 0;
        while i < 16
            invariant
                i <= 16,
                forall|j: int| 0 <= j < i ==> self.bytes@[j] == other.bytes@[j],
            decreases 16 - i,
        {
            if self.bytes[i] != other.bytes[i] {
                assert(self@[i as int] != other@[i as int]);
                return false;
            }
            i = i + 1;
        }
        assert(self@ =~= other@);
        true
    }
}

impl vstd::std_specs::cmp::PartialEqSpecImpl for PairingAttemptId {
    open spec fn obeys_eq_spec() -> bool {
        true
    }

    open spec fn eq_spec(&self, other: &Self) -> bool {
        self@ == other@
    }
}

impl Eq for PairingAttemptId {

}

impl PairingAttemptId {
    /// Generates a fresh attempt identifier from operating-system randomness: the
    /// bytes of a random UUID, so its version is always 4.
    fn generate() -> (r: Self)
        ensures
            r@.len() == 16,
            uuids::uuid_version(r@) == 4,
            0x80 <= r@[8] <= 0xbf,
    {
        PairingAttemptId { bytes: random_uuid() }
    }

    /// Reconstructs an attempt identifier from its 16-byte wire form.
    ///
    /// Every 16-byte value is accepted: the identifier is only ever compared for
    /// equality to correlate messages within one attempt.
    #[must_use]
    pub fn from_bytes(bytes: [u8; 16]) -> (r: Self)
        ensures
            r@ == bytes@,
    {
        PairingAttemptId { bytes }
    }

    /// Returns the fixed 16-byte wire form.
    #[must_use]
    pub fn to_bytes(self) -> (r: [u8; 16])
        ensures
            r@ == self@,
            self@.len() == 16,
    {
        self.bytes
    }

    /// Writes the identifier as a hyphenated UUID.
    pub fn to_text(&self) -> (s: String)
        ensures
            s@ == uuids::hyphenated(self@),
            self@.len() == 16,
    {
        hyphenated_text(self.bytes)
    }
}

/// A bounded, protocol-defined reason a remote device declined a pairing request.
///
/// The set is deliberately small and closed. There is no free-form text.
#[derive(Clone, Copy, Debug, PartialEq, Eq, Structural)]
pub enum PairingRejectionReason {
    /// No specific reason was provided.
    Unspecified,
    /// The remote device is busy with another pairing or transfer.
    Busy,
    /// A person on the remote device declined the request.
    Declined,
}

impl PairingRejectionReason {
    /// The stable lowercase representation.
    pub open spec fn text(self) -> Seq<char> {
        match self {
            PairingRejectionReason::Unspecified => "unspecified"@,
            PairingRejectionReason::Busy => "busy"@,
            PairingRejectionReason::Declined => "declined"@,
        }
    }

    /// The wire discriminant.
    pub open spec fn wire(self) -> u8 {
        match self {
            PairingRejectionReason::Unspecified => 0,
            PairingRejectionReason::Busy => 1,
            PairingRejectionReason::Declined => 2,
        }
    }

    /// Returns the stable lowercase representation for diagnostics.
    #[must_use]
    pub fn as_str(self) -> (s: &'static str)
        ensures
            s@ == self.text(),
    {
        match self {
            PairingRejectionReason::Unspecified => "unspecified",
            PairingRejectionReason::Busy => "busy",
            PairingRejectionReason::Declined => "declined",
        }
    }

    /// Returns the wire discriminant.
    fn to_wire(self) -> (r: u8)
        ensures
            r == self.wire(),
    {
        match self {
            PairingRejectionReason::Unspecified => 0,
            PairingRejectionReason::Busy => 1,
            PairingRejectionReason::Declined => 2,
        }
    }

    /// Reads a wire discriminant.
    fn from_wire(value: u8) -> (r: Option<Self>)
        ensures
            r == reason_of(value),
    {
        if value == 0 {
            Some(PairingRejectionReason::Unspecified)
        } else if value == 1 {
            Some(PairingRejectionReason::Busy)
        } else if value == 2 {
            Some(PairingRejectionReason::Declined)
        } else {
            None
        }
    }
}

/// The reason that a wire discriminant stands for.
pub open spec fn reason_of(value: u8) -> Option<PairingRejectionReason> {
    if value == 0 {
        Some(PairingRejectionReason::Unspecified)
    } else if value == 1 {
        Some(PairingRejectionReason::Busy)
    } else if value == 2 {
        Some(PairingRejectionReason::Declined)
    } else {
        None
    }
}

/// One bounded pairing-request-phase message.
///
/// Every message carries an explicit one-byte protocol version and the 16-byte
/// attempt identifier. These are the only messages this phase defines.
#[derive(Clone, Copy, Debug, PartialEq, Eq)]
pub enum PairingMessage {
    /// Initiator to responder: a request to begin pairing.
    Request {
        /// The initiator's attempt correlation identifier.
        attempt_id: PairingAttemptId,
    },
    /// Responder to initiator: the request may proceed to the authenticated stage.
    RequestAccepted {
        /// The attempt correlation identifier echoed from the request.
        attempt_id: PairingAttemptId,
    },
    /// Responder to initiator: the request is refused.
    RequestRejected {
        /// The attempt correlation identifier echoed from the request.
        attempt_id: PairingAttemptId,
        /// The bounded, protocol-defined reason.
        reason: PairingRejectionReason,
    },
}

/// The contents of a message.
pub enum MessageModel {
    /// A request to begin pairing.
    Request(Seq<u8>),
    /// The request may proceed.
    RequestAccepted(Seq<u8>),
    /// The request is refused.
    RequestRejected(Seq<u8>, PairingRejectionReason),
}

impl MessageModel {
    /// The attempt identifier that the message correlates to.
    pub open spec fn attempt_id(self) -> Seq<u8> {
        match self {
            MessageModel::Request(id) => id,
            MessageModel::RequestAccepted(id) => id,
            MessageModel::RequestRejected(id, _) => id,
        }
    }
}

impl View for PairingMessage {
    type V = MessageModel;

    open spec fn view(&self) -> MessageModel {
        match *self {
            PairingMessage::Request { attempt_id } => MessageModel::Request(attempt_id@),
            PairingMessage::RequestAccepted { attempt_id } => MessageModel::RequestAccepted(
                attempt_id@,
            ),
            PairingMessage::RequestRejected { attempt_id, reason } => MessageModel::RequestRejected(
                attempt_id@,
                reason,
            ),
        }
    }
}

/// The wire form of a message: version, kind, attempt identifier, and the reason of
/// a rejection.
pub open spec fn encoded(message: MessageModel) -> Seq<u8> {
    match message {
        MessageModel::Request(id) => seq![PAIRING_PROTOCOL_VERSION, KIND_REQUEST] + id,
        MessageModel::RequestAccepted(id) => seq![PAIRING_PROTOCOL_VERSION, KIND_REQUEST_ACCEPTED]
            + id,
        MessageModel::RequestRejected(id, reason) => seq![
            PAIRING_PROTOCOL_VERSION,
            KIND_REQUEST_REJECTED,
        ] + id + seq![reason.wire()],
    }
}

/// The message that bytes encode, or the first reason for which they encode none.
pub open spec fn decoded(bytes: Seq<u8>) -> Result<MessageModel, PairingMessageError> {
    if bytes.len() < BASE_MESSAGE_LEN || bytes.len() > MAX_PAIRING_MESSAGE_BYTES {
        Err(PairingMessageError::InvalidLength { len: bytes.len() as usize })
    } else if bytes[0] != PAIRING_PROTOCOL_VERSION {
        Err(PairingMessageError::UnsupportedVersion { version: bytes[0] })
    } else {
        let kind = bytes[1];
        let id = bytes.subrange(2, 18);
        if kind == KIND_REQUEST {
            if bytes.len() == BASE_MESSAGE_LEN {
                Ok(MessageModel::Request(id))
            } else {
                Err(PairingMessageError::LengthKindMismatch { kind, len: bytes.len() as usize })
            }
        } else if kind == KIND_REQUEST_ACCEPTED {
            if bytes.len() == BASE_MESSAGE_LEN {
                Ok(MessageModel::RequestAccepted(id))
            } else {
                Err(PairingMessageError::LengthKindMismatch { kind, len: bytes.len() as usize })
            }
        } else if kind == KIND_REQUEST_REJECTED {
            if bytes.len() == REJECTED_MESSAGE_LEN {
                match reason_of(bytes[18]) {
                    Some(reason) => Ok(MessageModel::RequestRejected(id, reason)),
                    None => Err(PairingMessageError::UnknownRejectionReason { reason: bytes[18] }),
                }
            } else {
                Err(PairingMessageError::LengthKindMismatch { kind, len: bytes.len() as usize })
            }
        } else {
            Err(PairingMessageError::UnknownMessageKind { kind })
        }
    }
}

impl PairingMessage {
    /// Builds a pairing request (initiator to responder).
    #[must_use]
    pub fn request(attempt_id: PairingAttemptId) -> (r: Self)
        ensures
            r@ == MessageModel::Request(attempt_id@),
    {
        PairingMessage::Request { attempt_id }
    }

    /// Builds a request-accepted reply (responder to initiator).
    #[must_use]
    pub fn accepted(attempt_id: PairingAttemptId) -> (r: Self)
        ensures
            r@ == MessageModel::RequestAccepted(attempt_id@),
    {
        PairingMessage::RequestAccepted { attempt_id }
    }

    /// Builds a request-rejected reply (responder to initiator).
    #[must_use]
    pub fn rejected(attempt_id: PairingAttemptId, reason: PairingRejectionReason) -> (r: Self)
        ensures
            r@ == MessageModel::RequestRejected(attempt_id@, reason),
    {
        PairingMessage::RequestRejected { attempt_id, reason }
    }

    /// Returns the attempt identifier this message correlates to.
    #[must_use]
    pub fn attempt_id(&self) -> (r: PairingAttemptId)
        ensures
            r@ == self@.attempt_id(),
    {
        match self {
            PairingMessage::Request { attempt_id } => *attempt_id,
            PairingMessage::RequestAccepted { attempt_id } => *attempt_id,
            PairingMessage::RequestRejected { attempt_id, .. } => *attempt_id,
        }
    }

    /// Encodes the message into its bounded wire form.
    #[must_use]
    pub fn encode(&self) -> (r: Vec<u8>)
        ensures
            r@ == encoded(self@),
            r@.len() <= MAX_PAIRING_MESSAGE_BYTES,
    {
        let kind: u8 = match self {
            PairingMessage::Request { .. } => KIND_REQUEST,
            PairingMessage::RequestAccepted { .. } => KIND_REQUEST_ACCEPTED,
            PairingMessage::RequestRejected { .. } => KIND_REQUEST_REJECTED,
        };
        let mut out: Vec<u8> = Vec::with_capacity(MAX_PAIRING_MESSAGE_BYTES);
        out.push(PAIRING_PROTOCOL_VERSION);
        out.push(kind);
        let id = self.attempt_id().to_bytes();
        let mut i: usize = 0;
        while i < 16
            invariant
                i <= 16,
                id@ == self@.attempt_id(),
                out@ == seq![PAIRING_PROTOCOL_VERSION, kind] + id@.take(i as int),
            decreases 16 - i,
        {
            out.push(id[i]);
            assert(id@.take(i + 1) =~= id@.take(i as int).push(id@[i as int]));
            i = i + 1;
        }
        assert(id@.take(16) =~= id@);
        if let PairingMessage::RequestRejected { reason, .. } = self {
            out.push(reason.to_wire());
        }
        assert(out@ =~= encoded(self@));
        out
    }

    /// Decodes bounded untrusted bytes into a pairing message.
    ///
    /// Length, protocol version, message kind, per-kind length, and any reason
    /// discriminant are all validated before a value is returned. Oversized,
    /// truncated, unsupported, or otherwise malformed input is rejected with a
    /// typed error that reveals only message structure.
    pub fn decode(bytes: &[u8]) -> (r: Result<Self, PairingMessageError>)
        ensures
            match decoded(bytes@) {
                Ok(message) => r is Ok && r->Ok_0@ == message,
                Err(error) => r == Err::<Self, PairingMessageError>(error),
            },
    {
        if bytes.len() < BASE_MESSAGE_LEN || bytes.len() > MAX_PAIRING_MESSAGE_BYTES {
            return Err(PairingMessageError::InvalidLength { len: bytes.len() });
        }
        let version: u8 = bytes[0];
        if version != PAIRING_PROTOCOL_VERSION {
            return Err(PairingMessageError::UnsupportedVersion { version });
        }
        let kind: u8 = bytes[1];
        let mut id: [u8; 16] = [0;16];
        let mut i: usize = 0;
        while i < 16
            invariant
                i <= 16,
                bytes@.len() >= 18,
                forall|j: int| 0 <= j < i ==> id@[j] == bytes@[j + 2],
            decreases 16 - i,
        {
            id[i] = bytes[i + 2];
            i = i + 1;
        }
        assert(id@ =~= bytes@.subrange(2, 18));
        let attempt_id = PairingAttemptId::from_bytes(id);
        if kind == KIND_REQUEST {
            match exact_len(bytes, BASE_MESSAGE_LEN, kind) {
                Ok(_) => Ok(PairingMessage::Request { attempt_id }),
                Err(error) => Err(error),
            }
        } else if kind == KIND_REQUEST_ACCEPTED {
            match exact_len(bytes, BASE_MESSAGE_LEN, kind) {
                Ok(_) => Ok(PairingMessage::RequestAccepted { attempt_id }),
                Err(error) => Err(error),
            }
        } else if kind == KIND_REQUEST_REJECTED {
            if let Err(error) = exact_len(bytes, REJECTED_MESSAGE_LEN, kind) {
                return Err(error);
            }
            let raw: u8 = bytes[18];
            match PairingRejectionReason::from_wire(raw) {
                Some(reason) => Ok(PairingMessage::RequestRejected { attempt_id, reason }),
                None => Err(PairingMessageError::UnknownRejectionReason { reason: raw }),
            }
        } else {
            Err(PairingMessageError::UnknownMessageKind { kind })
        }
    }
}

/// Holds a message to the length of its kind.
fn exact_len(bytes: &[u8], expected: usize, kind: u8) -> (r: Result<(), PairingMessageError>)
    ensures
        match r {
            Ok(_) => bytes@.len() == expected,
            Err(error) => bytes@.len() != expected && error
                == (PairingMessageError::LengthKindMismatch { kind, len: bytes@.len() as usize }),
        },
{
    if bytes.len() == expected {
        Ok(())
    } else {
        Err(PairingMessageError::LengthKindMismatch { kind, len: bytes.len() })
    }
}

/// A pairing-request-phase message is malformed or unsupported.
///
/// Values describe only message structure, never remote payload content.
#[derive(Clone, Copy, Debug, PartialEq, Eq, Structural)]
pub enum PairingMessageError {
    /// The encoded length is outside the range any valid message can occupy.
    InvalidLength {
        /// The rejected length.
        len: usize,
    },
    /// The message declares a protocol version this release does not implement.
    UnsupportedVersion {
        /// The unsupported version discriminant.
        version: u8,
    },
    /// The message-kind discriminant is not recognized.
    UnknownMessageKind {
        /// The unknown kind discriminant.
        kind: u8,
    },
    /// A rejection carries an unrecognized reason discriminant.
    UnknownRejectionReason {
        /// The unknown reason discriminant.
        reason: u8,
    },
    /// The encoded length is valid overall but wrong for the declared kind.
    LengthKindMismatch {
        /// The declared kind discriminant.
        kind: u8,
        /// The length that does not match that kind.
        len: usize,
    },
}

impl PairingMessageError {
    /// The description of the error.
    pub open spec fn text(self) -> Seq<char> {
        match self {
            PairingMessageError::InvalidLength { len } => "pairing message length "@
                + text::decimal(len as nat) + " is outside the valid range "@ + text::decimal(
                BASE_MESSAGE_LEN as nat,
            ) + "..="@ + text::decimal(MAX_PAIRING_MESSAGE_BYTES as nat),
            PairingMessageError::UnsupportedVersion { version } =>
                "unsupported pairing protocol version "@ + text::decimal(version as nat),
            PairingMessageError::UnknownMessageKind { kind } => "unknown pairing message kind "@
                + text::decimal(kind as nat),
            PairingMessageError::UnknownRejectionReason { reason } =>
                "unknown pairing rejection reason "@ + text::decimal(reason as nat),
            PairingMessageError::LengthKindMismatch { kind, len } => "pairing message kind "@
                + text::decimal(kind as nat) + " does not permit length "@ + text::decimal(
                len as nat,
            ),
        }
    }

    /// Describes the error.
    pub fn message(&self) -> (s: String)
        ensures
            s@ == self.text(),
    {
        match self {
            PairingMessageError::InvalidLength { len } => String::from_str(
                "pairing message length ",
            ).concat(decimal_text(*len as u64).as_str()).concat(
                " is outside the valid range ",
            ).concat(decimal_text(BASE_MESSAGE_LEN as u64).as_str()).concat("..=").concat(
                decimal_text(MAX_PAIRING_MESSAGE_BYTES as u64).as_str(),
            ),
            PairingMessageError::UnsupportedVersion { version } => String::from_str(
                "unsupported pairing protocol version ",
            ).concat(decimal_text(*version as u64).as_str()),
            PairingMessageError::UnknownMessageKind { kind } => String::from_str(
                "unknown pairing message kind ",
            ).concat(decimal_text(*kind as u64).as_str()),
            PairingMessageError::UnknownRejectionReason { reason } => String::from_str(
                "unknown pairing rejection reason ",
            ).concat(decimal_text(*reason as u64).as_str()),
            PairingMessageError::LengthKindMismatch { kind, len } => String::from_str(
                "pairing message kind ",
            ).concat(decimal_text(*kind as u64).as_str()).concat(
                " does not permit length ",
            ).concat(decimal_text(*len as u64).as_str()),
        }
    }
}

/// A message reads back from its wire form, which has the length of its kind.
pub proof fn message_round_trip(message: MessageModel)
    requires
        message.attempt_id().len() == 16,
    ensures
        decoded(encoded(message)) == Ok::<MessageModel, PairingMessageError>(message),
        encoded(message).len() == (if message is RequestRejected {
            REJECTED_MESSAGE_LEN
        } else {
            BASE_MESSAGE_LEN
        }),
{
    assert(encoded(message).subrange(2, 18) =~= message.attempt_id());
}

/// Bytes that are accepted are the one wire form of the message they encode.
pub proof fn accepted_bytes_are_canonical(bytes: Seq<u8>)
    requires
        decoded(bytes) is Ok,
    ensures
        encoded(decoded(bytes)->Ok_0) == bytes,
        decoded(bytes)->Ok_0.attempt_id().len() == 16,
{
    assert(encoded(decoded(bytes)->Ok_0) =~= bytes);
}

/// Why an initiator pairing attempt failed closed during the request phase.
#[derive(Clone, Copy, Debug, PartialEq, Eq, Structural)]
pub enum PairingRequestFailure {
    /// A remote message could not be decoded or was not supported.
    Protocol(PairingMessageError),
    /// A well-formed message arrived that the initiator must not act on in its
    /// current state, such as a request-role message.
    UnexpectedMessage,
    /// The caller reported that the pairing transport failed.
    TransportFailure,
}

impl PairingRequestFailure {
    /// The description of the failure.
    pub open spec fn text(self) -> Seq<char> {
        match self {
            PairingRequestFailure::Protocol(source) => "pairing request protocol failure: "@
                + source.text(),
            PairingRequestFailure::UnexpectedMessage =>
                "received a pairing message that is not valid for the initiator in this state"@,
            PairingRequestFailure::TransportFailure =>
                "the pairing transport failed during the request phase"@,
        }
    }

    /// Describes the failure.
    pub fn message(&self) -> (s: String)
        ensures
            s@ == self.text(),
    {
        match self {
            PairingRequestFailure::Protocol(source) => String::from_str(
                "pairing request protocol failure: ",
            ).concat(source.message().as_str()),
            PairingRequestFailure::UnexpectedMessage => String::from_str(
                "received a pairing message that is not valid for the initiator in this state",
            ),
            PairingRequestFailure::TransportFailure => String::from_str(
                "the pairing transport failed during the request phase",
            ),
        }
    }

    /// The error that caused the failure.
    pub fn source(&self) -> (r: Option<PairingMessageError>)
        ensures
            r == (match *self {
                PairingRequestFailure::Protocol(source) => Some(source),
                _ => None,
            }),
    {
        match self {
            PairingRequestFailure::Protocol(source) => Some(*source),
            _ => None,
        }
    }
}

/// Why an input to the initiator state machine was a deterministic no-op.
///
/// An ignored input never changes state and never advances the attempt.
#[derive(Clone, Copy, Debug, PartialEq, Eq, Structural)]
pub enum PairingRequestIgnored {
    /// The attempt is already in a terminal state; late input cannot revive it.
    AlreadyResolved,
    /// The request has already been marked sent.
    AlreadySent,
    /// A response arrived before the request was marked sent.
    NotAwaitingResponse,
    /// A response referenced a different attempt identifier.
    AttemptIdMismatch,
}

/// The initiator's position in the pairing-request phase.
///
/// `ReadyForNextPairingStage`, `Rejected`, `Cancelled`, `TimedOut`, and `Failed`
/// are terminal for this phase. None of them is trust: `ReadyForNextPairingStage`
/// only means the attempt may proceed to the next, authenticated stage.
#[derive(Clone, Copy, Debug, PartialEq, Eq, Structural)]
pub enum PairingRequestState {
    /// The attempt exists and the request message is ready to send.
    RequestCreated,
    /// The request was sent; the initiator is waiting for the remote response.
    AwaitingRemoteResponse,
    /// The remote accepted. The attempt may proceed to the authenticated stage.
    ReadyForNextPairingStage,
    /// The remote refused, with a bounded protocol reason. Terminal.
    Rejected(PairingRejectionReason),
    /// The local user cancelled the attempt. Terminal.
    Cancelled,
    /// The deadline elapsed before the remote responded. Terminal.
    TimedOut,
    /// The attempt failed closed. Terminal.
    Failed(PairingRequestFailure),
}

impl PairingRequestState {
    /// The state is terminal for this phase.
    pub open spec fn terminal(self) -> bool {
        !(self is RequestCreated || self is AwaitingRemoteResponse)
    }
}

/// The outcome of applying one input to a [`PairingRequest`].
#[derive(Clone, Copy, Debug, PartialEq, Eq, Structural)]
#[must_use]
pub enum PairingRequestEvent {
    /// The attempt is still in progress and within its deadline.
    Pending,
    /// The request was just marked sent; the initiator now awaits a response.
    AwaitingResponse,
    /// The remote accepted; the attempt may proceed to the authenticated stage.
    ReadyForNextPairingStage,
    /// The remote refused with a bounded reason.
    Rejected(PairingRejectionReason),
    /// The local user cancelled the attempt.
    Cancelled,
    /// The deadline elapsed.
    TimedOut,
    /// The attempt failed closed.
    Failed(PairingRequestFailure),
    /// The input was a deterministic no-op.
    Ignored(PairingRequestIgnored),
}

/// The contents of an initiator attempt.
pub struct RequestModel {
    /// The correlation identifier.
    pub attempt_id: Seq<u8>,
    /// The caller-supplied deadline.
    pub deadline: Duration,
    /// The current state.
    pub state: PairingRequestState,
}

/// An input to an initiator attempt.
pub enum RequestInput {
    /// The caller asks for the outbound request.
    RequestMessage(Duration),
    /// The caller handed the request to its transport.
    MarkSent(Duration),
    /// A remote message arrived.
    Remote(Seq<u8>, Duration),
    /// The caller asks only whether time is up.
    CheckDeadline(Duration),
    /// The local user cancels.
    Cancel,
    /// The transport failed.
    TransportFailure,
}

impl RequestInput {
    /// When the input was applied, for inputs that are held to the deadline.
    pub open spec fn time(self) -> Option<Duration> {
        match self {
            RequestInput::RequestMessage(now) => Some(now),
            RequestInput::MarkSent(now) => Some(now),
            RequestInput::Remote(_, now) => Some(now),
            RequestInput::CheckDeadline(now) => Some(now),
            RequestInput::Cancel => None,
            RequestInput::TransportFailure => None,
        }
    }
}

/// The state of an attempt that is past its deadline at the time of an input.
pub open spec fn request_expired(m: RequestModel, input: RequestInput) -> bool {
    input.time() matches Some(now) && now.nanos >= m.deadline.nanos
}

/// What a live attempt makes of a remote message.
pub open spec fn remote_event(m: RequestModel, raw: Seq<u8>) -> PairingRequestEvent {
    match decoded(raw) {
        Err(error) => PairingRequestEvent::Failed(PairingRequestFailure::Protocol(error)),
        Ok(message) => if message.attempt_id() != m.attempt_id {
            PairingRequestEvent::Ignored(PairingRequestIgnored::AttemptIdMismatch)
        } else {
            match message {
                MessageModel::Request(_) => PairingRequestEvent::Failed(
                    PairingRequestFailure::UnexpectedMessage,
                ),
                MessageModel::RequestAccepted(_) => if m.state is RequestCreated {
                    PairingRequestEvent::Ignored(PairingRequestIgnored::NotAwaitingResponse)
                } else {
                    PairingRequestEvent::ReadyForNextPairingStage
                },
                MessageModel::RequestRejected(_, reason) => if m.state is RequestCreated {
                    PairingRequestEvent::Ignored(PairingRequestIgnored::NotAwaitingResponse)
                } else {
                    PairingRequestEvent::Rejected(reason)
                },
            }
        },
    }
}

/// The outcome of an input: nothing once terminal, then the deadline, then the input
/// itself.
pub open spec fn request_event(m: RequestModel, input: RequestInput) -> PairingRequestEvent {
    if m.state.terminal() {
        PairingRequestEvent::Ignored(PairingRequestIgnored::AlreadyResolved)
    } else if request_expired(m, input) {
        PairingRequestEvent::TimedOut
    } else {
        match input {
            RequestInput::RequestMessage(_) => PairingRequestEvent::Pending,
            RequestInput::MarkSent(_) => if m.state is RequestCreated {
                PairingRequestEvent::AwaitingResponse
            } else {
                PairingRequestEvent::Ignored(PairingRequestIgnored::AlreadySent)
            },
            RequestInput::Remote(raw, _) => remote_event(m, raw),
            RequestInput::CheckDeadline(_) => PairingRequestEvent::Pending,
            RequestInput::Cancel => PairingRequestEvent::Cancelled,
            RequestInput::TransportFailure => PairingRequestEvent::Failed(
                PairingRequestFailure::TransportFailure,
            ),
        }
    }
}

/// The attempt after an input: the state that the outcome names, if it names one.
pub open spec fn request_after(m: RequestModel, input: RequestInput) -> RequestModel {
    let state = match request_event(m, input) {
        PairingRequestEvent::Pending => m.state,
        PairingRequestEvent::AwaitingResponse => PairingRequestState::AwaitingRemoteResponse,
        PairingRequestEvent::ReadyForNextPairingStage =>
            PairingRequestState::ReadyForNextPairingStage,
        PairingRequestEvent::Rejected(reason) => PairingRequestState::Rejected(reason),
        PairingRequestEvent::Cancelled => PairingRequestState::Cancelled,
        PairingRequestEvent::TimedOut => PairingRequestState::TimedOut,
        PairingRequestEvent::Failed(failure) => PairingRequestState::Failed(failure),
        PairingRequestEvent::Ignored(_) => m.state,
    };
    RequestModel { attempt_id: m.attempt_id, deadline: m.deadline, state }
}

/// The outbound request that an attempt gives at a time.
pub open spec fn outbound_request(m: RequestModel, now: Duration) -> Option<Seq<u8>> {
    if m.state is RequestCreated && now.nanos < m.deadline.nanos {
        Some(encoded(MessageModel::Request(m.attempt_id)))
    } else {
        None
    }
}

/// The initiator-side state machine for one pairing-request attempt.
///
/// The attempt is transient and in-memory. It owns only its correlation
/// identifier, its caller-supplied deadline, and its current state: no key,
/// fingerprint, trusted-peer record, storage handle, endpoint, hostname, or
/// discovery snapshot. It is never persisted.
#[derive(Debug, PartialEq, Eq)]
pub struct PairingRequest {
    attempt_id: PairingAttemptId,
    deadline: Duration,
    state: PairingRequestState,
}

impl View for PairingRequest {
    type V = RequestModel;

    closed spec fn view(&self) -> RequestModel {
        RequestModel { attempt_id: self.attempt_id@, deadline: self.deadline, state: self.state }
    }
}

impl Clone for PairingRequest {
    fn clone(&self) -> (r: Self)
        ensures
            r == *self,
    {
        PairingRequest { attempt_id: self.attempt_id, deadline: self.deadline, state: self.state }
    }
}

impl PairingRequest {
    /// Begins an initiator-side pairing attempt from an explicit local action.
    ///
    /// This represents a user's explicit decision to pair with a device that is
    /// currently untrusted. It deliberately accepts no discovered-peer, endpoint,
    /// address, hostname, or discovery-key value.
    ///
    /// A fresh transient correlation token is generated for every call, so a retry
    /// is always a new, independent attempt. `deadline` is a value on the caller's
    /// monotonic timeline after which the attempt times out.
    #[must_use]
    pub fn initiate(deadline: Duration) -> (r: Self)
        ensures
            r@.attempt_id.len() == 16,
            uuids::uuid_version(r@.attempt_id) == 4,
            r@.deadline == deadline,
            r@.state == PairingRequestState::RequestCreated,
    {
        PairingRequest::with_attempt_id(PairingAttemptId::generate(), deadline)
    }

    /// Builds an attempt around a specific correlation token.
    ///
    /// Every attempt is created through here; [`initiate`](Self::initiate)
    /// generates the token.
    #[must_use]
    pub fn with_attempt_id(attempt_id: PairingAttemptId, deadline: Duration) -> (r: Self)
        ensures
            r@ == (RequestModel {
                attempt_id: attempt_id@,
                deadline,
                state: PairingRequestState::RequestCreated,
            }),
    {
        PairingRequest { attempt_id, deadline, state: PairingRequestState::RequestCreated }
    }

    /// Returns this attempt's correlation identifier.
    #[must_use]
    pub fn attempt_id(&self) -> (r: PairingAttemptId)
        ensures
            r@ == self@.attempt_id,
    {
        self.attempt_id
    }

    /// Returns the caller-supplied deadline for this attempt.
    #[must_use]
    pub fn deadline(&self) -> (r: Duration)
        ensures
            r == self@.deadline,
    {
        self.deadline
    }

    /// Returns the current state.
    #[must_use]
    pub fn state(&self) -> (r: PairingRequestState)
        ensures
            r == self@.state,
    {
        self.state
    }

    /// Reports whether the attempt has reached a terminal state for this phase.
    #[must_use]
    pub fn is_terminal(&self) -> (r: bool)
        ensures
            r == self@.state.terminal(),
    {
        match self.state {
            PairingRequestState::RequestCreated => false,
            PairingRequestState::AwaitingRemoteResponse => false,
            _ => true,
        }
    }

    /// Reports whether the request phase completed successfully.
    ///
    /// A `true` result means only that the attempt may proceed to the next,
    /// authenticated pairing stage. It is not trust, authentication,
    /// verification, or transfer authorization.
    #[must_use]
    pub fn is_ready_for_next_pairing_stage(&self) -> (r: bool)
        ensures
            r == (self@.state is ReadyForNextPairingStage),
    {
        match self.state {
            PairingRequestState::ReadyForNextPairingStage => true,
            _ => false,
        }
    }

    /// Serializes the outbound pairing request while the attempt is still
    /// pending and within its deadline.
    ///
    /// While the attempt is pending this is idempotent: calling it any number of
    /// times returns the same bytes. Handing the bytes to a transport is the
    /// caller's action. `now` at or after the deadline times the attempt out and
    /// gives nothing, as does an attempt whose request was sent or that is
    /// otherwise resolved.
    #[must_use]
    pub fn request_message(&mut self, now: Duration) -> (r: Option<Vec<u8>>)
        ensures
            final(self)@ == request_after(old(self)@, RequestInput::RequestMessage(now)),
            match r {
                Some(bytes) => {
                    &&& old(self)@.state is RequestCreated
                    &&& now.nanos < old(self)@.deadline.nanos
                    &&& bytes@ == encoded(MessageModel::Request(old(self)@.attempt_id))
                },
                None => !(old(self)@.state is RequestCreated) || now.nanos
                    >= old(self)@.deadline.nanos,
            },            match r {
                Some(bytes) => outbound_request(old(self)@, now) == Some(bytes@),
                None => outbound_request(old(self)@, now) is None,
            },
    {
        if self.short_circuit(now).is_some() {
            return None;
        }
        match self.state {
            PairingRequestState::RequestCreated => Some(
                PairingMessage::request(self.attempt_id).encode(),
            ),
            _ => None,
        }
    }

    /// Records that the caller handed the request to its transport for sending.
    ///
    /// This is a local handoff only; it does not mean the responder received the
    /// request. The initiator reaches readiness only on receiving a valid
    /// `request-accepted` reply.
    pub fn mark_request_sent(&mut self, now: Duration) -> (r: PairingRequestEvent)
        ensures
            final(self)@ == request_after(old(self)@, RequestInput::MarkSent(now)),
            r == request_event(old(self)@, RequestInput::MarkSent(now)),
    {
        if let Some(event) = self.short_circuit(now) {
            return event;
        }
        match self.state {
            PairingRequestState::RequestCreated => {
                self.state = PairingRequestState::AwaitingRemoteResponse;
                PairingRequestEvent::AwaitingResponse
            },
            _ => PairingRequestEvent::Ignored(PairingRequestIgnored::AlreadySent),
        }
    }

    /// Applies one bounded, untrusted remote message to the attempt.
    ///
    /// The deadline is evaluated first, so a response that arrives at or after
    /// the deadline times the attempt out rather than resolving it. Malformed,
    /// unsupported, or role-inappropriate messages fail the attempt closed. A
    /// message for a different attempt identifier is ignored without disturbing
    /// this attempt. Once terminal, every message is an ignored no-op.
    pub fn handle_remote_message(&mut self, raw: &[u8], now: Duration) -> (r: PairingRequestEvent)
        ensures
            final(self)@ == request_after(old(self)@, RequestInput::Remote(raw@, now)),
            r == request_event(old(self)@, RequestInput::Remote(raw@, now)),
    {
        if let Some(event) = self.short_circuit(now) {
            return event;
        }
        let message = match PairingMessage::decode(raw) {
            Ok(message) => message,
            Err(error) => return self.fail(PairingRequestFailure::Protocol(error)),
        };
        if message.attempt_id() != self.attempt_id {
            return PairingRequestEvent::Ignored(PairingRequestIgnored::AttemptIdMismatch);
        }
        let unsent = match self.state {
            PairingRequestState::RequestCreated => true,
            _ => false,
        };
        match message {
            PairingMessage::Request { .. } => self.fail(PairingRequestFailure::UnexpectedMessage),
            PairingMessage::RequestAccepted { .. } => {
                if unsent {
                    return PairingRequestEvent::Ignored(PairingRequestIgnored::NotAwaitingResponse);
                }
                self.state = PairingRequestState::ReadyForNextPairingStage;
                PairingRequestEvent::ReadyForNextPairingStage
            },
            PairingMessage::RequestRejected { reason, .. } => {
                if unsent {
                    return PairingRequestEvent::Ignored(PairingRequestIgnored::NotAwaitingResponse);
                }
                self.state = PairingRequestState::Rejected(reason);
                PairingRequestEvent::Rejected(reason)
            },
        }
    }

    /// Evaluates the deadline against caller-supplied time without other input.
    pub fn check_deadline(&mut self, now: Duration) -> (r: PairingRequestEvent)
        ensures
            final(self)@ == request_after(old(self)@, RequestInput::CheckDeadline(now)),
            r == request_event(old(self)@, RequestInput::CheckDeadline(now)),
    {
        match self.short_circuit(now) {
            Some(event) => event,
            None => PairingRequestEvent::Pending,
        }
    }

    /// Cancels the attempt on an explicit local request.
    ///
    /// Cancellation is immediate and is not evaluated against the deadline: an
    /// explicit cancel of a non-terminal attempt is always recorded as
    /// [`PairingRequestState::Cancelled`].
    pub fn cancel(&mut self) -> (r: PairingRequestEvent)
        ensures
            final(self)@ == request_after(old(self)@, RequestInput::Cancel),
            r == request_event(old(self)@, RequestInput::Cancel),
    {
        if self.is_terminal() {
            return PairingRequestEvent::Ignored(PairingRequestIgnored::AlreadyResolved);
        }
        self.state = PairingRequestState::Cancelled;
        PairingRequestEvent::Cancelled
    }

    /// Fails the attempt closed after the caller observes a transport failure.
    pub fn note_transport_failure(&mut self) -> (r: PairingRequestEvent)
        ensures
            final(self)@ == request_after(old(self)@, RequestInput::TransportFailure),
            r == request_event(old(self)@, RequestInput::TransportFailure),
    {
        if self.is_terminal() {
            return PairingRequestEvent::Ignored(PairingRequestIgnored::AlreadyResolved);
        }
        self.fail(PairingRequestFailure::TransportFailure)
    }

    /// Settles an input that comes too late: after the end, or after the deadline.
    fn short_circuit(&mut self, now: Duration) -> (r: Option<PairingRequestEvent>)
        ensures
            final(self)@.attempt_id == old(self)@.attempt_id,
            final(self)@.deadline == old(self)@.deadline,
            if old(self)@.state.terminal() {
                &&& r == Some(PairingRequestEvent::Ignored(PairingRequestIgnored::AlreadyResolved))
                &&& final(self)@.state == old(self)@.state
            } else if now.nanos >= old(self)@.deadline.nanos {
                &&& r == Some(PairingRequestEvent::TimedOut)
                &&& final(self)@.state == PairingRequestState::TimedOut
            } else {
                &&& r is None
                &&& final(self)@.state == old(self)@.state
            },
    {
        if self.is_terminal() {
            return Some(PairingRequestEvent::Ignored(PairingRequestIgnored::AlreadyResolved));
        }
        if now.nanos >= self.deadline.nanos {
            self.state = PairingRequestState::TimedOut;
            return Some(PairingRequestEvent::TimedOut);
        }
        None
    }

    /// Fails the attempt closed.
    fn fail(&mut self, failure: PairingRequestFailure) -> (r: PairingRequestEvent)
        ensures
            final(self)@ == (RequestModel {
                attempt_id: old(self)@.attempt_id,
                deadline: old(self)@.deadline,
                state: PairingRequestState::Failed(failure),
            }),
            r == PairingRequestEvent::Failed(failure),
    {
        self.state = PairingRequestState::Failed(failure);
        PairingRequestEvent::Failed(failure)
    }
}

/// A validated incoming pairing request could not start a responder attempt.
#[derive(Clone, Copy, Debug, PartialEq, Eq, Structural)]
pub enum PairingResponseError {
    /// The bytes were not a valid, supported pairing message.
    Protocol(PairingMessageError),
    /// The message decoded but is not a pairing request. The responder starts
    /// only from a request; an accept or reject reply cannot begin an attempt.
    NotARequest,
}

impl PairingResponseError {
    /// The description of the error.
    pub open spec fn text(self) -> Seq<char> {
        match self {
            PairingResponseError::Protocol(source) => "invalid incoming pairing request: "@
                + source.text(),
            PairingResponseError::NotARequest =>
                "the message is not a pairing request and cannot start a responder attempt"@,
        }
    }

    /// Describes the error.
    pub fn message(&self) -> (s: String)
        ensures
            s@ == self.text(),
    {
        match self {
            PairingResponseError::Protocol(source) => String::from_str(
                "invalid incoming pairing request: ",
            ).concat(source.message().as_str()),
            PairingResponseError::NotARequest => String::from_str(
                "the message is not a pairing request and cannot start a responder attempt",
            ),
        }
    }

    /// The error that caused this one.
    pub fn source(&self) -> (r: Option<PairingMessageError>)
        ensures
            r == (match *self {
                PairingResponseError::Protocol(source) => Some(source),
                PairingResponseError::NotARequest => None,
            }),
    {
        match self {
            PairingResponseError::Protocol(source) => Some(*source),
            PairingResponseError::NotARequest => None,
        }
    }
}

/// Why an input to the responder state machine was a deterministic no-op.
///
/// An ignored input never changes state and never advances the attempt.
#[derive(Clone, Copy, Debug, PartialEq, Eq, Structural)]
pub enum PairingResponseIgnored {
    /// The attempt is already in a terminal state; later input cannot revive it.
    AlreadyResolved,
    /// A local decision (accept or reject) has already been made.
    DecisionAlreadyMade,
    /// The request has not been accepted, so there is no reply to mark sent.
    NoAcceptedReply,
}

/// The responder's position in the pairing-request phase.
///
/// `ReadyForNextPairingStage`, `Rejected`, `Cancelled`, `TimedOut`, and `Failed`
/// are terminal. None of them is trust. No state asserts that the initiator
/// received anything.
#[derive(Clone, Copy, Debug, PartialEq, Eq, Structural)]
pub enum PairingResponseState {
    /// A valid request is presented and awaits an explicit local decision.
    AwaitingDecision,
    /// The user accepted; the bounded acceptance reply was produced and still
    /// needs a successful local transport send before this side may proceed.
    AcceptedAwaitingSend,
    /// The caller reported the acceptance reply's local transport send succeeded.
    ReadyForNextPairingStage,
    /// The user rejected, with a bounded protocol reason. Terminal.
    Rejected(PairingRejectionReason),
    /// The local user cancelled, or the attempt was interrupted. Terminal.
    Cancelled,
    /// The deadline elapsed before the phase completed. Terminal.
    TimedOut,
    /// The attempt failed closed: the acceptance reply could not be sent through
    /// the local transport. Terminal.
    Failed,
}

impl PairingResponseState {
    /// The state is terminal for this phase.
    pub open spec fn terminal(self) -> bool {
        !(self is AwaitingDecision || self is AcceptedAwaitingSend)
    }
}

/// The outcome of applying one input to a [`PairingResponse`].
#[derive(Clone, Debug, PartialEq, Eq)]
#[must_use]
pub enum PairingResponseEvent {
    /// The attempt is still awaiting a step and within its deadline.
    Pending,
    /// The user accepted. The bytes are the bounded `request-accepted` reply to
    /// send; call [`PairingResponse::mark_reply_sent`] once the local transport
    /// send of those bytes succeeds.
    Accepted(Vec<u8>),
    /// The user rejected. The bytes are the bounded `request-rejected` reply to
    /// send; the attempt is already terminal whether or not the send succeeds or
    /// the initiator receives it.
    Rejected(Vec<u8>),
    /// The caller reported the acceptance reply's local transport send
    /// succeeded. Remote receipt is not claimed.
    ReadyForNextPairingStage,
    /// The local user cancelled or the attempt was interrupted.
    Cancelled,
    /// The deadline elapsed.
    TimedOut,
    /// The attempt failed closed.
    Failed,
    /// The input was a deterministic no-op.
    Ignored(PairingResponseIgnored),
}

/// The contents of a responder outcome.
pub enum ResponseEventModel {
    /// The attempt is still awaiting a step and within its deadline.
    Pending,
    /// The user accepted, with this reply.
    Accepted(Seq<u8>),
    /// The user rejected, with this reply.
    Rejected(Seq<u8>),
    /// The acceptance reply was sent.
    ReadyForNextPairingStage,
    /// The local user cancelled or the attempt was interrupted.
    Cancelled,
    /// The deadline elapsed.
    TimedOut,
    /// The attempt failed closed.
    Failed,
    /// The input was a deterministic no-op.
    Ignored(PairingResponseIgnored),
}

impl View for PairingResponseEvent {
    type V = ResponseEventModel;

    open spec fn view(&self) -> ResponseEventModel {
        match *self {
            PairingResponseEvent::Pending => ResponseEventModel::Pending,
            PairingResponseEvent::Accepted(reply) => ResponseEventModel::Accepted(reply@),
            PairingResponseEvent::Rejected(reply) => ResponseEventModel::Rejected(reply@),
            PairingResponseEvent::ReadyForNextPairingStage =>
                ResponseEventModel::ReadyForNextPairingStage,
            PairingResponseEvent::Cancelled => ResponseEventModel::Cancelled,
            PairingResponseEvent::TimedOut => ResponseEventModel::TimedOut,
            PairingResponseEvent::Failed => ResponseEventModel::Failed,
            PairingResponseEvent::Ignored(reason) => ResponseEventModel::Ignored(reason),
        }
    }
}

/// The contents of a responder attempt.
pub struct ResponseModel {
    /// The correlation identifier echoed from the request.
    pub attempt_id: Seq<u8>,
    /// The caller-supplied deadline.
    pub deadline: Duration,
    /// The current state.
    pub state: PairingResponseState,
}

/// An input to a responder attempt.
pub enum ResponseInput {
    /// The local user accepts.
    Accept(Duration),
    /// The local user rejects for a reason.
    Reject(PairingRejectionReason, Duration),
    /// The acceptance reply was sent.
    MarkSent(Duration),
    /// The caller asks only whether time is up.
    CheckDeadline(Duration),
    /// The local user cancels.
    Cancel,
    /// The transport failed.
    TransportFailure,
}

impl ResponseInput {
    /// When the input was applied, for inputs that are held to the deadline.
    pub open spec fn time(self) -> Option<Duration> {
        match self {
            ResponseInput::Accept(now) => Some(now),
            ResponseInput::Reject(_, now) => Some(now),
            ResponseInput::MarkSent(now) => Some(now),
            ResponseInput::CheckDeadline(now) => Some(now),
            ResponseInput::Cancel => None,
            ResponseInput::TransportFailure => None,
        }
    }
}

/// The attempt is past its deadline at the time of an input.
pub open spec fn response_expired(m: ResponseModel, input: ResponseInput) -> bool {
    input.time() matches Some(now) && now.nanos >= m.deadline.nanos
}

/// The outcome of an input: nothing once terminal, then the deadline, then the input
/// itself.
pub open spec fn response_event(m: ResponseModel, input: ResponseInput) -> ResponseEventModel {
    if m.state.terminal() {
        ResponseEventModel::Ignored(PairingResponseIgnored::AlreadyResolved)
    } else if response_expired(m, input) {
        ResponseEventModel::TimedOut
    } else {
        match input {
            ResponseInput::Accept(_) => if m.state is AwaitingDecision {
                ResponseEventModel::Accepted(encoded(MessageModel::RequestAccepted(m.attempt_id)))
            } else {
                ResponseEventModel::Ignored(PairingResponseIgnored::DecisionAlreadyMade)
            },
            ResponseInput::Reject(reason, _) => if m.state is AwaitingDecision {
                ResponseEventModel::Rejected(
                    encoded(MessageModel::RequestRejected(m.attempt_id, reason)),
                )
            } else {
                ResponseEventModel::Ignored(PairingResponseIgnored::DecisionAlreadyMade)
            },
            ResponseInput::MarkSent(_) => if m.state is AcceptedAwaitingSend {
                ResponseEventModel::ReadyForNextPairingStage
            } else {
                ResponseEventModel::Ignored(PairingResponseIgnored::NoAcceptedReply)
            },
            ResponseInput::CheckDeadline(_) => ResponseEventModel::Pending,
            ResponseInput::Cancel => ResponseEventModel::Cancelled,
            ResponseInput::TransportFailure => ResponseEventModel::Failed,
        }
    }
}

/// The attempt after an input.
pub open spec fn response_after(m: ResponseModel, input: ResponseInput) -> ResponseModel {
    let state = match response_event(m, input) {
        ResponseEventModel::Pending => m.state,
        ResponseEventModel::Accepted(_) => PairingResponseState::AcceptedAwaitingSend,
        ResponseEventModel::Rejected(_) => match input {
            ResponseInput::Reject(reason, _) => PairingResponseState::Rejected(reason),
            _ => m.state,
        },
        ResponseEventModel::ReadyForNextPairingStage =>
            PairingResponseState::ReadyForNextPairingStage,
        ResponseEventModel::Cancelled => PairingResponseState::Cancelled,
        ResponseEventModel::TimedOut => PairingResponseState::TimedOut,
        ResponseEventModel::Failed => PairingResponseState::Failed,
        ResponseEventModel::Ignored(_) => m.state,
    };
    ResponseModel { attempt_id: m.attempt_id, deadline: m.deadline, state }
}

/// The responder attempt that incoming bytes start, or why they start none.
pub open spec fn response_for(request: Seq<u8>, deadline: Duration) -> Result<
    ResponseModel,
    PairingResponseError,
> {
    match decoded(request) {
        Err(error) => Err(PairingResponseError::Protocol(error)),
        Ok(MessageModel::Request(attempt_id)) => Ok(
            ResponseModel { attempt_id, deadline, state: PairingResponseState::AwaitingDecision },
        ),
        Ok(_) => Err(PairingResponseError::NotARequest),
    }
}

/// The responder-side state machine for one incoming pairing request.
///
/// The attempt is transient and in-memory. It owns only the correlation
/// identifier echoed from the request, the caller-supplied deadline, and its
/// current state: no key, fingerprint, trusted-peer record, storage handle,
/// endpoint, hostname, discovery snapshot, or peer name. It is never persisted.
#[derive(Debug, PartialEq, Eq)]
pub struct PairingResponse {
    attempt_id: PairingAttemptId,
    deadline: Duration,
    state: PairingResponseState,
}

impl View for PairingResponse {
    type V = ResponseModel;

    closed spec fn view(&self) -> ResponseModel {
        ResponseModel { attempt_id: self.attempt_id@, deadline: self.deadline, state: self.state }
    }
}

impl Clone for PairingResponse {
    fn clone(&self) -> (r: Self)
        ensures
            r == *self,
    {
        PairingResponse { attempt_id: self.attempt_id, deadline: self.deadline, state: self.state }
    }
}

impl PairingResponse {
    /// Presents a validated incoming pairing request for an explicit local
    /// decision.
    ///
    /// `request` is untrusted network input: it is length-bounded, decoded,
    /// version-checked, and kind-checked before any responder state exists. Only
    /// a `request` message starts an attempt. The attempt's correlation identifier
    /// is taken from the validated request and echoed, unchanged, into the reply.
    ///
    /// `deadline` is a value on the caller's monotonic timeline after which the
    /// attempt times out. Construction consults no clock and does not prove the
    /// deadline is still live: the first time-aware call times an expired attempt
    /// out.
    pub fn from_request(request: &[u8], deadline: Duration) -> (r: Result<
        Self,
        PairingResponseError,
    >)
        ensures
            match response_for(request@, deadline) {
                Ok(response) => r is Ok && r->Ok_0@ == response,
                Err(error) => r == Err::<Self, PairingResponseError>(error),
            },
    {
        match PairingMessage::decode(request) {
            Ok(PairingMessage::Request { attempt_id }) => Ok(
                PairingResponse {
                    attempt_id,
                    deadline,
                    state: PairingResponseState::AwaitingDecision,
                },
            ),
            Ok(_) => Err(PairingResponseError::NotARequest),
            Err(error) => Err(PairingResponseError::Protocol(error)),
        }
    }

    /// Returns the attempt correlation identifier echoed from the request.
    #[must_use]
    pub fn attempt_id(&self) -> (r: PairingAttemptId)
        ensures
            r@ == self@.attempt_id,
    {
        self.attempt_id
    }

    /// Returns the caller-supplied deadline for this attempt.
    #[must_use]
    pub fn deadline(&self) -> (r: Duration)
        ensures
            r == self@.deadline,
    {
        self.deadline
    }

    /// Returns the current state.
    #[must_use]
    pub fn state(&self) -> (r: PairingResponseState)
        ensures
            r == self@.state,
    {
        self.state
    }

    /// Reports whether the attempt has reached a terminal state.
    #[must_use]
    pub fn is_terminal(&self) -> (r: bool)
        ensures
            r == self@.state.terminal(),
    {
        match self.state {
            PairingResponseState::AwaitingDecision => false,
            PairingResponseState::AcceptedAwaitingSend => false,
            _ => true,
        }
    }

    /// Reports whether the phase completed successfully.
    ///
    /// A `true` result means only that the caller reported the acceptance
    /// reply's local transport send succeeded and this side may proceed to the
    /// next, authenticated stage. It does not assert the initiator received the
    /// reply, and it is not trust, authentication, verification, or transfer
    /// authorization.
    #[must_use]
    pub fn is_ready_for_next_pairing_stage(&self) -> (r: bool)
        ensures
            r == (self@.state is ReadyForNextPairingStage),
    {
        match self.state {
            PairingResponseState::ReadyForNextPairingStage => true,
            _ => false,
        }
    }

    /// Records an explicit local decision to accept the request.
    ///
    /// Valid only while awaiting the decision and within the deadline. It
    /// produces the bounded `request-accepted` reply; the caller sends the reply
    /// through its transport and then, only if that local send succeeds, calls
    /// [`mark_reply_sent`](Self::mark_reply_sent).
    pub fn accept(&mut self, now: Duration) -> (r: PairingResponseEvent)
        ensures
            final(self)@ == response_after(old(self)@, ResponseInput::Accept(now)),
            r@ == response_event(old(self)@, ResponseInput::Accept(now)),
    {
        if let Some(event) = self.short_circuit(now) {
            return event;
        }
        match self.state {
            PairingResponseState::AwaitingDecision => {
                self.state = PairingResponseState::AcceptedAwaitingSend;
                PairingResponseEvent::Accepted(PairingMessage::accepted(self.attempt_id).encode())
            },
            _ => PairingResponseEvent::Ignored(PairingResponseIgnored::DecisionAlreadyMade),
        }
    }

    /// Records an explicit local decision to reject the request.
    ///
    /// Valid only while awaiting the decision and within the deadline. It
    /// produces the bounded `request-rejected` reply with the given protocol
    /// reason. The rejection is final on this side the moment it is recorded;
    /// sending the reply is best effort.
    pub fn reject(&mut self, reason: PairingRejectionReason, now: Duration) -> (r:
        PairingResponseEvent)
        ensures
            final(self)@ == response_after(old(self)@, ResponseInput::Reject(reason, now)),
            r@ == response_event(old(self)@, ResponseInput::Reject(reason, now)),
    {
        if let Some(event) = self.short_circuit(now) {
            return event;
        }
        match self.state {
            PairingResponseState::AwaitingDecision => {
                self.state = PairingResponseState::Rejected(reason);
                PairingResponseEvent::Rejected(
                    PairingMessage::rejected(self.attempt_id, reason).encode(),
                )
            },
            _ => PairingResponseEvent::Ignored(PairingResponseIgnored::DecisionAlreadyMade),
        }
    }

    /// Records that the caller's local transport send of the acceptance reply
    /// completed successfully, per that transport's own contract.
    ///
    /// This is a local send outcome only. It does **not** mean the initiator
    /// received the reply. Valid only after [`accept`](Self::accept) and within
    /// the deadline.
    pub fn mark_reply_sent(&mut self, now: Duration) -> (r: PairingResponseEvent)
        ensures
            final(self)@ == response_after(old(self)@, ResponseInput::MarkSent(now)),
            r@ == response_event(old(self)@, ResponseInput::MarkSent(now)),
    {
        if let Some(event) = self.short_circuit(now) {
            return event;
        }
        match self.state {
            PairingResponseState::AcceptedAwaitingSend => {
                self.state = PairingResponseState::ReadyForNextPairingStage;
                PairingResponseEvent::ReadyForNextPairingStage
            },
            _ => PairingResponseEvent::Ignored(PairingResponseIgnored::NoAcceptedReply),
        }
    }

    /// Cancels or records an interruption of the attempt on an explicit local
    /// request. It is immediate and not evaluated against the deadline.
    pub fn cancel(&mut self) -> (r: PairingResponseEvent)
        ensures
            final(self)@ == response_after(old(self)@, ResponseInput::Cancel),
            r@ == response_event(old(self)@, ResponseInput::Cancel),
    {
        if self.is_terminal() {
            return PairingResponseEvent::Ignored(PairingResponseIgnored::AlreadyResolved);
        }
        self.state = PairingResponseState::Cancelled;
        PairingResponseEvent::Cancelled
    }

    /// Fails the attempt closed after the caller observes that the acceptance
    /// reply could not be sent through its transport.
    pub fn note_transport_failure(&mut self) -> (r: PairingResponseEvent)
        ensures
            final(self)@ == response_after(old(self)@, ResponseInput::TransportFailure),
            r@ == response_event(old(self)@, ResponseInput::TransportFailure),
    {
        if self.is_terminal() {
            return PairingResponseEvent::Ignored(PairingResponseIgnored::AlreadyResolved);
        }
        self.state = PairingResponseState::Failed;
        PairingResponseEvent::Failed
    }

    /// Evaluates the deadline against caller-supplied time without other input.
    pub fn check_deadline(&mut self, now: Duration) -> (r: PairingResponseEvent)
        ensures
            final(self)@ == response_after(old(self)@, ResponseInput::CheckDeadline(now)),
            r@ == response_event(old(self)@, ResponseInput::CheckDeadline(now)),
    {
        match self.short_circuit(now) {
            Some(event) => event,
            None => PairingResponseEvent::Pending,
        }
    }

    /// Settles an input that comes too late: after the end, or after the deadline.
    fn short_circuit(&mut self, now: Duration) -> (r: Option<PairingResponseEvent>)
        ensures
            final(self)@.attempt_id == old(self)@.attempt_id,
            final(self)@.deadline == old(self)@.deadline,
            if old(self)@.state.terminal() {
                &&& r is Some
                &&& r->0@ == ResponseEventModel::Ignored(PairingResponseIgnored::AlreadyResolved)
                &&& final(self)@.state == old(self)@.state
            } else if now.nanos >= old(self)@.deadline.nanos {
                &&& r is Some
                &&& r->0@ == ResponseEventModel::TimedOut
                &&& final(self)@.state == PairingResponseState::TimedOut
            } else {
                &&& r is None
                &&& final(self)@.state == old(self)@.state
            },
    {
        if self.is_terminal() {
            return Some(PairingResponseEvent::Ignored(PairingResponseIgnored::AlreadyResolved));
        }
        if now.nanos >= self.deadline.nanos {
            self.state = PairingResponseState::TimedOut;
            return Some(PairingResponseEvent::TimedOut);
        }
        None
    }
}

/// A resolved initiator attempt stays as it is, whatever comes.
pub proof fn resolved_request_is_final(m: RequestModel, input: RequestInput)
    requires
        m.state.terminal(),
    ensures
        request_after(m, input) == m,
        request_event(m, input) == PairingRequestEvent::Ignored(
            PairingRequestIgnored::AlreadyResolved,
        ),
{
}

/// A resolved responder attempt stays as it is, whatever comes.
pub proof fn resolved_response_is_final(m: ResponseModel, input: ResponseInput)
    requires
        m.state.terminal(),
    ensures
        response_after(m, input) == m,
        response_event(m, input) == ResponseEventModel::Ignored(
            PairingResponseIgnored::AlreadyResolved,
        ),
{
}

/// An ignored input changes nothing, and no input changes the identifier or the
/// deadline of an initiator attempt.
pub proof fn ignored_request_input_changes_nothing(m: RequestModel, input: RequestInput)
    ensures
        request_event(m, input) is Ignored ==> request_after(m, input) == m,
        request_after(m, input).attempt_id == m.attempt_id,
        request_after(m, input).deadline == m.deadline,
{
}

/// An ignored input changes nothing, and no input changes the identifier or the
/// deadline of a responder attempt.
pub proof fn ignored_response_input_changes_nothing(m: ResponseModel, input: ResponseInput)
    ensures
        response_event(m, input) is Ignored ==> response_after(m, input) == m,
        response_after(m, input).attempt_id == m.attempt_id,
        response_after(m, input).deadline == m.deadline,
{
}

/// At or after the deadline every timed input times a live attempt out, whatever else
/// it says.
pub proof fn deadline_comes_first(
    request: RequestModel,
    request_input: RequestInput,
    response: ResponseModel,
    response_input: ResponseInput,
)
    ensures
        !request.state.terminal() && request_expired(request, request_input) ==> request_after(
            request,
            request_input,
        ).state == PairingRequestState::TimedOut && request_event(request, request_input)
            == PairingRequestEvent::TimedOut,
        !response.state.terminal() && response_expired(response, response_input) ==> response_after(
            response,
            response_input,
        ).state == PairingResponseState::TimedOut && response_event(response, response_input)
            == ResponseEventModel::TimedOut,
{
}

/// Cancelling or failing the transport of a live attempt resolves it at any time.
pub proof fn local_ends_ignore_the_deadline(request: RequestModel, response: ResponseModel)
    ensures
        !request.state.terminal() ==> request_after(request, RequestInput::Cancel).state
            == PairingRequestState::Cancelled && request_after(
            request,
            RequestInput::TransportFailure,
        ).state == PairingRequestState::Failed(PairingRequestFailure::TransportFailure),
        !response.state.terminal() ==> response_after(response, ResponseInput::Cancel).state
            == PairingResponseState::Cancelled && response_after(
            response,
            ResponseInput::TransportFailure,
        ).state == PairingResponseState::Failed,
{
}

/// A message that belongs to another attempt does not disturb a live one.
pub proof fn foreign_message_is_ignored(m: RequestModel, raw: Seq<u8>, now: Duration)
    requires
        !m.state.terminal(),
        now.nanos < m.deadline.nanos,
        decoded(raw) is Ok,
        decoded(raw)->Ok_0.attempt_id() != m.attempt_id,
    ensures
        request_after(m, RequestInput::Remote(raw, now)) == m,
        request_event(m, RequestInput::Remote(raw, now)) == PairingRequestEvent::Ignored(
            PairingRequestIgnored::AttemptIdMismatch,
        ),
{
}

/// Asking for the outbound request does not advance the attempt, so asking again
/// gives the same bytes.
pub proof fn asking_for_the_request_is_idempotent(m: RequestModel, now: Duration)
    requires
        now.nanos < m.deadline.nanos,
    ensures
        request_after(m, RequestInput::RequestMessage(now)) == m,
{
}

/// An initiator becomes ready only on the wire form of an acceptance of its own
/// attempt, received before the deadline while it awaits a response.
pub proof fn readiness_needs_acceptance(m: RequestModel, input: RequestInput)
    requires
        !(m.state is ReadyForNextPairingStage),
        request_after(m, input).state is ReadyForNextPairingStage,
    ensures
        m.state is AwaitingRemoteResponse,
        is_acceptance(m, input),
{
    if let RequestInput::Remote(raw, now) = input {
        accepted_bytes_are_canonical(raw);
    }
}

/// The input hands over the wire form of an acceptance of the attempt in time.
pub open spec fn is_acceptance(m: RequestModel, input: RequestInput) -> bool {
    &&& input matches RequestInput::Remote(raw, now)
    &&& raw == encoded(MessageModel::RequestAccepted(m.attempt_id))
    &&& now.nanos < m.deadline.nanos
}

/// A responder becomes ready only when the reply to a recorded acceptance is reported
/// sent before the deadline.
pub proof fn readiness_needs_sent_reply(m: ResponseModel, input: ResponseInput)
    requires
        !(m.state is ReadyForNextPairingStage),
        response_after(m, input).state is ReadyForNextPairingStage,
    ensures
        m.state is AcceptedAwaitingSend,
        input matches ResponseInput::MarkSent(now) && now.nanos < m.deadline.nanos,
{
}

/// An initiator attempt after a sequence of inputs.
pub open spec fn request_run(m: RequestModel, inputs: Seq<RequestInput>) -> RequestModel
    decreases inputs.len(),
{
    if inputs.len() == 0 {
        m
    } else {
        request_after(request_run(m, inputs.drop_last()), inputs.last())
    }
}

/// A responder attempt after a sequence of inputs.
pub open spec fn response_run(m: ResponseModel, inputs: Seq<ResponseInput>) -> ResponseModel
    decreases inputs.len(),
{
    if inputs.len() == 0 {
        m
    } else {
        response_after(response_run(m, inputs.drop_last()), inputs.last())
    }
}

/// The request was marked sent before a position of a sequence of inputs.
pub open spec fn sent_before(inputs: Seq<RequestInput>, end: int) -> bool {
    exists|i: int| 0 <= i < end && #[trigger] inputs[i] is MarkSent
}

/// The request was accepted locally before a position of a sequence of inputs.
pub open spec fn accepted_before(inputs: Seq<ResponseInput>, end: int) -> bool {
    exists|i: int| 0 <= i < end && #[trigger] inputs[i] is Accept
}

/// However an initiator attempt was driven, it is ready only if its request was marked
/// sent and a later input was the acceptance of this very attempt.
pub proof fn ready_request_was_sent_and_accepted(m: RequestModel, inputs: Seq<RequestInput>)
    requires
        m.state is RequestCreated,
        request_run(m, inputs).state is ReadyForNextPairingStage,
    ensures
        exists|j: int|
            0 <= j < inputs.len() && is_acceptance(m, #[trigger] inputs[j]) && sent_before(
                inputs,
                j,
            ),
    decreases inputs.len(),
{
    lemma_request_run(m, inputs);
    if inputs.len() > 0 {
        let before = inputs.drop_last();
        let mid = request_run(m, before);
        lemma_request_run(m, before);
        if mid.state is ReadyForNextPairingStage {
            ready_request_was_sent_and_accepted(m, before);
            let j = choose|j: int|
                0 <= j < before.len() && is_acceptance(m, #[trigger] before[j]) && sent_before(
                    before,
                    j,
                );
            let i = choose|i: int| 0 <= i < j && #[trigger] before[i] is MarkSent;
            assert(inputs[i] is MarkSent);
            assert(inputs[j] == before[j]);
            assert(sent_before(inputs, j));
        } else {
            readiness_needs_acceptance(mid, inputs.last());
            let i = choose|i: int| 0 <= i < before.len() && #[trigger] before[i] is MarkSent;
            assert(inputs[i] is MarkSent);
            let j = inputs.len() - 1;
            assert(is_acceptance(m, inputs[j]));
            assert(sent_before(inputs, j));
        }
    }
}

/// A run keeps identifier and deadline, and waits for a response only after a send.
proof fn lemma_request_run(m: RequestModel, inputs: Seq<RequestInput>)
    requires
        m.state is RequestCreated,
    ensures
        request_run(m, inputs).attempt_id == m.attempt_id,
        request_run(m, inputs).deadline == m.deadline,
        request_run(m, inputs).state is AwaitingRemoteResponse ==> sent_before(
            inputs,
            inputs.len() as int,
        ),
    decreases inputs.len(),
{
    if inputs.len() > 0 {
        let before = inputs.drop_last();
        lemma_request_run(m, before);
        if request_run(m, inputs).state is AwaitingRemoteResponse {
            if request_run(m, before).state is AwaitingRemoteResponse {
                let i = choose|i: int| 0 <= i < before.len() && #[trigger] before[i] is MarkSent;
                assert(inputs[i] is MarkSent);
            } else {
                assert(inputs.last() is MarkSent);
                assert(inputs[inputs.len() - 1] is MarkSent);
            }
        }
    }
}

/// However a responder attempt was driven, it is ready only if the local user accepted
/// and the reply was reported sent after that.
pub proof fn ready_response_was_accepted_and_sent(m: ResponseModel, inputs: Seq<ResponseInput>)
    requires
        m.state is AwaitingDecision,
        response_run(m, inputs).state is ReadyForNextPairingStage,
    ensures
        exists|j: int|
            0 <= j < inputs.len() && #[trigger] inputs[j] is MarkSent && accepted_before(inputs, j),
    decreases inputs.len(),
{
    if inputs.len() > 0 {
        let before = inputs.drop_last();
        let mid = response_run(m, before);
        lemma_response_run(m, before);
        if mid.state is ReadyForNextPairingStage {
            ready_response_was_accepted_and_sent(m, before);
            let j = choose|j: int|
                0 <= j < before.len() && #[trigger] before[j] is MarkSent && accepted_before(
                    before,
                    j,
                );
            let i = choose|i: int| 0 <= i < j && #[trigger] before[i] is Accept;
            assert(inputs[i] is Accept);
            assert(inputs[j] == before[j]);
            assert(accepted_before(inputs, j));
        } else {
            readiness_needs_sent_reply(mid, inputs.last());
            let i = choose|i: int| 0 <= i < before.len() && #[trigger] before[i] is Accept;
            assert(inputs[i] is Accept);
            let j = inputs.len() - 1;
            assert(inputs[j] is MarkSent);
            assert(accepted_before(inputs, j));
        }
    }
}

/// A run has an unsent acceptance only after the local user accepted.
proof fn lemma_response_run(m: ResponseModel, inputs: Seq<ResponseInput>)
    requires
        m.state is AwaitingDecision,
    ensures
        response_run(m, inputs).state is AcceptedAwaitingSend ==> accepted_before(
            inputs,
            inputs.len() as int,
        ),
    decreases inputs.len(),
{
    if inputs.len() > 0 {
        let before = inputs.drop_last();
        lemma_response_run(m, before);
        if response_run(m, inputs).state is AcceptedAwaitingSend {
            if response_run(m, before).state is AcceptedAwaitingSend {
                let i = choose|i: int| 0 <= i < before.len() && #[trigger] before[i] is Accept;
                assert(inputs[i] is Accept);
            } else {
                assert(inputs.last() is Accept);
                assert(inputs[inputs.len() - 1] is Accept);
            }
        }
    }
}

/// The two machines understand each other: the request of a live initiator starts a
/// responder with the same identifier, its acceptance makes the initiator ready, and
/// its rejection reaches the initiator with its reason.
pub proof fn initiator_and_responder_agree(
    m: RequestModel,
    responder_deadline: Duration,
    reason: PairingRejectionReason,
    decided: Duration,
    received: Duration,
)
    requires
        m.attempt_id.len() == 16,
        m.state is AwaitingRemoteResponse,
        decided.nanos < responder_deadline.nanos,
        received.nanos < m.deadline.nanos,
    ensures
        ({
            let started = response_for(
                encoded(MessageModel::Request(m.attempt_id)),
                responder_deadline,
            );
            let fresh = started->Ok_0;
            let accepted = response_event(fresh, ResponseInput::Accept(decided));
            let rejected = response_event(fresh, ResponseInput::Reject(reason, decided));
            &&& started is Ok
            &&& fresh.attempt_id == m.attempt_id
            &&& accepted is Accepted
            &&& request_after(m, RequestInput::Remote(accepted->Accepted_0, received)).state
                == PairingRequestState::ReadyForNextPairingStage
            &&& rejected is Rejected
            &&& request_after(m, RequestInput::Remote(rejected->Rejected_0, received)).state
                == PairingRequestState::Rejected(reason)
        }),
{
    message_round_trip(MessageModel::Request(m.attempt_id));
    message_round_trip(MessageModel::RequestAccepted(m.attempt_id));
    message_round_trip(MessageModel::RequestRejected(m.attempt_id, reason));
}

/// Only a live attempt times out, and only by an input whose time is at or after its
/// deadline: every such input times it out and no earlier one does, whatever else the
/// input says.
pub proof fn request_times_out_exactly_at_its_deadline(
    m: RequestModel,
    input: RequestInput,
    raw: Seq<u8>,
    now: Duration,
)
    requires
        input == RequestInput::RequestMessage(now) || input == RequestInput::MarkSent(now) || input
            == RequestInput::Remote(raw, now) || input == RequestInput::CheckDeadline(now),
    ensures
        ({
            let live = m.state == PairingRequestState::RequestCreated || m.state
                == PairingRequestState::AwaitingRemoteResponse;
            let event = request_event(m, input);
            let after = request_after(m, input);
            &&& live && now.nanos >= m.deadline.nanos ==> event == PairingRequestEvent::TimedOut
                && after == RequestModel { state: PairingRequestState::TimedOut, ..m }
            &&& live && now.nanos < m.deadline.nanos ==> event != PairingRequestEvent::TimedOut
                && after.state != PairingRequestState::TimedOut
            &&& !live ==> event != PairingRequestEvent::TimedOut && after == m
        }),
{
}

/// Only a live responder attempt times out, and only by an input whose time is at or
/// after its deadline: every such input times it out and no earlier one does.
pub proof fn response_times_out_exactly_at_its_deadline(
    m: ResponseModel,
    input: ResponseInput,
    reason: PairingRejectionReason,
    now: Duration,
)
    requires
        input == ResponseInput::Accept(now) || input == ResponseInput::Reject(reason, now) || input
            == ResponseInput::MarkSent(now) || input == ResponseInput::CheckDeadline(now),
    ensures
        ({
            let live = m.state == PairingResponseState::AwaitingDecision || m.state
                == PairingResponseState::AcceptedAwaitingSend;
            let event = response_event(m, input);
            let after = response_after(m, input);
            &&& live && now.nanos >= m.deadline.nanos ==> event == ResponseEventModel::TimedOut
                && after == ResponseModel { state: PairingResponseState::TimedOut, ..m }
            &&& live && now.nanos < m.deadline.nanos ==> event != ResponseEventModel::TimedOut
                && after.state != PairingResponseState::TimedOut
            &&& !live ==> event != ResponseEventModel::TimedOut && after == m
        }),
{
}

/// Checking the deadline of a live attempt before the deadline reports that it is
/// pending and leaves it as it was.
pub proof fn early_deadline_check_changes_nothing(
    request: RequestModel,
    response: ResponseModel,
    now: Duration,
)
    ensures
        now.nanos < request.deadline.nanos && (request.state == PairingRequestState::RequestCreated
            || request.state == PairingRequestState::AwaitingRemoteResponse) ==> {
            &&& request_event(request, RequestInput::CheckDeadline(now))
                == PairingRequestEvent::Pending
            &&& request_after(request, RequestInput::CheckDeadline(now)) == request
        },
        now.nanos < response.deadline.nanos && (response.state
            == PairingResponseState::AwaitingDecision || response.state
            == PairingResponseState::AcceptedAwaitingSend) ==> {
            &&& response_event(response, ResponseInput::CheckDeadline(now))
                == ResponseEventModel::Pending
            &&& response_after(response, ResponseInput::CheckDeadline(now)) == response
        },
{
}

/// Inputs without a time never time an attempt out: they end a live one as cancelled or
/// failed, and each end is an end for good.
pub proof fn untimed_inputs_end_live_attempts(request: RequestModel, response: ResponseModel)
    ensures
        request.state == PairingRequestState::RequestCreated || request.state
            == PairingRequestState::AwaitingRemoteResponse ==> {
            &&& request_event(request, RequestInput::Cancel) == PairingRequestEvent::Cancelled
            &&& request_after(request, RequestInput::Cancel) == RequestModel {
                state: PairingRequestState::Cancelled,
                ..request
            }
            &&& request_event(request, RequestInput::TransportFailure)
                == PairingRequestEvent::Failed(PairingRequestFailure::TransportFailure)
            &&& request_after(request, RequestInput::TransportFailure) == RequestModel {
                state: PairingRequestState::Failed(PairingRequestFailure::TransportFailure),
                ..request
            }
        },
        response.state == PairingResponseState::AwaitingDecision || response.state
            == PairingResponseState::AcceptedAwaitingSend ==> {
            &&& response_event(response, ResponseInput::Cancel) == ResponseEventModel::Cancelled
            &&& response_after(response, ResponseInput::Cancel) == ResponseModel {
                state: PairingResponseState::Cancelled,
                ..response
            }
            &&& response_event(response, ResponseInput::TransportFailure)
                == ResponseEventModel::Failed
            &&& response_after(response, ResponseInput::TransportFailure) == ResponseModel {
                state: PairingResponseState::Failed,
                ..response
            }
        },
{
}

/// Ready, rejected, cancelled, timed-out and failed attempts are over: every input to
/// one is ignored as already resolved and leaves it as it is. In the other states an
/// attempt is not over.
pub proof fn ended_attempts_stay_ended(
    request: RequestModel,
    request_input: RequestInput,
    response: ResponseModel,
    response_input: ResponseInput,
)
    ensures
        ({
            let ended = request.state is ReadyForNextPairingStage || request.state is Rejected
                || request.state is Cancelled || request.state is TimedOut
                || request.state is Failed;
            &&& request.state.terminal() <==> ended
            &&& ended ==> request_after(request, request_input) == request
            &&& request_event(request, request_input) == PairingRequestEvent::Ignored(
                PairingRequestIgnored::AlreadyResolved,
            ) <==> ended
        }),
        ({
            let ended = response.state is ReadyForNextPairingStage || response.state is Rejected
                || response.state is Cancelled || response.state is TimedOut
                || response.state is Failed;
            &&& response.state.terminal() <==> ended
            &&& ended ==> response_after(response, response_input) == response
            &&& response_event(response, response_input) == ResponseEventModel::Ignored(
                PairingResponseIgnored::AlreadyResolved,
            ) <==> ended
        }),
{
}

/// Before the deadline, marking the request sent makes an attempt wait for the response
/// once; marking it again is ignored.
pub proof fn request_is_marked_sent_once(m: RequestModel, first: Duration, second: Duration)
    requires
        m.state == PairingRequestState::RequestCreated,
        first.nanos < m.deadline.nanos,
        second.nanos < m.deadline.nanos,
    ensures
        ({
            let sent = request_after(m, RequestInput::MarkSent(first));
            &&& request_event(m, RequestInput::MarkSent(first))
                == PairingRequestEvent::AwaitingResponse
            &&& sent == RequestModel { state: PairingRequestState::AwaitingRemoteResponse, ..m }
            &&& request_event(sent, RequestInput::MarkSent(second)) == PairingRequestEvent::Ignored(
                PairingRequestIgnored::AlreadySent,
            )
            &&& request_after(sent, RequestInput::MarkSent(second)) == sent
        }),
{
}

/// Asking for the outbound request before the deadline never changes an attempt and
/// leaves a live one pending.
pub proof fn asking_for_the_request_changes_nothing(m: RequestModel, now: Duration)
    requires
        now.nanos < m.deadline.nanos,
    ensures
        request_after(m, RequestInput::RequestMessage(now)) == m,
        m.state is RequestCreated || m.state is AwaitingRemoteResponse ==> request_event(
            m,
            RequestInput::RequestMessage(now),
        ) == PairingRequestEvent::Pending,
{
}

/// What a live initiator does with bytes that arrive in time, byte by byte: bytes of no
/// message fail it; the bytes of another attempt are ignored; its own request coming
/// back fails it; its own acceptance or rejection is ignored before the request was sent
/// and decides the attempt after that.
#[verifier::spinoff_prover]
#[verifier::rlimit(40)]
pub proof fn remote_bytes_decide_the_request(m: RequestModel, raw: Seq<u8>, now: Duration)
    requires
        m.attempt_id.len() == 16,
        m.state is RequestCreated || m.state is AwaitingRemoteResponse,
        now.nanos < m.deadline.nanos,
    ensures
        ({
            let id = m.attempt_id;
            let event = request_event(m, RequestInput::Remote(raw, now));
            let after = request_after(m, RequestInput::Remote(raw, now));
            let sent = m.state is AwaitingRemoteResponse;
            let accepted = raw == seq![1u8, 2u8] + id;
            let unspecified = raw == (seq![1u8, 3u8] + id).push(0u8);
            let busy = raw == (seq![1u8, 3u8] + id).push(1u8);
            let declined = raw == (seq![1u8, 3u8] + id).push(2u8);
            &&& event == PairingRequestEvent::ReadyForNextPairingStage <==> sent && accepted
            &&& after.state == PairingRequestState::ReadyForNextPairingStage <==> sent && accepted
            &&& event == PairingRequestEvent::Rejected(PairingRejectionReason::Unspecified) <==> sent
                && unspecified
            &&& event == PairingRequestEvent::Rejected(PairingRejectionReason::Busy) <==> sent
                && busy
            &&& event == PairingRequestEvent::Rejected(PairingRejectionReason::Declined) <==> sent
                && declined
            &&& event is Rejected ==> after == RequestModel {
                state: PairingRequestState::Rejected(event->Rejected_0),
                ..m
            }
            &&& event == PairingRequestEvent::Ignored(PairingRequestIgnored::NotAwaitingResponse)
                <==> !sent && (accepted || unspecified || busy || declined)
            &&& event == PairingRequestEvent::Failed(PairingRequestFailure::UnexpectedMessage)
                <==> raw == seq![1u8, 1u8] + id
            &&& event == PairingRequestEvent::Ignored(PairingRequestIgnored::AttemptIdMismatch)
                <==> decoded(raw) is Ok && raw.subrange(2, 18) != id
            &&& (event matches PairingRequestEvent::Failed(PairingRequestFailure::Protocol(error))
                && decoded(raw) == Err::<MessageModel, PairingMessageError>(error)) <==> decoded(
                raw,
            ) is Err
            &&& event is Failed ==> after == RequestModel {
                state: PairingRequestState::Failed(event->Failed_0),
                ..m
            }
            &&& event is Ignored ==> after == m
            &&& event is ReadyForNextPairingStage || event is Rejected || event is Failed
                || event is Ignored
        }),
{
    let id = m.attempt_id;
    assert((seq![1u8, 1u8] + id).subrange(2, 18) =~= id);
    assert((seq![1u8, 2u8] + id).subrange(2, 18) =~= id);
    let head = seq![1u8, 3u8] + id;
    assert forall|wire: u8| #[trigger] head.push(wire).subrange(2, 18) == id by {
        assert(head.push(wire).subrange(2, 18) =~= id);
    }
    if decoded(raw) is Ok && raw.subrange(2, 18) == id {
        if raw.len() == 18 {
            assert(raw =~= seq![raw[0], raw[1]] + id);
        } else {
            assert(raw =~= (seq![raw[0], raw[1]] + id).push(raw[18]));
        }
    }
}

/// Before the deadline the local user's decision is taken once: accepting answers with
/// the acceptance of the attempt and rejecting with its rejection for the given reason,
/// byte by byte, and after an acceptance either is ignored.
pub proof fn local_decision_is_taken_once(
    m: ResponseModel,
    reason: PairingRejectionReason,
    first: Duration,
    second: Duration,
)
    requires
        m.state == PairingResponseState::AwaitingDecision,
        first.nanos < m.deadline.nanos,
        second.nanos < m.deadline.nanos,
    ensures
        ({
            let accepted = response_after(m, ResponseInput::Accept(first));
            let wire: u8 = match reason {
                PairingRejectionReason::Unspecified => 0,
                PairingRejectionReason::Busy => 1,
                PairingRejectionReason::Declined => 2,
            };
            &&& response_event(m, ResponseInput::Accept(first)) == ResponseEventModel::Accepted(
                seq![1u8, 2u8] + m.attempt_id,
            )
            &&& accepted == ResponseModel { state: PairingResponseState::AcceptedAwaitingSend, ..m }
            &&& response_event(m, ResponseInput::Reject(reason, first))
                == ResponseEventModel::Rejected(
                (seq![1u8, 3u8] + m.attempt_id).push(wire),
            )
            &&& response_after(m, ResponseInput::Reject(reason, first)) == ResponseModel {
                state: PairingResponseState::Rejected(reason),
                ..m
            }
            &&& response_event(accepted, ResponseInput::Accept(second))
                == ResponseEventModel::Ignored(PairingResponseIgnored::DecisionAlreadyMade)
            &&& response_event(accepted, ResponseInput::Reject(reason, second))
                == ResponseEventModel::Ignored(PairingResponseIgnored::DecisionAlreadyMade)
            &&& response_after(accepted, ResponseInput::Accept(second)) == accepted
            &&& response_after(accepted, ResponseInput::Reject(reason, second)) == accepted
        }),
{
    assert(encoded(MessageModel::RequestRejected(m.attempt_id, reason)) =~= (seq![1u8, 3u8]
        + m.attempt_id).push(reason.wire()));
}

/// A sent reply makes the responder ready exactly after an acceptance; before a decision
/// there is nothing to have sent.
pub proof fn sent_acceptance_makes_ready(m: ResponseModel, now: Duration)
    requires
        now.nanos < m.deadline.nanos,
    ensures
        m.state == PairingResponseState::AcceptedAwaitingSend ==> {
            &&& response_event(m, ResponseInput::MarkSent(now))
                == ResponseEventModel::ReadyForNextPairingStage
            &&& response_after(m, ResponseInput::MarkSent(now)) == ResponseModel {
                state: PairingResponseState::ReadyForNextPairingStage,
                ..m
            }
        },
        m.state == PairingResponseState::AwaitingDecision ==> {
            &&& response_event(m, ResponseInput::MarkSent(now)) == ResponseEventModel::Ignored(
                PairingResponseIgnored::NoAcceptedReply,
            )
            &&& response_after(m, ResponseInput::MarkSent(now)) == m
        },
{
}

/// An accepted pairing is not lost: whatever deadline checks come between the acceptance
/// and the report that the reply was sent, as long as all of it happens before the
/// deadline the responder becomes ready.
pub proof fn accepted_pairing_becomes_ready(
    m: ResponseModel,
    accepted: Duration,
    checks: Seq<Duration>,
    sent: Duration,
)
    requires
        m.state == PairingResponseState::AwaitingDecision,
        accepted.nanos < m.deadline.nanos,
        forall|i: int| 0 <= i < checks.len() ==> (#[trigger] checks[i]).nanos < m.deadline.nanos,
        sent.nanos < m.deadline.nanos,
    ensures
        response_run(
            m,
            seq![ResponseInput::Accept(accepted)] + checks.map_values(
                |now: Duration| ResponseInput::CheckDeadline(now),
            ) + seq![ResponseInput::MarkSent(sent)],
        ) == (ResponseModel { state: PairingResponseState::ReadyForNextPairingStage, ..m }),
{
    let head = seq![ResponseInput::Accept(accepted)];
    let inputs = head + checks.map_values(|now: Duration| ResponseInput::CheckDeadline(now));
    let all = inputs + seq![ResponseInput::MarkSent(sent)];
    assert(all.drop_last() =~= inputs);
    lemma_checked_acceptance(m, accepted, checks);
}

proof fn lemma_checked_acceptance(m: ResponseModel, accepted: Duration, checks: Seq<Duration>)
    requires
        m.state == PairingResponseState::AwaitingDecision,
        accepted.nanos < m.deadline.nanos,
        forall|i: int| 0 <= i < checks.len() ==> (#[trigger] checks[i]).nanos < m.deadline.nanos,
    ensures
        response_run(
            m,
            seq![ResponseInput::Accept(accepted)] + checks.map_values(
                |now: Duration| ResponseInput::CheckDeadline(now),
            ),
        ) == (ResponseModel { state: PairingResponseState::AcceptedAwaitingSend, ..m }),
    decreases checks.len(),
{
    let check = |now: Duration| ResponseInput::CheckDeadline(now);
    let head = seq![ResponseInput::Accept(accepted)];
    let inputs = head + checks.map_values(check);
    if checks.len() == 0 {
        assert(inputs =~= head);
        assert(head.drop_last() =~= Seq::<ResponseInput>::empty());
        assert(response_run(m, Seq::<ResponseInput>::empty()) == m);
    } else {
        lemma_checked_acceptance(m, accepted, checks.drop_last());
        assert(inputs.drop_last() =~= head + checks.drop_last().map_values(check));
        assert(checks.last() == checks[checks.len() - 1]);
    }
}

/// Exactly the request of an attempt starts a responder, which has its identifier and
/// the caller's deadline and awaits a decision; other messages and other bytes are
/// refused, each with its own error.
pub proof fn only_requests_start_a_responder(bytes: Seq<u8>, deadline: Duration)
    ensures
        ({
            let started = response_for(bytes, deadline);
            &&& started is Ok <==> bytes.len() == 18 && bytes[0] == 1 && bytes[1] == 1
            &&& started is Ok ==> started->Ok_0 == (ResponseModel {
                attempt_id: bytes.skip(2),
                deadline,
                state: PairingResponseState::AwaitingDecision,
            })
            &&& started == Err::<ResponseModel, PairingResponseError>(
                PairingResponseError::NotARequest,
            ) <==> bytes.len() == 18 && bytes[0] == 1 && bytes[1] == 2 || bytes.len() == 19
                && bytes[0] == 1 && bytes[1] == 3 && bytes[18] <= 2
            &&& (started matches Err(PairingResponseError::Protocol(error)) && decoded(bytes)
                == Err::<MessageModel, PairingMessageError>(error)) <==> decoded(bytes) is Err
        }),
{
    if bytes.len() == 18 {
        assert(bytes.subrange(2, 18) =~= bytes.skip(2));
    }
}

/// The wire form of each message: version 1, the kind, the sixteen bytes of the attempt,
/// and in a rejection its reason.
pub proof fn wire_form_is_fixed(id: Seq<u8>)
    ensures
        encoded(MessageModel::Request(id)) == seq![1u8, 1u8] + id,
        encoded(MessageModel::RequestAccepted(id)) == seq![1u8, 2u8] + id,
        encoded(MessageModel::RequestRejected(id, PairingRejectionReason::Unspecified)) == (seq![
            1u8,
            3u8,
        ] + id).push(0),
        encoded(MessageModel::RequestRejected(id, PairingRejectionReason::Busy)) == (seq![1u8, 3u8]
            + id).push(1),
        encoded(MessageModel::RequestRejected(id, PairingRejectionReason::Declined)) == (seq![
            1u8,
            3u8,
        ] + id).push(2),
{
    assert(encoded(MessageModel::RequestRejected(id, PairingRejectionReason::Unspecified)) =~= (
    seq![1u8, 3u8] + id).push(0));
    assert(encoded(MessageModel::RequestRejected(id, PairingRejectionReason::Busy)) =~= (seq![
        1u8,
        3u8,
    ] + id).push(1));
    assert(encoded(MessageModel::RequestRejected(id, PairingRejectionReason::Declined)) =~= (seq![
        1u8,
        3u8,
    ] + id).push(2));
}

/// Each way in which bytes can be no message, and the error for it: the length comes
/// first, then the version, then the kind, then the length for that kind, then the
/// reason of a rejection. All other bytes are a message.
pub proof fn refused_bytes_are_explained(bytes: Seq<u8>)
    ensures
        ({
            let read = decoded(bytes);
            let sized = bytes.len() == 18 || bytes.len() == 19;
            let current = sized && bytes[0] == 1;
            let plain = current && (bytes[1] == 1 || bytes[1] == 2);
            let refusal = current && bytes[1] == 3;
            &&& !sized <==> (read matches Err(PairingMessageError::InvalidLength { len }) && len
                == bytes.len() as usize)
            &&& sized && bytes[0] != 1 <==> (read matches Err(
                PairingMessageError::UnsupportedVersion { version },
            ) && version == bytes[0])
            &&& current && !plain && !refusal <==> (read matches Err(
                PairingMessageError::UnknownMessageKind { kind },
            ) && kind == bytes[1])
            &&& plain && bytes.len() == 19 || refusal && bytes.len() == 18 <==> (read matches Err(
                PairingMessageError::LengthKindMismatch { kind, len },
            ) && kind == bytes[1] && len == bytes.len())
            &&& refusal && bytes.len() == 19 && bytes[18] > 2 <==> (read matches Err(
                PairingMessageError::UnknownRejectionReason { reason },
            ) && reason == bytes[18])
            &&& plain && bytes.len() == 18 || refusal && bytes.len() == 19 && bytes[18] <= 2
                <==> read is Ok
            &&& read is Ok ==> encoded(read->Ok_0) == bytes
        }),
{
    if decoded(bytes) is Ok {
        accepted_bytes_are_canonical(bytes);
    }
}

/// The description of a refused message names the numbers that it was refused for.
pub proof fn message_error_names_its_numbers(error: PairingMessageError)
    ensures
        match error {
            PairingMessageError::InvalidLength { len } => text::mentions(
                error.text(),
                text::decimal(len as nat),
            ),
            PairingMessageError::UnsupportedVersion { version } => text::mentions(
                error.text(),
                text::decimal(version as nat),
            ),
            PairingMessageError::UnknownMessageKind { kind } => text::mentions(
                error.text(),
                text::decimal(kind as nat),
            ),
            PairingMessageError::UnknownRejectionReason { reason } => text::mentions(
                error.text(),
                text::decimal(reason as nat),
            ),
            PairingMessageError::LengthKindMismatch { kind, len } => text::mentions(
                error.text(),
                text::decimal(kind as nat),
            ) && text::mentions(error.text(), text::decimal(len as nat)),
        },
{
    let none = Seq::<char>::empty();
    let whole = error.text();
    match error {
        PairingMessageError::InvalidLength { len } => {
            let number = text::decimal(len as nat);
            let after = " is outside the valid range "@ + text::decimal(BASE_MESSAGE_LEN as nat)
                + "..="@ + text::decimal(MAX_PAIRING_MESSAGE_BYTES as nat);
            text::lemma_mentions("pairing message length "@, number, after);
            assert(whole =~= "pairing message length "@ + number + after);
        },
        PairingMessageError::UnsupportedVersion { version } => {
            text::lemma_mentions(
                "unsupported pairing protocol version "@,
                text::decimal(version as nat),
                none,
            );
        },
        PairingMessageError::UnknownMessageKind { kind } => {
            text::lemma_mentions(
                "unknown pairing message kind "@,
                text::decimal(kind as nat),
                none,
            );
        },
        PairingMessageError::UnknownRejectionReason { reason } => {
            text::lemma_mentions(
                "unknown pairing rejection reason "@,
                text::decimal(reason as nat),
                none,
            );
        },
        PairingMessageError::LengthKindMismatch { kind, len } => {
            let number = text::decimal(kind as nat);
            let length = text::decimal(len as nat);
            let after = " does not permit length "@ + length;
            text::lemma_mentions("pairing message kind "@, number, after);
            assert(whole =~= "pairing message kind "@ + number + after);
            text::lemma_mentions(
                "pairing message kind "@ + number + " does not permit length "@,
                length,
                none,
            );
        },
    }
}

/// The description of a failure that comes from a refused message holds that of the
/// refusal.
pub proof fn failure_names_the_refused_message(error: PairingMessageError)
    ensures
        text::mentions(PairingRequestFailure::Protocol(error).text(), error.text()),
        text::mentions(PairingResponseError::Protocol(error).text(), error.text()),
{
    let none = Seq::<char>::empty();
    text::lemma_mentions("pairing request protocol failure: "@, error.text(), none);
    text::lemma_mentions("invalid incoming pairing request: "@, error.text(), none);
}

/// Different reasons have different texts and different wire forms, and each wire form
/// reads back as its reason.
pub proof fn reasons_are_told_apart(a: PairingRejectionReason, b: PairingRejectionReason)
    ensures
        a.text() == b.text() ==> a == b,
        a.wire() == b.wire() ==> a == b,
        reason_of(a.wire()) == Some(a),
{
    reveal_strlit("unspecified");
    reveal_strlit("busy");
    reveal_strlit("declined");
    assert("unspecified"@.len() == 11);
    assert("busy"@.len() == 4);
    assert("declined"@.len() == 8);
}

/// An attempt gives its outbound request, byte by byte, exactly until it was marked sent
/// or is over or its deadline has come; the same each time it is asked.
pub proof fn request_is_given_until_sent(m: RequestModel, now: Duration, later: Duration)
    ensures
        outbound_request(m, now) is Some <==> m.state == PairingRequestState::RequestCreated
            && now.nanos < m.deadline.nanos,
        outbound_request(m, now) matches Some(bytes) ==> bytes == seq![1u8, 1u8] + m.attempt_id,
        outbound_request(m, now) is Some && later.nanos < m.deadline.nanos ==> outbound_request(
            request_after(m, RequestInput::RequestMessage(now)),
            later,
        ) == outbound_request(m, now),
        outbound_request(m, now) is Some ==> outbound_request(
            request_after(m, RequestInput::MarkSent(now)),
            later,
        ) is None,
{
}

} // verus!
