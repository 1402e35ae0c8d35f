//! Durable trusted-peer records and their store format.
//!
//! This module owns only the *durable* side of trust: the minimum record that
//! recognises a previously authenticated and explicitly trusted cryptographic peer
//! identity across a restart, and a small versioned, bounded store format for those
//! records. It does **not** establish trust.
//!
//! A loaded store file is untrusted local input. Its bytes are decoded,
//! version-checked, and fully validated before any record is returned; malformed,
//! truncated, oversized, unsupported, duplicated, or conflicting content fails the
//! whole load closed and never yields an effectively trusted record.

use vstd::prelude::*;
use vstd::utf8::*;

use crate::ordered;
use crate::text;
use crate::text::{
    byte_len, bytes_precede, chars_of, decimal_text, decode_hex, decode_text, hex_text,
    parse_canonical_decimal, same_bytes, same_text, split_text, text_has_control, text_of,
    trim_text,
};

verus! {

/// The maximum number of trusted-peer records one store may hold.
pub const MAX_TRUSTED_PEERS: usize = 128;

/// The maximum size, in bytes, of authenticated peer key-identity material.
pub const MAX_PEER_IDENTITY_BYTES: usize = 64;

/// The maximum length, in Unicode scalar values, of a trusted-peer label.
pub const MAX_TRUSTED_PEER_LABEL_CHARS: usize = 64;

/// The maximum size, in bytes, of the encoded trusted-peer store file.
pub const MAX_TRUSTED_PEERS_STORE_BYTES: usize = 65536;

/// The maximum size, in bytes, of a trusted-peer label, which the longest labels of
/// the widest characters take. Its field in the store has two digits a byte.
pub const MAX_TRUSTED_PEER_LABEL_BYTES: usize = 256;

/// The maximum size, in bytes, of a record line of the store: five digits of scheme,
/// the longest material, the longest label, and a space before each of the two.
pub const MAX_RECORD_LINE_BYTES: usize = 647;

/// The store format version written and read by this release.
pub const STORE_FORMAT_VERSION: u16 = 1;

/// What the header line holds before the version number.
pub const STORE_HEADER_PREFIX: &'static str = "local-transfer-trusted-peers v";

/// Authenticated key-identity material is empty or exceeds its bound.
#[derive(Clone, Copy, Debug, PartialEq, Eq, Structural)]
pub enum PeerKeyIdentityError {
    /// There is no material.
    Empty,
    /// The material exceeds its bound.
    TooLarge { size: usize, maximum: usize },
}

/// The place of an identity among others: by scheme, then by material.
pub open spec fn identity_less(a: (u16, Seq<u8>), b: (u16, Seq<u8>)) -> bool {
    a.0 < b.0 || (a.0 == b.0 && text::bytes_less(a.1, b.1))
}

/// The material of an identity is within its bounds.
pub open spec fn is_identity(identity: (u16, Seq<u8>)) -> bool {
    0 < identity.1.len() <= MAX_PEER_IDENTITY_BYTES
}

/// Opaque authenticated peer key-identity material: a *persisted recognition
/// token*, not a usable authenticated identity. Its view is its scheme and its
/// material.
///
/// `scheme` is a namespace for the authenticated-identity representation; every
/// value is structurally valid. `material` is 1 to 64 opaque bytes. Structural
/// validity proves nothing about cryptography. It is the single security-relevant
/// binding of a trusted record and the only key used for lookup, deduplication, and
/// removal.
#[derive(Debug, Hash)]
pub struct PeerKeyIdentity {
    scheme: u16,
    material: Vec<u8>,
}

impl View for PeerKeyIdentity {
    type V = (u16, Seq<u8>);

    closed spec fn view(&self) -> (u16, Seq<u8>) {
        (self.scheme, self.material@)
    }
}

impl PartialEq for PeerKeyIdentity {
    fn eq(&self, other: &Self) -> (r: bool) {
        self.scheme == other.scheme && same_bytes(
            self.material.as_slice(),
            other.material.as_slice(),
        )
    }
}

impl vstd::std_specs::cmp::PartialEqSpecImpl for PeerKeyIdentity {
    open spec fn obeys_eq_spec() -> bool {
        true
    }

    open spec fn eq_spec(&self, other: &Self) -> bool {
        self@ == other@
    }
}

impl Eq for PeerKeyIdentity {

}

impl Clone for PeerKeyIdentity {
    fn clone(&self) -> (r: Self)
        ensures
            r@ == self@,
    {
        proof {
            use_type_invariant(self);
        }
        let material = vstd::slice::slice_to_vec(self.material.as_slice());
        PeerKeyIdentity { scheme: self.scheme, material }
    }
}

impl PeerKeyIdentity {
    #[verifier::type_invariant]
    spec fn well_formed(self) -> bool {
        is_identity(self@)
    }

    /// Validates already-authenticated key-identity material against its bounds.
    pub fn new(scheme: u16, material: Vec<u8>) -> (r: Result<Self, PeerKeyIdentityError>)
        ensures
            if material@.len() == 0 {
                r == Err::<Self, PeerKeyIdentityError>(PeerKeyIdentityError::Empty)
            } else if material@.len() > MAX_PEER_IDENTITY_BYTES {
                r == Err::<Self, PeerKeyIdentityError>(
                    PeerKeyIdentityError::TooLarge {
                        size: material@.len() as usize,
                        maximum: MAX_PEER_IDENTITY_BYTES,
                    },
                )
            } else {
                r is Ok && r->Ok_0@ == (scheme, material@)
            },
    {
        if material.len() == 0 {
            return Err(PeerKeyIdentityError::Empty);
        }
        if material.len() > MAX_PEER_IDENTITY_BYTES {
            return Err(
                PeerKeyIdentityError::TooLarge {
                    size: material.len(),
                    maximum: MAX_PEER_IDENTITY_BYTES,
                },
            );
        }
        Ok(PeerKeyIdentity { scheme, material })
    }

    /// Returns the key-identity scheme discriminator.
    #[must_use]
    pub fn scheme(&self) -> (r: u16)
        ensures
            r == self@.0,
    {
        self.scheme
    }

    /// Returns the bounded key-identity bytes.
    #[must_use]
    pub fn material(&self) -> (r: &[u8])
        ensures
            r@ == self@.1,
            is_identity(self@),
    {
        proof {
            use_type_invariant(self);
        }
        self.material.as_slice()
    }

    /// Writes the scheme and the material in hexadecimal, joined by a colon.
    pub fn to_text(&self) -> (s: String)
        ensures
            s@ == text::decimal(self@.0 as nat) + ":"@ + text::hex(self@.1),
    {
        decimal_text(self.scheme as u64).concat(":").concat(
            hex_text(self.material.as_slice()).as_str(),
        )
    }

    /// Reports whether this identity comes before another.
    fn precedes(&self, other: &Self) -> (r: bool)
        ensures
            r == identity_less(self@, other@),
    {
        self.scheme < other.scheme || (self.scheme == other.scheme && bytes_precede(
            self.material.as_slice(),
            other.material.as_slice(),
        ))
    }
}

/// A trusted-peer label is empty, over length, or contains a control character.
#[derive(Clone, Copy, Debug, PartialEq, Eq, Structural)]
pub enum TrustedPeerLabelError {
    /// The normalised label is empty.
    Empty,
    /// The input contains a control character.
    ControlCharacter,
    /// The normalised label is over length.
    TooLong { chars: usize, maximum: usize },
}

/// A normalised label: 1 to 64 characters, none of them a control code, without
/// whitespace at either end.
pub open spec fn is_label(s: Seq<char>) -> bool {
    &&& 0 < s.len() <= MAX_TRUSTED_PEER_LABEL_CHARS
    &&& !text::has_control(s)
    &&& text::trimmed(s) == s
}

/// The label that a text normalises to, or why it has none. Control codes are
/// rejected before surrounding whitespace is trimmed.
pub open spec fn label_of(value: Seq<char>) -> Result<Seq<char>, TrustedPeerLabelError> {
    if text::has_control(value) {
        Err(TrustedPeerLabelError::ControlCharacter)
    } else if text::trimmed(value).len() == 0 {
        Err(TrustedPeerLabelError::Empty)
    } else if text::trimmed(value).len() > MAX_TRUSTED_PEER_LABEL_CHARS {
        Err(
            TrustedPeerLabelError::TooLong {
                chars: text::trimmed(value).len() as usize,
                maximum: MAX_TRUSTED_PEER_LABEL_CHARS,
            },
        )
    } else {
        Ok(text::trimmed(value))
    }
}

/// Every accepted label is normalised, and normalising it again keeps it.
pub proof fn label_is_normal(value: Seq<char>)
    requires
        label_of(value) is Ok,
    ensures
        is_label(label_of(value)->Ok_0),
        label_of(label_of(value)->Ok_0) == label_of(value),
{
    text::lemma_trimmed_control(value);
    text::lemma_trimmed_edges(value);
    text::lemma_trimmed_fixed(text::trimmed(value));
}

/// A validated, presentation-only label for a trusted peer.
///
/// The label helps a person recognise a record; it is never an identity, never
/// a lookup key, and never participates in a trust decision.
#[derive(Debug, PartialEq, Eq)]
pub struct TrustedPeerLabel {
    value: String,
}

impl View for TrustedPeerLabel {
    type V = Seq<char>;

    closed spec fn view(&self) -> Seq<char> {
        self.value@
    }
}

impl Clone for TrustedPeerLabel {
    fn clone(&self) -> (r: Self)
        ensures
            r == *self,
    {
        proof {
            use_type_invariant(self);
        }
        TrustedPeerLabel { value: self.value.clone() }
    }
}

impl TrustedPeerLabel {
    #[verifier::type_invariant]
    spec fn well_formed(self) -> bool {
        is_label(self.value@)
    }

    /// Validates and normalises a presentation label.
    ///
    /// Control characters are rejected before surrounding Unicode whitespace is
    /// trimmed; the result must contain 1 to 64 scalar values.
    pub fn new(value: &str) -> (r: Result<Self, TrustedPeerLabelError>)
        ensures
            match label_of(value@) {
                Ok(label) => r is Ok && r->Ok_0@ == label && is_label(label),
                Err(error) => r == Err::<Self, TrustedPeerLabelError>(error),
            },
    {
        if text_has_control(value) {
            return Err(TrustedPeerLabelError::ControlCharacter);
        }
        let normalized = trim_text(value);
        let chars = chars_of(normalized.as_str()).len();
        if chars == 0 {
            return Err(TrustedPeerLabelError::Empty);
        }
        if chars > MAX_TRUSTED_PEER_LABEL_CHARS {
            return Err(
                TrustedPeerLabelError::TooLong { chars, maximum: MAX_TRUSTED_PEER_LABEL_CHARS },
            );
        }
        proof {
            label_is_normal(value@);
        }
        Ok(TrustedPeerLabel { value: normalized })
    }

    /// Returns the normalised label text.
    #[must_use]
    pub fn as_str(&self) -> (s: &str)
        ensures
            s@ == self@,
            is_label(self@),
    {
        proof {
            use_type_invariant(self);
        }
        self.value.as_str()
    }
}

/// The contents of a trusted-peer record.
pub struct TrustedRecord {
    /// The authenticated key identity: its scheme and its material.
    pub identity: (u16, Seq<u8>),
    /// The presentation label.
    pub label: Option<Seq<char>>,
}

/// A record whose parts are valid.
pub open spec fn is_record(r: TrustedRecord) -> bool {
    &&& is_identity(r.identity)
    &&& r.label matches Some(label) ==> is_label(label)
}

/// The minimum durable record recognising one trusted cryptographic peer.
///
/// It binds an authenticated [`PeerKeyIdentity`], the only security-relevant
/// field, to an optional presentation label. No discovery data, endpoint,
/// hostname, timestamp, pairing-attempt identifier, or separate local record
/// identifier is stored.
#[derive(Debug)]
pub struct TrustedPeerRecord {
    identity: PeerKeyIdentity,
    label: Option<TrustedPeerLabel>,
}

impl View for TrustedPeerRecord {
    type V = TrustedRecord;

    closed spec fn view(&self) -> TrustedRecord {
        TrustedRecord {
            identity: self.identity@,
            label: match self.label {
                Some(label) => Some(label@),
                None => None,
            },
        }
    }
}

impl PartialEq for TrustedPeerRecord {
    fn eq(&self, other: &Self) -> (r: bool) {
        let same_label = match (&self.label, &other.label) {
            (Some(a), Some(b)) => same_text(a.as_str(), b.as_str()),
            (None, None) => true,
            _ => false,
        };
        same_label && self.identity == other.identity
    }
}

impl vstd::std_specs::cmp::PartialEqSpecImpl for TrustedPeerRecord {
    open spec fn obeys_eq_spec() -> bool {
        true
    }

    open spec fn eq_spec(&self, other: &Self) -> bool {
        self@ == other@
    }
}

impl Eq for TrustedPeerRecord {

}

impl Clone for TrustedPeerRecord {
    fn clone(&self) -> (r: Self)
        ensures
            r@ == self@,
    {
        TrustedPeerRecord {
            identity: self.identity.clone(),
            label: match &self.label {
                Some(label) => Some(label.clone()),
                None => None,
            },
        }
    }
}

impl TrustedPeerRecord {
    /// Binds an authenticated identity to an optional label.
    pub fn new(identity: PeerKeyIdentity, label: Option<TrustedPeerLabel>) -> (r: Self)
        ensures
            r@.identity == identity@,
            r@.label == (match label {
                Some(label) => Some(label@),
                None => None,
            }),
    {
        TrustedPeerRecord { identity, label }
    }

    /// Returns the authenticated key identity this record trusts.
    #[must_use]
    pub fn identity(&self) -> (r: &PeerKeyIdentity)
        ensures
            r@ == self@.identity,
    {
        &self.identity
    }

    /// Returns the optional, presentation-only label.
    #[must_use]
    pub fn label(&self) -> (r: Option<&TrustedPeerLabel>)
        ensures
            match r {
                Some(label) => self@.label == Some(label@),
                None => self@.label is None,
            },
    {
        self.label.as_ref()
    }
}

/// The structural category of a malformed trusted-peer store.
#[derive(Clone, Copy, Debug, PartialEq, Eq, Structural)]
pub enum MalformedStoreReason {
    /// The store bytes are not valid UTF-8.
    NotUtf8,
    /// The header line is missing, truncated, or unrecognised.
    Header,
    /// A record line does not have the expected field structure.
    RecordSyntax,
    /// A record's key-identity material is not canonical lowercase hex.
    IdentityEncoding,
    /// A record's key-identity material is empty or over length.
    IdentityBounds,
    /// A record's label is not canonical lowercase hex or valid UTF-8.
    LabelEncoding,
    /// A record's decoded label is empty, over length, or has a control byte.
    LabelValue,
}

impl MalformedStoreReason {
    /// The name of the category.
    pub open spec fn text(self) -> Seq<char> {
        match self {
            MalformedStoreReason::NotUtf8 => "NotUtf8"@,
            MalformedStoreReason::Header => "Header"@,
            MalformedStoreReason::RecordSyntax => "RecordSyntax"@,
            MalformedStoreReason::IdentityEncoding => "IdentityEncoding"@,
            MalformedStoreReason::IdentityBounds => "IdentityBounds"@,
            MalformedStoreReason::LabelEncoding => "LabelEncoding"@,
            MalformedStoreReason::LabelValue => "LabelValue"@,
        }
    }

    /// Returns the name of the category.
    pub fn as_str(self) -> (s: &'static str)
        ensures
            s@ == self.text(),
    {
        match self {
            MalformedStoreReason::NotUtf8 => "NotUtf8",
            MalformedStoreReason::Header => "Header",
            MalformedStoreReason::RecordSyntax => "RecordSyntax",
            MalformedStoreReason::IdentityEncoding => "IdentityEncoding",
            MalformedStoreReason::IdentityBounds => "IdentityBounds",
            MalformedStoreReason::LabelEncoding => "LabelEncoding",
            MalformedStoreReason::LabelValue => "LabelValue",
        }
    }
}

/// Why a stored trusted-peer record is unusable.
///
/// Values describe store structure and bounds only, never record contents. Paths
/// and the descriptions of filesystem failures are texts for display.
#[derive(Debug, PartialEq, Eq)]
pub enum TrustedPeerStoreError {
    /// The operating system provided no application configuration directory.
    ConfigDirectoryUnavailable,
    /// The configured store path has no parent directory.
    InvalidStorePath { path: String },
    /// A filesystem operation failed.
    Io { operation: &'static str, path: String, source: String },
    /// The store or lock path exists but is not a regular file.
    NotRegularFile { path: String },
    /// The store or lock path is a symbolic link; the store refuses to read,
    /// write, or change permissions through filesystem indirection.
    SymlinkNotAllowed { path: String },
    /// Another process holds the store's exclusive mutation lock.
    StoreBusy,
    /// The store file exceeds its byte budget.
    StoreTooLarge { size: u64, maximum: usize },
    /// One record line exceeds its byte budget.
    RecordTooLarge { size: usize, maximum: usize },
    /// The store format version is well formed but unsupported.
    UnsupportedVersion { version: u16 },
    /// The store holds more records than the supported maximum.
    CapacityExceeded { count: usize, maximum: usize },
    /// Two records bind the same authenticated key identity.
    DuplicateIdentity,
    /// The store is structurally malformed.
    MalformedStore { reason: MalformedStoreReason },
}

impl TrustedPeerStoreError {
    /// The description of the error.
    pub open spec fn text(self) -> Seq<char> {
        match self {
            TrustedPeerStoreError::ConfigDirectoryUnavailable =>
                "the local configuration directory is unavailable"@,
            TrustedPeerStoreError::InvalidStorePath { path } =>
                "trusted-peer store path has no parent: "@ + path@,
            TrustedPeerStoreError::Io { operation, path, source } => "failed to "@ + operation@
                + " at "@ + path@ + ": "@ + source@,
            TrustedPeerStoreError::NotRegularFile { path } => "trusted-peer store path "@ + path@
                + " is not a regular file"@,
            TrustedPeerStoreError::SymlinkNotAllowed { path } => "trusted-peer store path "@ + path@
                + " is a symbolic link"@,
            TrustedPeerStoreError::StoreBusy =>
                "the trusted-peer store is locked by another process"@,
            TrustedPeerStoreError::StoreTooLarge { size, maximum } => "trusted-peer store is "@
                + text::decimal(size as nat) + " bytes; maximum is "@ + text::decimal(
                maximum as nat,
            ),
            TrustedPeerStoreError::RecordTooLarge { size, maximum } => "a trusted-peer record is "@
                + text::decimal(size as nat) + " bytes; maximum is "@ + text::decimal(
                maximum as nat,
            ),
            TrustedPeerStoreError::UnsupportedVersion { version } =>
                "unsupported trusted-peer store version "@ + text::decimal(version as nat),
            TrustedPeerStoreError::CapacityExceeded { count, maximum } =>
                "trusted-peer store holds "@ + text::decimal(count as nat)
                + " records; maximum is "@ + text::decimal(maximum as nat),
            TrustedPeerStoreError::DuplicateIdentity =>
                "trusted-peer store binds one key identity more than once"@,
            TrustedPeerStoreError::MalformedStore { reason } => "malformed trusted-peer store ("@
                + reason.text() + ")"@,
        }
    }

    /// Describes the error.
    pub fn message(&self) -> (s: String)
        ensures
            s@ == self.text(),
    {
        match self {
            TrustedPeerStoreError::ConfigDirectoryUnavailable => String::from_str(
                "the local configuration directory is unavailable",
            ),
            TrustedPeerStoreError::InvalidStorePath { path } => String::from_str(
                "trusted-peer store path has no parent: ",
            ).concat(path.as_str()),
            TrustedPeerStoreError::Io { operation, path, source } => String::from_str(
                "failed to ",
            ).concat(operation).concat(" at ").concat(path.as_str()).concat(": ").concat(
                source.as_str(),
            ),
            TrustedPeerStoreError::NotRegularFile { path } => String::from_str(
                "trusted-peer store path ",
            ).concat(path.as_str()).concat(" is not a regular file"),
            TrustedPeerStoreError::SymlinkNotAllowed { path } => String::from_str(
                "trusted-peer store path ",
            ).concat(path.as_str()).concat(" is a symbolic link"),
            TrustedPeerStoreError::StoreBusy => String::from_str(
                "the trusted-peer store is locked by another process",
            ),
            TrustedPeerStoreError::StoreTooLarge { size, maximum } => String::from_str(
                "trusted-peer store is ",
            ).concat(decimal_text(*size).as_str()).concat(" bytes; maximum is ").concat(
                decimal_text(*maximum as u64).as_str(),
            ),
            TrustedPeerStoreError::RecordTooLarge { size, maximum } => String::from_str(
                "a trusted-peer record is ",
            ).concat(decimal_text(*size as u64).as_str()).concat(" bytes; maximum is ").concat(
                decimal_text(*maximum as u64).as_str(),
            ),
            TrustedPeerStoreError::UnsupportedVersion { version } => String::from_str(
                "unsupported trusted-peer store version ",
            ).concat(decimal_text(*version as u64).as_str()),
            TrustedPeerStoreError::CapacityExceeded { count, maximum } => String::from_str(
                "trusted-peer store holds ",
            ).concat(decimal_text(*count as u64).as_str()).concat(" records; maximum is ").concat(
                decimal_text(*maximum as u64).as_str(),
            ),
            TrustedPeerStoreError::DuplicateIdentity => String::from_str(
                "trusted-peer store binds one key identity more than once",
            ),
            TrustedPeerStoreError::MalformedStore { reason } => String::from_str(
                "malformed trusted-peer store (",
            ).concat(reason.as_str()).concat(")"),
        }
    }

    /// The description of the filesystem failure that caused the error.
    pub fn source(&self) -> (r: Option<&str>)
        ensures
            match (*self, r) {
                (TrustedPeerStoreError::Io { operation, path, source }, Some(text)) => text@
                    == source@,
                (TrustedPeerStoreError::Io { operation, path, source }, None) => false,
                (_, text) => text is None,
            },
    {
        match self {
            TrustedPeerStoreError::Io { source, .. } => Some(source.as_str()),
            _ => None,
        }
    }
}

/// The rejection of a store for its structure.
pub open spec fn malformed(reason: MalformedStoreReason) -> TrustedPeerStoreError {
    TrustedPeerStoreError::MalformedStore { reason }
}

/// The label field of a record: a dash, or the label's bytes in hexadecimal.
pub open spec fn label_field(label: Option<Seq<char>>) -> Seq<char> {
    match label {
        None => seq!['-'],
        Some(label) => text::hex(encode_utf8(label)),
    }
}

/// The line of a record: scheme, material and label, separated by spaces.
pub open spec fn record_line(r: TrustedRecord) -> Seq<char> {
    text::decimal(r.identity.0 as nat) + seq![' '] + text::hex(r.identity.1) + seq![' ']
        + label_field(r.label)
}

/// The header line.
pub open spec fn header_line() -> Seq<char> {
    STORE_HEADER_PREFIX@ + text::decimal(STORE_FORMAT_VERSION as nat)
}

/// The lines of a store before the final line break: the header, then the records.
pub open spec fn store_body(records: Seq<TrustedRecord>) -> Seq<char>
    decreases records.len(),
{
    if records.len() == 0 {
        header_line()
    } else {
        store_body(records.drop_last()) + seq!['\n'] + record_line(records.last())
    }
}

/// The text of a store: every line ends in a line break.
pub open spec fn store_text(records: Seq<TrustedRecord>) -> Seq<char> {
    store_body(records).push('\n')
}

/// The contents of records.
pub open spec fn record_views(records: Seq<TrustedPeerRecord>) -> Seq<TrustedRecord> {
    records.map_values(|record: TrustedPeerRecord| record@)
}

/// The version that a header line names.
pub open spec fn header_version(line: Seq<char>) -> Option<u16> {
    let n = STORE_HEADER_PREFIX@.len() as int;
    if line.len() >= n && line.take(n) == STORE_HEADER_PREFIX@ {
        text::canonical_decimal(encode_utf8(line.skip(n)))
    } else {
        None
    }
}

/// Why a header line is refused, if it is.
pub open spec fn header_error(line: Seq<char>) -> Option<TrustedPeerStoreError> {
    match header_version(line) {
        None => Some(malformed(MalformedStoreReason::Header)),
        Some(version) => if version != STORE_FORMAT_VERSION {
            Some(TrustedPeerStoreError::UnsupportedVersion { version })
        } else {
            None
        },
    }
}

/// The label in a label field, or why there is none to have.
pub open spec fn label_in(field: Seq<char>) -> Result<Option<Seq<char>>, MalformedStoreReason> {
    if field == seq!['-'] {
        Ok(None)
    } else if encode_utf8(field).len() > MAX_TRUSTED_PEER_LABEL_BYTES * 2 {
        Err(MalformedStoreReason::LabelValue)
    } else {
        match text::unhex(field) {
            None => Err(MalformedStoreReason::LabelEncoding),
            Some(bytes) => if !valid_utf8(bytes) {
                Err(MalformedStoreReason::LabelEncoding)
            } else {
                match label_of(decode_utf8(bytes)) {
                    Ok(label) => Ok(Some(label)),
                    Err(_) => Err(MalformedStoreReason::LabelValue),
                }
            },
        }
    }
}

/// The identity in a scheme field and a material field, or why there is none.
pub open spec fn identity_in(scheme: Seq<char>, material: Seq<char>) -> Result<
    (u16, Seq<u8>),
    MalformedStoreReason,
> {
    match text::canonical_decimal(encode_utf8(scheme)) {
        None => Err(MalformedStoreReason::RecordSyntax),
        Some(number) => if encode_utf8(material).len() > MAX_PEER_IDENTITY_BYTES * 2 {
            Err(MalformedStoreReason::IdentityBounds)
        } else {
            match text::unhex(material) {
                None => Err(MalformedStoreReason::IdentityEncoding),
                Some(bytes) => Ok((number, bytes)),
            }
        },
    }
}

/// The record that a line holds, or the first reason for which it holds none.
pub open spec fn record_of(line: Seq<char>) -> Result<TrustedRecord, TrustedPeerStoreError> {
    if encode_utf8(line).len() > MAX_RECORD_LINE_BYTES {
        Err(
            TrustedPeerStoreError::RecordTooLarge {
                size: encode_utf8(line).len() as usize,
                maximum: MAX_RECORD_LINE_BYTES,
            },
        )
    } else {
        let fields = text::split(line, ' ');
        if fields.len() != 3 {
            Err(malformed(MalformedStoreReason::RecordSyntax))
        } else {
            match (identity_in(fields[0], fields[1]), label_in(fields[2])) {
                (Err(reason), _) => Err(malformed(reason)),
                (Ok(_), Err(reason)) => Err(malformed(reason)),
                (Ok(identity), Ok(label)) => Ok(TrustedRecord { identity, label }),
            }
        }
    }
}

/// Holds a header line to the supported version.
fn parse_header(line: &str) -> (r: Result<(), TrustedPeerStoreError>)
    ensures
        match header_error(line@) {
            Some(error) => r == Err::<(), TrustedPeerStoreError>(error),
            None => r is Ok,
        },
{
    let chars = chars_of(line);
    let prefix = chars_of(STORE_HEADER_PREFIX);
    if chars.len() < prefix.len() {
        return Err(
            TrustedPeerStoreError::MalformedStore { reason: MalformedStoreReason::Header },
        );
    }
    let (start, rest) = chars.as_slice().split_at(prefix.len());
    assert(start@ =~= line@.take(STORE_HEADER_PREFIX@.len() as int));
    assert(rest@ =~= line@.skip(STORE_HEADER_PREFIX@.len() as int));
    if !same_text(text_of(start).as_str(), STORE_HEADER_PREFIX) {
        return Err(
            TrustedPeerStoreError::MalformedStore { reason: MalformedStoreReason::Header },
        );
    }
    match parse_canonical_decimal(text_of(rest).as_str().as_bytes()) {
        Some(version) => if version != STORE_FORMAT_VERSION {
            Err(TrustedPeerStoreError::UnsupportedVersion { version })
        } else {
            Ok(())
        },
        None => Err(TrustedPeerStoreError::MalformedStore { reason: MalformedStoreReason::Header }),
    }
}

/// Reads the identity of a record.
fn parse_identity(scheme: &str, material: &str) -> (r: Result<
    PeerKeyIdentity,
    MalformedStoreReason,
>)
    ensures
        match identity_in(scheme@, material@) {
            Ok(identity) => r is Ok && r->Ok_0@ == identity,
            Err(reason) => r == Err::<PeerKeyIdentity, MalformedStoreReason>(reason),
        },
{
    let number: u16 = match parse_canonical_decimal(scheme.as_bytes()) {
        Some(number) => number,
        None => return Err(MalformedStoreReason::RecordSyntax),
    };
    if byte_len(material) > MAX_PEER_IDENTITY_BYTES * 2 {
        return Err(MalformedStoreReason::IdentityBounds);
    }
    let bytes = match decode_hex(material) {
        Some(bytes) => bytes,
        None => return Err(MalformedStoreReason::IdentityEncoding),
    };
    proof {
        lemma_unhex_bounds(material@);
    }
    match PeerKeyIdentity::new(number, bytes) {
        Ok(identity) => Ok(identity),
        Err(_) => Err(MalformedStoreReason::IdentityBounds),
    }
}

/// The bytes of a hexadecimal text are half as many as its own.
proof fn lemma_unhex_bounds(s: Seq<char>)
    ensures
        text::unhex(s) matches Some(bytes) ==> bytes.len() > 0 && 2 * bytes.len() == s.len()
            && encode_utf8(s).len() == s.len(),
{
    if let Some(bytes) = text::unhex(s) {
        assert(s == text::hex(bytes));
        text::lemma_hex_digits(bytes);
        assert(is_ascii_chars(s));
        is_ascii_chars_encode_utf8(s);
    }
}

/// Reads the label of a record.
fn parse_label(field: &str) -> (r: Result<Option<TrustedPeerLabel>, MalformedStoreReason>)
    ensures
        match (label_in(field@), r) {
            (Ok(Some(expected)), Ok(Some(label))) => label@ == expected,
            (Ok(None), Ok(None)) => true,
            (Err(expected), Err(reason)) => reason == expected,
            _ => false,
        },
{
    proof {
        reveal_strlit("-");
        assert("-"@ =~= seq!['-']);
    }
    if same_text(field, "-") {
        return Ok(None);
    }
    if byte_len(field) > MAX_TRUSTED_PEER_LABEL_BYTES * 2 {
        return Err(MalformedStoreReason::LabelValue);
    }
    let bytes = match decode_hex(field) {
        Some(bytes) => bytes,
        None => return Err(MalformedStoreReason::LabelEncoding),
    };
    let decoded = match decode_text(bytes.as_slice()) {
        Some(decoded) => decoded,
        None => return Err(MalformedStoreReason::LabelEncoding),
    };
    match TrustedPeerLabel::new(decoded.as_str()) {
        Ok(label) => Ok(Some(label)),
        Err(_) => Err(MalformedStoreReason::LabelValue),
    }
}

/// Reads one record line.
pub fn parse_record(line: &str) -> (r: Result<TrustedPeerRecord, TrustedPeerStoreError>)
    ensures
        match record_of(line@) {
            Ok(record) => r is Ok && r->Ok_0@ == record,
            Err(error) => r == Err::<TrustedPeerRecord, TrustedPeerStoreError>(error),
        },
{
    let size = byte_len(line);
    if size > MAX_RECORD_LINE_BYTES {
        return Err(TrustedPeerStoreError::RecordTooLarge { size, maximum: MAX_RECORD_LINE_BYTES });
    }
    let fields = split_text(line, ' ');
    proof {
        assert(text::text_views(fields@).len() == fields@.len());
    }
    if fields.len() != 3 {
        return Err(
            TrustedPeerStoreError::MalformedStore { reason: MalformedStoreReason::RecordSyntax },
        );
    }
    assert(text::split(line@, ' ')[0] == fields@[0]@);
    assert(text::split(line@, ' ')[1] == fields@[1]@);
    assert(text::split(line@, ' ')[2] == fields@[2]@);
    let identity = match parse_identity(fields[0].as_str(), fields[1].as_str()) {
        Ok(identity) => identity,
        Err(reason) => return Err(TrustedPeerStoreError::MalformedStore { reason }),
    };
    match parse_label(fields[2].as_str()) {
        Ok(label) => Ok(TrustedPeerRecord::new(identity, label)),
        Err(reason) => Err(TrustedPeerStoreError::MalformedStore { reason }),
    }
}

/// The order of records, which is that of their identities.
pub open spec fn record_order() -> spec_fn(TrustedRecord, TrustedRecord) -> bool {
    |a: TrustedRecord, b: TrustedRecord| identity_less(a.identity, b.identity)
}

/// The order of records is a strict order.
pub proof fn lemma_record_order_is_strict()
    ensures
        ordered::is_strict_order(record_order()),
{
    let less = record_order();
    assert forall|a: TrustedRecord| !(#[trigger] less(a, a)) by {
        text::lemma_bytes_order(a.identity.1, a.identity.1);
    }
    assert forall|a: TrustedRecord, b: TrustedRecord, c: TrustedRecord| #[trigger]
        less(a, b) && #[trigger] less(b, c) implies less(a, c) by {
        if a.identity.0 == b.identity.0 && b.identity.0 == c.identity.0 {
            text::lemma_lex_less_transitive(
                text::octets(a.identity.1),
                text::octets(b.identity.1),
                text::octets(c.identity.1),
            );
        }
    }
}

/// Exactly one of equality and the two orders holds of any two identities.
pub proof fn lemma_identity_order(a: (u16, Seq<u8>), b: (u16, Seq<u8>))
    ensures
        a == b || identity_less(a, b) || identity_less(b, a),
        !identity_less(a, a),
        !(identity_less(a, b) && identity_less(b, a)),
{
    text::lemma_bytes_order(a.1, b.1);
}

/// Two of the records bind the same identity.
pub open spec fn has_duplicate(records: Seq<TrustedRecord>) -> bool {
    exists|i: int, j: int|
        0 <= i < j < records.len() && (#[trigger] records[i]).identity == (
        #[trigger] records[j]).identity
}

/// The records in the order of their identities.
pub open spec fn record_listing(records: Seq<TrustedRecord>) -> Seq<TrustedRecord> {
    choose|s: Seq<TrustedRecord>| ordered::is_listing(s, records, record_order())
}

/// The records that lines hold, or the error of the first line that holds none.
pub open spec fn records_of(lines: Seq<Seq<char>>) -> Result<
    Seq<TrustedRecord>,
    TrustedPeerStoreError,
>
    decreases lines.len(),
{
    if lines.len() == 0 {
        Ok(Seq::empty())
    } else {
        match records_of(lines.drop_last()) {
            Err(error) => Err(error),
            Ok(records) => match record_of(lines.last()) {
                Err(error) => Err(error),
                Ok(record) => Ok(records.push(record)),
            },
        }
    }
}

/// The records that the lines of a store hold, the header first.
pub open spec fn store_lines_of(lines: Seq<Seq<char>>) -> Result<
    Seq<TrustedRecord>,
    TrustedPeerStoreError,
> {
    match header_error(lines[0]) {
        Some(error) => Err(error),
        None => if lines.len() - 1 > MAX_TRUSTED_PEERS {
            Err(
                TrustedPeerStoreError::CapacityExceeded {
                    count: (lines.len() - 1) as usize,
                    maximum: MAX_TRUSTED_PEERS,
                },
            )
        } else {
            match records_of(lines.skip(1)) {
                Err(error) => Err(error),
                Ok(records) => if has_duplicate(records) {
                    Err(TrustedPeerStoreError::DuplicateIdentity)
                } else {
                    Ok(record_listing(records))
                },
            }
        },
    }
}

/// The records that the bytes of a store hold, ordered by identity, or the first
/// reason for which they hold none.
pub open spec fn store_of(bytes: Seq<u8>) -> Result<Seq<TrustedRecord>, TrustedPeerStoreError> {
    if bytes.len() > MAX_TRUSTED_PEERS_STORE_BYTES {
        Err(
            TrustedPeerStoreError::StoreTooLarge {
                size: bytes.len() as u64,
                maximum: MAX_TRUSTED_PEERS_STORE_BYTES,
            },
        )
    } else if !valid_utf8(bytes) {
        Err(malformed(MalformedStoreReason::NotUtf8))
    } else {
        let contents = decode_utf8(bytes);
        if contents.len() == 0 || contents.last() != '\n' {
            Err(malformed(MalformedStoreReason::Header))
        } else {
            store_lines_of(text::split(contents.drop_last(), '\n'))
        }
    }
}

/// What holds of every set of trusted peers: valid records, no more than the limit,
/// in the order of their distinct identities.
pub open spec fn is_peer_set(records: Seq<TrustedRecord>) -> bool {
    &&& records.len() <= MAX_TRUSTED_PEERS
    &&& ordered::ascends(records, record_order())
    &&& forall|i: int| 0 <= i < records.len() ==> is_record(#[trigger] records[i])
}

/// A fully validated, deduplicated set of trusted-peer records.
///
/// Every record has a distinct [`PeerKeyIdentity`]; records are ordered by that
/// identity for deterministic output. Lookup keys on the identity only, never on
/// the label.
#[derive(Debug, PartialEq, Eq)]
pub struct TrustedPeers {
    records: Vec<TrustedPeerRecord>,
}

impl View for TrustedPeers {
    type V = Seq<TrustedRecord>;

    closed spec fn view(&self) -> Seq<TrustedRecord> {
        record_views(self.records@)
    }
}

impl Clone for TrustedPeers {
    fn clone(&self) -> (r: Self)
        ensures
            r@ == self@,
    {
        proof {
            use_type_invariant(self);
        }
        let mut records: Vec<TrustedPeerRecord> = Vec::new();
        let mut i: usize = 0;
        while i < self.records.len()
            invariant
                i <= self.records.len(),
                records@.len() == i,
                forall|j: int| 0 <= j < i ==> (#[trigger] records@[j])@ == self.records@[j]@,
            decreases self.records.len() - i,
        {
            records.push(self.records[i].clone());
            i = i + 1;
        }
        assert(record_views(records@) =~= self@);
        TrustedPeers { records }
    }
}

impl TrustedPeers {
    #[verifier::type_invariant]
    spec fn well_formed(self) -> bool {
        is_peer_set(self@)
    }

    /// A set without records.
    pub fn empty() -> (r: Self)
        ensures
            r@ == Seq::<TrustedRecord>::empty(),
    {
        let records: Vec<TrustedPeerRecord> = Vec::new();
        assert(record_views(records@) =~= Seq::<TrustedRecord>::empty());
        TrustedPeers { records }
    }

    /// Returns the number of trusted-peer records.
    #[must_use]
    pub fn len(&self) -> (n: usize)
        ensures
            n == self@.len(),
            is_peer_set(self@),
    {
        proof {
            use_type_invariant(self);
        }
        self.records.len()
    }

    /// Reports whether no trusted-peer records are present.
    #[must_use]
    pub fn is_empty(&self) -> (r: bool)
        ensures
            r == (self@.len() == 0),
    {
        self.records.len() == 0
    }

    /// Returns the records in deterministic key-identity order.
    pub fn iter(&self) -> (r: &[TrustedPeerRecord])
        ensures
            record_views(r@) == self@,
            is_peer_set(self@),
    {
        proof {
            use_type_invariant(self);
        }
        self.records.as_slice()
    }

    /// Returns the record for an authenticated key identity, if trusted.
    #[must_use]
    pub fn get(&self, identity: &PeerKeyIdentity) -> (r: Option<&TrustedPeerRecord>)
        ensures
            match r {
                Some(record) => self@.contains(record@) && record@.identity == identity@,
                None => !binds(self@, identity@),
            },
    {
        proof {
            use_type_invariant(self);
        }
        let ghost views = self@;
        let mut low: usize = 0;
        let mut high: usize = self.records.len();
        while low < high
            invariant
                low <= high <= self.records.len(),
                views == record_views(self.records@),
                ordered::ascends(views, record_order()),
                forall|i: int| 0 <= i < low ==> identity_less((#[trigger] views[i]).identity, identity@),
                forall|i: int|
                    high <= i < views.len() ==> identity_less(
                        identity@,
                        (#[trigger] views[i]).identity,
                    ),
            decreases high - low,
        {
            let mid: usize = low + (high - low) / 2;
            let record = &self.records[mid];
            assert(views[mid as int] == record@);
            if record.identity == *identity {
                return Some(record);
            }
            proof {
                lemma_identity_order(record@.identity, identity@);
                lemma_record_order_is_strict();
            }
            if record.identity.precedes(identity) {
                proof {
                    let less = record_order();
                    let probe = TrustedRecord { identity: identity@, label: None };
                    assert forall|i: int| 0 <= i < mid + 1 implies identity_less(
                        (#[trigger] views[i]).identity,
                        identity@,
                    ) by {
                        assert(less(views[mid as int], probe));
                        if i < mid {
                            assert(less(views[i], views[mid as int]));
                            assert(less(views[i], probe));
                        }
                    }
                }
                low = mid + 1;
            } else {
                proof {
                    let less = record_order();
                    let probe = TrustedRecord { identity: identity@, label: None };
                    assert forall|i: int| mid <= i < views.len() implies identity_less(
                        identity@,
                        (#[trigger] views[i]).identity,
                    ) by {
                        assert(less(probe, views[mid as int]));
                        if i > mid {
                            assert(less(views[mid as int], views[i]));
                            assert(less(probe, views[i]));
                        }
                    }
                }
                high = mid;
            }
        }
        proof {
            assert forall|i: int| 0 <= i < views.len() implies (#[trigger] views[i]).identity
                != identity@ by {
                lemma_identity_order(views[i].identity, identity@);
            }
        }
        None
    }

    /// Reports whether an authenticated key identity is trusted.
    #[must_use]
    pub fn contains(&self, identity: &PeerKeyIdentity) -> (r: bool)
        ensures
            r == binds(self@, identity@),
    {
        self.get(identity).is_some()
    }
}

/// A record of the set binds the identity.
pub open spec fn binds(records: Seq<TrustedRecord>, identity: (u16, Seq<u8>)) -> bool {
    exists|i: int| 0 <= i < records.len() && (#[trigger] records[i]).identity == identity
}

/// Sorts records by identity, unless two bind the same one.
fn sort_records(records: &[TrustedPeerRecord]) -> (r: Option<Vec<TrustedPeerRecord>>)
    ensures
        match r {
            Some(sorted) => {
                &&& !has_duplicate(record_views(records@))
                &&& record_views(sorted@) == record_listing(record_views(records@))
                &&& ordered::is_listing(
                    record_views(sorted@),
                    record_views(records@),
                    record_order(),
                )
                &&& sorted@.len() == records@.len()
            },
            None => has_duplicate(record_views(records@)),
        },
{
    let ghost views = record_views(records@);
    let ghost less = record_order();
    let mut sorted: Vec<TrustedPeerRecord> = Vec::new();
    let mut n: usize = 0;
    proof {
        lemma_record_order_is_strict();
        assert(record_views(sorted@) =~= Seq::<TrustedRecord>::empty());
        assert(views.take(0) =~= Seq::<TrustedRecord>::empty());
    }
    while n < records.len()
        invariant
            n <= records.len(),
            views == record_views(records@),
            less == record_order(),
            ordered::is_strict_order(less),
            ordered::is_listing(record_views(sorted@), views.take(n as int), less),
            sorted@.len() == n,
            !has_duplicate(views.take(n as int)),
        decreases records.len() - n,
    {
        let record = &records[n];
        let ghost before = record_views(sorted@);
        let ghost e = record@;
        let mut k: usize = 0;
        while k < sorted.len() && sorted[k].identity.precedes(&record.identity)
            invariant
                k <= sorted.len(),
                before == record_views(sorted@),
                e == record@,
                less == record_order(),
                forall|i: int| 0 <= i < k ==> less(#[trigger] before[i], e),
            decreases sorted.len() - k,
        {
            assert(before[k as int] == sorted@[k as int]@);
            k = k + 1;
        }
        assert(views[n as int] == e);
        assert(views.take(n + 1) =~= views.take(n as int).push(e));
        proof {
            if k < sorted.len() {
                assert(before[k as int] == sorted@[k as int]@);
                lemma_identity_order(before[k as int].identity, e.identity);
            }
        }
        if k < sorted.len() && sorted[k].identity == record.identity {
            proof {
                assert(before.contains(before[k as int]));
                assert(views.take(n as int).contains(before[k as int]));
                let j = choose|j: int|
                    0 <= j < n && views.take(n as int)[j] == before[k as int];
                assert(views[j].identity == views[n as int].identity);
            }
            return None;
        }
        proof {
            ordered::lemma_insert(before, k as int, e, less);
            ordered::lemma_push_contains(views.take(n as int), e);
        }
        sorted.insert(k, record.clone());
        proof {
            assert(record_views(sorted@) =~= before.insert(k as int, e));
            let after = before.insert(k as int, e);
            if has_duplicate(views.take(n + 1)) {
                let taken = views.take(n + 1);
                let (i, j) = choose|i: int, j: int|
                    0 <= i < j < taken.len() && (#[trigger] taken[i]).identity == (
                    #[trigger] taken[j]).identity;
                if j < n {
                    assert(views.take(n as int)[i].identity == views.take(n as int)[j].identity);
                } else {
                    assert(views.take(n as int).contains(views.take(n as int)[i]));
                    assert(before.contains(taken[i]));
                    let m = choose|m: int| 0 <= m < before.len() && before[m] == taken[i];
                    lemma_identity_order(e.identity, e.identity);
                    if m < k {
                        assert(less(before[m], e));
                    } else {
                        assert(after[m + 1] == before[m] && after[k as int] == e);
                        assert(less(after[k as int], after[m + 1]));
                    }
                }
            }
        }
        n = n + 1;
    }
    proof {
        assert(views.take(n as int) =~= views);
        let other = record_listing(views);
        assert(ordered::is_listing(other, views, less));
        assert(forall|x: TrustedRecord| #[trigger]
            other.contains(x) <==> record_views(sorted@).contains(x));
        ordered::lemma_ascending_equal(record_views(sorted@), other, less);
    }
    Some(sorted)
}

/// Encodes the records as a header line, then one line of scheme, material and label
/// each. Hexadecimal makes parsing canonical and delimiter-free; it provides no
/// confidentiality. Callers pass records with distinct identities; the lines are sorted
/// by identity for stable output.
pub fn encode(records: &[TrustedPeerRecord]) -> (r: Vec<u8>)
    requires
        !has_duplicate(record_views(records@)),
    ensures
        r@ == encode_utf8(store_text(record_listing(record_views(records@)))),
{
    let sorted = match sort_records(records) {
        Some(sorted) => sorted,
        None => Vec::new(),
    };
    let ghost views = record_views(sorted@);
    let mut out = String::from_str(STORE_HEADER_PREFIX).concat(
        decimal_text(STORE_FORMAT_VERSION as u64).as_str(),
    );
    let mut i: usize = 0;
    while i < sorted.len()
        invariant
            i <= sorted.len(),
            views == record_views(sorted@),
            out@ == store_body(views.take(i as int)),
        decreases sorted.len() - i,
    {
        let record = &sorted[i];
        assert(views.take(i + 1).drop_last() =~= views.take(i as int));
        assert(views[i as int] == record@);
        let mut line = decimal_text(record.identity.scheme as u64);
        line.push(' ');
        line.append(hex_text(record.identity.material.as_slice()).as_str());
        line.push(' ');
        match &record.label {
            None => line.push('-'),
            Some(label) => line.append(hex_text(label.as_str().as_bytes()).as_str()),
        }
        assert(line@ =~= record_line(record@));
        out.push('\n');
        out.append(line.as_str());
        assert(out@ =~= store_body(views.take(i + 1)));
        i = i + 1;
    }
    assert(views.take(i as int) =~= views);
    out.push('\n');
    vstd::slice::slice_to_vec(out.as_str().as_bytes())
}

/// Every record that a line holds is valid.
pub proof fn read_record_is_valid(line: Seq<char>)
    requires
        record_of(line) is Ok,
    ensures
        is_record(record_of(line)->Ok_0),
{
    let fields = text::split(line, ' ');
    lemma_unhex_bounds(fields[1]);
    if fields[2] != seq!['-'] {
        let bytes = text::unhex(fields[2])->0;
        label_is_normal(decode_utf8(bytes));
    }
}

/// An error among the first lines is the first error of all of them.
proof fn lemma_first_record_error(lines: Seq<Seq<char>>, k: int)
    requires
        0 <= k <= lines.len(),
        records_of(lines.take(k)) is Err,
    ensures
        records_of(lines) == records_of(lines.take(k)),
    decreases lines.len() - k,
{
    if k < lines.len() {
        assert(lines.take(k + 1).drop_last() =~= lines.take(k));
        lemma_first_record_error(lines, k + 1);
    } else {
        assert(lines.take(k) =~= lines);
    }
}

/// Reads and validates a whole store.
pub fn decode(bytes: &[u8]) -> (r: Result<TrustedPeers, TrustedPeerStoreError>)
    ensures
        match store_of(bytes@) {
            Ok(records) => r is Ok && r->Ok_0@ == records && is_peer_set(records),
            Err(error) => r == Err::<TrustedPeers, TrustedPeerStoreError>(error),
        },
{
    if bytes.len() > MAX_TRUSTED_PEERS_STORE_BYTES {
        return Err(
            TrustedPeerStoreError::StoreTooLarge {
                size: bytes.len() as u64,
                maximum: MAX_TRUSTED_PEERS_STORE_BYTES,
            },
        );
    }
    let contents = match decode_text(bytes) {
        Some(contents) => contents,
        None => return Err(
            TrustedPeerStoreError::MalformedStore { reason: MalformedStoreReason::NotUtf8 },
        ),
    };
    let mut chars = chars_of(contents.as_str());
    let last = chars.pop();
    if last != Some('\n') {
        return Err(
            TrustedPeerStoreError::MalformedStore { reason: MalformedStoreReason::Header },
        );
    }
    assert(chars@ =~= contents@.drop_last());
    let body = text_of(chars.as_slice());
    let lines = split_text(body.as_str(), '\n');
    let ghost parts = text::split(body@, '\n');
    proof {
        assert(text::text_views(lines@).len() == lines@.len());
        assert(parts[0] == lines@[0]@);
    }
    if let Err(error) = parse_header(lines[0].as_str()) {
        return Err(error);
    }
    let count: usize = lines.len() - 1;
    if count > MAX_TRUSTED_PEERS {
        return Err(TrustedPeerStoreError::CapacityExceeded { count, maximum: MAX_TRUSTED_PEERS });
    }
    let ghost record_parts = parts.skip(1);
    let mut records: Vec<TrustedPeerRecord> = Vec::new();
    let mut i: usize = 0;
    proof {
        assert(record_views(records@) =~= Seq::<TrustedRecord>::empty());
        assert(record_parts.take(0) =~= Seq::<Seq<char>>::empty());
    }
    while i < count
        invariant
            i <= count,
            count == lines@.len() - 1,
            count <= MAX_TRUSTED_PEERS,
            parts == text::text_views(lines@),
            record_parts == parts.skip(1),
            store_of(bytes@) == store_lines_of(parts),
            header_error(parts[0]) is None,
            records@.len() == i,
            records_of(record_parts.take(i as int)) == Ok::<
                Seq<TrustedRecord>,
                TrustedPeerStoreError,
            >(record_views(records@)),
            forall|j: int|
                0 <= j < i ==> is_record(#[trigger] record_views(records@)[j]),
        decreases count - i,
    {
        let line = &lines[i + 1];
        let ghost before = record_views(records@);
        proof {
            assert(record_parts[i as int] == line@);
            assert(record_parts.take(i + 1).drop_last() =~= record_parts.take(i as int));
            assert(record_parts.take(i + 1).last() == line@);
        }
        match parse_record(line.as_str()) {
            Ok(record) => {
                proof {
                    read_record_is_valid(line@);
                }
                let ghost e = record@;
                records.push(record);
                assert(record_views(records@) =~= before.push(e));
            },
            Err(error) => {
                proof {
                    lemma_first_record_error(record_parts, i + 1);
                }
                return Err(error);
            },
        }
        i = i + 1;
    }
    assert(record_parts.take(i as int) =~= record_parts);
    match sort_records(records.as_slice()) {
        Some(sorted) => {
            proof {
                let views = record_views(records@);
                let after = record_views(sorted@);
                assert forall|j: int| 0 <= j < after.len() implies is_record(
                    #[trigger] after[j],
                ) by {
                    assert(after.contains(after[j]));
                    assert(views.contains(after[j]));
                    let m = choose|m: int| 0 <= m < views.len() && views[m] == after[j];
                    assert(is_record(views[m]));
                }
            }
            Ok(TrustedPeers { records: sorted })
        },
        None => Err(TrustedPeerStoreError::DuplicateIdentity),
    }
}

/// The fields of a record hold neither spaces nor line breaks, and they are ASCII.
proof fn lemma_record_fields(r: TrustedRecord)
    requires
        is_record(r),
    ensures
        text::decimal(r.identity.0 as nat).len() <= 5,
        text::hex(r.identity.1).len() <= 128,
        label_field(r.label).len() <= 512,
        is_ascii_chars(record_line(r)),
        record_line(r).len() <= MAX_RECORD_LINE_BYTES,
        forall|i: int|
            0 <= i < text::decimal(r.identity.0 as nat).len() ==> text::decimal(
                r.identity.0 as nat,
            )[i] != ' ',
        forall|i: int| 0 <= i < text::hex(r.identity.1).len() ==> text::hex(r.identity.1)[i] != ' ',
        forall|i: int|
            0 <= i < label_field(r.label).len() ==> label_field(r.label)[i] != ' ',
        forall|i: int| 0 <= i < record_line(r).len() ==> record_line(r)[i] != '\n',
{
    let scheme = text::decimal(r.identity.0 as nat);
    let material = text::hex(r.identity.1);
    let label = label_field(r.label);
    let line = record_line(r);
    text::lemma_decimal_digits(r.identity.0 as nat);
    text::lemma_decimal_len(r.identity.0 as nat);
    text::lemma_hex_digits(r.identity.1);
    if let Some(value) = r.label {
        text::lemma_hex_digits(encode_utf8(value));
        text::lemma_encode_utf8_bound(value);
    }
    assert forall|i: int| 0 <= i < scheme.len() implies scheme[i] != ' ' by {
        assert('0' <= scheme[i] <= '9');
    }
    assert forall|i: int| 0 <= i < line.len() implies '\0' <= #[trigger] line[i] <= '\u{7f}'
        && line[i] != '\n' by {
        let a = scheme.len() as int;
        let b = a + 1 + material.len();
        if i < a {
            assert(line[i] == scheme[i]);
            assert('0' <= scheme[i] <= '9');
        } else if i == a {
            assert(line[i] == ' ');
        } else if i < b {
            assert(line[i] == material[i - a - 1]);
        } else if i == b {
            assert(line[i] == ' ');
        } else {
            assert(line[i] == label[i - b - 1]);
        }
    }
}

/// A record reads back from its line.
pub proof fn record_round_trip(r: TrustedRecord)
    requires
        is_record(r),
    ensures
        record_of(record_line(r)) == Ok::<TrustedRecord, TrustedPeerStoreError>(r),
{
    lemma_record_fields(r);
    let scheme = text::decimal(r.identity.0 as nat);
    let material = text::hex(r.identity.1);
    let label = label_field(r.label);
    let line = record_line(r);
    is_ascii_chars_encode_utf8(line);
    assert(!scheme.contains(' '));
    assert(!material.contains(' '));
    assert(!label.contains(' '));
    text::lemma_split_one(scheme, ' ');
    text::lemma_split_append(scheme, material, ' ');
    text::lemma_split_append(scheme + seq![' '] + material, label, ' ');
    let fields = text::split(line, ' ');
    assert(fields =~= seq![scheme, material, label]);
    text::lemma_canonical_decimal(r.identity.0);
    text::lemma_unhex(r.identity.1);
    lemma_unhex_bounds(material);
    assert(identity_in(scheme, material) == Ok::<(u16, Seq<u8>), MalformedStoreReason>(r.identity));
    if let Some(value) = r.label {
        let bytes = encode_utf8(value);
        assert(bytes.len() > 0) by {
            text::lemma_encode_utf8_prefix(value, 0, value.len() as int);
            assert(value.take(value.len() as int) =~= value);
        }
        text::lemma_unhex(bytes);
        lemma_unhex_bounds(label);
        encode_utf8_valid_utf8(value);
        encode_utf8_decode_utf8(value);
        assert(label.len() >= 2);
        assert(label_of(value) == Ok::<Seq<char>, TrustedPeerLabelError>(value));
    }
}

/// The lines of a store are the header and the lines of its records.
proof fn lemma_store_lines(records: Seq<TrustedRecord>)
    requires
        forall|i: int| 0 <= i < records.len() ==> is_record(#[trigger] records[i]),
    ensures
        text::split(store_body(records), '\n') == seq![header_line()] + records.map_values(
            |r: TrustedRecord| record_line(r),
        ),
        is_ascii_chars(store_body(records)),
        store_body(records).len() == 31 + lines_size(records),
        records_of(records.map_values(|r: TrustedRecord| record_line(r))) == Ok::<
            Seq<TrustedRecord>,
            TrustedPeerStoreError,
        >(records),
    decreases records.len(),
{
    let lines = records.map_values(|r: TrustedRecord| record_line(r));
    if records.len() == 0 {
        lemma_header_line();
        text::lemma_split_one(header_line(), '\n');
        assert(text::split(store_body(records), '\n') =~= seq![header_line()] + lines);
        assert(records =~= Seq::<TrustedRecord>::empty());
    } else {
        let rest = records.drop_last();
        let r = records.last();
        assert forall|i: int| 0 <= i < rest.len() implies is_record(#[trigger] rest[i]) by {
            assert(rest[i] == records[i]);
        }
        lemma_store_lines(rest);
        assert(is_record(records[records.len() - 1]));
        lemma_record_fields(r);
        record_round_trip(r);
        assert(!record_line(r).contains('\n'));
        text::lemma_split_append(store_body(rest), record_line(r), '\n');
        let rest_lines = rest.map_values(|r: TrustedRecord| record_line(r));
        assert(lines.drop_last() =~= rest_lines);
        assert(rest.push(r) =~= records);
        assert(text::split(store_body(records), '\n') =~= seq![header_line()] + lines);
        let body = store_body(records);
        let n = store_body(rest).len() as int;
        assert forall|i: int| 0 <= i < body.len() implies '\0' <= #[trigger] body[i]
            <= '\u{7f}' by {
            if i < n {
                assert(body[i] == store_body(rest)[i]);
            } else if i > n {
                assert(body[i] == record_line(r)[i - n - 1]);
            }
        }
    }
}

/// The header line is what the header check accepts.
proof fn lemma_header_line()
    ensures
        header_error(header_line()) is None,
        header_line().len() == 31,
        is_ascii_chars(header_line()),
        !header_line().contains('\n'),
{
    reveal_strlit("local-transfer-trusted-peers v");
    let n = STORE_HEADER_PREFIX@.len() as int;
    assert(header_line().take(n) =~= STORE_HEADER_PREFIX@);
    assert(header_line().skip(n) =~= text::decimal(STORE_FORMAT_VERSION as nat));
    text::lemma_canonical_decimal(STORE_FORMAT_VERSION);
    text::lemma_decimal_digits(STORE_FORMAT_VERSION as nat);
    let h = header_line();
    assert forall|i: int| 0 <= i < h.len() implies '\0' <= #[trigger] h[i] <= '\u{7f}' && h[i]
        != '\n' by {
        if i < n {
            assert(h[i] == STORE_HEADER_PREFIX@[i]);
        } else {
            assert(h[i] == text::decimal(STORE_FORMAT_VERSION as nat)[i - n]);
        }
    }
}

/// The size of the lines of records, each with its line break.
pub open spec fn lines_size(records: Seq<TrustedRecord>) -> nat
    decreases records.len(),
{
    if records.len() == 0 {
        0
    } else {
        lines_size(records.drop_last()) + 1 + record_line(records.last()).len()
    }
}

/// The bytes of a store are its header line and its record lines.
proof fn lemma_store_size(records: Seq<TrustedRecord>)
    requires
        forall|i: int| 0 <= i < records.len() ==> is_record(#[trigger] records[i]),
    ensures
        encode_utf8(store_text(records)).len() == 32 + lines_size(records),
        is_ascii_chars(store_text(records)),
{
    lemma_store_lines(records);
    let contents = store_text(records);
    let body = store_body(records);
    assert forall|i: int| 0 <= i < contents.len() implies '\0' <= #[trigger] contents[i]
        <= '\u{7f}' by {
        if i < body.len() {
            assert(contents[i] == body[i]);
        }
    }
    is_ascii_chars_encode_utf8(contents);
}

/// The set fits the byte budget of the store.
pub open spec fn fits_budget(records: Seq<TrustedRecord>) -> bool {
    encode_utf8(store_text(records)).len() <= MAX_TRUSTED_PEERS_STORE_BYTES
}

/// A set of trusted peers whose store bytes fit the budget reads back from them.
pub proof fn store_round_trip(records: Seq<TrustedRecord>)
    requires
        is_peer_set(records),
        fits_budget(records),
    ensures
        store_of(encode_utf8(store_text(records))) == Ok::<
            Seq<TrustedRecord>,
            TrustedPeerStoreError,
        >(records),
{
    lemma_store_lines(records);
    lemma_store_size(records);
    lemma_header_line();
    let contents = store_text(records);
    let body = store_body(records);
    let lines = records.map_values(|r: TrustedRecord| record_line(r));
    encode_utf8_valid_utf8(contents);
    encode_utf8_decode_utf8(contents);
    assert(contents.drop_last() =~= body);
    let parts = text::split(body, '\n');
    assert(parts.skip(1) =~= lines);
    assert(parts[0] == header_line());
    lemma_ascending_has_no_duplicate(records);
    lemma_record_order_is_strict();
    assert(ordered::is_listing(records, records, record_order()));
    let listing = record_listing(records);
    assert(ordered::is_listing(listing, records, record_order()));
    ordered::lemma_ascending_equal(listing, records, record_order());
}

/// Ascending records bind distinct identities.
proof fn lemma_ascending_has_no_duplicate(records: Seq<TrustedRecord>)
    requires
        ordered::ascends(records, record_order()),
    ensures
        !has_duplicate(records),
{
    let less = record_order();
    assert forall|i: int, j: int| 0 <= i < j < records.len() implies (
    #[trigger] records[i]).identity != (#[trigger] records[j]).identity by {
        assert(less(records[i], records[j]));
        lemma_identity_order(records[i].identity, records[j].identity);
    }
}

/// The records that do not bind an identity, in their order.
pub open spec fn without(records: Seq<TrustedRecord>, identity: (u16, Seq<u8>)) -> Seq<
    TrustedRecord,
>
    decreases records.len(),
{
    if records.len() == 0 {
        Seq::empty()
    } else {
        let rest = without(records.drop_last(), identity);
        if records.last().identity == identity {
            rest
        } else {
            rest.push(records.last())
        }
    }
}

/// The records after one is stored: it takes the place of any that binds its identity.
pub open spec fn stored(records: Seq<TrustedRecord>, record: TrustedRecord) -> Seq<TrustedRecord> {
    record_listing(without(records, record.identity).push(record))
}

/// The bytes that replace the store for new records, or why there are none.
pub open spec fn replacement_of(records: Seq<TrustedRecord>) -> Result<
    Seq<u8>,
    TrustedPeerStoreError,
> {
    let bytes = encode_utf8(store_text(record_listing(records)));
    if records.len() > MAX_TRUSTED_PEERS {
        Err(
            TrustedPeerStoreError::CapacityExceeded {
                count: records.len() as usize,
                maximum: MAX_TRUSTED_PEERS,
            },
        )
    } else if bytes.len() > MAX_TRUSTED_PEERS_STORE_BYTES {
        Err(
            TrustedPeerStoreError::StoreTooLarge {
                size: bytes.len() as u64,
                maximum: MAX_TRUSTED_PEERS_STORE_BYTES,
            },
        )
    } else {
        Ok(bytes)
    }
}

/// What is left without an identity is just what does not bind it, in the same order.
pub proof fn lemma_without(records: Seq<TrustedRecord>, identity: (u16, Seq<u8>))
    ensures
        forall|x: TrustedRecord| #[trigger]
            without(records, identity).contains(x) <==> records.contains(x) && x.identity
                != identity,
        without(records, identity).len() <= records.len(),
        lines_size(without(records, identity)) <= lines_size(records),
        ordered::ascends(records, record_order()) ==> ordered::ascends(
            without(records, identity),
            record_order(),
        ),
    decreases records.len(),
{
    if records.len() > 0 {
        let rest = records.drop_last();
        let last = records.last();
        let left = without(rest, identity);
        lemma_without(rest, identity);
        assert(records =~= rest.push(last));
        ordered::lemma_push_contains(rest, last);
        ordered::lemma_push_contains(left, last);
        assert(left.push(last).drop_last() =~= left);
        if ordered::ascends(records, record_order()) {
            let less = record_order();
            assert forall|i: int, j: int| 0 <= i < j < rest.len() implies less(
                #[trigger] rest[i],
                #[trigger] rest[j],
            ) by {
                assert(less(records[i], records[j]));
            }
            if last.identity != identity {
                let whole = left.push(last);
                assert forall|i: int, j: int| 0 <= i < j < whole.len() implies less(
                    #[trigger] whole[i],
                    #[trigger] whole[j],
                ) by {
                    if j == left.len() {
                        assert(left.contains(left[i]));
                        assert(rest.contains(left[i]));
                        let m = choose|m: int| 0 <= m < rest.len() && rest[m] == left[i];
                        assert(less(records[m], records[records.len() - 1]));
                    } else {
                        assert(less(left[i], left[j]));
                    }
                }
            }
        }
    }
}

/// At most one record leaves with an identity.
proof fn lemma_without_len(records: Seq<TrustedRecord>, identity: (u16, Seq<u8>))
    requires
        !has_duplicate(records),
    ensures
        without(records, identity).len() == if binds(records, identity) {
            records.len() - 1
        } else {
            records.len() as int
        },
    decreases records.len(),
{
    if records.len() > 0 {
        let rest = records.drop_last();
        let last = records.last();
        assert forall|i: int, j: int| 0 <= i < j < rest.len() implies (
        #[trigger] rest[i]).identity != (#[trigger] rest[j]).identity by {
            assert(records[i].identity != records[j].identity);
        }
        lemma_without_len(rest, identity);
        assert(records[records.len() - 1] == last);
        if binds(rest, identity) {
            let i = choose|i: int| 0 <= i < rest.len() && (#[trigger] rest[i]).identity == identity;
            assert(records[i].identity == identity);
        }
        if binds(records, identity) && last.identity != identity {
            let i = choose|i: int|
                0 <= i < records.len() && (#[trigger] records[i]).identity == identity;
            assert(rest[i].identity == identity);
        }
    }
}

/// Records that bind distinct identities have an ascending listing.
pub proof fn record_listing_exists(records: Seq<TrustedRecord>)
    requires
        !has_duplicate(records),
    ensures
        ordered::is_listing(record_listing(records), records, record_order()),
{
    lemma_record_order_is_strict();
    let less = record_order();
    assert forall|a: TrustedRecord, b: TrustedRecord|
        #![trigger records.contains(a), records.contains(b)]
        records.contains(a) && records.contains(b) implies a == b || less(a, b) || less(b, a) by {
        let i = choose|i: int| 0 <= i < records.len() && records[i] == a;
        let j = choose|j: int| 0 <= j < records.len() && records[j] == b;
        lemma_identity_order(a.identity, b.identity);
        if a.identity == b.identity && i != j {
            if i < j {
                assert(records[i].identity == records[j].identity);
            } else {
                assert(records[j].identity == records[i].identity);
            }
        }
    }
    let s = ordered::lemma_listing_exists(records, less);
    assert(ordered::is_listing(s, records, less));
}

/// Adding a record to others that do not bind its identity makes no duplicate.
proof fn lemma_push_has_no_duplicate(records: Seq<TrustedRecord>, record: TrustedRecord)
    requires
        ordered::ascends(records, record_order()),
    ensures
        !has_duplicate(without(records, record.identity).push(record)),
{
    let left = without(records, record.identity);
    lemma_without(records, record.identity);
    lemma_ascending_has_no_duplicate(left);
    let all = left.push(record);
    assert forall|i: int, j: int| 0 <= i < j < all.len() implies (#[trigger] all[i]).identity != (
    #[trigger] all[j]).identity by {
        if j == left.len() {
            assert(left.contains(left[i]));
        } else {
            assert(left[i].identity != left[j].identity);
        }
    }
}

/// Copies the records that do not bind an identity.
fn records_without(current: &TrustedPeers, identity: &PeerKeyIdentity) -> (r: Vec<
    TrustedPeerRecord,
>)
    ensures
        record_views(r@) == without(current@, identity@),
{
    let ghost views = current@;
    let mut r: Vec<TrustedPeerRecord> = Vec::new();
    let mut i: usize = 0;
    proof {
        assert(record_views(r@) =~= Seq::<TrustedRecord>::empty());
        assert(views.take(0) =~= Seq::<TrustedRecord>::empty());
    }
    while i < current.records.len()
        invariant
            i <= current.records.len(),
            views == record_views(current.records@),
            record_views(r@) == without(views.take(i as int), identity@),
        decreases current.records.len() - i,
    {
        let record = &current.records[i];
        let ghost before = record_views(r@);
        assert(views[i as int] == record@);
        assert(views.take(i + 1).drop_last() =~= views.take(i as int));
        if record.identity != *identity {
            r.push(record.clone());
            assert(record_views(r@) =~= before.push(record@));
        }
        i = i + 1;
    }
    assert(views.take(i as int) =~= views);
    r
}

/// Prepares the bytes that replace the store.
fn replacement_bytes(records: &[TrustedPeerRecord]) -> (r: Result<
    Vec<u8>,
    TrustedPeerStoreError,
>)
    requires
        !has_duplicate(record_views(records@)),
    ensures
        match replacement_of(record_views(records@)) {
            Ok(bytes) => r is Ok && r->Ok_0@ == bytes,
            Err(error) => r == Err::<Vec<u8>, TrustedPeerStoreError>(error),
        },
{
    if records.len() > MAX_TRUSTED_PEERS {
        return Err(
            TrustedPeerStoreError::CapacityExceeded {
                count: records.len(),
                maximum: MAX_TRUSTED_PEERS,
            },
        );
    }
    let bytes = encode(records);
    if bytes.len() > MAX_TRUSTED_PEERS_STORE_BYTES {
        return Err(
            TrustedPeerStoreError::StoreTooLarge {
                size: bytes.len() as u64,
                maximum: MAX_TRUSTED_PEERS_STORE_BYTES,
            },
        );
    }
    Ok(bytes)
}

/// Prepares the bytes that replace the store once a record is stored in it.
///
/// If the identity is already present, its record is replaced, which can only change
/// the presentation label, never the identity binding.
pub fn bytes_with(current: &TrustedPeers, record: TrustedPeerRecord) -> (r: Result<
    Vec<u8>,
    TrustedPeerStoreError,
>)
    ensures
        match replacement_of(without(current@, record@.identity).push(record@)) {
            Ok(bytes) => r is Ok && r->Ok_0@ == bytes,
            Err(error) => r == Err::<Vec<u8>, TrustedPeerStoreError>(error),
        },
{
    proof {
        use_type_invariant(current);
        lemma_push_has_no_duplicate(current@, record@);
    }
    let mut records = records_without(current, &record.identity);
    let ghost before = record_views(records@);
    let ghost e = record@;
    records.push(record);
    assert(record_views(records@) =~= before.push(e));
    replacement_bytes(records.as_slice())
}

/// Prepares the bytes that replace the store once an identity is removed from it, if
/// it is there.
pub fn bytes_without(current: &TrustedPeers, identity: &PeerKeyIdentity) -> (r: Result<
    Option<Vec<u8>>,
    TrustedPeerStoreError,
>)
    ensures
        if !binds(current@, identity@) {
            r matches Ok(None)
        } else {
            match (replacement_of(without(current@, identity@)), r) {
                (Ok(expected), Ok(Some(bytes))) => bytes@ == expected,
                (Err(expected), Err(error)) => error == expected,
                _ => false,
            }
        },
{
    if !current.contains(identity) {
        return Ok(None);
    }
    let records = records_without(current, identity);
    proof {
        use_type_invariant(current);
        lemma_without(current@, identity@);
        lemma_ascending_has_no_duplicate(without(current@, identity@));
    }
    match replacement_bytes(records.as_slice()) {
        Ok(bytes) => Ok(Some(bytes)),
        Err(error) => Err(error),
    }
}

/// Storing a record binds it to its identity and leaves every other record as it was.
pub proof fn storing_replaces_only_its_identity(
    records: Seq<TrustedRecord>,
    record: TrustedRecord,
)
    requires
        is_peer_set(records),
        is_record(record),
    ensures
        forall|x: TrustedRecord| #[trigger]
            stored(records, record).contains(x) <==> x == record || (records.contains(x)
                && x.identity != record.identity),
        ordered::ascends(stored(records, record), record_order()),
        binds(stored(records, record), record.identity),
        stored(records, record).len() == if binds(records, record.identity) {
            records.len()
        } else {
            records.len() + 1
        },
{
    lemma_push_has_no_duplicate(records, record);
    let all = without(records, record.identity).push(record);
    record_listing_exists(all);
    lemma_listing_len(stored(records, record), all);
    lemma_ascending_has_no_duplicate(records);
    lemma_without_len(records, record.identity);
    lemma_without(records, record.identity);
    ordered::lemma_push_contains(without(records, record.identity), record);
    let after = stored(records, record);
    assert(after.contains(record));
    let i = choose|i: int| 0 <= i < after.len() && after[i] == record;
    assert(after[i].identity == record.identity);
}

/// The result does not depend on the order in which two records are stored.
pub proof fn storing_order_is_irrelevant(
    records: Seq<TrustedRecord>,
    a: TrustedRecord,
    b: TrustedRecord,
)
    requires
        is_peer_set(records),
        is_record(a),
        is_record(b),
        a.identity != b.identity,
    ensures
        stored(stored(records, a), b) == stored(stored(records, b), a),
{
    storing_replaces_only_its_identity(records, a);
    storing_replaces_only_its_identity(records, b);
    let after_a = stored(records, a);
    let after_b = stored(records, b);
    lemma_push_has_no_duplicate(after_a, b);
    lemma_push_has_no_duplicate(after_b, a);
    record_listing_exists(without(after_a, b.identity).push(b));
    record_listing_exists(without(after_b, a.identity).push(a));
    lemma_without(after_a, b.identity);
    lemma_without(after_b, a.identity);
    ordered::lemma_push_contains(without(after_a, b.identity), b);
    ordered::lemma_push_contains(without(after_b, a.identity), a);
    let x = stored(after_a, b);
    let y = stored(after_b, a);
    assert forall|r: TrustedRecord| #[trigger] x.contains(r) <==> y.contains(r) by {}
    lemma_record_order_is_strict();
    ordered::lemma_ascending_equal(x, y, record_order());
}

/// Removal leaves nothing that binds the identity and everything else; repeating it
/// changes nothing.
pub proof fn removal_is_idempotent(records: Seq<TrustedRecord>, identity: (u16, Seq<u8>))
    ensures
        !binds(without(records, identity), identity),
        without(without(records, identity), identity) == without(records, identity),
        forall|x: TrustedRecord| #[trigger]
            without(records, identity).contains(x) <==> records.contains(x) && x.identity
                != identity,
    decreases records.len(),
{
    lemma_without(records, identity);
    let left = without(records, identity);
    assert forall|i: int| 0 <= i < left.len() implies (#[trigger] left[i]).identity != identity by {
        assert(left.contains(left[i]));
    }
    if records.len() > 0 {
        let rest = records.drop_last();
        removal_is_idempotent(rest, identity);
        if records.last().identity != identity {
            assert(left.drop_last() =~= without(rest, identity));
        }
    }
}

/// Whatever is accepted as a replacement of the store loads back as just the records
/// that were handed on, in the order of their identities.
pub proof fn accepted_replacement_loads_back(records: Seq<TrustedRecord>)
    requires
        forall|i: int| 0 <= i < records.len() ==> is_record(#[trigger] records[i]),
        !has_duplicate(records),
        replacement_of(records) is Ok,
    ensures
        store_of(replacement_of(records)->Ok_0) == Ok::<Seq<TrustedRecord>, TrustedPeerStoreError>(
            record_listing(records),
        ),
{
    let after = record_listing(records);
    record_listing_exists(records);
    lemma_listing_len(after, records);
    assert forall|i: int| 0 <= i < after.len() implies is_record(#[trigger] after[i]) by {
        assert(after.contains(after[i]));
        let m = choose|m: int| 0 <= m < records.len() && records[m] == after[i];
        assert(is_record(records[m]));
    }
    store_round_trip(after);
}

/// What is written for a stored record loads back as exactly the updated set.
pub proof fn stored_record_loads_back(records: Seq<TrustedRecord>, record: TrustedRecord)
    requires
        is_peer_set(records),
        is_record(record),
        replacement_of(without(records, record.identity).push(record)) is Ok,
    ensures
        store_of(replacement_of(without(records, record.identity).push(record))->Ok_0) == Ok::<
            Seq<TrustedRecord>,
            TrustedPeerStoreError,
        >(stored(records, record)),
        is_peer_set(stored(records, record)),
        fits_budget(stored(records, record)),
{
    let left = without(records, record.identity);
    let all = left.push(record);
    lemma_push_has_no_duplicate(records, record);
    lemma_without(records, record.identity);
    assert forall|i: int| 0 <= i < all.len() implies is_record(#[trigger] all[i]) by {
        if i < left.len() {
            assert(left.contains(left[i]));
            let m = choose|m: int| 0 <= m < records.len() && records[m] == left[i];
            assert(is_record(records[m]));
        }
    }
    accepted_replacement_loads_back(all);
    let after = stored(records, record);
    record_listing_exists(all);
    lemma_listing_len(after, all);
    assert forall|i: int| 0 <= i < after.len() implies is_record(#[trigger] after[i]) by {
        assert(after.contains(after[i]));
        let m = choose|m: int| 0 <= m < all.len() && all[m] == after[i];
        assert(is_record(all[m]));
    }
}

/// What is written for a removal loads back as exactly the remaining set.
pub proof fn removal_loads_back(records: Seq<TrustedRecord>, identity: (u16, Seq<u8>))
    requires
        is_peer_set(records),
        replacement_of(without(records, identity)) is Ok,
    ensures
        store_of(replacement_of(without(records, identity))->Ok_0) == Ok::<
            Seq<TrustedRecord>,
            TrustedPeerStoreError,
        >(without(records, identity)),
        is_peer_set(without(records, identity)),
        !binds(without(records, identity), identity),
        forall|x: TrustedRecord| #[trigger]
            without(records, identity).contains(x) <==> records.contains(x) && x.identity
                != identity,
        without(records, identity).len() == if binds(records, identity) {
            records.len() - 1
        } else {
            records.len() as int
        },
{
    let left = without(records, identity);
    lemma_without(records, identity);
    removal_is_idempotent(records, identity);
    lemma_ascending_has_no_duplicate(records);
    lemma_without_len(records, identity);
    lemma_remaining_is_peer_set(records, identity);
    store_round_trip(left);
}

/// What remains of a set is a set in the same order.
proof fn lemma_remaining_is_peer_set(records: Seq<TrustedRecord>, identity: (u16, Seq<u8>))
    requires
        is_peer_set(records),
    ensures
        is_peer_set(without(records, identity)),
        record_listing(without(records, identity)) == without(records, identity),
{
    let left = without(records, identity);
    lemma_without(records, identity);
    lemma_ascending_has_no_duplicate(left);
    record_listing_exists(left);
    lemma_record_order_is_strict();
    ordered::lemma_ascending_equal(record_listing(left), left, record_order());
    assert forall|i: int| 0 <= i < left.len() implies is_record(#[trigger] left[i]) by {
        assert(left.contains(left[i]));
        let m = choose|m: int| 0 <= m < records.len() && records[m] == left[i];
        assert(is_record(records[m]));
    }
}

/// Removing from a set that fits the byte budget is always accepted, and what is
/// written loads back as exactly the remaining set, which fits again.
pub proof fn removed_record_stays_removed(records: Seq<TrustedRecord>, identity: (u16, Seq<u8>))
    requires
        is_peer_set(records),
        fits_budget(records),
    ensures
        ({
            let left = without(records, identity);
            let written = replacement_of(left);
            &&& written is Ok
            &&& store_of(written->Ok_0) == Ok::<Seq<TrustedRecord>, TrustedPeerStoreError>(left)
            &&& !binds(left, identity)
            &&& is_peer_set(left)
            &&& fits_budget(left)
        }),
{
    let left = without(records, identity);
    lemma_without(records, identity);
    lemma_remaining_is_peer_set(records, identity);
    lemma_store_size(records);
    lemma_store_size(left);
    removal_loads_back(records, identity);
}

/// Neither a listing nor records with distinct identities hold a record twice.
proof fn lemma_listing_is_distinct(s: Seq<TrustedRecord>, of: Seq<TrustedRecord>)
    requires
        ordered::is_listing(s, of, record_order()),
        !has_duplicate(of),
    ensures
        s.no_duplicates(),
        of.no_duplicates(),
{
    lemma_record_order_is_strict();
    let less = record_order();
    assert forall|i: int, j: int| 0 <= i < s.len() && 0 <= j < s.len() && i != j implies s[i]
        != s[j] by {
        if i < j {
            assert(less(s[i], s[j]));
        } else {
            assert(less(s[j], s[i]));
        }
    }
    assert forall|i: int, j: int| 0 <= i < of.len() && 0 <= j < of.len() && i != j implies of[i]
        != of[j] by {
        if i < j {
            assert(of[i].identity != of[j].identity);
        } else {
            assert(of[j].identity != of[i].identity);
        }
    }
}

/// A listing of records with distinct identities is as long as the records.
proof fn lemma_listing_len(s: Seq<TrustedRecord>, of: Seq<TrustedRecord>)
    requires
        ordered::is_listing(s, of, record_order()),
        !has_duplicate(of),
    ensures
        s.len() == of.len(),
{
    lemma_listing_is_distinct(s, of);
    assert(s.to_set() =~= of.to_set());
    s.unique_seq_to_set();
    of.unique_seq_to_set();
}

/// The size of parts of a text in UTF-8 bytes.
spec fn parts_size(parts: Seq<Seq<char>>) -> nat
    decreases parts.len(),
{
    if parts.len() == 0 {
        0
    } else {
        parts_size(parts.drop_last()) + encode_utf8(parts.last()).len()
    }
}

/// The parts of a text and its separators take as many bytes as the text.
proof fn lemma_parts_size(s: Seq<char>, sep: char)
    requires
        sep <= '\u{7f}',
    ensures
        encode_utf8(s).len() == parts_size(text::split(s, sep)) + text::split(s, sep).len() - 1,
    decreases s.len(),
{
    let parts = text::split(s, sep);
    if s.len() == 0 {
        assert(parts.drop_last() =~= Seq::<Seq<char>>::empty());
        assert(parts_size(Seq::<Seq<char>>::empty()) == 0);
        assert(parts.last() =~= s);
        assert(encode_utf8(s) =~= Seq::<u8>::empty());
    } else {
        let rest = s.drop_last();
        let before = text::split(rest, sep);
        lemma_parts_size(rest, sep);
        text::lemma_split_nonempty(rest, sep);
        assert(rest.push(s.last()) =~= s);
        text::lemma_encode_utf8_push(rest, s.last());
        if s.last() == sep {
            assert(parts.drop_last() =~= before);
            assert(encode_utf8(Seq::<char>::empty()) =~= Seq::<u8>::empty());
            assert(text::char_width(sep) == 1);
        } else {
            assert(parts.drop_last() =~= before.drop_last());
            assert(parts.last() == before.last().push(s.last()));
            text::lemma_encode_utf8_push(before.last(), s.last());
        }
    }
}

/// The canonical line of a record is no longer than a line that holds it.
proof fn lemma_canonical_line(line: Seq<char>)
    requires
        record_of(line) is Ok,
    ensures
        record_line(record_of(line)->Ok_0).len() <= encode_utf8(line).len(),
{
    let fields = text::split(line, ' ');
    let r = record_of(line)->Ok_0;
    lemma_parts_size(line, ' ');
    assert(parts_size(fields) == encode_utf8(fields[0]).len() + encode_utf8(fields[1]).len()
        + encode_utf8(fields[2]).len()) by {
        reveal_with_fuel(parts_size, 4);
        assert(fields.drop_last().last() == fields[1]);
        assert(fields.drop_last().drop_last().last() == fields[0]);
    }
    text::lemma_decimal_bytes(r.identity.0 as nat);
    lemma_unhex_bounds(fields[1]);
    if fields[2] == seq!['-'] {
        assert(is_ascii_chars(fields[2]));
        is_ascii_chars_encode_utf8(fields[2]);
    } else {
        lemma_unhex_bounds(fields[2]);
        let bytes = text::unhex(fields[2])->0;
        let decoded = decode_utf8(bytes);
        decode_utf8_encode_utf8(bytes);
        text::lemma_trimmed_is_part(decoded);
        let (a, b) = choose|a: int, b: int|
            0 <= a <= b <= decoded.len() && text::trimmed(decoded) == #[trigger] decoded.subrange(
                a,
                b,
            );
        text::lemma_encode_utf8_part(decoded, a, b);
    }
}

/// The canonical lines of records are no longer than the lines that hold them.
proof fn lemma_canonical_lines(lines: Seq<Seq<char>>)
    requires
        records_of(lines) is Ok,
    ensures
        records_of(lines)->Ok_0.len() == lines.len(),
        lines_size(records_of(lines)->Ok_0) <= parts_size(lines) + lines.len(),
        forall|i: int|
            0 <= i < lines.len() ==> is_record(#[trigger] records_of(lines)->Ok_0[i]),
    decreases lines.len(),
{
    if lines.len() > 0 {
        lemma_canonical_lines(lines.drop_last());
        lemma_canonical_line(lines.last());
        read_record_is_valid(lines.last());
        let before = records_of(lines.drop_last())->Ok_0;
        let records = records_of(lines)->Ok_0;
        assert(records.drop_last() =~= before);
    }
}

/// Taking one record out takes its line out.
proof fn lemma_lines_size_remove(records: Seq<TrustedRecord>, k: int)
    requires
        0 <= k < records.len(),
    ensures
        lines_size(records) == lines_size(records.remove(k)) + 1 + record_line(records[k]).len(),
    decreases records.len(),
{
    let rest = records.drop_last();
    if k == records.len() - 1 {
        assert(records.remove(k) =~= rest);
    } else {
        lemma_lines_size_remove(rest, k);
        assert(records.remove(k).drop_last() =~= rest.remove(k));
        assert(records.remove(k).last() == records.last());
    }
}

/// The size of lines does not depend on their order.
proof fn lemma_lines_size_listing(a: Seq<TrustedRecord>, b: Seq<TrustedRecord>)
    requires
        a.no_duplicates(),
        b.no_duplicates(),
        forall|x: TrustedRecord| #[trigger] a.contains(x) <==> b.contains(x),
    ensures
        lines_size(a) == lines_size(b),
    decreases a.len(),
{
    if a.len() == 0 {
        if b.len() > 0 {
            assert(b.contains(b[0]));
            assert(a.contains(b[0]));
        }
    } else {
        let x = a.last();
        assert(a.contains(x));
        assert(b.contains(x));
        let k = choose|k: int| 0 <= k < b.len() && b[k] == x;
        let c = a.drop_last();
        let d = b.remove(k);
        lemma_lines_size_remove(b, k);
        assert forall|i: int, j: int| 0 <= i < d.len() && 0 <= j < d.len() && i != j implies d[i]
            != d[j] by {
            let bi = if i < k { i } else { i + 1 };
            let bj = if j < k { j } else { j + 1 };
            assert(d[i] == b[bi] && d[j] == b[bj]);
        }
        assert forall|y: TrustedRecord| #[trigger] c.contains(y) <==> d.contains(y) by {
            if c.contains(y) {
                let i = choose|i: int| 0 <= i < c.len() && c[i] == y;
                assert(a[i] == y);
                assert(a.contains(y));
                assert(b.contains(y));
                let m = choose|m: int| 0 <= m < b.len() && b[m] == y;
                assert(m != k);
                assert(d[if m < k { m } else { m - 1 }] == y);
            }
            if d.contains(y) {
                let i = choose|i: int| 0 <= i < d.len() && d[i] == y;
                let bi = if i < k { i } else { i + 1 };
                assert(b[bi] == y);
                assert(b.contains(y));
                assert(a.contains(y));
                let m = choose|m: int| 0 <= m < a.len() && a[m] == y;
                assert(m != a.len() - 1);
                assert(c[m] == y);
            }
        }
        lemma_lines_size_listing(c, d);
    }
}

/// A header line that is accepted takes as many bytes as the one that is written.
proof fn lemma_header_size(line: Seq<char>)
    requires
        header_error(line) is None,
    ensures
        encode_utf8(line).len() == 31,
{
    let n = STORE_HEADER_PREFIX@.len() as int;
    reveal_strlit("local-transfer-trusted-peers v");
    assert(line =~= line.take(n) + line.skip(n));
    text::lemma_encode_utf8_concat(line.take(n), line.skip(n));
    is_ascii_chars_encode_utf8(STORE_HEADER_PREFIX@);
    text::lemma_decimal_bytes(STORE_FORMAT_VERSION as nat);
}

/// Every set that a store holds is valid and fits the byte budget: written again, it
/// takes no more bytes than it was read from.
pub proof fn loaded_set_fits_the_budget(bytes: Seq<u8>)
    requires
        store_of(bytes) is Ok,
    ensures
        is_peer_set(store_of(bytes)->Ok_0),
        fits_budget(store_of(bytes)->Ok_0),
        encode_utf8(store_text(store_of(bytes)->Ok_0)).len() <= bytes.len(),
{
    let contents = decode_utf8(bytes);
    let body = contents.drop_last();
    let lines = text::split(body, '\n');
    let records = records_of(lines.skip(1))->Ok_0;
    let after = record_listing(records);
    decode_utf8_encode_utf8(bytes);
    assert(body.push('\n') =~= contents);
    text::lemma_encode_utf8_push(body, '\n');
    assert(text::char_width('\n') == 1);
    lemma_parts_size(body, '\n');
    text::lemma_split_nonempty(body, '\n');
    lemma_parts_size_first(lines);
    lemma_header_size(lines[0]);
    lemma_canonical_lines(lines.skip(1));
    record_listing_exists(records);
    lemma_listing_len(after, records);
    lemma_listing_is_distinct(after, records);
    lemma_lines_size_listing(after, records);
    assert forall|i: int| 0 <= i < after.len() implies is_record(#[trigger] after[i]) by {
        assert(after.contains(after[i]));
        let m = choose|m: int| 0 <= m < records.len() && records[m] == after[i];
        assert(is_record(records[m]));
    }
    lemma_store_size(after);
}

/// The first part takes its bytes of the whole.
proof fn lemma_parts_size_first(parts: Seq<Seq<char>>)
    requires
        parts.len() > 0,
    ensures
        parts_size(parts) == encode_utf8(parts[0]).len() + parts_size(parts.skip(1)),
    decreases parts.len(),
{
    if parts.len() == 1 {
        assert(parts.skip(1) =~= Seq::<Seq<char>>::empty());
        assert(parts.drop_last() =~= Seq::<Seq<char>>::empty());
    } else {
        lemma_parts_size_first(parts.drop_last());
        assert(parts.drop_last().skip(1) =~= parts.skip(1).drop_last());
    }
}

/// Identities are ordered by scheme, and within a scheme by material.
pub proof fn identities_order_by_scheme_first(a: (u16, Seq<u8>), b: (u16, Seq<u8>))
    ensures
        a.0 < b.0 ==> identity_less(a, b) && !identity_less(b, a),
        a.0 == b.0 ==> (identity_less(a, b) <==> text::bytes_less(a.1, b.1)),
{
}

/// A label is what remains between outer whitespace: a text has one exactly if no
/// character of it is a control code and what remains has 1 to 64 characters.
pub proof fn label_is_the_inner_text(before: Seq<char>, label: Seq<char>, after: Seq<char>)
    requires
        forall|i: int| 0 <= i < before.len() ==> text::is_whitespace(#[trigger] before[i]),
        forall|i: int| 0 <= i < after.len() ==> text::is_whitespace(#[trigger] after[i]),
        label.len() > 0 ==> !text::is_whitespace(label[0]) && !text::is_whitespace(label.last()),
    ensures
        ({
            let value = before + label + after;
            let clean = forall|i: int|
                0 <= i < value.len() ==> !text::is_control(#[trigger] value[i]);
            &&& !clean <==> label_of(value) == Err::<Seq<char>, TrustedPeerLabelError>(
                TrustedPeerLabelError::ControlCharacter,
            )
            &&& clean && label.len() == 0 <==> label_of(value) == Err::<
                Seq<char>,
                TrustedPeerLabelError,
            >(TrustedPeerLabelError::Empty)
            &&& clean && label.len() > 64 <==> label_of(value) == Err::<
                Seq<char>,
                TrustedPeerLabelError,
            >(TrustedPeerLabelError::TooLong { chars: label.len() as usize, maximum: 64 })
            &&& clean && 0 < label.len() <= 64 <==> label_of(value) == Ok::<
                Seq<char>,
                TrustedPeerLabelError,
            >(label)
        }),
{
    text::outer_whitespace_is_trimmed(before, label, after);
}

/// The replacement of the store is refused for the number of records or for its size,
/// and for nothing else: it is what is written of the records in the order of their
/// identities.
pub proof fn replacement_is_refused_only_for_its_size(records: Seq<TrustedRecord>)
    ensures
        ({
            let r = replacement_of(records);
            let bytes = encode_utf8(store_text(record_listing(records)));
            &&& records.len() <= 128 && bytes.len() <= 65536 <==> r is Ok
            &&& r is Ok ==> r->Ok_0 == bytes
            &&& records.len() > 128 <==> (r matches Err(
                TrustedPeerStoreError::CapacityExceeded { count, maximum },
            ) && count == records.len() as usize && maximum == 128)
            &&& records.len() <= 128 && bytes.len() > 65536 <==> (r matches Err(
                TrustedPeerStoreError::StoreTooLarge { size, maximum },
            ) && size == bytes.len() as u64 && maximum == 65536)
        }),
{
}

/// Storing a record is accepted exactly if the updated set has at most 128 records and
/// takes at most 65536 bytes: 32 for the header line and the length of each record's
/// line with its line break. Nothing else about the records is a reason to refuse.
pub proof fn storing_is_accepted_when_the_set_fits(
    records: Seq<TrustedRecord>,
    record: TrustedRecord,
)
    requires
        is_peer_set(records),
        is_record(record),
    ensures
        ({
            let after = stored(records, record);
            let written = replacement_of(without(records, record.identity).push(record));
            &&& written is Ok <==> after.len() <= 128 && encode_utf8(store_text(after)).len()
                <= 65536
            &&& written is Ok <==> after.len() <= 128 && 32 + lines_size(after) <= 65536
            &&& written is Ok ==> store_of(written->Ok_0) == Ok::<
                Seq<TrustedRecord>,
                TrustedPeerStoreError,
            >(after)
        }),
{
    let left = without(records, record.identity);
    let all = left.push(record);
    let after = stored(records, record);
    lemma_push_has_no_duplicate(records, record);
    lemma_without(records, record.identity);
    record_listing_exists(all);
    lemma_listing_len(after, all);
    assert forall|i: int| 0 <= i < after.len() implies is_record(#[trigger] after[i]) by {
        assert(after.contains(after[i]));
        let m = choose|m: int| 0 <= m < all.len() && all[m] == after[i];
        if m < left.len() {
            assert(left.contains(left[m]));
            let k = choose|k: int| 0 <= k < records.len() && records[k] == left[m];
            assert(is_record(records[k]));
        }
    }
    lemma_store_size(after);
    if replacement_of(all) is Ok {
        stored_record_loads_back(records, record);
    }
}

/// Storing takes the room of the record's line, and gives back that of the record it
/// replaces: so relabelling a stored peer is accepted whenever the new line is no longer
/// than the old one, and a new peer whenever its line and one more record have room.
#[verifier::spinoff_prover]
#[verifier::rlimit(60)]
pub proof fn storing_takes_the_room_of_its_line(
    records: Seq<TrustedRecord>,
    record: TrustedRecord,
)
    requires
        is_peer_set(records),
        is_record(record),
    ensures
        !binds(records, record.identity) ==> lines_size(stored(records, record)) == lines_size(
            records,
        ) + 1 + record_line(record).len(),
        forall|k: int|
            0 <= k < records.len() && (#[trigger] records[k]).identity == record.identity
                ==> lines_size(stored(records, record)) == lines_size(records) + record_line(
                record,
            ).len() - record_line(records[k]).len(),
        fits_budget(records) ==> forall|k: int|
            0 <= k < records.len() && (#[trigger] records[k]).identity == record.identity
                && record_line(record).len() <= record_line(records[k]).len() ==> replacement_of(
                without(records, record.identity).push(record),
            ) is Ok,
        records.len() < 128 && !binds(records, record.identity) && 32 + lines_size(records) + 1
            + record_line(record).len() <= 65536 ==> replacement_of(
            without(records, record.identity).push(record),
        ) is Ok,
{
    let left = without(records, record.identity);
    let all = left.push(record);
    let after = stored(records, record);
    lemma_push_has_no_duplicate(records, record);
    lemma_without(records, record.identity);
    record_listing_exists(all);
    lemma_listing_is_distinct(after, all);
    lemma_lines_size_listing(after, all);
    assert(all.drop_last() =~= left);
    storing_replaces_only_its_identity(records, record);
    storing_is_accepted_when_the_set_fits(records, record);
    lemma_store_size(records);
    lemma_ascending_has_no_duplicate(records);
    if !binds(records, record.identity) {
        lemma_without_unbound(records, record.identity);
    }
    assert forall|k: int|
        0 <= k < records.len() && (#[trigger] records[k]).identity
            == record.identity implies lines_size(after) == lines_size(records) + record_line(
        record,
    ).len() - record_line(records[k]).len() by {
        lemma_without_bound(records, k);
        lemma_lines_size_remove(records, k);
    }
}

/// Without an identity that is not bound everything stays.
proof fn lemma_without_unbound(records: Seq<TrustedRecord>, identity: (u16, Seq<u8>))
    requires
        !binds(records, identity),
    ensures
        without(records, identity) == records,
    decreases records.len(),
{
    if records.len() > 0 {
        let rest = records.drop_last();
        assert(records[records.len() - 1] == records.last());
        assert forall|i: int| 0 <= i < rest.len() implies (#[trigger] rest[i]).identity
            != identity by {
            assert(records[i].identity != identity);
        }
        lemma_without_unbound(rest, identity);
        assert(rest.push(records.last()) =~= records);
    } else {
        assert(records =~= Seq::<TrustedRecord>::empty());
    }
}

/// Without the identity of one record just that record leaves.
proof fn lemma_without_bound(records: Seq<TrustedRecord>, k: int)
    requires
        !has_duplicate(records),
        0 <= k < records.len(),
    ensures
        without(records, records[k].identity) == records.remove(k),
    decreases records.len(),
{
    let rest = records.drop_last();
    assert forall|i: int, j: int| 0 <= i < j < rest.len() implies (#[trigger] rest[i]).identity != (
    #[trigger] rest[j]).identity by {
        assert(records[i].identity != records[j].identity);
    }
    if k == records.len() - 1 {
        assert forall|i: int| 0 <= i < rest.len() implies (#[trigger] rest[i]).identity
            != records[k].identity by {
            assert(records[i].identity != records[k].identity);
        }
        lemma_without_unbound(rest, records[k].identity);
        assert(records.remove(k) =~= rest);
    } else {
        assert(records[k].identity != records[records.len() - 1].identity);
        lemma_without_bound(rest, k);
        assert(records.remove(k) =~= rest.remove(k).push(records.last()));
    }
}

/// Removing an identity takes out the one record that binds it and keeps the others in
/// their order; where none binds it, nothing changes.
pub proof fn removal_takes_out_one_record(
    records: Seq<TrustedRecord>,
    identity: (u16, Seq<u8>),
)
    requires
        is_peer_set(records),
    ensures
        (forall|i: int| 0 <= i < records.len() ==> (#[trigger] records[i]).identity != identity)
            ==> without(records, identity) == records,
        forall|k: int|
            0 <= k < records.len() && (#[trigger] records[k]).identity == identity ==> without(
                records,
                identity,
            ) == records.remove(k),
{
    lemma_ascending_has_no_duplicate(records);
    if forall|i: int| 0 <= i < records.len() ==> (#[trigger] records[i]).identity != identity {
        lemma_without_unbound(records, identity);
    }
    assert forall|k: int|
        0 <= k < records.len() && (#[trigger] records[k]).identity == identity implies without(
        records,
        identity,
    ) == records.remove(k) by {
        lemma_without_bound(records, k);
    }
}

/// A header line is accepted if it names version 1 in its one notation; a line that
/// names another version is refused for that version, and every other line is malformed.
pub proof fn only_the_current_header_is_accepted(line: Seq<char>)
    ensures
        header_error(line) is None <==> line == "local-transfer-trusted-peers v1"@,
        forall|version: u16|
            header_error(line) == Some(TrustedPeerStoreError::UnsupportedVersion { version })
                <==> version != 1 && line == "local-transfer-trusted-peers v"@ + #[trigger] text::decimal(
                version as nat,
            ),
        header_error(line) == Some(
            TrustedPeerStoreError::MalformedStore { reason: MalformedStoreReason::Header },
        ) <==> forall|version: u16|
            line != "local-transfer-trusted-peers v"@ + #[trigger] text::decimal(version as nat),
{
    let prefix = "local-transfer-trusted-peers v"@;
    let n = prefix.len() as int;
    reveal_strlit("local-transfer-trusted-peers v");
    reveal_strlit("local-transfer-trusted-peers v1");
    text::decimal_notation_is_positional(0, 1);
    assert("local-transfer-trusted-peers v1"@ =~= prefix + text::decimal(1));
    assert forall|version: u16| (header_version(line) == Some(version)) == (line == prefix
        + #[trigger] text::decimal(version as nat)) by {
        let whole = prefix + text::decimal(version as nat);
        assert(whole.take(n) =~= prefix);
        assert(whole.skip(n) =~= text::decimal(version as nat));
        if line.len() >= n && line.take(n) == prefix {
            assert(line =~= prefix + line.skip(n));
            text::decimal_reading_is_exact(encode_utf8(line.skip(n)), version);
            if encode_utf8(line.skip(n)) == encode_utf8(text::decimal(version as nat)) {
                encode_utf8_decode_utf8(line.skip(n));
                encode_utf8_decode_utf8(text::decimal(version as nat));
            }
        }
    }
    if let Some(version) = header_version(line) {
        assert(line == prefix + text::decimal(version as nat));
        assert forall|other: u16| line == prefix + #[trigger] text::decimal(
            other as nat,
        ) implies other == version by {
            assert(header_version(line) == Some(other));
        }
    }
    assert(line == prefix + text::decimal(1u16 as nat) <==> header_version(line) == Some(1u16));
}

/// A line holds a record exactly if it is its scheme in decimal notation, its material in
/// hexadecimal notation, and a dash or the hexadecimal notation of a text that the label
/// is the normalised form of, with single spaces between the three.
#[verifier::spinoff_prover]
#[verifier::rlimit(60)]
pub proof fn accepted_lines_are_canonical(line: Seq<char>, r: TrustedRecord)
    requires
        record_of(line) == Ok::<TrustedRecord, TrustedPeerStoreError>(r),
    ensures
        encode_utf8(line).len() <= 647,
        0 < r.identity.1.len() <= 64,
        r.label is None ==> line == text::decimal(r.identity.0 as nat) + seq![' '] + text::hex(
            r.identity.1,
        ) + seq![' '] + seq!['-'],
        r.label is Some ==> exists|written: Seq<char>|
            label_of(written) == Ok::<Seq<char>, TrustedPeerLabelError>(r.label->0) && line
                == text::decimal(r.identity.0 as nat) + seq![' '] + text::hex(r.identity.1) + seq![
                ' ',
            ] + #[trigger] text::hex(encode_utf8(written)),
{
    let fields = text::split(line, ' ');
    text::splitting_loses_nothing(line, ' ');
    assert(text::joined(fields, ' ') =~= fields[0] + seq![' '] + fields[1] + seq![' ']
        + fields[2]) by {
        reveal_with_fuel(text::joined, 4);
        assert(fields.drop_last().last() == fields[1]);
        assert(fields.drop_last().drop_last()[0] == fields[0]);
    }
    text::decimal_reading_is_exact(encode_utf8(fields[0]), r.identity.0);
    encode_utf8_decode_utf8(fields[0]);
    encode_utf8_decode_utf8(text::decimal(r.identity.0 as nat));
    text::hex_reading_is_exact(fields[1], r.identity.1);
    lemma_unhex_bounds(fields[1]);
    if r.label is Some {
        let bytes = text::unhex(fields[2])->0;
        text::hex_reading_is_exact(fields[2], bytes);
        decode_utf8_encode_utf8(bytes);
        let written = decode_utf8(bytes);
        assert(fields[2] == text::hex(encode_utf8(written)));
    }
}

/// A line is refused for its size first, then for its number of fields, then for the
/// scheme, the material and the label, in this order.
#[verifier::spinoff_prover]
#[verifier::rlimit(60)]
pub proof fn refused_lines_are_explained(line: Seq<char>)
    ensures
        ({
            let r = record_of(line);
            let fields = text::split(line, ' ');
            let sized = encode_utf8(line).len() <= 647;
            let split = sized && fields.len() == 3;
            let numbered = split && exists|n: u16|
                encode_utf8(fields[0]) == encode_utf8(#[trigger] text::decimal(n as nat));
            let bounded = numbered && encode_utf8(fields[1]).len() <= 128;
            let named = bounded && exists|bytes: Seq<u8>|
                bytes.len() > 0 && fields[1] == #[trigger] text::hex(bytes);
            &&& !sized ==> (r matches Err(TrustedPeerStoreError::RecordTooLarge { size, maximum })
                && size == encode_utf8(line).len() as usize && maximum == 647)
            &&& sized && !numbered ==> r == Err::<TrustedRecord, TrustedPeerStoreError>(
                TrustedPeerStoreError::MalformedStore {
                    reason: MalformedStoreReason::RecordSyntax,
                },
            )
            &&& numbered && !bounded ==> r == Err::<TrustedRecord, TrustedPeerStoreError>(
                TrustedPeerStoreError::MalformedStore {
                    reason: MalformedStoreReason::IdentityBounds,
                },
            )
            &&& bounded && !named ==> r == Err::<TrustedRecord, TrustedPeerStoreError>(
                TrustedPeerStoreError::MalformedStore {
                    reason: MalformedStoreReason::IdentityEncoding,
                },
            )
            &&& named && fields[2] == seq!['-'] ==> r is Ok && r->Ok_0.label is None
            &&& named && fields[2] != seq!['-'] ==> match label_in(fields[2]) {
                Ok(label) => label is Some && r is Ok && r->Ok_0.label == label,
                Err(reason) => r == Err::<TrustedRecord, TrustedPeerStoreError>(
                    TrustedPeerStoreError::MalformedStore { reason },
                ),
            }
        }),
{
    let fields = text::split(line, ' ');
    if encode_utf8(line).len() <= 647 && fields.len() == 3 {
        text::decimal_reading_is_exact(encode_utf8(fields[0]), 0);
        text::hex_reading_is_exact(fields[1], Seq::empty());
        if let Some(bytes) = text::unhex(fields[1]) {
            text::hex_reading_is_exact(fields[1], bytes);
        } else {
            assert forall|bytes: Seq<u8>| bytes.len() > 0 implies fields[1] != #[trigger] text::hex(
                bytes,
            ) by {
                text::hex_reading_is_exact(fields[1], bytes);
            }
        }
    }
}

/// A label field other than a dash holds the normalised form of the text whose bytes it
/// writes in hexadecimal notation; it is refused for its encoding if it writes no text,
/// and for its value if it is over length or the text has no normalised form.
#[verifier::spinoff_prover]
#[verifier::rlimit(60)]
pub proof fn label_fields_are_explained(field: Seq<char>)
    requires
        field != seq!['-'],
    ensures
        encode_utf8(field).len() > 512 ==> label_in(field) == Err::<
            Option<Seq<char>>,
            MalformedStoreReason,
        >(MalformedStoreReason::LabelValue),
        encode_utf8(field).len() <= 512 ==> {
            &&& (forall|written: Seq<char>|
                written.len() == 0 || field != #[trigger] text::hex(encode_utf8(written)))
                ==> label_in(field) == Err::<Option<Seq<char>>, MalformedStoreReason>(
                MalformedStoreReason::LabelEncoding,
            )
            &&& forall|written: Seq<char>|
                written.len() > 0 && field == #[trigger] text::hex(encode_utf8(written)) ==> match label_of(
                    written,
                ) {
                    Ok(label) => label_in(field) == Ok::<Option<Seq<char>>, MalformedStoreReason>(
                        Some(label),
                    ),
                    Err(_) => label_in(field) == Err::<Option<Seq<char>>, MalformedStoreReason>(
                        MalformedStoreReason::LabelValue,
                    ),
                }
        },
{
    assert forall|written: Seq<char>|
        written.len() > 0 && field == #[trigger] text::hex(encode_utf8(written)) implies text::unhex(
        field,
    ) == Some(encode_utf8(written)) && valid_utf8(encode_utf8(written)) && decode_utf8(
        encode_utf8(written),
    ) == written by {
        text::lemma_encode_utf8_prefix(written, 0, written.len() as int);
        assert(written.take(written.len() as int) =~= written);
        text::hex_reading_is_exact(field, encode_utf8(written));
        encode_utf8_valid_utf8(written);
        encode_utf8_decode_utf8(written);
    }
    if let Some(bytes) = text::unhex(field) {
        text::hex_reading_is_exact(field, bytes);
        if valid_utf8(bytes) {
            decode_utf8_encode_utf8(bytes);
            let written = decode_utf8(bytes);
            assert(field == text::hex(encode_utf8(written)));
            if written.len() == 0 {
                assert(encode_utf8(written) =~= Seq::<u8>::empty());
            }
        }
    }
}

/// Lines hold records exactly if each of them does: then the records are theirs, in
/// order, and otherwise the error is that of the first line that holds none.
#[verifier::spinoff_prover]
#[verifier::rlimit(60)]
pub proof fn every_line_counts(lines: Seq<Seq<char>>)
    ensures
        records_of(lines) is Ok <==> forall|i: int|
            0 <= i < lines.len() ==> record_of(#[trigger] lines[i]) is Ok,
        records_of(lines) is Ok ==> records_of(lines)->Ok_0.len() == lines.len() && forall|i: int|
            0 <= i < lines.len() ==> record_of(#[trigger] lines[i]) == Ok::<
                TrustedRecord,
                TrustedPeerStoreError,
            >(records_of(lines)->Ok_0[i]),
        records_of(lines) is Err ==> exists|i: int|
            {
                &&& 0 <= i < lines.len()
                &&& record_of(#[trigger] lines[i]) == Err::<TrustedRecord, TrustedPeerStoreError>(
                    records_of(lines)->Err_0,
                )
                &&& forall|j: int| 0 <= j < i ==> record_of(#[trigger] lines[j]) is Ok
            },
    decreases lines.len(),
{
    if lines.len() > 0 {
        let rest = lines.drop_last();
        let n = lines.len() - 1;
        every_line_counts(rest);
        assert(lines[n] == lines.last());
        assert forall|i: int| 0 <= i < n implies rest[i] == #[trigger] lines[i] by {}
        if records_of(rest) is Err {
            let i = choose|i: int|
                {
                    &&& 0 <= i < rest.len()
                    &&& record_of(#[trigger] rest[i]) == Err::<TrustedRecord, TrustedPeerStoreError>(
                        records_of(rest)->Err_0,
                    )
                    &&& forall|j: int| 0 <= j < i ==> record_of(#[trigger] rest[j]) is Ok
                };
            assert(record_of(lines[i]) is Err);
            assert forall|j: int| 0 <= j < i implies record_of(#[trigger] lines[j]) is Ok by {
                assert(record_of(rest[j]) is Ok);
            }
        } else {
            assert forall|i: int| 0 <= i < n implies record_of(#[trigger] lines[i]) == Ok::<
                TrustedRecord,
                TrustedPeerStoreError,
            >(records_of(rest)->Ok_0[i]) by {
                assert(record_of(rest[i]) is Ok);
            }
            if record_of(lines.last()) is Err {
                assert(record_of(lines[n]) is Err);
            }
        }
    }
}

/// A store fails closed: it loads only if it is within its size, is text that ends in a
/// line break, has the current header line and at most 128 further lines, and each of
/// these holds a record of an identity of its own. It then loads as exactly these
/// records, ordered by identity.
#[verifier::spinoff_prover]
#[verifier::rlimit(60)]
pub proof fn store_loads_only_as_a_whole(bytes: Seq<u8>)
    ensures
        ({
            let contents = decode_utf8(bytes);
            let lines = text::split(contents.drop_last(), '\n');
            let whole = {
                &&& bytes.len() <= 65536
                &&& valid_utf8(bytes)
                &&& contents.len() > 0
                &&& contents.last() == '\n'
                &&& lines[0] == "local-transfer-trusted-peers v1"@
                &&& lines.len() <= 129
                &&& forall|i: int| 1 <= i < lines.len() ==> record_of(#[trigger] lines[i]) is Ok
                &&& forall|i: int, j: int|
                    1 <= i < j < lines.len() ==> record_of(#[trigger] lines[i])->Ok_0.identity
                        != record_of(#[trigger] lines[j])->Ok_0.identity
            };
            &&& store_of(bytes) is Ok <==> whole
            &&& store_of(bytes) matches Ok(records) ==> {
                &&& records.len() == lines.len() - 1
                &&& forall|r: TrustedRecord| #[trigger]
                    records.contains(r) <==> exists|i: int|
                        1 <= i < lines.len() && record_of(#[trigger] lines[i]) == Ok::<
                            TrustedRecord,
                            TrustedPeerStoreError,
                        >(r)
                &&& forall|i: int, j: int|
                    0 <= i < j < records.len() ==> identity_less(
                        (#[trigger] records[i]).identity,
                        (#[trigger] records[j]).identity,
                    )
            }
        }),
{
    let contents = decode_utf8(bytes);
    let lines = text::split(contents.drop_last(), '\n');
    text::splitting_loses_nothing(contents.drop_last(), '\n');
    only_the_current_header_is_accepted(lines[0]);
    let rest = lines.skip(1);
    every_line_counts(rest);
    assert forall|i: int| 1 <= i < lines.len() implies #[trigger] lines[i] == rest[i - 1] by {}
    assert forall|i: int| 0 <= i < rest.len() implies #[trigger] rest[i] == lines[i + 1] by {}
    if forall|i: int| 1 <= i < lines.len() ==> record_of(#[trigger] lines[i]) is Ok {
        assert forall|i: int| 0 <= i < rest.len() implies record_of(#[trigger] rest[i]) is Ok by {
            assert(record_of(lines[i + 1]) is Ok);
        }
        let records = records_of(rest)->Ok_0;
        assert forall|i: int| 1 <= i < lines.len() implies record_of(#[trigger] lines[i]) == Ok::<
            TrustedRecord,
            TrustedPeerStoreError,
        >(records[i - 1]) by {
            assert(record_of(rest[i - 1]) is Ok);
        }
        if has_duplicate(records) {
            let (i, j) = choose|i: int, j: int|
                0 <= i < j < records.len() && (#[trigger] records[i]).identity == (
                #[trigger] records[j]).identity;
            assert(record_of(lines[i + 1])->Ok_0.identity == record_of(lines[j + 1])->Ok_0.identity);
        } else {
            assert forall|i: int, j: int| 1 <= i < j < lines.len() implies record_of(
                #[trigger] lines[i],
            )->Ok_0.identity != record_of(#[trigger] lines[j])->Ok_0.identity by {
                assert(records[i - 1].identity != records[j - 1].identity);
            }
            record_listing_exists(records);
            let after = record_listing(records);
            lemma_listing_len(after, records);
            assert forall|r: TrustedRecord| #[trigger] after.contains(r) <==> exists|i: int|
                1 <= i < lines.len() && record_of(#[trigger] lines[i]) == Ok::<
                    TrustedRecord,
                    TrustedPeerStoreError,
                >(r) by {
                if after.contains(r) {
                    assert(records.contains(r));
                    let m = choose|m: int| 0 <= m < records.len() && records[m] == r;
                    assert(record_of(lines[m + 1]) == Ok::<TrustedRecord, TrustedPeerStoreError>(
                        r,
                    ));
                }
                if exists|i: int|
                    1 <= i < lines.len() && record_of(#[trigger] lines[i]) == Ok::<
                        TrustedRecord,
                        TrustedPeerStoreError,
                    >(r) {
                    let i = choose|i: int|
                        1 <= i < lines.len() && record_of(#[trigger] lines[i]) == Ok::<
                            TrustedRecord,
                            TrustedPeerStoreError,
                        >(r);
                    assert(records[i - 1] == r);
                    assert(records.contains(r));
                }
            }
            let less = record_order();
            assert forall|i: int, j: int| 0 <= i < j < after.len() implies identity_less(
                (#[trigger] after[i]).identity,
                (#[trigger] after[j]).identity,
            ) by {
                assert(less(after[i], after[j]));
            }
        }
    } else if records_of(rest) is Ok {
        assert forall|i: int| 1 <= i < lines.len() implies record_of(#[trigger] lines[i]) is Ok by {
            assert(record_of(rest[i - 1]) is Ok);
        }
    }
}

/// The reasons for which a store is refused, in their order: its size, its encoding, its
/// last line break and its header, its number of records, its first line that holds no
/// record, and two records of one identity.
#[verifier::spinoff_prover]
#[verifier::rlimit(60)]
pub proof fn refused_stores_are_explained(bytes: Seq<u8>)
    ensures
        ({
            let contents = decode_utf8(bytes);
            let lines = text::split(contents.drop_last(), '\n');
            let r = store_of(bytes);
            let sized = bytes.len() <= 65536;
            let text = sized && valid_utf8(bytes);
            let ended = text && contents.len() > 0 && contents.last() == '\n';
            let headed = ended && lines[0] == "local-transfer-trusted-peers v1"@;
            let counted = headed && lines.len() <= 129;
            &&& !sized ==> (r matches Err(TrustedPeerStoreError::StoreTooLarge { size, maximum })
                && size == bytes.len() as u64 && maximum == 65536)
            &&& sized && !text ==> r == Err::<Seq<TrustedRecord>, TrustedPeerStoreError>(
                TrustedPeerStoreError::MalformedStore { reason: MalformedStoreReason::NotUtf8 },
            )
            &&& text && !ended ==> r == Err::<Seq<TrustedRecord>, TrustedPeerStoreError>(
                TrustedPeerStoreError::MalformedStore { reason: MalformedStoreReason::Header },
            )
            &&& ended && !headed ==> r == Err::<Seq<TrustedRecord>, TrustedPeerStoreError>(
                header_error(lines[0])->0,
            ) && header_error(lines[0]) is Some
            &&& headed && !counted ==> (r matches Err(
                TrustedPeerStoreError::CapacityExceeded { count, maximum },
            ) && count == (lines.len() - 1) as usize && maximum == 128)
            &&& forall|i: int|
                counted && 1 <= i < lines.len() && record_of(#[trigger] lines[i]) is Err && (
                forall|j: int| 1 <= j < i ==> record_of(#[trigger] lines[j]) is Ok) ==> r == Err::<
                    Seq<TrustedRecord>,
                    TrustedPeerStoreError,
                >(record_of(lines[i])->Err_0)
            &&& counted && (forall|i: int|
                1 <= i < lines.len() ==> record_of(#[trigger] lines[i]) is Ok) && r is Err ==> r
                == Err::<Seq<TrustedRecord>, TrustedPeerStoreError>(
                TrustedPeerStoreError::DuplicateIdentity,
            )
        }),
{
    let contents = decode_utf8(bytes);
    let lines = text::split(contents.drop_last(), '\n');
    text::splitting_loses_nothing(contents.drop_last(), '\n');
    only_the_current_header_is_accepted(lines[0]);
    let rest = lines.skip(1);
    every_line_counts(rest);
    assert forall|i: int| 0 <= i < rest.len() implies #[trigger] rest[i] == lines[i + 1] by {}
    assert forall|i: int|
        1 <= i < lines.len() && record_of(#[trigger] lines[i]) is Err && (forall|j: int|
            1 <= j < i ==> record_of(#[trigger] lines[j]) is Ok) implies records_of(rest) == Err::<
        Seq<TrustedRecord>,
        TrustedPeerStoreError,
    >(record_of(lines[i])->Err_0) by {
        assert(rest[i - 1] == lines[i]);
        assert(record_of(rest[i - 1]) is Err);
        let first = choose|k: int|
            {
                &&& 0 <= k < rest.len()
                &&& record_of(#[trigger] rest[k]) == Err::<TrustedRecord, TrustedPeerStoreError>(
                    records_of(rest)->Err_0,
                )
                &&& forall|j: int| 0 <= j < k ==> record_of(#[trigger] rest[j]) is Ok
            };
        if first < i - 1 {
            assert(record_of(lines[first + 1]) is Ok);
        } else if i - 1 < first {
            assert(record_of(rest[i - 1]) is Ok);
        }
    }
    if forall|i: int| 1 <= i < lines.len() ==> record_of(#[trigger] lines[i]) is Ok {
        assert forall|i: int| 0 <= i < rest.len() implies record_of(#[trigger] rest[i]) is Ok by {
            assert(record_of(lines[i + 1]) is Ok);
        }
    }
}

/// The updated set has as many records as are handed on for it.
pub proof fn lemma_stored_len(records: Seq<TrustedRecord>, record: TrustedRecord)
    requires
        is_peer_set(records),
    ensures
        stored(records, record).len() == without(records, record.identity).push(record).len(),
        stored(records, record).len() <= records.len() + 1,
{
    let all = without(records, record.identity).push(record);
    lemma_push_has_no_duplicate(records, record);
    lemma_without(records, record.identity);
    record_listing_exists(all);
    lemma_listing_len(stored(records, record), all);
}

/// The description of a failure names what it is about: the path, the operation and its
/// cause, the sizes and counts, the version, or the category.
pub proof fn failure_names_its_subject(error: TrustedPeerStoreError)
    ensures
        match error {
            TrustedPeerStoreError::InvalidStorePath { path } => text::mentions(
                error.text(),
                path@,
            ),
            TrustedPeerStoreError::Io { operation, path, source } => text::mentions(
                error.text(),
                operation@,
            ) && text::mentions(error.text(), path@) && text::mentions(error.text(), source@),
            TrustedPeerStoreError::NotRegularFile { path } => text::mentions(error.text(), path@),
            TrustedPeerStoreError::SymlinkNotAllowed { path } => text::mentions(
                error.text(),
                path@,
            ),
            TrustedPeerStoreError::StoreTooLarge { size, maximum } => text::mentions(
                error.text(),
                text::decimal(size as nat),
            ) && text::mentions(error.text(), text::decimal(maximum as nat)),
            TrustedPeerStoreError::RecordTooLarge { size, maximum } => text::mentions(
                error.text(),
                text::decimal(size as nat),
            ) && text::mentions(error.text(), text::decimal(maximum as nat)),
            TrustedPeerStoreError::UnsupportedVersion { version } => text::mentions(
                error.text(),
                text::decimal(version as nat),
            ),
            TrustedPeerStoreError::CapacityExceeded { count, maximum } => text::mentions(
                error.text(),
                text::decimal(count as nat),
            ) && text::mentions(error.text(), text::decimal(maximum as nat)),
            TrustedPeerStoreError::MalformedStore { reason } => text::mentions(
                error.text(),
                reason.text(),
            ),
            _ => true,
        },
{
    let none = Seq::<char>::empty();
    let whole = error.text();
    match error {
        TrustedPeerStoreError::InvalidStorePath { path } => text::lemma_mentions(
            "trusted-peer store path has no parent: "@,
            path@,
            none,
        ),
        TrustedPeerStoreError::Io { operation, path, source } => text::lemma_io_text(
            whole,
            operation@,
            path@,
            source@,
        ),
        TrustedPeerStoreError::NotRegularFile { path } => text::lemma_mentions(
            "trusted-peer store path "@,
            path@,
            " is not a regular file"@,
        ),
        TrustedPeerStoreError::SymlinkNotAllowed { path } => text::lemma_mentions(
            "trusted-peer store path "@,
            path@,
            " is a symbolic link"@,
        ),
        TrustedPeerStoreError::StoreTooLarge { size, maximum } => text::lemma_two_numbers(
            "trusted-peer store is "@,
            text::decimal(size as nat),
            " bytes; maximum is "@,
            text::decimal(maximum as nat),
        ),
        TrustedPeerStoreError::RecordTooLarge { size, maximum } => text::lemma_two_numbers(
            "a trusted-peer record is "@,
            text::decimal(size as nat),
            " bytes; maximum is "@,
            text::decimal(maximum as nat),
        ),
        TrustedPeerStoreError::UnsupportedVersion { version } => text::lemma_mentions(
            "unsupported trusted-peer store version "@,
            text::decimal(version as nat),
            none,
        ),
        TrustedPeerStoreError::CapacityExceeded { count, maximum } => text::lemma_two_numbers(
            "trusted-peer store holds "@,
            text::decimal(count as nat),
            " records; maximum is "@,
            text::decimal(maximum as nat),
        ),
        TrustedPeerStoreError::MalformedStore { reason } => text::lemma_mentions(
            "malformed trusted-peer store ("@,
            reason.text(),
            ")"@,
        ),
        _ => {},
    }
}

} // verus!
