//! Bounded, unauthenticated metadata for DNS-SD discovery.

use vstd::prelude::*;
use vstd::utf8::*;

use crate::device_name;
use crate::device_name::DeviceName;
use crate::platform::Platform;
use crate::text;
use crate::text::{
    byte_len, chars_of, decimal_text, decode_text, longest_fitting_prefix, parse_canonical_decimal,
    same_bytes, same_ignoring_ascii_case, same_text, text_has_control, trim_text,
};

verus! {

/// The canonical DNS-SD service type for local-transfer.
pub const DISCOVERY_SERVICE_TYPE: &'static str = "_local-transfer._tcp";

/// The discovery metadata schema version emitted and accepted by this release.
pub const DISCOVERY_SCHEMA_VERSION: u16 = 1;

/// The initial local-transfer application protocol major version.
pub const INITIAL_PROTOCOL_MAJOR: u16 = 1;

/// The maximum encoded UTF-8 size of the optional `name` hint.
pub const MAX_DISCOVERY_NAME_BYTES: usize = 96;

/// The maximum encoded size of all local-transfer TXT entries, including length octets.
pub const MAX_DISCOVERY_TXT_BYTES: usize = 512;

/// The DNS-SD maximum payload size of one length-prefixed TXT entry.
pub const MAX_DISCOVERY_TXT_ENTRY_BYTES: usize = 255;

/// The TXT key of the discovery schema version.
pub const KEY_DISCOVERY_VERSION: &'static str = "dv";

/// The TXT key of the lowest supported protocol major version.
pub const KEY_PROTOCOL_MIN: &'static str = "pmin";

/// The TXT key of the highest supported protocol major version.
pub const KEY_PROTOCOL_MAX: &'static str = "pmax";

/// The TXT key of the name hint.
pub const KEY_NAME: &'static str = "name";

/// The TXT key of the platform hint.
pub const KEY_PLATFORM: &'static str = "os";

/// A protocol major version lies in an inclusive range, given by its two ends.
pub open spec fn supports(range: (u16, u16), version: u16) -> bool {
    range.0 <= version <= range.1
}

/// An inclusive range of supported application protocol major versions. Its view
/// is the pair of its minimum and its maximum.
#[derive(Clone, Copy, Debug, PartialEq, Eq, Structural)]
pub struct DiscoveryProtocolRange {
    min: u16,
    max: u16,
}

impl View for DiscoveryProtocolRange {
    type V = (u16, u16);

    closed spec fn view(&self) -> (u16, u16) {
        (self.min, self.max)
    }
}

impl DiscoveryProtocolRange {
    #[verifier::type_invariant]
    spec fn well_formed(self) -> bool {
        self.min <= self.max
    }

    /// Creates a non-empty inclusive protocol-major range.
    pub fn new(min: u16, max: u16) -> (r: Result<Self, DiscoveryProtocolRangeError>)
        ensures
            match r {
                Ok(range) => min <= max && range@ == (min, max),
                Err(error) => min > max && error == (DiscoveryProtocolRangeError { min, max }),
            },
    {
        if min > max {
            return Err(DiscoveryProtocolRangeError { min, max });
        }
        Ok(DiscoveryProtocolRange { min, max })
    }

    /// Returns the initial supported application protocol range, `1..=1`.
    #[must_use]
    pub fn initial() -> (r: Self)
        ensures
            r@ == (INITIAL_PROTOCOL_MAJOR, INITIAL_PROTOCOL_MAJOR),
    {
        DiscoveryProtocolRange { min: INITIAL_PROTOCOL_MAJOR, max: INITIAL_PROTOCOL_MAJOR }
    }

    /// Returns the minimum supported protocol major version.
    #[must_use]
    pub fn min(self) -> (r: u16)
        ensures
            r == self@.0,
            self@.0 <= self@.1,
    {
        proof {
            use_type_invariant(&self);
        }
        self.min
    }

    /// Returns the maximum supported protocol major version.
    #[must_use]
    pub fn max(self) -> (r: u16)
        ensures
            r == self@.1,
            self@.0 <= self@.1,
    {
        proof {
            use_type_invariant(&self);
        }
        self.max
    }

    /// Returns the highest protocol major version supported by both ranges.
    #[must_use]
    pub fn highest_compatible_version(self, other: Self) -> (r: Option<u16>)
        ensures
            r == highest_common_version(self@, other@),
            match r {
                Some(v) => supports(self@, v) && supports(other@, v) && forall|w: u16|
                    supports(self@, w) && supports(other@, w) ==> w <= v,
                None => forall|w: u16| !(supports(self@, w) && supports(other@, w)),
            },
    {
        proof {
            use_type_invariant(&self);
            use_type_invariant(&other);
        }
        let minimum: u16 = if self.min >= other.min {
            self.min
        } else {
            other.min
        };
        let maximum: u16 = if self.max <= other.max {
            self.max
        } else {
            other.max
        };
        if minimum <= maximum {
            assert(supports(self@, maximum) && supports(other@, maximum));
            Some(maximum)
        } else {
            None
        }
    }

    /// Reports whether the ranges share at least one protocol major version.
    #[must_use]
    pub fn is_compatible_with(self, other: Self) -> (r: bool)
        ensures
            r == ranges_overlap(self@, other@),
    {
        self.highest_compatible_version(other).is_some()
    }
}

/// Two ranges share a protocol major version.
pub open spec fn ranges_overlap(a: (u16, u16), b: (u16, u16)) -> bool {
    exists|v: u16| supports(a, v) && supports(b, v)
}

/// The highest protocol major version that two ranges share.
pub open spec fn highest_common_version(a: (u16, u16), b: (u16, u16)) -> Option<u16> {
    let top = if a.1 <= b.1 {
        a.1
    } else {
        b.1
    };
    if supports(a, top) && supports(b, top) {
        Some(top)
    } else {
        None
    }
}

/// Two sides that compare their ranges agree on whether they are compatible and on
/// which version they share.
pub proof fn compatibility_is_symmetric(a: (u16, u16), b: (u16, u16))
    ensures
        ranges_overlap(a, b) == ranges_overlap(b, a),
        highest_common_version(a, b) == highest_common_version(b, a),
{
    assert(ranges_overlap(a, b) ==> ranges_overlap(b, a)) by {
        if ranges_overlap(a, b) {
            let v = choose|v: u16| supports(a, v) && supports(b, v);
            assert(supports(b, v) && supports(a, v));
        }
    }
    assert(ranges_overlap(b, a) ==> ranges_overlap(a, b)) by {
        if ranges_overlap(b, a) {
            let v = choose|v: u16| supports(b, v) && supports(a, v);
            assert(supports(a, v) && supports(b, v));
        }
    }
}

/// A protocol-major range has its minimum above its maximum.
#[derive(Clone, Copy, Debug, PartialEq, Eq, Structural)]
pub struct DiscoveryProtocolRangeError {
    pub min: u16,
    pub max: u16,
}

impl DiscoveryProtocolRangeError {
    /// The description of the error.
    pub open spec fn text(self) -> Seq<char> {
        "minimum protocol major "@ + text::decimal(self.min as nat) + " exceeds maximum "@
            + text::decimal(self.max as nat)
    }

    /// Returns the invalid minimum.
    #[must_use]
    pub fn min(self) -> (r: u16)
        ensures
            r == self.min,
    {
        self.min
    }

    /// Returns the invalid maximum.
    #[must_use]
    pub fn max(self) -> (r: u16)
        ensures
            r == self.max,
    {
        self.max
    }

    /// Describes the error.
    pub fn message(&self) -> (s: String)
        ensures
            s@ == self.text(),
    {
        String::from_str("minimum protocol major ").concat(
            decimal_text(self.min as u64).as_str(),
        ).concat(" exceeds maximum ").concat(decimal_text(self.max as u64).as_str())
    }
}

/// A local discovery-name hint is not safe to advertise.
#[derive(Clone, Copy, Debug, PartialEq, Eq, Structural)]
pub enum DiscoveryNameHintError {
    /// The hint contains no visible text.
    Empty,
    /// The hint contains a control character.
    ControlCharacter,
    /// The encoded hint exceeds the discovery budget.
    TooLong { actual: usize, maximum: usize },
}

impl DiscoveryNameHintError {
    /// The description of the error.
    pub open spec fn text(self) -> Seq<char> {
        match self {
            DiscoveryNameHintError::Empty => "discovery name hint must not be empty"@,
            DiscoveryNameHintError::ControlCharacter =>
                "discovery name hint must not contain control characters"@,
            DiscoveryNameHintError::TooLong { actual, maximum } => "discovery name hint is "@
                + text::decimal(actual as nat) + " UTF-8 bytes; maximum is "@ + text::decimal(
                maximum as nat,
            ),
        }
    }

    /// Describes the error.
    pub fn message(&self) -> (s: String)
        ensures
            s@ == self.text(),
    {
        match self {
            DiscoveryNameHintError::Empty => String::from_str(
                "discovery name hint must not be empty",
            ),
            DiscoveryNameHintError::ControlCharacter => String::from_str(
                "discovery name hint must not contain control characters",
            ),
            DiscoveryNameHintError::TooLong { actual, maximum } => String::from_str(
                "discovery name hint is ",
            ).concat(decimal_text(*actual as u64).as_str()).concat(
                " UTF-8 bytes; maximum is ",
            ).concat(decimal_text(*maximum as u64).as_str()),
        }
    }
}

/// Why a text cannot serve as a name hint, if it cannot.
pub open spec fn name_hint_error(value: Seq<char>) -> Option<DiscoveryNameHintError> {
    if encode_utf8(value).len() > MAX_DISCOVERY_NAME_BYTES {
        Some(
            DiscoveryNameHintError::TooLong {
                actual: encode_utf8(value).len() as usize,
                maximum: MAX_DISCOVERY_NAME_BYTES,
            },
        )
    } else if text::trimmed(value).len() == 0 {
        Some(DiscoveryNameHintError::Empty)
    } else if text::has_control(value) {
        Some(DiscoveryNameHintError::ControlCharacter)
    } else {
        None
    }
}

/// A bounded, non-authoritative UTF-8 device-name hint.
#[derive(Debug, PartialEq, Eq)]
pub struct DiscoveryNameHint {
    value: String,
}

impl View for DiscoveryNameHint {
    type V = Seq<char>;

    closed spec fn view(&self) -> Seq<char> {
        self.value@
    }
}

impl Clone for DiscoveryNameHint {
    fn clone(&self) -> (r: Self)
        ensures
            r == *self,
    {
        proof {
            use_type_invariant(self);
        }
        DiscoveryNameHint { value: self.value.clone() }
    }
}

impl DiscoveryNameHint {
    #[verifier::type_invariant]
    spec fn well_formed(self) -> bool {
        name_hint_error(self.value@) is None
    }

    /// Validates an optional presentation hint without treating it as identity.
    pub fn new(value: &str) -> (r: Result<Self, DiscoveryNameHintError>)
        ensures
            match name_hint_error(value@) {
                None => r is Ok && r->Ok_0@ == value@,
                Some(error) => r == Err::<Self, DiscoveryNameHintError>(error),
            },
    {
        let size = byte_len(value);
        if size > MAX_DISCOVERY_NAME_BYTES {
            return Err(
                DiscoveryNameHintError::TooLong { actual: size, maximum: MAX_DISCOVERY_NAME_BYTES },
            );
        }
        if chars_of(trim_text(value).as_str()).len() == 0 {
            return Err(DiscoveryNameHintError::Empty);
        }
        if text_has_control(value) {
            return Err(DiscoveryNameHintError::ControlCharacter);
        }
        Ok(DiscoveryNameHint { value: value.to_owned() })
    }

    /// Derives a hint from a validated name, truncating only at a UTF-8 boundary.
    #[must_use]
    pub fn from_device_name(name: &DeviceName) -> (r: Self)
        ensures
            text::is_longest_fitting_prefix(r@, name@, MAX_DISCOVERY_NAME_BYTES as nat),
    {
        let value = name.as_str();
        let prefix = longest_fitting_prefix(value, MAX_DISCOVERY_NAME_BYTES);
        proof {
            name_prefix_is_hint(name@, prefix@);
        }
        DiscoveryNameHint { value: prefix }
    }

    /// Returns the advisory name text.
    #[must_use]
    pub fn as_str(&self) -> (s: &str)
        ensures
            s@ == self@,
            name_hint_error(self@) is None,
    {
        proof {
            use_type_invariant(self);
        }
        self.value.as_str()
    }
}

/// The part of a display name that fits the discovery budget is a name hint.
pub proof fn name_prefix_is_hint(name: Seq<char>, prefix: Seq<char>)
    requires
        device_name::is_device_name(name),
        text::is_longest_fitting_prefix(prefix, name, MAX_DISCOVERY_NAME_BYTES as nat),
    ensures
        name_hint_error(prefix) is None,
{
    if prefix.len() == 0 {
        assert(name.take(1) =~= Seq::<char>::empty().push(name[0]));
        text::lemma_encode_utf8_push(Seq::<char>::empty(), name[0]);
        assert(encode_utf8(Seq::<char>::empty()).len() == 0);
    }
    text::lemma_trimmed_edges(name);
    assert(prefix[0] == name[0]);
    text::lemma_trimmed_keeps_start(prefix);
    assert forall|i: int| 0 <= i < prefix.len() implies !text::is_control(#[trigger] prefix[i]) by {
        assert(prefix[i] == name[i]);
    }
}

/// Bounded, non-authoritative operating-system presentation metadata.
#[derive(Clone, Copy, Debug, PartialEq, Eq, Structural)]
pub enum DiscoveryPlatformHint {
    /// Apple macOS.
    MacOs,
    /// Microsoft Windows.
    Windows,
    /// Linux.
    Linux,
}

impl DiscoveryPlatformHint {
    /// The documented TXT representation.
    pub open spec fn text(self) -> Seq<char> {
        match self {
            DiscoveryPlatformHint::MacOs => "macos"@,
            DiscoveryPlatformHint::Windows => "windows"@,
            DiscoveryPlatformHint::Linux => "linux"@,
        }
    }

    /// Returns the documented TXT representation.
    #[must_use]
    pub fn as_str(self) -> (s: &'static str)
        ensures
            s@ == self.text(),
    {
        match self {
            DiscoveryPlatformHint::MacOs => "macos",
            DiscoveryPlatformHint::Windows => "windows",
            DiscoveryPlatformHint::Linux => "linux",
        }
    }

    /// Reads a TXT value, which names a platform only by its exact representation.
    pub fn parse(value: &[u8]) -> (r: Option<Self>)
        ensures
            r == platform_hint_of(value@),
    {
        if same_bytes(value, "macos".as_bytes()) {
            Some(DiscoveryPlatformHint::MacOs)
        } else if same_bytes(value, "windows".as_bytes()) {
            Some(DiscoveryPlatformHint::Windows)
        } else if same_bytes(value, "linux".as_bytes()) {
            Some(DiscoveryPlatformHint::Linux)
        } else {
            None
        }
    }
}

/// The platform hint whose representation the bytes are.
pub open spec fn platform_hint_of(value: Seq<u8>) -> Option<DiscoveryPlatformHint> {
    if value == encode_utf8("macos"@) {
        Some(DiscoveryPlatformHint::MacOs)
    } else if value == encode_utf8("windows"@) {
        Some(DiscoveryPlatformHint::Windows)
    } else if value == encode_utf8("linux"@) {
        Some(DiscoveryPlatformHint::Linux)
    } else {
        None
    }
}

/// Reading back the representation of a platform hint gives the hint.
pub proof fn platform_hint_round_trip(hint: DiscoveryPlatformHint)
    ensures
        platform_hint_of(encode_utf8(hint.text())) == Some(hint),
        encode_utf8(hint.text()).len() <= 7,
{
    reveal_strlit("macos");
    reveal_strlit("windows");
    reveal_strlit("linux");
    is_ascii_chars_encode_utf8("macos"@);
    is_ascii_chars_encode_utf8("windows"@);
    is_ascii_chars_encode_utf8("linux"@);
    assert(encode_utf8("macos"@).len() == 5);
    assert(encode_utf8("windows"@).len() == 7);
    assert(encode_utf8("linux"@).len() == 5);
    assert("macos"@[0] == 'm');
    assert("linux"@[0] == 'l');
    assert(encode_utf8("macos"@)[0] != encode_utf8("linux"@)[0]);
}

impl From<Platform> for DiscoveryPlatformHint {
    fn from(platform: Platform) -> (r: Self) {
        match platform {
            Platform::MacOs => DiscoveryPlatformHint::MacOs,
            Platform::Windows => DiscoveryPlatformHint::Windows,
            Platform::Linux => DiscoveryPlatformHint::Linux,
        }
    }
}

impl vstd::std_specs::convert::FromSpecImpl<Platform> for DiscoveryPlatformHint {
    open spec fn obeys_from_spec() -> bool {
        true
    }

    open spec fn from_spec(platform: Platform) -> Self {
        match platform {
            Platform::MacOs => DiscoveryPlatformHint::MacOs,
            Platform::Windows => DiscoveryPlatformHint::Windows,
            Platform::Linux => DiscoveryPlatformHint::Linux,
        }
    }
}

/// A character that a TXT key may hold: printable ASCII other than `=`.
pub open spec fn is_key_char(c: char) -> bool {
    '\u{20}' <= c <= '\u{7e}' && c != '='
}

/// A syntactically valid TXT key.
pub open spec fn is_txt_key(key: Seq<char>) -> bool {
    key.len() > 0 && forall|i: int| 0 <= i < key.len() ==> is_key_char(#[trigger] key[i])
}

/// The payload size of a TXT entry: its key, the separator and its value.
pub open spec fn txt_payload_size(key: Seq<char>, value: Seq<u8>) -> nat {
    encode_utf8(key).len() + 1 + value.len()
}

/// A number as the largest `usize` allows it.
pub open spec fn clamped(n: nat) -> usize {
    if n <= usize::MAX {
        n as usize
    } else {
        usize::MAX
    }
}

/// Why a key and a value do not form a TXT entry, if they do not.
pub open spec fn txt_entry_error(key: Seq<char>, value: Seq<u8>) -> Option<
    DiscoveryMetadataError,
> {
    if !is_txt_key(key) {
        Some(DiscoveryMetadataError::InvalidTxtKey)
    } else if txt_payload_size(key, value) > MAX_DISCOVERY_TXT_ENTRY_BYTES {
        Some(
            DiscoveryMetadataError::TxtEntryTooLarge {
                size: clamped(txt_payload_size(key, value)),
                maximum: MAX_DISCOVERY_TXT_ENTRY_BYTES,
            },
        )
    } else {
        None
    }
}

/// One adapter-neutral DNS-SD TXT key/value entry. Its view is the pair of its key
/// and its value.
#[derive(Debug, PartialEq, Eq)]
pub struct DiscoveryTxtEntry {
    key: String,
    value: Vec<u8>,
}

impl View for DiscoveryTxtEntry {
    type V = (Seq<char>, Seq<u8>);

    closed spec fn view(&self) -> (Seq<char>, Seq<u8>) {
        (self.key@, self.value@)
    }
}

impl Clone for DiscoveryTxtEntry {
    fn clone(&self) -> (r: Self)
        ensures
            r@ == self@,
    {
        proof {
            use_type_invariant(self);
        }
        let value = vstd::slice::slice_to_vec(self.value.as_slice());
        DiscoveryTxtEntry { key: self.key.clone(), value }
    }
}

impl DiscoveryTxtEntry {
    #[verifier::type_invariant]
    spec fn well_formed(self) -> bool {
        txt_entry_error(self.key@, self.value@) is None
    }

    /// Validates a TXT entry's key syntax and DNS-SD per-entry size limit.
    pub fn new(key: &str, value: &[u8]) -> (r: Result<Self, DiscoveryMetadataError>)
        ensures
            match txt_entry_error(key@, value@) {
                None => r is Ok && r->Ok_0@ == (key@, value@),
                Some(error) => r == Err::<Self, DiscoveryMetadataError>(error),
            },
    {
        let chars = chars_of(key);
        if chars.len() == 0 {
            return Err(DiscoveryMetadataError::InvalidTxtKey);
        }
        let mut i: usize = 0;
        while i < chars.len()
            invariant
                i <= chars.len(),
                chars@ == key@,
                forall|j: int| 0 <= j < i ==> is_key_char(#[trigger] key@[j]),
            decreases chars.len() - i,
        {
            let c = chars[i];
            if c < '\u{20}' || c > '\u{7e}' || c == '=' {
                assert(!is_key_char(key@[i as int]));
                return Err(DiscoveryMetadataError::InvalidTxtKey);
            }
            i = i + 1;
        }
        let size = byte_len(key).saturating_add(1).saturating_add(value.len());
        if size > MAX_DISCOVERY_TXT_ENTRY_BYTES {
            return Err(
                DiscoveryMetadataError::TxtEntryTooLarge {
                    size,
                    maximum: MAX_DISCOVERY_TXT_ENTRY_BYTES,
                },
            );
        }
        Ok(DiscoveryTxtEntry { key: key.to_owned(), value: vstd::slice::slice_to_vec(value) })
    }

    /// Returns the entry key.
    #[must_use]
    pub fn key(&self) -> (s: &str)
        ensures
            s@ == self@.0,
            txt_entry_error(self@.0, self@.1) is None,
    {
        proof {
            use_type_invariant(self);
        }
        self.key.as_str()
    }

    /// Returns the entry's untrusted value bytes.
    #[must_use]
    pub fn value(&self) -> (b: &[u8])
        ensures
            b@ == self@.1,
            txt_entry_error(self@.0, self@.1) is None,
    {
        proof {
            use_type_invariant(self);
        }
        self.value.as_slice()
    }

    /// Returns the size of the entry in a TXT record, with its length octet.
    pub fn encoded_size(&self) -> (n: usize)
        ensures
            n == txt_encoded_size(self@),
            n <= 256,
    {
        proof {
            use_type_invariant(self);
        }
        1 + byte_len(self.key.as_str()) + 1 + self.value.len()
    }

    /// Builds an entry whose parts are known to fit.
    fn emitted(key: &'static str, value: &[u8]) -> (r: Self)
        requires
            txt_entry_error(key@, value@) is None,
        ensures
            r@ == (key@, value@),
    {
        DiscoveryTxtEntry { key: key.to_owned(), value: vstd::slice::slice_to_vec(value) }
    }
}

/// The size of an entry in a TXT record, with its length octet.
pub open spec fn txt_encoded_size(entry: (Seq<char>, Seq<u8>)) -> nat {
    1 + txt_payload_size(entry.0, entry.1)
}

/// The size of all entries of a TXT record.
pub open spec fn txt_total_size(entries: Seq<(Seq<char>, Seq<u8>)>) -> nat
    decreases entries.len(),
{
    if entries.len() == 0 {
        0
    } else {
        txt_total_size(entries.drop_last()) + txt_encoded_size(entries.last())
    }
}

/// The contents of validated discovery metadata.
pub struct MetadataModel {
    /// The ends of the supported protocol range.
    pub protocols: (u16, u16),
    /// The name hint.
    pub name: Option<Seq<char>>,
    /// The platform hint.
    pub platform: Option<DiscoveryPlatformHint>,
}

/// Metadata whose parts are valid: a non-empty range and a valid name hint.
pub open spec fn is_metadata(m: MetadataModel) -> bool {
    &&& m.protocols.0 <= m.protocols.1
    &&& m.name matches Some(name) ==> name_hint_error(name) is None
}

/// A TXT key is the given known key, whatever the case of its ASCII letters.
pub open spec fn names_field(key: Seq<char>, known: &'static str) -> bool {
    text::ascii_lowered(key) == text::ascii_lowered(known@)
}

/// The known key that a TXT key stands for.
pub open spec fn known_field(key: Seq<char>) -> Option<&'static str> {
    if names_field(key, KEY_DISCOVERY_VERSION) {
        Some(KEY_DISCOVERY_VERSION)
    } else if names_field(key, KEY_PROTOCOL_MIN) {
        Some(KEY_PROTOCOL_MIN)
    } else if names_field(key, KEY_PROTOCOL_MAX) {
        Some(KEY_PROTOCOL_MAX)
    } else if names_field(key, KEY_NAME) {
        Some(KEY_NAME)
    } else if names_field(key, KEY_PLATFORM) {
        Some(KEY_PLATFORM)
    } else {
        None
    }
}

/// The value of the first entry for a known key.
pub open spec fn field_value(entries: Seq<(Seq<char>, Seq<u8>)>, known: &'static str) -> Option<
    Seq<u8>,
>
    decreases entries.len(),
{
    if entries.len() == 0 {
        None
    } else {
        match field_value(entries.drop_last(), known) {
            Some(value) => Some(value),
            None => if names_field(entries.last().0, known) {
                Some(entries.last().1)
            } else {
                None
            },
        }
    }
}

/// The known key that is the first to occur a second time.
pub open spec fn first_repeated_field(entries: Seq<(Seq<char>, Seq<u8>)>) -> Option<&'static str>
    decreases entries.len(),
{
    if entries.len() == 0 {
        None
    } else {
        match first_repeated_field(entries.drop_last()) {
            Some(known) => Some(known),
            None => match known_field(entries.last().0) {
                Some(known) => if field_value(entries.drop_last(), known) is Some {
                    Some(known)
                } else {
                    None
                },
                None => None,
            },
        }
    }
}

/// The number in a required field, or why there is none.
pub open spec fn required_number(
    entries: Seq<(Seq<char>, Seq<u8>)>,
    known: &'static str,
) -> Result<u16, DiscoveryMetadataError> {
    match field_value(entries, known) {
        None => Err(DiscoveryMetadataError::MissingField(known)),
        Some(value) => match text::canonical_decimal(value) {
            Some(n) => Ok(n),
            None => Err(DiscoveryMetadataError::MalformedField(known)),
        },
    }
}

/// The name hint in a TXT value, discarded when it is not valid.
pub open spec fn optional_name(value: Seq<u8>) -> Option<Seq<char>> {
    if valid_utf8(value) && name_hint_error(decode_utf8(value)) is None {
        Some(decode_utf8(value))
    } else {
        None
    }
}

/// The metadata that the entries of a TXT record describe, or the first reason
/// for which they describe none.
pub open spec fn metadata_of(entries: Seq<(Seq<char>, Seq<u8>)>) -> Result<
    MetadataModel,
    DiscoveryMetadataError,
> {
    if txt_total_size(entries) > MAX_DISCOVERY_TXT_BYTES {
        Err(
            DiscoveryMetadataError::TotalMetadataTooLarge {
                size: clamped(txt_total_size(entries)),
                maximum: MAX_DISCOVERY_TXT_BYTES,
            },
        )
    } else {
        match first_repeated_field(entries) {
            Some(known) => Err(DiscoveryMetadataError::DuplicateKnownKey(known)),
            None => match required_number(entries, KEY_DISCOVERY_VERSION) {
                Err(error) => Err(error),
                Ok(version) => if version != DISCOVERY_SCHEMA_VERSION {
                    Err(DiscoveryMetadataError::UnsupportedSchemaVersion { version })
                } else {
                    match (
                        required_number(entries, KEY_PROTOCOL_MIN),
                        required_number(entries, KEY_PROTOCOL_MAX),
                    ) {
                        (Err(error), _) => Err(error),
                        (Ok(_), Err(error)) => Err(error),
                        (Ok(min), Ok(max)) => if min > max {
                            Err(
                                DiscoveryMetadataError::InvalidProtocolRange(
                                    DiscoveryProtocolRangeError { min, max },
                                ),
                            )
                        } else {
                            Ok(
                                MetadataModel {
                                    protocols: (min, max),
                                    name: match field_value(entries, KEY_NAME) {
                                        Some(value) => optional_name(value),
                                        None => None,
                                    },
                                    platform: match field_value(entries, KEY_PLATFORM) {
                                        Some(value) => platform_hint_of(value),
                                        None => None,
                                    },
                                },
                            )
                        },
                    }
                },
            },
        }
    }
}

/// The entries that advertise metadata: the schema version and the protocol range,
/// then the hints that are present.
pub open spec fn txt_entries_of(m: MetadataModel) -> Seq<(Seq<char>, Seq<u8>)> {
    let required = seq![
        (KEY_DISCOVERY_VERSION@, text::decimal_bytes(DISCOVERY_SCHEMA_VERSION as nat)),
        (KEY_PROTOCOL_MIN@, text::decimal_bytes(m.protocols.0 as nat)),
        (KEY_PROTOCOL_MAX@, text::decimal_bytes(m.protocols.1 as nat)),
    ];
    let named = match m.name {
        Some(name) => required.push((KEY_NAME@, encode_utf8(name))),
        None => required,
    };
    match m.platform {
        Some(platform) => named.push((KEY_PLATFORM@, encode_utf8(platform.text()))),
        None => named,
    }
}

/// The views of a sequence of entries.
pub open spec fn entry_views(entries: Seq<DiscoveryTxtEntry>) -> Seq<(Seq<char>, Seq<u8>)> {
    entries.map_values(|entry: DiscoveryTxtEntry| entry@)
}

/// Validated discovery schema v1 metadata from an unauthenticated peer.
#[derive(Debug)]
pub struct DiscoveryMetadata {
    protocols: DiscoveryProtocolRange,
    name: Option<DiscoveryNameHint>,
    platform: Option<DiscoveryPlatformHint>,
}

impl View for DiscoveryMetadata {
    type V = MetadataModel;

    closed spec fn view(&self) -> MetadataModel {
        MetadataModel {
            protocols: self.protocols@,
            name: match self.name {
                Some(name) => Some(name@),
                None => None,
            },
            platform: self.platform,
        }
    }
}

impl PartialEq for DiscoveryMetadata {
    fn eq(&self, other: &Self) -> (r: bool) {
        let same_name = match (&self.name, &other.name) {
            (Some(a), Some(b)) => same_text(a.as_str(), b.as_str()),
            (None, None) => true,
            _ => false,
        };
        let same_platform = match (self.platform, other.platform) {
            (Some(a), Some(b)) => a == b,
            (None, None) => true,
            _ => false,
        };
        same_name && same_platform && self.protocols == other.protocols
    }
}

impl vstd::std_specs::cmp::PartialEqSpecImpl for DiscoveryMetadata {
    open spec fn obeys_eq_spec() -> bool {
        true
    }

    open spec fn eq_spec(&self, other: &Self) -> bool {
        self@ == other@
    }
}

impl Eq for DiscoveryMetadata {

}

impl Clone for DiscoveryMetadata {
    fn clone(&self) -> (r: Self)
        ensures
            r == *self,
    {
        DiscoveryMetadata {
            protocols: self.protocols,
            name: match &self.name {
                Some(name) => Some(name.clone()),
                None => None,
            },
            platform: self.platform,
        }
    }
}

impl DiscoveryMetadata {
    /// Creates local schema v1 metadata from bounded domain values.
    #[must_use]
    pub fn new(
        protocols: DiscoveryProtocolRange,
        name: Option<DiscoveryNameHint>,
        platform: Option<DiscoveryPlatformHint>,
    ) -> (r: Self)
        ensures
            r@.protocols == protocols@,
            r@.name == (match name {
                Some(hint) => Some(hint@),
                None => None,
            }),
            r@.platform == platform,
    {
        DiscoveryMetadata { protocols, name, platform }
    }

    /// Returns the discovery schema version.
    #[must_use]
    pub fn schema_version(&self) -> (r: u16)
        ensures
            r == DISCOVERY_SCHEMA_VERSION,
    {
        DISCOVERY_SCHEMA_VERSION
    }

    /// Returns the peer's inclusive application-protocol range.
    #[must_use]
    pub fn protocols(&self) -> (r: DiscoveryProtocolRange)
        ensures
            r@ == self@.protocols,
    {
        self.protocols
    }

    /// Returns the optional, non-authoritative name hint.
    #[must_use]
    pub fn name(&self) -> (r: Option<&DiscoveryNameHint>)
        ensures
            match r {
                Some(hint) => self@.name == Some(hint@),
                None => self@.name is None,
            },
    {
        self.name.as_ref()
    }

    /// Returns the optional, non-authoritative platform hint.
    #[must_use]
    pub fn platform(&self) -> (r: Option<DiscoveryPlatformHint>)
        ensures
            r == self@.platform,
    {
        self.platform
    }

    /// Emits only the five documented schema keys in canonical form.
    #[must_use]
    pub fn to_txt_entries(&self) -> (r: Vec<DiscoveryTxtEntry>)
        ensures
            is_metadata(self@),
            entry_views(r@) == txt_entries_of(self@),
    {
        let min = self.protocols.min();
        let max = self.protocols.max();
        proof {
            lemma_emitted_sizes(self@.protocols.0);
            lemma_emitted_sizes(self@.protocols.1);
            lemma_emitted_sizes(DISCOVERY_SCHEMA_VERSION);
        }
        let version_text = decimal_text(DISCOVERY_SCHEMA_VERSION as u64);
        let min_text = decimal_text(min as u64);
        let max_text = decimal_text(max as u64);
        let mut entries: Vec<DiscoveryTxtEntry> = Vec::new();
        entries.push(
            DiscoveryTxtEntry::emitted(KEY_DISCOVERY_VERSION, version_text.as_str().as_bytes()),
        );
        entries.push(DiscoveryTxtEntry::emitted(KEY_PROTOCOL_MIN, min_text.as_str().as_bytes()));
        entries.push(DiscoveryTxtEntry::emitted(KEY_PROTOCOL_MAX, max_text.as_str().as_bytes()));
        if let Some(name) = &self.name {
            entries.push(DiscoveryTxtEntry::emitted(KEY_NAME, name.as_str().as_bytes()));
        }
        if let Some(platform) = self.platform {
            proof {
                platform_hint_round_trip(platform);
            }
            entries.push(DiscoveryTxtEntry::emitted(KEY_PLATFORM, platform.as_str().as_bytes()));
        }
        assert(entry_views(entries@) =~= txt_entries_of(self@));
        entries
    }

    /// Parses bounded untrusted TXT entries.
    ///
    /// Required compatibility fields are strict. Invalid optional presentation
    /// values are discarded. Unknown keys are ignored after size validation.
    pub fn from_txt_entries(entries: &[DiscoveryTxtEntry]) -> (r: Result<
        Self,
        DiscoveryMetadataError,
    >)
        ensures
            match metadata_of(entry_views(entries@)) {
                Ok(metadata) => r is Ok && r->Ok_0@ == metadata,
                Err(error) => r == Err::<Self, DiscoveryMetadataError>(error),
            },
    {
        let ghost views = entry_views(entries@);
        let size: usize = total_size(entries);
        if size > MAX_DISCOVERY_TXT_BYTES {
            return Err(
                DiscoveryMetadataError::TotalMetadataTooLarge {
                    size,
                    maximum: MAX_DISCOVERY_TXT_BYTES,
                },
            );
        }
        let mut discovery_version: Option<&[u8]> = None;
        let mut protocol_min: Option<&[u8]> = None;
        let mut protocol_max: Option<&[u8]> = None;
        let mut name: Option<&[u8]> = None;
        let mut platform: Option<&[u8]> = None;
        let mut i: usize = 0;
        while i < entries.len()
            invariant
                i <= entries.len(),
                views == entry_views(entries@),
                slot_view(discovery_version) == field_value(
                    views.take(i as int),
                    KEY_DISCOVERY_VERSION,
                ),
                slot_view(protocol_min) == field_value(views.take(i as int), KEY_PROTOCOL_MIN),
                slot_view(protocol_max) == field_value(views.take(i as int), KEY_PROTOCOL_MAX),
                slot_view(name) == field_value(views.take(i as int), KEY_NAME),
                slot_view(platform) == field_value(views.take(i as int), KEY_PLATFORM),
                first_repeated_field(views.take(i as int)) is None,
                txt_total_size(views) <= MAX_DISCOVERY_TXT_BYTES,
            decreases entries.len() - i,
        {
            let entry = &entries[i];
            proof {
                lemma_known_fields_differ(entry@.0);
                lemma_first_repeat_extends(views, i + 1);
                assert(views.take(i + 1).drop_last() =~= views.take(i as int));
                assert(views[i as int] == entry@);
            }
            let key = chars_of(entry.key());
            let known: Option<&'static str> = if is_field(&key, KEY_DISCOVERY_VERSION) {
                set_once(&mut discovery_version, entry.value(), KEY_DISCOVERY_VERSION)
            } else if is_field(&key, KEY_PROTOCOL_MIN) {
                set_once(&mut protocol_min, entry.value(), KEY_PROTOCOL_MIN)
            } else if is_field(&key, KEY_PROTOCOL_MAX) {
                set_once(&mut protocol_max, entry.value(), KEY_PROTOCOL_MAX)
            } else if is_field(&key, KEY_NAME) {
                set_once(&mut name, entry.value(), KEY_NAME)
            } else if is_field(&key, KEY_PLATFORM) {
                set_once(&mut platform, entry.value(), KEY_PLATFORM)
            } else {
                None
            };
            if let Some(repeated) = known {
                return Err(DiscoveryMetadataError::DuplicateKnownKey(repeated));
            }
            i = i + 1;
        }
        assert(views.take(i as int) =~= views);
        let version: u16 = match parse_required_decimal(discovery_version, KEY_DISCOVERY_VERSION) {
            Ok(version) => version,
            Err(error) => return Err(error),
        };
        if version != DISCOVERY_SCHEMA_VERSION {
            return Err(DiscoveryMetadataError::UnsupportedSchemaVersion { version });
        }
        let min: u16 = match parse_required_decimal(protocol_min, KEY_PROTOCOL_MIN) {
            Ok(min) => min,
            Err(error) => return Err(error),
        };
        let max: u16 = match parse_required_decimal(protocol_max, KEY_PROTOCOL_MAX) {
            Ok(max) => max,
            Err(error) => return Err(error),
        };
        let protocols = match DiscoveryProtocolRange::new(min, max) {
            Ok(protocols) => protocols,
            Err(error) => return Err(DiscoveryMetadataError::InvalidProtocolRange(error)),
        };
        let name_hint = match name {
            Some(value) => parse_optional_name(value),
            None => None,
        };
        let platform_hint = match platform {
            Some(value) => DiscoveryPlatformHint::parse(value),
            None => None,
        };
        Ok(DiscoveryMetadata::new(protocols, name_hint, platform_hint))
    }
}

/// The size of all entries of a TXT record, as far as the address space can count it.
pub(crate) fn total_size(entries: &[DiscoveryTxtEntry]) -> (total: usize)
    ensures
        total == clamped(txt_total_size(entry_views(entries@))),
{
    let ghost views = entry_views(entries@);
    let mut total: usize = 0;
    let mut i: usize = 0;
    while i < entries.len()
        invariant
            i <= entries.len(),
            views == entry_views(entries@),
            total == clamped(txt_total_size(views.take(i as int))),
        decreases entries.len() - i,
    {
        assert(views.take(i + 1).drop_last() =~= views.take(i as int));
        total = total.saturating_add(entries[i].encoded_size());
        i = i + 1;
    }
    assert(views.take(i as int) =~= views);
    total
}

/// The contents of an optional borrowed value.
spec fn slot_view(slot: Option<&[u8]>) -> Option<Seq<u8>> {
    match slot {
        Some(value) => Some(value@),
        None => None,
    }
}

/// Reports whether the characters of a key name a known field.
fn is_field(key: &Vec<char>, known: &'static str) -> (r: bool)
    ensures
        r == names_field(key@, known),
{
    same_ignoring_ascii_case(key.as_slice(), chars_of(known).as_slice())
}

/// Records the value of a known field, or gives the field back if it has one already.
fn set_once<'a>(
    slot: &mut Option<&'a [u8]>,
    value: &'a [u8],
    known: &'static str,
) -> (r: Option<&'static str>)
    ensures
        match slot_view(*old(slot)) {
            Some(earlier) => r == Some(known),
            None => r is None && slot_view(*final(slot)) == Some(value@),
        },
{
    if slot.is_some() {
        return Some(known);
    }
    *slot = Some(value);
    None
}

/// Reads the number in a required field.
fn parse_required_decimal(slot: Option<&[u8]>, known: &'static str) -> (r: Result<
    u16,
    DiscoveryMetadataError,
>)
    ensures
        r == (match slot_view(slot) {
            None => Err::<u16, DiscoveryMetadataError>(DiscoveryMetadataError::MissingField(known)),
            Some(value) => match text::canonical_decimal(value) {
                Some(n) => Ok::<u16, DiscoveryMetadataError>(n),
                None => Err::<u16, DiscoveryMetadataError>(
                    DiscoveryMetadataError::MalformedField(known),
                ),
            },
        }),
{
    match slot {
        None => Err(DiscoveryMetadataError::MissingField(known)),
        Some(value) => match parse_canonical_decimal(value) {
            Some(n) => Ok(n),
            None => Err(DiscoveryMetadataError::MalformedField(known)),
        },
    }
}

/// Reads an optional name hint, discarding one that is not valid.
fn parse_optional_name(value: &[u8]) -> (r: Option<DiscoveryNameHint>)
    ensures
        match r {
            Some(hint) => optional_name(value@) == Some(hint@),
            None => optional_name(value@) is None,
        },
{
    match decode_text(value) {
        Some(decoded) => match DiscoveryNameHint::new(decoded.as_str()) {
            Ok(hint) => Some(hint),
            Err(_) => None,
        },
        None => None,
    }
}

/// No TXT key names two known fields.
proof fn lemma_known_fields_differ(key: Seq<char>)
    ensures
        names_field(key, KEY_DISCOVERY_VERSION) ==> !names_field(key, KEY_PROTOCOL_MIN)
            && !names_field(key, KEY_PROTOCOL_MAX) && !names_field(key, KEY_NAME) && !names_field(
            key,
            KEY_PLATFORM,
        ),
        names_field(key, KEY_PROTOCOL_MIN) ==> !names_field(key, KEY_PROTOCOL_MAX) && !names_field(
            key,
            KEY_NAME,
        ) && !names_field(key, KEY_PLATFORM),
        names_field(key, KEY_PROTOCOL_MAX) ==> !names_field(key, KEY_NAME) && !names_field(
            key,
            KEY_PLATFORM,
        ),
        names_field(key, KEY_NAME) ==> !names_field(key, KEY_PLATFORM),
{
    reveal_strlit("dv");
    reveal_strlit("pmin");
    reveal_strlit("pmax");
    reveal_strlit("name");
    reveal_strlit("os");
    let dv = text::ascii_lowered(KEY_DISCOVERY_VERSION@);
    let pmin = text::ascii_lowered(KEY_PROTOCOL_MIN@);
    let pmax = text::ascii_lowered(KEY_PROTOCOL_MAX@);
    let name = text::ascii_lowered(KEY_NAME@);
    let os = text::ascii_lowered(KEY_PLATFORM@);
    assert(dv.len() == 2 && dv[0] == 'd');
    assert(pmin.len() == 4 && pmin[0] == 'p' && pmin[1] == 'm' && pmin[2] == 'i');
    assert(pmax.len() == 4 && pmax[0] == 'p' && pmax[1] == 'm' && pmax[2] == 'a');
    assert(name.len() == 4 && name[0] == 'n');
    assert(os.len() == 2 && os[0] == 'o');
}

/// A repetition in a prefix of the entries is the first one of all of them.
proof fn lemma_first_repeat_extends(entries: Seq<(Seq<char>, Seq<u8>)>, k: int)
    requires
        0 <= k <= entries.len(),
    ensures
        first_repeated_field(entries.take(k)) is Some ==> first_repeated_field(entries)
            == first_repeated_field(entries.take(k)),
    decreases entries.len() - k,
{
    if k < entries.len() {
        lemma_first_repeat_extends(entries, k + 1);
        assert(entries.take(k + 1).drop_last() =~= entries.take(k));
    } else {
        assert(entries.take(k) =~= entries);
    }
}

/// Known keys are valid, and the numbers, names and platforms that go with them fit.
proof fn lemma_emitted_sizes(n: u16)
    ensures
        is_txt_key(KEY_DISCOVERY_VERSION@),
        is_txt_key(KEY_PROTOCOL_MIN@),
        is_txt_key(KEY_PROTOCOL_MAX@),
        is_txt_key(KEY_NAME@),
        is_txt_key(KEY_PLATFORM@),
        encode_utf8(KEY_DISCOVERY_VERSION@).len() == 2,
        encode_utf8(KEY_PROTOCOL_MIN@).len() == 4,
        encode_utf8(KEY_PROTOCOL_MAX@).len() == 4,
        encode_utf8(KEY_NAME@).len() == 4,
        encode_utf8(KEY_PLATFORM@).len() == 2,
        text::decimal_bytes(n as nat).len() <= 5,
{
    reveal_strlit("dv");
    reveal_strlit("pmin");
    reveal_strlit("pmax");
    reveal_strlit("name");
    reveal_strlit("os");
    is_ascii_chars_encode_utf8(KEY_DISCOVERY_VERSION@);
    is_ascii_chars_encode_utf8(KEY_PROTOCOL_MIN@);
    is_ascii_chars_encode_utf8(KEY_PROTOCOL_MAX@);
    is_ascii_chars_encode_utf8(KEY_NAME@);
    is_ascii_chars_encode_utf8(KEY_PLATFORM@);
    text::lemma_decimal_bytes(n as nat);
    text::lemma_decimal_len(n as nat);
}

/// The entries of advertised metadata have valid keys, hold UTF-8 and fit.
pub proof fn lemma_emitted_entries(m: MetadataModel)
    requires
        is_metadata(m),
    ensures
        forall|i: int|
            0 <= i < txt_entries_of(m).len() ==> is_txt_key((#[trigger] txt_entries_of(m)[i]).0)
                && valid_utf8(txt_entries_of(m)[i].1) && txt_payload_size(
                txt_entries_of(m)[i].0,
                txt_entries_of(m)[i].1,
            ) <= MAX_DISCOVERY_TXT_ENTRY_BYTES,
{
    lemma_emitted_sizes(m.protocols.0);
    lemma_emitted_sizes(m.protocols.1);
    lemma_emitted_sizes(DISCOVERY_SCHEMA_VERSION);
    text::lemma_decimal_bytes(DISCOVERY_SCHEMA_VERSION as nat);
    text::lemma_decimal_bytes(m.protocols.0 as nat);
    text::lemma_decimal_bytes(m.protocols.1 as nat);
    encode_utf8_valid_utf8(text::decimal(DISCOVERY_SCHEMA_VERSION as nat));
    encode_utf8_valid_utf8(text::decimal(m.protocols.0 as nat));
    encode_utf8_valid_utf8(text::decimal(m.protocols.1 as nat));
    if let Some(name) = m.name {
        encode_utf8_valid_utf8(name);
    }
    if let Some(platform) = m.platform {
        platform_hint_round_trip(platform);
        encode_utf8_valid_utf8(platform.text());
    }
}

/// Advertised metadata reads back unchanged, and its TXT record stays within budget.
pub proof fn metadata_round_trip(m: MetadataModel)
    requires
        is_metadata(m),
    ensures
        metadata_of(txt_entries_of(m)) == Ok::<MetadataModel, DiscoveryMetadataError>(m),
        txt_total_size(txt_entries_of(m)) <= MAX_DISCOVERY_TXT_BYTES,
{
    let entries = txt_entries_of(m);
    lemma_emitted_sizes(m.protocols.0);
    lemma_emitted_sizes(m.protocols.1);
    lemma_emitted_sizes(DISCOVERY_SCHEMA_VERSION);
    lemma_known_fields_differ(KEY_DISCOVERY_VERSION@);
    lemma_known_fields_differ(KEY_PROTOCOL_MIN@);
    lemma_known_fields_differ(KEY_PROTOCOL_MAX@);
    lemma_known_fields_differ(KEY_NAME@);
    lemma_known_fields_differ(KEY_PLATFORM@);
    text::lemma_canonical_decimal(DISCOVERY_SCHEMA_VERSION);
    text::lemma_canonical_decimal(m.protocols.0);
    text::lemma_canonical_decimal(m.protocols.1);
    if let Some(name) = m.name {
        encode_utf8_valid_utf8(name);
        encode_utf8_decode_utf8(name);
    }
    if let Some(platform) = m.platform {
        platform_hint_round_trip(platform);
    }
    reveal_with_fuel(txt_total_size, 6);
    reveal_with_fuel(field_value, 6);
    reveal_with_fuel(first_repeated_field, 6);
    let e0 = Seq::<(Seq<char>, Seq<u8>)>::empty();
    let e1 = e0.push(
        (KEY_DISCOVERY_VERSION@, text::decimal_bytes(DISCOVERY_SCHEMA_VERSION as nat)),
    );
    let e2 = e1.push((KEY_PROTOCOL_MIN@, text::decimal_bytes(m.protocols.0 as nat)));
    let e3 = e2.push((KEY_PROTOCOL_MAX@, text::decimal_bytes(m.protocols.1 as nat)));
    assert(e1.drop_last() =~= e0);
    assert(e2.drop_last() =~= e1);
    assert(e3.drop_last() =~= e2);
    if m.name is Some {
        let e4 = e3.push((KEY_NAME@, encode_utf8(m.name->0)));
        assert(e4.drop_last() =~= e3);
        if m.platform is Some {
            let e5 = e4.push((KEY_PLATFORM@, encode_utf8(m.platform->0.text())));
            assert(e5.drop_last() =~= e4);
            assert(entries =~= e5);
        } else {
            assert(entries =~= e4);
        }
    } else {
        if m.platform is Some {
            let e4 = e3.push((KEY_PLATFORM@, encode_utf8(m.platform->0.text())));
            assert(e4.drop_last() =~= e3);
            assert(entries =~= e4);
        } else {
            assert(entries =~= e3);
        }
    }
}

/// An entry under no known key has no bearing on the known ones.
proof fn lemma_unknown_entry(entries: Seq<(Seq<char>, Seq<u8>)>, i: int)
    requires
        0 <= i < entries.len(),
        known_field(entries[i].0) is None,
    ensures
        txt_total_size(entries) == txt_total_size(entries.remove(i)) + txt_encoded_size(entries[i]),
        first_repeated_field(entries.remove(i)) == first_repeated_field(entries),
        field_value(entries.remove(i), KEY_DISCOVERY_VERSION) == field_value(
            entries,
            KEY_DISCOVERY_VERSION,
        ),
        field_value(entries.remove(i), KEY_PROTOCOL_MIN) == field_value(entries, KEY_PROTOCOL_MIN),
        field_value(entries.remove(i), KEY_PROTOCOL_MAX) == field_value(entries, KEY_PROTOCOL_MAX),
        field_value(entries.remove(i), KEY_NAME) == field_value(entries, KEY_NAME),
        field_value(entries.remove(i), KEY_PLATFORM) == field_value(entries, KEY_PLATFORM),
    decreases entries.len(),
{
    let rest = entries.drop_last();
    if i == entries.len() - 1 {
        assert(entries.remove(i) =~= rest);
    } else {
        lemma_unknown_entry(rest, i);
        assert(entries.remove(i).drop_last() =~= rest.remove(i));
        assert(entries.remove(i).last() == entries.last());
    }
}

/// An entry under an unknown key changes nothing, wherever it stands, as long as the
/// record stays within its budget.
pub proof fn unknown_keys_are_ignored(entries: Seq<(Seq<char>, Seq<u8>)>, i: int)
    requires
        0 <= i < entries.len(),
        known_field(entries[i].0) is None,
        txt_total_size(entries) <= MAX_DISCOVERY_TXT_BYTES,
    ensures
        metadata_of(entries.remove(i)) == metadata_of(entries),
{
    lemma_unknown_entry(entries, i);
}

/// Entries that differ only in the case of their keys.
pub open spec fn differ_in_key_case(
    a: Seq<(Seq<char>, Seq<u8>)>,
    b: Seq<(Seq<char>, Seq<u8>)>,
) -> bool {
    &&& a.len() == b.len()
    &&& forall|i: int|
        #![trigger a[i]]
        #![trigger b[i]]
        0 <= i < a.len() ==> is_txt_key(a[i].0) && is_txt_key(b[i].0) && text::ascii_lowered(
            a[i].0,
        ) == text::ascii_lowered(b[i].0) && a[i].1 == b[i].1
}

/// The case of a valid key is immaterial to every part of the reading.
proof fn lemma_key_case(a: Seq<(Seq<char>, Seq<u8>)>, b: Seq<(Seq<char>, Seq<u8>)>)
    requires
        differ_in_key_case(a, b),
    ensures
        txt_total_size(a) == txt_total_size(b),
        first_repeated_field(a) == first_repeated_field(b),
        forall|known: &'static str| #[trigger] field_value(a, known) == field_value(b, known),
    decreases a.len(),
{
    if a.len() > 0 {
        let (x, y) = (a.last(), b.last());
        assert(a[a.len() - 1] == x);
        assert(b[b.len() - 1] == y);
        assert(differ_in_key_case(a.drop_last(), b.drop_last()));
        lemma_key_case(a.drop_last(), b.drop_last());
        assert forall|k: int| 0 <= k < x.0.len() implies '\0' <= #[trigger] x.0[k] <= '\u{7f}' by {
            assert(is_key_char(x.0[k]));
        }
        assert forall|k: int| 0 <= k < y.0.len() implies '\0' <= #[trigger] y.0[k] <= '\u{7f}' by {
            assert(is_key_char(y.0[k]));
        }
        is_ascii_chars_encode_utf8(x.0);
        is_ascii_chars_encode_utf8(y.0);
        assert(text::ascii_lowered(x.0).len() == x.0.len());
        assert(text::ascii_lowered(y.0).len() == y.0.len());
        assert(known_field(x.0) == known_field(y.0));
        assert forall|known: &'static str| #[trigger] field_value(a, known) == field_value(
            b,
            known,
        ) by {
            assert(field_value(a.drop_last(), known) == field_value(b.drop_last(), known));
            assert(names_field(x.0, known) == names_field(y.0, known));
        }
    }
}

/// Keys are compared without regard to the case of their letters.
pub proof fn key_case_is_ignored(a: Seq<(Seq<char>, Seq<u8>)>, b: Seq<(Seq<char>, Seq<u8>)>)
    requires
        differ_in_key_case(a, b),
    ensures
        metadata_of(a) == metadata_of(b),
{
    lemma_key_case(a, b);
}

/// How many entries stand for a known key.
pub open spec fn field_count(entries: Seq<(Seq<char>, Seq<u8>)>, known: &'static str) -> nat
    decreases entries.len(),
{
    if entries.len() == 0 {
        0
    } else {
        field_count(entries.drop_last(), known) + if names_field(entries.last().0, known) {
            1nat
        } else {
            0nat
        }
    }
}

/// The size of an entry added to a sum.
spec fn add_size() -> spec_fn((Seq<char>, Seq<u8>), int) -> int {
    |entry: (Seq<char>, Seq<u8>), sum: int| txt_encoded_size(entry) + sum
}

/// An entry counted if it stands for a known key.
spec fn add_field(known: &'static str) -> spec_fn((Seq<char>, Seq<u8>), int) -> int {
    |entry: (Seq<char>, Seq<u8>), sum: int|
        if names_field(entry.0, known) {
            sum + 1
        } else {
            sum
        }
}

/// Sizes and counts are sums over the entries.
proof fn lemma_sums(entries: Seq<(Seq<char>, Seq<u8>)>, known: &'static str, v: int)
    ensures
        entries.fold_right(add_size(), v) == txt_total_size(entries) + v,
        entries.fold_right(add_field(known), v) == field_count(entries, known) + v,
    decreases entries.len(),
{
    if entries.len() > 0 {
        lemma_sums(entries.drop_last(), known, add_size()(entries.last(), v));
        lemma_sums(entries.drop_last(), known, add_field(known)(entries.last(), v));
    }
}

/// A known key that no two entries stand for has the value of the entry that does.
proof fn lemma_single_field(entries: Seq<(Seq<char>, Seq<u8>)>, known: &'static str)
    ensures
        field_count(entries, known) > 0 <==> field_value(entries, known) is Some,
        field_count(entries, known) <= 1 ==> forall|i: int|
            #![trigger entries[i]]
            0 <= i < entries.len() && names_field(entries[i].0, known) ==> field_value(
                entries,
                known,
            ) == Some(entries[i].1),
        field_value(entries, known) matches Some(value) ==> exists|i: int|
            #![trigger entries[i]]
            0 <= i < entries.len() && names_field(entries[i].0, known) && entries[i].1 == value,
    decreases entries.len(),
{
    if entries.len() > 0 {
        let rest = entries.drop_last();
        lemma_single_field(rest, known);
        assert forall|i: int| 0 <= i < rest.len() implies rest[i] == #[trigger] entries[i] by {}
        assert(entries[entries.len() - 1] == entries.last());
        if field_count(entries, known) <= 1 {
            assert forall|i: int|
                #![trigger entries[i]]
                0 <= i < entries.len() && names_field(entries[i].0, known) implies field_value(
                entries,
                known,
            ) == Some(entries[i].1) by {
                if i < rest.len() {
                    assert(rest[i] == entries[i]);
                    assert(field_value(rest, known) == Some(rest[i].1));
                }
            }
        }
        if let Some(value) = field_value(rest, known) {
            let i = choose|i: int|
                #![trigger rest[i]]
                0 <= i < rest.len() && names_field(rest[i].0, known) && rest[i].1 == value;
            assert(entries[i] == rest[i]);
        }
    }
}

/// Nothing is repeated just when no two entries stand for the same known key.
proof fn lemma_no_repetition(entries: Seq<(Seq<char>, Seq<u8>)>)
    ensures
        first_repeated_field(entries) is None <==> {
            &&& field_count(entries, KEY_DISCOVERY_VERSION) <= 1
            &&& field_count(entries, KEY_PROTOCOL_MIN) <= 1
            &&& field_count(entries, KEY_PROTOCOL_MAX) <= 1
            &&& field_count(entries, KEY_NAME) <= 1
            &&& field_count(entries, KEY_PLATFORM) <= 1
        },
    decreases entries.len(),
{
    if entries.len() > 0 {
        let rest = entries.drop_last();
        lemma_no_repetition(rest);
        lemma_known_fields_differ(entries.last().0);
        lemma_single_field(rest, KEY_DISCOVERY_VERSION);
        lemma_single_field(rest, KEY_PROTOCOL_MIN);
        lemma_single_field(rest, KEY_PROTOCOL_MAX);
        lemma_single_field(rest, KEY_NAME);
        lemma_single_field(rest, KEY_PLATFORM);
    }
}

/// The order of entries is immaterial to the value of a field that occurs once at most.
proof fn lemma_field_order(
    a: Seq<(Seq<char>, Seq<u8>)>,
    b: Seq<(Seq<char>, Seq<u8>)>,
    known: &'static str,
)
    requires
        a.to_multiset() == b.to_multiset(),
        field_count(a, known) <= 1,
    ensures
        field_count(b, known) == field_count(a, known),
        field_value(b, known) == field_value(a, known),
{
    lemma_sums(a, known, 0);
    lemma_sums(b, known, 0);
    vstd::seq_lib::lemma_fold_right_permutation(a, b, add_field(known), 0);
    lemma_single_field(a, known);
    lemma_single_field(b, known);
    if let Some(value) = field_value(a, known) {
        let i = choose|i: int|
            #![trigger a[i]]
            0 <= i < a.len() && names_field(a[i].0, known) && a[i].1 == value;
        a.to_multiset_ensures();
        b.to_multiset_ensures();
        assert(a.contains(a[i]));
        assert(a.to_multiset().count(a[i]) > 0);
        assert(b.contains(a[i]));
        let j = choose|j: int| 0 <= j < b.len() && b[j] == a[i];
        assert(names_field(b[j].0, known));
    }
}

/// The order of entries is immaterial to what an accepted record says.
pub proof fn entry_order_is_irrelevant(
    a: Seq<(Seq<char>, Seq<u8>)>,
    b: Seq<(Seq<char>, Seq<u8>)>,
)
    requires
        a.to_multiset() == b.to_multiset(),
        metadata_of(a) is Ok,
    ensures
        metadata_of(b) == metadata_of(a),
{
    lemma_sums(a, KEY_NAME, 0);
    lemma_sums(b, KEY_NAME, 0);
    vstd::seq_lib::lemma_fold_right_permutation(a, b, add_size(), 0);
    lemma_no_repetition(a);
    lemma_no_repetition(b);
    lemma_field_order(a, b, KEY_DISCOVERY_VERSION);
    lemma_field_order(a, b, KEY_PROTOCOL_MIN);
    lemma_field_order(a, b, KEY_PROTOCOL_MAX);
    lemma_field_order(a, b, KEY_NAME);
    lemma_field_order(a, b, KEY_PLATFORM);
}

/// Advertised metadata holds each of the three required keys once, in order, then the
/// keys of the hints that are present, and no other.
pub proof fn only_schema_keys_are_emitted(m: MetadataModel)
    ensures
        3 <= txt_entries_of(m).len() <= 5,
        txt_entries_of(m)[0].0 == KEY_DISCOVERY_VERSION@,
        txt_entries_of(m)[1].0 == KEY_PROTOCOL_MIN@,
        txt_entries_of(m)[2].0 == KEY_PROTOCOL_MAX@,
        forall|i: int|
            3 <= i < txt_entries_of(m).len() ==> (#[trigger] txt_entries_of(m)[i]).0 == KEY_NAME@
                || txt_entries_of(m)[i].0 == KEY_PLATFORM@,
        txt_entries_of(m).len() == 5 <==> m.name is Some && m.platform is Some,
{
}

/// Metadata that is read is valid: what a peer sends cannot widen the domain.
pub proof fn parsed_metadata_is_valid(entries: Seq<(Seq<char>, Seq<u8>)>)
    requires
        metadata_of(entries) is Ok,
    ensures
        is_metadata(metadata_of(entries)->Ok_0),
{
}

/// A bounded discovery TXT record is malformed or unsupported.
#[derive(Clone, Copy, Debug, PartialEq, Eq)]
pub enum DiscoveryMetadataError {
    /// A TXT key is empty or outside printable ASCII key syntax.
    InvalidTxtKey,
    /// One TXT entry exceeds the DNS-SD length-octet capacity.
    TxtEntryTooLarge { size: usize, maximum: usize },
    /// The complete local-transfer TXT record exceeds its strict budget.
    TotalMetadataTooLarge { size: usize, maximum: usize },
    /// A required known field is absent.
    MissingField(&'static str),
    /// A known key occurs more than once, compared case-insensitively.
    DuplicateKnownKey(&'static str),
    /// A required field is not a canonical unsigned decimal value.
    MalformedField(&'static str),
    /// The discovery schema is well-formed but unsupported.
    UnsupportedSchemaVersion { version: u16 },
    /// The advertised application-protocol range is reversed.
    InvalidProtocolRange(DiscoveryProtocolRangeError),
}

impl DiscoveryMetadataError {
    /// The description of the error.
    pub open spec fn text(self) -> Seq<char> {
        match self {
            DiscoveryMetadataError::InvalidTxtKey => "invalid DNS-SD TXT key"@,
            DiscoveryMetadataError::TxtEntryTooLarge { size, maximum } => "DNS-SD TXT entry is "@
                + text::decimal(size as nat) + " bytes; maximum is "@ + text::decimal(
                maximum as nat,
            ),
            DiscoveryMetadataError::TotalMetadataTooLarge { size, maximum } =>
                "local-transfer TXT metadata is "@ + text::decimal(size as nat)
                + " bytes; maximum is "@ + text::decimal(maximum as nat),
            DiscoveryMetadataError::MissingField(key) => "missing discovery TXT field `"@ + key@
                + "`"@,
            DiscoveryMetadataError::DuplicateKnownKey(key) => "duplicate discovery TXT field `"@
                + key@ + "`"@,
            DiscoveryMetadataError::MalformedField(key) => "malformed discovery TXT field `"@ + key@
                + "`"@,
            DiscoveryMetadataError::UnsupportedSchemaVersion { version } =>
                "unsupported discovery schema version "@ + text::decimal(version as nat),
            DiscoveryMetadataError::InvalidProtocolRange(source) => source.text(),
        }
    }

    /// Describes the error.
    pub fn message(&self) -> (s: String)
        ensures
            s@ == self.text(),
    {
        match self {
            DiscoveryMetadataError::InvalidTxtKey => String::from_str("invalid DNS-SD TXT key"),
            DiscoveryMetadataError::TxtEntryTooLarge { size, maximum } => String::from_str(
                "DNS-SD TXT entry is ",
            ).concat(decimal_text(*size as u64).as_str()).concat(" bytes; maximum is ").concat(
                decimal_text(*maximum as u64).as_str(),
            ),
            DiscoveryMetadataError::TotalMetadataTooLarge { size, maximum } => String::from_str(
                "local-transfer TXT metadata is ",
            ).concat(decimal_text(*size as u64).as_str()).concat(" bytes; maximum is ").concat(
                decimal_text(*maximum as u64).as_str(),
            ),
            DiscoveryMetadataError::MissingField(key) => String::from_str(
                "missing discovery TXT field `",
            ).concat(key).concat("`"),
            DiscoveryMetadataError::DuplicateKnownKey(key) => String::from_str(
                "duplicate discovery TXT field `",
            ).concat(key).concat("`"),
            DiscoveryMetadataError::MalformedField(key) => String::from_str(
                "malformed discovery TXT field `",
            ).concat(key).concat("`"),
            DiscoveryMetadataError::UnsupportedSchemaVersion { version } => String::from_str(
                "unsupported discovery schema version ",
            ).concat(decimal_text(*version as u64).as_str()),
            DiscoveryMetadataError::InvalidProtocolRange(source) => source.message(),
        }
    }

    /// The error that caused this one.
    pub fn source(&self) -> (r: Option<DiscoveryProtocolRangeError>)
        ensures
            r == (match *self {
                DiscoveryMetadataError::InvalidProtocolRange(source) => Some(source),
                _ => None,
            }),
    {
        match self {
            DiscoveryMetadataError::InvalidProtocolRange(source) => Some(*source),
            _ => None,
        }
    }
}

/// The version that two ranges share is the highest that lies in both; there is one
/// exactly if neither range ends before the other begins.
pub proof fn shared_version_is_the_highest(a: (u16, u16), b: (u16, u16), version: u16)
    requires
        a.0 <= a.1,
        b.0 <= b.1,
    ensures
        highest_common_version(a, b) is Some <==> a.0 <= b.1 && b.0 <= a.1,
        highest_common_version(a, b) matches Some(top) ==> a.0 <= top <= a.1 && b.0 <= top <= b.1,
        highest_common_version(a, b) matches Some(top) ==> (a.0 <= version <= a.1 && b.0 <= version
            <= b.1 ==> version <= top),
        ranges_overlap(a, b) <==> a.0 <= b.1 && b.0 <= a.1,
{
    if a.0 <= b.1 && b.0 <= a.1 {
        let top = if a.1 <= b.1 {
            a.1
        } else {
            b.1
        };
        assert(supports(a, top) && supports(b, top));
    }
}

/// A text is a name hint exactly if it takes at most 96 bytes, holds a character other
/// than whitespace, and holds no control code; the reasons against it come in this order.
pub proof fn name_hints_are_bounded_visible_text(value: Seq<char>)
    ensures
        ({
            let error = name_hint_error(value);
            let size = encode_utf8(value).len();
            let blank = forall|i: int|
                0 <= i < value.len() ==> text::is_whitespace(#[trigger] value[i]);
            let clean = forall|i: int|
                0 <= i < value.len() ==> !text::is_control(#[trigger] value[i]);
            &&& size > 96 <==> error == Some(
                DiscoveryNameHintError::TooLong { actual: size as usize, maximum: 96 },
            )
            &&& size <= 96 && blank <==> error == Some(DiscoveryNameHintError::Empty)
            &&& size <= 96 && !blank && !clean <==> error == Some(
                DiscoveryNameHintError::ControlCharacter,
            )
            &&& size <= 96 && !blank && clean <==> error is None
        }),
{
    text::trimming_takes_exactly_the_outer_whitespace(value);
    let (a, b) = choose|a: int, b: int|
        {
            &&& 0 <= a <= b <= value.len()
            &&& text::trimmed(value) == #[trigger] value.subrange(a, b)
            &&& forall|i: int| 0 <= i < a ==> text::is_whitespace(#[trigger] value[i])
            &&& forall|i: int| b <= i < value.len() ==> text::is_whitespace(#[trigger] value[i])
            &&& a < b ==> !text::is_whitespace(value[a]) && !text::is_whitespace(value[b - 1])
        };
    if a < b {
        assert(!text::is_whitespace(value[a]));
    }
}

/// A platform hint is read from its own lower-case name and from nothing else.
pub proof fn platform_hints_are_exact(value: Seq<u8>)
    ensures
        platform_hint_of(value) == Some(DiscoveryPlatformHint::MacOs) <==> value == encode_utf8(
            "macos"@,
        ),
        platform_hint_of(value) == Some(DiscoveryPlatformHint::Windows) <==> value == encode_utf8(
            "windows"@,
        ),
        platform_hint_of(value) == Some(DiscoveryPlatformHint::Linux) <==> value == encode_utf8(
            "linux"@,
        ),
        DiscoveryPlatformHint::MacOs.text() == "macos"@,
        DiscoveryPlatformHint::Windows.text() == "windows"@,
        DiscoveryPlatformHint::Linux.text() == "linux"@,
{
    platform_hint_round_trip(DiscoveryPlatformHint::MacOs);
    platform_hint_round_trip(DiscoveryPlatformHint::Windows);
    platform_hint_round_trip(DiscoveryPlatformHint::Linux);
}

/// A key and a value form a TXT entry exactly if the key is made of printable ASCII
/// characters other than `=`, at least one, and both with the separator take at most 255
/// bytes; the key is judged first.
pub proof fn txt_entries_are_bounded(key: Seq<char>, value: Seq<u8>)
    ensures
        ({
            let error = txt_entry_error(key, value);
            let printable = key.len() > 0 && forall|i: int|
                0 <= i < key.len() ==> 32 <= (#[trigger] key[i]) as int <= 126 && key[i] as int
                    != 61;
            let size = encode_utf8(key).len() + 1 + value.len();
            &&& !printable <==> error == Some(DiscoveryMetadataError::InvalidTxtKey)
            &&& printable && size > 255 <==> (error matches Some(
                DiscoveryMetadataError::TxtEntryTooLarge { size: found, maximum },
            ) && maximum == 255 && (size <= usize::MAX ==> found == size))
            &&& printable && size <= 255 <==> error is None
        }),
{
    assert forall|i: int| 0 <= i < key.len() implies is_key_char(#[trigger] key[i]) == (32
        <= key[i] as int <= 126 && key[i] as int != 61) by {}
}

/// The size of a TXT record is the sum over its entries of key, value and two bytes: the
/// separator and the length octet.
pub proof fn txt_size_is_a_sum(entries: Seq<(Seq<char>, Seq<u8>)>, entry: (Seq<char>, Seq<u8>))
    ensures
        txt_total_size(Seq::empty()) == 0,
        txt_total_size(entries.push(entry)) == txt_total_size(entries) + encode_utf8(entry.0).len()
            + entry.1.len() + 2,
{
    assert(entries.push(entry).drop_last() =~= entries);
}

/// The value of a field is that of the first entry under its key, whatever the case of
/// the key; without such an entry there is none.
pub proof fn field_has_its_first_value(
    entries: Seq<(Seq<char>, Seq<u8>)>,
    known: &'static str,
    i: int,
)
    ensures
        field_value(entries, known) is None <==> forall|j: int|
            0 <= j < entries.len() ==> text::ascii_lowered((#[trigger] entries[j]).0)
                != text::ascii_lowered(known@),
        0 <= i < entries.len() && text::ascii_lowered(entries[i].0) == text::ascii_lowered(known@)
            && (forall|j: int|
            0 <= j < i ==> text::ascii_lowered((#[trigger] entries[j]).0) != text::ascii_lowered(
                known@,
            )) ==> field_value(entries, known) == Some(entries[i].1),
    decreases entries.len(),
{
    if entries.len() > 0 {
        let rest = entries.drop_last();
        field_has_its_first_value(rest, known, i);
        assert forall|j: int| 0 <= j < rest.len() implies rest[j] == #[trigger] entries[j] by {}
        assert(entries[entries.len() - 1] == entries.last());
        if field_value(entries, known) is None {
            assert forall|j: int| 0 <= j < entries.len() implies text::ascii_lowered(
                (#[trigger] entries[j]).0,
            ) != text::ascii_lowered(known@) by {
                if j < rest.len() {
                    assert(rest[j] == entries[j]);
                }
            }
        }
        if field_value(rest, known) is Some {
            let j = choose|j: int|
                0 <= j < rest.len() && text::ascii_lowered((#[trigger] rest[j]).0)
                    == text::ascii_lowered(known@);
            assert(text::ascii_lowered(entries[j].0) == text::ascii_lowered(known@));
        }
        if 0 <= i < rest.len() && (forall|j: int|
            0 <= j < i ==> text::ascii_lowered((#[trigger] entries[j]).0) != text::ascii_lowered(
                known@,
            )) {
            assert forall|j: int| 0 <= j < i implies text::ascii_lowered((#[trigger] rest[j]).0)
                != text::ascii_lowered(known@) by {
                assert(rest[j] == entries[j]);
            }
        }
    }
}

/// An entry of a record stands under a key, whatever the case of its letters, and has a
/// value.
pub open spec fn holds_entry(
    entries: Seq<(Seq<char>, Seq<u8>)>,
    key: Seq<char>,
    value: Seq<u8>,
) -> bool {
    exists|i: int|
        0 <= i < entries.len() && text::ascii_lowered((#[trigger] entries[i]).0) == key
            && entries[i].1 == value
}

/// No two entries of a record stand under a key.
pub open spec fn is_single(entries: Seq<(Seq<char>, Seq<u8>)>, key: Seq<char>) -> bool {
    forall|i: int, j: int|
        0 <= i < j < entries.len() && text::ascii_lowered((#[trigger] entries[i]).0) == key
            ==> text::ascii_lowered((#[trigger] entries[j]).0) != key
}

/// The known keys are in lower case.
proof fn lemma_known_keys_are_lower_case()
    ensures
        text::ascii_lowered("dv"@) == "dv"@,
        text::ascii_lowered("pmin"@) == "pmin"@,
        text::ascii_lowered("pmax"@) == "pmax"@,
        text::ascii_lowered("name"@) == "name"@,
        text::ascii_lowered("os"@) == "os"@,
{
    reveal_strlit("dv");
    reveal_strlit("pmin");
    reveal_strlit("pmax");
    reveal_strlit("name");
    reveal_strlit("os");
    assert(text::ascii_lowered("dv"@) =~= "dv"@);
    assert(text::ascii_lowered("pmin"@) =~= "pmin"@);
    assert(text::ascii_lowered("pmax"@) =~= "pmax"@);
    assert(text::ascii_lowered("name"@) =~= "name"@);
    assert(text::ascii_lowered("os"@) =~= "os"@);
}

/// One entry at most stands for a known key just when no two do.
proof fn lemma_single_count(entries: Seq<(Seq<char>, Seq<u8>)>, known: &'static str)
    requires
        text::ascii_lowered(known@) == known@,
    ensures
        field_count(entries, known) <= 1 <==> is_single(entries, known@),
        field_count(entries, known) == 0 <==> forall|j: int|
            0 <= j < entries.len() ==> text::ascii_lowered((#[trigger] entries[j]).0) != known@,
    decreases entries.len(),
{
    if entries.len() > 0 {
        let rest = entries.drop_last();
        let n = entries.len() - 1;
        lemma_single_count(rest, known);
        assert(entries[n] == entries.last());
        assert forall|j: int| 0 <= j < n implies rest[j] == #[trigger] entries[j] by {}
        if field_count(rest, known) == 0 {
            assert forall|j: int| 0 <= j < n implies text::ascii_lowered((#[trigger] entries[j]).0)
                != known@ by {
                assert(rest[j] == entries[j]);
            }
        } else {
            let j = choose|j: int|
                0 <= j < n && text::ascii_lowered((#[trigger] rest[j]).0) == known@;
            assert(text::ascii_lowered(entries[j].0) == known@);
        }
        if is_single(rest, known@) {
            assert forall|i: int, j: int|
                0 <= i < j < n && text::ascii_lowered((#[trigger] entries[i]).0)
                    == known@ implies text::ascii_lowered((#[trigger] entries[j]).0) != known@ by {
                assert(text::ascii_lowered(rest[i].0) == known@);
                assert(text::ascii_lowered(rest[j].0) != known@);
            }
        } else {
            let (i, j) = choose|i: int, j: int|
                0 <= i < j < n && text::ascii_lowered((#[trigger] rest[i]).0) == known@
                    && text::ascii_lowered((#[trigger] rest[j]).0) == known@;
            assert(text::ascii_lowered(entries[i].0) == known@);
            assert(text::ascii_lowered(entries[j].0) == known@);
        }
    }
}

/// The value of a single field is that of its entry.
proof fn lemma_single_value(entries: Seq<(Seq<char>, Seq<u8>)>, known: &'static str)
    requires
        text::ascii_lowered(known@) == known@,
        is_single(entries, known@),
    ensures
        forall|value: Seq<u8>| #[trigger]
            holds_entry(entries, known@, value) <==> field_value(entries, known) == Some(value),
{
    lemma_single_count(entries, known);
    lemma_single_field(entries, known);
    assert forall|value: Seq<u8>| #[trigger]
        holds_entry(entries, known@, value) <==> field_value(entries, known) == Some(value) by {
        if holds_entry(entries, known@, value) {
            let i = choose|i: int|
                0 <= i < entries.len() && text::ascii_lowered((#[trigger] entries[i]).0) == known@
                    && entries[i].1 == value;
            assert(names_field(entries[i].0, known));
        }
        if field_value(entries, known) == Some(value) {
            let i = choose|i: int|
                #![trigger entries[i]]
                0 <= i < entries.len() && names_field(entries[i].0, known) && entries[i].1 == value;
            assert(text::ascii_lowered(entries[i].0) == known@);
        }
    }
}

/// Nothing known is repeated just when each known key is single.
proof fn lemma_single_fields(entries: Seq<(Seq<char>, Seq<u8>)>)
    ensures
        first_repeated_field(entries) is None <==> is_single(entries, "dv"@) && is_single(
            entries,
            "pmin"@,
        ) && is_single(entries, "pmax"@) && is_single(entries, "name"@) && is_single(
            entries,
            "os"@,
        ),
{
    lemma_known_keys_are_lower_case();
    lemma_no_repetition(entries);
    lemma_single_count(entries, KEY_DISCOVERY_VERSION);
    lemma_single_count(entries, KEY_PROTOCOL_MIN);
    lemma_single_count(entries, KEY_PROTOCOL_MAX);
    lemma_single_count(entries, KEY_NAME);
    lemma_single_count(entries, KEY_PLATFORM);
}

/// A record is accepted exactly if it takes at most 512 bytes, has no known key twice,
/// names schema version 1, and names a protocol range that is not reversed, each number
/// in its one decimal notation. Whatever else it holds, its range is then what is read.
#[verifier::spinoff_prover]
#[verifier::rlimit(40)]
pub proof fn accepted_metadata_names_version_and_range(
    entries: Seq<(Seq<char>, Seq<u8>)>,
    min: u16,
    max: u16,
)
    ensures
        (metadata_of(entries) matches Ok(m) && m.protocols == (min, max)) <==> {
            &&& txt_total_size(entries) <= 512
            &&& is_single(entries, "dv"@)
            &&& is_single(entries, "pmin"@)
            &&& is_single(entries, "pmax"@)
            &&& is_single(entries, "name"@)
            &&& is_single(entries, "os"@)
            &&& holds_entry(entries, "dv"@, encode_utf8("1"@))
            &&& holds_entry(entries, "pmin"@, encode_utf8(text::decimal(min as nat)))
            &&& holds_entry(entries, "pmax"@, encode_utf8(text::decimal(max as nat)))
            &&& min <= max
        },
{
    lemma_known_keys_are_lower_case();
    lemma_single_fields(entries);
    if first_repeated_field(entries) is None {
        lemma_single_value(entries, KEY_DISCOVERY_VERSION);
        lemma_single_value(entries, KEY_PROTOCOL_MIN);
        lemma_single_value(entries, KEY_PROTOCOL_MAX);
        reveal_strlit("1");
        text::decimal_notation_is_positional(0, 1);
        assert("1"@ =~= text::decimal(1u16 as nat));
        text::lemma_canonical_decimal(1);
        text::lemma_canonical_decimal(min);
        text::lemma_canonical_decimal(max);
        if let Some(value) = field_value(entries, KEY_DISCOVERY_VERSION) {
            text::decimal_reading_is_exact(value, 1);
        }
        if let Some(value) = field_value(entries, KEY_PROTOCOL_MIN) {
            text::decimal_reading_is_exact(value, min);
        }
        if let Some(value) = field_value(entries, KEY_PROTOCOL_MAX) {
            text::decimal_reading_is_exact(value, max);
        }
        assert(holds_entry(entries, "dv"@, encode_utf8("1"@)) <==> field_value(
            entries,
            KEY_DISCOVERY_VERSION,
        ) == Some(encode_utf8("1"@)));
        assert(holds_entry(entries, "pmin"@, encode_utf8(text::decimal(min as nat))) <==> field_value(
            entries,
            KEY_PROTOCOL_MIN,
        ) == Some(encode_utf8(text::decimal(min as nat))));
        assert(holds_entry(entries, "pmax"@, encode_utf8(text::decimal(max as nat))) <==> field_value(
            entries,
            KEY_PROTOCOL_MAX,
        ) == Some(encode_utf8(text::decimal(max as nat))));
    }
}

/// The hints of an accepted record are those that it holds: a name that is a valid hint,
/// and a platform under its own name. A value that is neither is as good as none.
pub proof fn accepted_hints_are_those_advertised(
    entries: Seq<(Seq<char>, Seq<u8>)>,
    name: Seq<char>,
    platform: DiscoveryPlatformHint,
)
    requires
        metadata_of(entries) is Ok,
    ensures
        metadata_of(entries)->Ok_0.name == Some(name) <==> holds_entry(
            entries,
            "name"@,
            encode_utf8(name),
        ) && name_hint_error(name) is None,
        metadata_of(entries)->Ok_0.platform == Some(platform) <==> holds_entry(
            entries,
            "os"@,
            encode_utf8(platform.text()),
        ),
{
    lemma_known_keys_are_lower_case();
    lemma_single_fields(entries);
    lemma_single_value(entries, KEY_NAME);
    lemma_single_value(entries, KEY_PLATFORM);
    encode_utf8_valid_utf8(name);
    encode_utf8_decode_utf8(name);
    if let Some(value) = field_value(entries, KEY_NAME) {
        if valid_utf8(value) {
            decode_utf8_encode_utf8(value);
        }
    }
    platform_hint_round_trip(platform);
    if let Some(value) = field_value(entries, KEY_PLATFORM) {
        platform_hints_are_exact(value);
    }
    assert(holds_entry(entries, "name"@, encode_utf8(name)) <==> field_value(entries, KEY_NAME)
        == Some(encode_utf8(name)));
    assert(holds_entry(entries, "os"@, encode_utf8(platform.text())) <==> field_value(
        entries,
        KEY_PLATFORM,
    ) == Some(encode_utf8(platform.text())));
}

/// The first entry for a known key holds the decimal notation of a number.
pub open spec fn holds_number(
    entries: Seq<(Seq<char>, Seq<u8>)>,
    known: &'static str,
    n: u16,
) -> bool {
    field_value(entries, known) == Some(encode_utf8(text::decimal(n as nat)))
}

/// The first entry for a known key holds the decimal notation of some number.
pub open spec fn holds_a_number(entries: Seq<(Seq<char>, Seq<u8>)>, known: &'static str) -> bool {
    exists|n: u16| holds_number(entries, known, n)
}

/// A record is refused for the first of these that holds: its size, a known key that
/// occurs twice, then the schema version, the lower and the upper end of the protocol
/// range, each missing or malformed, with another schema version than 1 before the range
/// and a reversed range last.
#[verifier::spinoff_prover]
#[verifier::rlimit(40)]
pub proof fn refused_metadata_is_explained(entries: Seq<(Seq<char>, Seq<u8>)>)
    ensures
        ({
            let r = metadata_of(entries);
            let refused = |error: DiscoveryMetadataError|
                r == Err::<MetadataModel, DiscoveryMetadataError>(error);
            let sized = txt_total_size(entries) <= 512;
            let single = sized && is_single(entries, "dv"@) && is_single(entries, "pmin"@)
                && is_single(entries, "pmax"@) && is_single(entries, "name"@) && is_single(
                entries,
                "os"@,
            );
            &&& !sized <==> (r matches Err(
                DiscoveryMetadataError::TotalMetadataTooLarge { size, maximum },
            ) && maximum == 512 && (txt_total_size(entries) <= usize::MAX ==> size
                == txt_total_size(entries)))
            &&& sized && !single <==> (r matches Err(DiscoveryMetadataError::DuplicateKnownKey(_)))
            &&& single && field_value(entries, "dv") is None ==> refused(
                DiscoveryMetadataError::MissingField("dv"),
            )
            &&& single && field_value(entries, "dv") is Some && !holds_a_number(entries, "dv") ==> refused(
                DiscoveryMetadataError::MalformedField("dv"),
            )
            &&& forall|version: u16|
                single && version != 1 && #[trigger] holds_number(entries, "dv", version) ==> refused(
                    DiscoveryMetadataError::UnsupportedSchemaVersion { version },
                )
            &&& single && holds_number(entries, "dv", 1) ==> {
                &&& field_value(entries, "pmin") is None ==> refused(
                    DiscoveryMetadataError::MissingField("pmin"),
                )
                &&& field_value(entries, "pmin") is Some && !holds_a_number(entries, "pmin") ==> refused(
                    DiscoveryMetadataError::MalformedField("pmin"),
                )
                &&& holds_a_number(entries, "pmin") && field_value(entries, "pmax") is None ==> refused(
                    DiscoveryMetadataError::MissingField("pmax"),
                )
                &&& holds_a_number(entries, "pmin") && field_value(entries, "pmax") is Some
                    && !holds_a_number(entries, "pmax") ==> refused(DiscoveryMetadataError::MalformedField("pmax"))
                &&& forall|min: u16, max: u16|
                    min > max && #[trigger] holds_number(entries, "pmin", min)
                        && #[trigger] holds_number(entries, "pmax", max) ==> refused(
                        DiscoveryMetadataError::InvalidProtocolRange(
                            DiscoveryProtocolRangeError { min, max },
                        ),
                    )
            }
        }),
{
    lemma_single_fields(entries);
    lemma_number_is_read(entries, "dv");
    lemma_number_is_read(entries, "pmin");
    lemma_number_is_read(entries, "pmax");
}

/// A required field gives just the number whose notation it holds.
proof fn lemma_number_is_read(entries: Seq<(Seq<char>, Seq<u8>)>, known: &'static str)
    ensures
        forall|n: u16|
            required_number(entries, known) == Ok::<u16, DiscoveryMetadataError>(n)
                <==> #[trigger] holds_number(entries, known, n),
        required_number(entries, known) is Ok <==> holds_a_number(entries, known),
        field_value(entries, known) is Some && !holds_a_number(entries, known) ==> required_number(
            entries,
            known,
        ) == Err::<u16, DiscoveryMetadataError>(DiscoveryMetadataError::MalformedField(known)),
{
    if let Some(value) = field_value(entries, known) {
        assert forall|n: u16|
            required_number(entries, known) == Ok::<u16, DiscoveryMetadataError>(n)
                <==> #[trigger] holds_number(entries, known, n) by {
            text::decimal_reading_is_exact(value, n);
        }
        if let Ok(n) = required_number(entries, known) {
            assert(holds_number(entries, known, n));
        }
    }
}

/// A record that repeats known keys is refused for the one that is repeated first.
#[verifier::spinoff_prover]
#[verifier::rlimit(40)]
pub proof fn first_repetition_is_reported(
    entries: Seq<(Seq<char>, Seq<u8>)>,
    known: &'static str,
    i: int,
    j: int,
)
    requires
        txt_total_size(entries) <= 512,
        known == "dv" || known == "pmin" || known == "pmax" || known == "name" || known == "os",
        0 <= i < j < entries.len(),
        text::ascii_lowered(entries[i].0) == known@,
        text::ascii_lowered(entries[j].0) == known@,
        ({
            let before = entries.take(j);
            &&& is_single(before, "dv"@)
            &&& is_single(before, "pmin"@)
            &&& is_single(before, "pmax"@)
            &&& is_single(before, "name"@)
            &&& is_single(before, "os"@)
        }),
    ensures
        metadata_of(entries) == Err::<MetadataModel, DiscoveryMetadataError>(
            DiscoveryMetadataError::DuplicateKnownKey(known),
        ),
{
    let before = entries.take(j);
    let upto = entries.take(j + 1);
    lemma_known_keys_are_lower_case();
    lemma_single_fields(before);
    lemma_known_fields_differ(entries[j].0);
    assert(upto.drop_last() =~= before);
    assert(upto.last() == entries[j]);
    assert(before[i] == entries[i]);
    field_has_its_first_value(before, known, i);
    assert(names_field(entries[j].0, known));
    assert(known_field(entries[j].0) == Some(known));
    lemma_first_repeat_extends(entries, j + 1);
}

/// What is advertised of metadata: schema version 1, both ends of the protocol range, and
/// each hint that is present, under the documented keys and in this order.
pub proof fn advertised_entries_are_documented(m: MetadataModel)
    ensures
        ({
            let entries = txt_entries_of(m);
            let name: int = if m.name is Some {
                1
            } else {
                0
            };
            let platform: int = if m.platform is Some {
                1
            } else {
                0
            };
            &&& entries.len() == 3 + name + platform
            &&& entries[0] == ("dv"@, encode_utf8("1"@))
            &&& entries[1] == ("pmin"@, encode_utf8(text::decimal(m.protocols.0 as nat)))
            &&& entries[2] == ("pmax"@, encode_utf8(text::decimal(m.protocols.1 as nat)))
            &&& m.name is Some ==> entries[3] == ("name"@, encode_utf8(m.name->0))
            &&& m.platform is Some ==> entries[3 + name] == (
                "os"@,
                encode_utf8(m.platform->0.text()),
            )
        }),
{
    reveal_strlit("1");
    text::decimal_notation_is_positional(0, 1);
    assert("1"@ =~= text::decimal(1u16 as nat));
}

/// The hint for a platform has the name of the platform.
pub proof fn hint_keeps_the_platform(platform: Platform)
    ensures
        <DiscoveryPlatformHint as vstd::std_specs::convert::FromSpec<Platform>>::from_spec(
            platform,
        ).text() == platform.text(),
{
}

/// The description of refused metadata names the field, the sizes, the version or the
/// range that it was refused for.
pub proof fn metadata_error_names_its_subject(error: DiscoveryMetadataError)
    ensures
        match error {
            DiscoveryMetadataError::InvalidTxtKey => true,
            DiscoveryMetadataError::TxtEntryTooLarge { size, maximum } => text::mentions(
                error.text(),
                text::decimal(size as nat),
            ) && text::mentions(error.text(), text::decimal(maximum as nat)),
            DiscoveryMetadataError::TotalMetadataTooLarge { size, maximum } => text::mentions(
                error.text(),
                text::decimal(size as nat),
            ) && text::mentions(error.text(), text::decimal(maximum as nat)),
            DiscoveryMetadataError::MissingField(key) => text::mentions(error.text(), key@),
            DiscoveryMetadataError::DuplicateKnownKey(key) => text::mentions(error.text(), key@),
            DiscoveryMetadataError::MalformedField(key) => text::mentions(error.text(), key@),
            DiscoveryMetadataError::UnsupportedSchemaVersion { version } => text::mentions(
                error.text(),
                text::decimal(version as nat),
            ),
            DiscoveryMetadataError::InvalidProtocolRange(source) => text::mentions(
                error.text(),
                text::decimal(source.min as nat),
            ) && text::mentions(error.text(), text::decimal(source.max as nat)),
        },
{
    let none = Seq::<char>::empty();
    match error {
        DiscoveryMetadataError::InvalidTxtKey => {},
        DiscoveryMetadataError::TxtEntryTooLarge { size, maximum } => text::lemma_two_numbers(
            "DNS-SD TXT entry is "@,
            text::decimal(size as nat),
            " bytes; maximum is "@,
            text::decimal(maximum as nat),
        ),
        DiscoveryMetadataError::TotalMetadataTooLarge { size, maximum } => text::lemma_two_numbers(
            "local-transfer TXT metadata is "@,
            text::decimal(size as nat),
            " bytes; maximum is "@,
            text::decimal(maximum as nat),
        ),
        DiscoveryMetadataError::MissingField(key) => text::lemma_mentions(
            "missing discovery TXT field `"@,
            key@,
            "`"@,
        ),
        DiscoveryMetadataError::DuplicateKnownKey(key) => text::lemma_mentions(
            "duplicate discovery TXT field `"@,
            key@,
            "`"@,
        ),
        DiscoveryMetadataError::MalformedField(key) => text::lemma_mentions(
            "malformed discovery TXT field `"@,
            key@,
            "`"@,
        ),
        DiscoveryMetadataError::UnsupportedSchemaVersion { version } => text::lemma_mentions(
            "unsupported discovery schema version "@,
            text::decimal(version as nat),
            none,
        ),
        DiscoveryMetadataError::InvalidProtocolRange(source) => text::lemma_two_numbers(
            "minimum protocol major "@,
            text::decimal(source.min as nat),
            " exceeds maximum "@,
            text::decimal(source.max as nat),
        ),
    }
}

} // verus!
