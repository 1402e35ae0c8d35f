//! Bounded DNS-SD browsing translated into unauthenticated domain events.

use vstd::prelude::*;
use vstd::utf8::*;

use crate::discovery;
use crate::discovery::{
    DiscoveryMetadata, DiscoveryMetadataError, DiscoveryProtocolRange, DiscoveryTxtEntry,
};
use crate::ordered;
use crate::text;
use crate::text::{byte_len, chars_of, same_ignoring_ascii_case, same_text, text_has_control, text_of};
use crate::text_map::TextMap;

verus! {

/// Maximum number of unique resolved addresses accepted for one advertisement.
pub const MAX_DISCOVERED_ENDPOINTS: usize = 16;

/// Maximum encoded size of a transient DNS-SD service fullname.
pub const MAX_TRANSIENT_DISCOVERY_KEY_BYTES: usize = 255;

/// The service type that is browsed, in the local domain.
pub const LOCAL_SERVICE_TYPE: &'static str = "_local-transfer._tcp.local.";

/// What follows the instance name in every transient key.
pub const TRANSIENT_KEY_SUFFIX: &'static str = "._local-transfer._tcp.local.";

/// The transient key that a DNS-SD fullname stands for: a non-empty instance name
/// before the service suffix, whatever the case of the suffix, within 255 bytes and
/// without control codes. The suffix is written in lower case.
pub open spec fn transient_key_of(value: Seq<char>) -> Option<Seq<char>> {
    let instance_len = value.len() - TRANSIENT_KEY_SUFFIX@.len();
    if encode_utf8(value).len() <= MAX_TRANSIENT_DISCOVERY_KEY_BYTES && instance_len > 0
        && text::ascii_lowered(value.skip(instance_len)) == text::ascii_lowered(
        TRANSIENT_KEY_SUFFIX@,
    ) && !text::has_control(value) {
        Some(value.take(instance_len) + TRANSIENT_KEY_SUFFIX@)
    } else {
        None
    }
}

/// An untrusted, session-scoped DNS-SD service fullname.
#[derive(Debug, Hash)]
pub struct TransientDiscoveryKey {
    value: String,
}

impl View for TransientDiscoveryKey {
    type V = Seq<char>;

    closed spec fn view(&self) -> Seq<char> {
        self.value@
    }
}

impl PartialEq for TransientDiscoveryKey {
    fn eq(&self, other: &Self) -> (r: bool) {
        same_text(self.value.as_str(), other.value.as_str())
    }
}

impl vstd::std_specs::cmp::PartialEqSpecImpl for TransientDiscoveryKey {
    open spec fn obeys_eq_spec() -> bool {
        true
    }

    open spec fn eq_spec(&self, other: &Self) -> bool {
        self@ == other@
    }
}

impl Eq for TransientDiscoveryKey {

}

impl Clone for TransientDiscoveryKey {
    fn clone(&self) -> (r: Self)
        ensures
            r == *self,
    {
        proof {
            use_type_invariant(self);
        }
        TransientDiscoveryKey { value: self.value.clone() }
    }
}

impl TransientDiscoveryKey {
    #[verifier::type_invariant]
    spec fn well_formed(self) -> bool {
        transient_key_of(self.value@) == Some(self.value@)
    }

    /// Validates a remote DNS-SD fullname for bounded in-memory correlation.
    pub fn new(value: &str) -> (r: Result<Self, DiscoveryBrowserError>)
        ensures
            match transient_key_of(value@) {
                Some(key) => r is Ok && r->Ok_0@ == key,
                None => r is Err && r->Err_0@ == plain_error(
                    DiscoveryBrowserErrorKind::InvalidTransientKey,
                ),
            },
    {
        let chars = chars_of(value);
        let suffix = chars_of(TRANSIENT_KEY_SUFFIX);
        if byte_len(value) > MAX_TRANSIENT_DISCOVERY_KEY_BYTES || chars.len() <= suffix.len() {
            return Err(
                DiscoveryBrowserError::without_source(
                    DiscoveryBrowserErrorKind::InvalidTransientKey,
                ),
            );
        }
        let instance_len: usize = chars.len() - suffix.len();
        let (instance, rest) = chars.as_slice().split_at(instance_len);
        assert(rest@ =~= value@.skip(instance_len as int));
        assert(instance@ =~= value@.take(instance_len as int));
        if !same_ignoring_ascii_case(rest, suffix.as_slice()) || text_has_control(value) {
            return Err(
                DiscoveryBrowserError::without_source(
                    DiscoveryBrowserErrorKind::InvalidTransientKey,
                ),
            );
        }
        proof {
            transient_key_is_normal(value@);
        }
        Ok(TransientDiscoveryKey { value: text_of(instance).concat(TRANSIENT_KEY_SUFFIX) })
    }

    /// Returns the transient DNS-SD fullname.
    #[must_use]
    pub fn as_str(&self) -> (s: &str)
        ensures
            s@ == self@,
            transient_key_of(self@) == Some(self@),
    {
        proof {
            use_type_invariant(self);
        }
        self.value.as_str()
    }
}

/// A transient key is its own transient key, and it stays within its bound.
pub proof fn transient_key_is_normal(value: Seq<char>)
    requires
        transient_key_of(value) is Some,
    ensures
        transient_key_of(transient_key_of(value)->0) == transient_key_of(value),
        encode_utf8(transient_key_of(value)->0).len() <= MAX_TRANSIENT_DISCOVERY_KEY_BYTES,
{
    let suffix = TRANSIENT_KEY_SUFFIX@;
    let n = value.len() - suffix.len();
    let key = value.take(n) + suffix;
    let tail = value.skip(n);
    reveal_strlit("._local-transfer._tcp.local.");
    assert(key.take(n) =~= value.take(n));
    assert(key.skip(n) =~= suffix);
    assert(value =~= value.take(n) + tail);
    text::lemma_encode_utf8_concat(value.take(n), tail);
    text::lemma_encode_utf8_concat(value.take(n), suffix);
    assert(tail.len() == suffix.len());
    assert forall|i: int| 0 <= i < tail.len() implies '\0' <= #[trigger] tail[i] <= '\u{7f}' by {
        assert(text::ascii_lowered(tail)[i] == text::ascii_lowered(suffix)[i]);
        assert('\0' <= suffix[i] <= '\u{7f}');
    }
    is_ascii_chars_encode_utf8(tail);
    is_ascii_chars_encode_utf8(suffix);
    assert forall|i: int| 0 <= i < key.len() implies !text::is_control(#[trigger] key[i]) by {
        if i < n {
            assert(key[i] == value[i]);
        } else {
            assert(key[i] == suffix[i - n]);
        }
    }
}

/// An IP address. An IPv4 address is the number that its four octets spell, most
/// significant first; an IPv6 address the number that its eight segments spell.
#[derive(Clone, Copy, Debug, PartialEq, Eq, Hash, Structural)]
pub enum IpAddress {
    /// An IPv4 address.
    V4(u32),
    /// An IPv6 address.
    V6(u128),
}

/// One resolved IP endpoint, retaining the IPv6 interface scope when present.
#[derive(Clone, Copy, Debug, PartialEq, Eq, Hash, Structural)]
pub struct DiscoveryEndpoint {
    /// The resolved address.
    pub address: IpAddress,
    /// The interface scope of an IPv6 address.
    pub scope_id: Option<u32>,
}

impl DiscoveryEndpoint {
    /// Creates an IPv4 endpoint.
    #[must_use]
    pub fn ipv4(address: u32) -> (r: Self)
        ensures
            r == (DiscoveryEndpoint { address: IpAddress::V4(address), scope_id: None }),
    {
        DiscoveryEndpoint { address: IpAddress::V4(address), scope_id: None }
    }

    /// Creates an IPv6 endpoint with its DNS-SD interface scope identifier.
    #[must_use]
    pub fn ipv6(address: u128, scope_id: u32) -> (r: Self)
        ensures
            r == (DiscoveryEndpoint { address: IpAddress::V6(address), scope_id: Some(scope_id) }),
    {
        DiscoveryEndpoint { address: IpAddress::V6(address), scope_id: Some(scope_id) }
    }

    /// Returns the resolved IP address.
    #[must_use]
    pub fn address(self) -> (r: IpAddress)
        ensures
            r == self.address,
    {
        self.address
    }

    /// Returns the interface scope for IPv6 or `None` for IPv4.
    #[must_use]
    pub fn scope_id(self) -> (r: Option<u32>)
        ensures
            r == self.scope_id,
    {
        self.scope_id
    }

    /// Reports whether this endpoint comes before another.
    fn precedes(&self, other: &Self) -> (r: bool)
        ensures
            r == endpoint_less(*self, *other),
    {
        let scope_precedes = match (self.scope_id, other.scope_id) {
            (None, None) => false,
            (None, Some(_)) => true,
            (Some(_), None) => false,
            (Some(a), Some(b)) => a < b,
        };
        match (self.address, other.address) {
            (IpAddress::V4(_), IpAddress::V6(_)) => true,
            (IpAddress::V6(_), IpAddress::V4(_)) => false,
            (IpAddress::V4(a), IpAddress::V4(b)) => a < b || (a == b && scope_precedes),
            (IpAddress::V6(a), IpAddress::V6(b)) => a < b || (a == b && scope_precedes),
        }
    }
}

/// The place of an endpoint among others: IPv4 before IPv6, then by address, then
/// by scope with an absent scope first.
pub open spec fn endpoint_rank(e: DiscoveryEndpoint) -> (int, int, int) {
    let scope: int = match e.scope_id {
        None => -1,
        Some(s) => s as int,
    };
    match e.address {
        IpAddress::V4(a) => (0, a as int, scope),
        IpAddress::V6(a) => (1, a as int, scope),
    }
}

/// The order of endpoints.
pub open spec fn endpoint_less(a: DiscoveryEndpoint, b: DiscoveryEndpoint) -> bool {
    let (fa, xa, sa) = endpoint_rank(a);
    let (fb, xb, sb) = endpoint_rank(b);
    fa < fb || (fa == fb && (xa < xb || (xa == xb && sa < sb)))
}

/// The order of endpoints as a relation.
pub open spec fn endpoint_order() -> spec_fn(DiscoveryEndpoint, DiscoveryEndpoint) -> bool {
    |a: DiscoveryEndpoint, b: DiscoveryEndpoint| endpoint_less(a, b)
}

/// Endpoints in strictly ascending order.
pub open spec fn endpoints_ascend(s: Seq<DiscoveryEndpoint>) -> bool {
    ordered::ascends(s, endpoint_order())
}

/// The endpoints of a list, each once, in ascending order.
pub open spec fn is_endpoint_listing(s: Seq<DiscoveryEndpoint>, of: Seq<DiscoveryEndpoint>) -> bool {
    ordered::is_listing(s, of, endpoint_order())
}

/// The one ascending listing of the endpoints of a list.
pub open spec fn endpoint_listing(of: Seq<DiscoveryEndpoint>) -> Seq<DiscoveryEndpoint> {
    choose|s: Seq<DiscoveryEndpoint>| is_endpoint_listing(s, of)
}

/// A list of endpoints has only one ascending listing.
pub proof fn endpoint_listing_is_unique(
    a: Seq<DiscoveryEndpoint>,
    b: Seq<DiscoveryEndpoint>,
    of: Seq<DiscoveryEndpoint>,
)
    requires
        is_endpoint_listing(a, of),
        is_endpoint_listing(b, of),
    ensures
        a == b,
{
    assert(forall|e: DiscoveryEndpoint| #[trigger] a.contains(e) <==> b.contains(e));
    ordered::lemma_ascending_equal(a, b, endpoint_order());
}

/// Every list of endpoints has an ascending listing.
pub proof fn endpoint_listing_exists(of: Seq<DiscoveryEndpoint>)
    ensures
        is_endpoint_listing(endpoint_listing(of), of),
{
    let s = ordered::lemma_listing_exists(of, endpoint_order());
    assert(is_endpoint_listing(s, of));
}

/// Sorts endpoints and drops repetitions.
fn listed_endpoints(source: &[DiscoveryEndpoint]) -> (r: Vec<DiscoveryEndpoint>)
    ensures
        r@ == endpoint_listing(source@),
        is_endpoint_listing(r@, source@),
{
    let mut r: Vec<DiscoveryEndpoint> = Vec::new();
    let mut n: usize = 0;
    while n < source.len()
        invariant
            n <= source.len(),
            is_endpoint_listing(r@, source@.take(n as int)),
        decreases source.len() - n,
    {
        let e = source[n];
        let mut k: usize = 0;
        while k < r.len() && r[k].precedes(&e)
            invariant
                k <= r.len(),
                forall|i: int| 0 <= i < k ==> endpoint_less(#[trigger] r@[i], e),
            decreases r.len() - k,
        {
            k = k + 1;
        }
        let ghost before = r@;
        assert(source@.take(n + 1) =~= source@.take(n as int).push(e));
        proof {
            ordered::lemma_push_contains(source@.take(n as int), e);
        }
        if k < r.len() && r[k] == e {
            assert(r@[k as int] == e);
            assert(r@.contains(e));
        } else {
            proof {
                ordered::lemma_insert(before, k as int, e, endpoint_order());
            }
            r.insert(k, e);
        }
        n = n + 1;
    }
    proof {
        assert(source@.take(n as int) =~= source@);
        endpoint_listing_is_unique(r@, endpoint_listing(source@), source@);
    }
    r
}

/// The contents of a discovered peer.
pub struct PeerModel {
    /// The transient key.
    pub key: Seq<char>,
    /// The advisory metadata.
    pub metadata: discovery::MetadataModel,
    /// The service port.
    pub port: u16,
    /// The endpoints, in ascending order.
    pub endpoints: Seq<DiscoveryEndpoint>,
    /// The highest shared protocol major version.
    pub protocol_major: u16,
}

/// The category of a browsing or remote-resolution failure.
#[derive(Clone, Copy, Debug, PartialEq, Eq, Structural)]
pub enum DiscoveryBrowserErrorKind {
    /// The private mDNS daemon could not be created.
    Initialization,
    /// The daemon rejected the canonical browse request.
    Browse,
    /// A service fullname was empty, oversized, or contained control characters.
    InvalidTransientKey,
    /// A resolution omitted required endpoint information.
    MalformedResolution,
    /// A resolved service advertised port zero.
    InvalidPort,
    /// Unique resolved endpoints exceeded the explicit bound.
    EndpointLimit,
    /// TXT metadata failed the shared discovery-schema validation.
    Metadata,
    /// The peer has no application-protocol major in common with this release.
    IncompatibleProtocol,
    /// The mDNS daemon reported an asynchronous failure.
    Daemon,
    /// The daemon rejected the stop-browse request.
    StopBrowse,
    /// Daemon shutdown failed or was not acknowledged before the timeout.
    Shutdown,
}

/// What caused a browser failure.
#[derive(Debug, PartialEq, Eq)]
pub enum DiscoveryBrowserErrorSource {
    /// The discovery metadata was rejected.
    Metadata(DiscoveryMetadataError),
    /// The mDNS infrastructure reported the given failure.
    Backend(String),
}

/// The contents of the cause of a failure.
pub enum ErrorSourceModel {
    /// The discovery metadata was rejected.
    Metadata(DiscoveryMetadataError),
    /// The mDNS infrastructure reported the given failure.
    Backend(Seq<char>),
}

/// The contents of a browser failure.
pub struct BrowserErrorModel {
    /// The category.
    pub kind: DiscoveryBrowserErrorKind,
    /// The affected transient key.
    pub key: Option<Seq<char>>,
    /// The cause.
    pub source: Option<ErrorSourceModel>,
}

/// A failure of which only the category is known.
pub open spec fn plain_error(kind: DiscoveryBrowserErrorKind) -> BrowserErrorModel {
    BrowserErrorModel { kind, key: None, source: None }
}

/// A failure that concerns one advertisement.
pub open spec fn keyed_error(kind: DiscoveryBrowserErrorKind, key: Seq<char>) -> BrowserErrorModel {
    BrowserErrorModel { kind, key: Some(key), source: None }
}

/// The rejection of the metadata of one advertisement.
pub open spec fn metadata_error(key: Seq<char>, error: DiscoveryMetadataError) -> BrowserErrorModel {
    BrowserErrorModel {
        kind: DiscoveryBrowserErrorKind::Metadata,
        key: Some(key),
        source: Some(ErrorSourceModel::Metadata(error)),
    }
}

/// A failure that the infrastructure reported.
pub open spec fn backend_error(
    kind: DiscoveryBrowserErrorKind,
    source: Seq<char>,
) -> BrowserErrorModel {
    BrowserErrorModel { kind, key: None, source: Some(ErrorSourceModel::Backend(source)) }
}

impl View for DiscoveryBrowserErrorSource {
    type V = ErrorSourceModel;

    open spec fn view(&self) -> ErrorSourceModel {
        match *self {
            DiscoveryBrowserErrorSource::Metadata(error) => ErrorSourceModel::Metadata(error),
            DiscoveryBrowserErrorSource::Backend(source) => ErrorSourceModel::Backend(source@),
        }
    }
}

impl DiscoveryBrowserErrorSource {
    /// Describes the cause.
    pub fn message(&self) -> (s: String)
        ensures
            s@ == (match self@ {
                ErrorSourceModel::Metadata(error) => error.text(),
                ErrorSourceModel::Backend(source) => source,
            }),
    {
        match self {
            DiscoveryBrowserErrorSource::Metadata(error) => error.message(),
            DiscoveryBrowserErrorSource::Backend(source) => source.clone(),
        }
    }
}

/// A typed browser failure that keeps infrastructure types behind the boundary.
#[derive(Debug, PartialEq, Eq)]
pub struct DiscoveryBrowserError {
    kind: DiscoveryBrowserErrorKind,
    key: Option<TransientDiscoveryKey>,
    source: Option<DiscoveryBrowserErrorSource>,
}

impl View for DiscoveryBrowserError {
    type V = BrowserErrorModel;

    closed spec fn view(&self) -> BrowserErrorModel {
        BrowserErrorModel {
            kind: self.kind,
            key: match self.key {
                Some(key) => Some(key@),
                None => None,
            },
            source: match self.source {
                Some(source) => Some(source@),
                None => None,
            },
        }
    }
}

impl DiscoveryBrowserErrorKind {
    /// The description of the category.
    pub open spec fn text(self) -> Seq<char> {
        match self {
            DiscoveryBrowserErrorKind::Initialization => "failed to initialize mDNS browsing"@,
            DiscoveryBrowserErrorKind::Browse => "failed to start the DNS-SD browse request"@,
            DiscoveryBrowserErrorKind::InvalidTransientKey =>
                "invalid transient DNS-SD service key"@,
            DiscoveryBrowserErrorKind::MalformedResolution =>
                "resolved DNS-SD service has no usable endpoints"@,
            DiscoveryBrowserErrorKind::InvalidPort =>
                "resolved DNS-SD service advertised port zero"@,
            DiscoveryBrowserErrorKind::EndpointLimit =>
                "resolved DNS-SD service exceeds the endpoint limit"@,
            DiscoveryBrowserErrorKind::Metadata => "invalid discovery TXT metadata"@,
            DiscoveryBrowserErrorKind::IncompatibleProtocol =>
                "discovered service has no compatible protocol major"@,
            DiscoveryBrowserErrorKind::Daemon => "the mDNS browser daemon reported an error"@,
            DiscoveryBrowserErrorKind::StopBrowse => "failed to stop the DNS-SD browse request"@,
            DiscoveryBrowserErrorKind::Shutdown => "failed to shut down the mDNS browser daemon"@,
        }
    }
}

impl DiscoveryBrowserError {
    /// Returns the failure category.
    #[must_use]
    pub fn kind(&self) -> (r: DiscoveryBrowserErrorKind)
        ensures
            r == self@.kind,
    {
        self.kind
    }

    /// Returns the affected transient advertisement key when safely available.
    #[must_use]
    pub fn key(&self) -> (r: Option<&TransientDiscoveryKey>)
        ensures
            match r {
                Some(key) => self@.key == Some(key@),
                None => self@.key is None,
            },
    {
        self.key.as_ref()
    }

    /// Returns the cause of the failure.
    #[must_use]
    pub fn source(&self) -> (r: Option<&DiscoveryBrowserErrorSource>)
        ensures
            match r {
                Some(source) => self@.source == Some(source@),
                None => self@.source is None,
            },
    {
        self.source.as_ref()
    }

    /// A failure of which only the category is known.
    pub fn without_source(kind: DiscoveryBrowserErrorKind) -> (r: Self)
        ensures
            r@ == plain_error(kind),
    {
        DiscoveryBrowserError { kind, key: None, source: None }
    }

    /// A failure that concerns one advertisement.
    pub fn for_key(kind: DiscoveryBrowserErrorKind, key: TransientDiscoveryKey) -> (r: Self)
        ensures
            r@ == keyed_error(kind, key@),
    {
        DiscoveryBrowserError { kind, key: Some(key), source: None }
    }

    /// A failure that the infrastructure reported.
    pub fn with_source(kind: DiscoveryBrowserErrorKind, source: String) -> (r: Self)
        ensures
            r@ == backend_error(kind, source@),
    {
        DiscoveryBrowserError {
            kind,
            key: None,
            source: Some(DiscoveryBrowserErrorSource::Backend(source)),
        }
    }

    /// The rejection of the metadata of one advertisement.
    fn for_metadata(key: TransientDiscoveryKey, source: DiscoveryMetadataError) -> (r: Self)
        ensures
            r@ == metadata_error(key@, source),
    {
        DiscoveryBrowserError {
            kind: DiscoveryBrowserErrorKind::Metadata,
            key: Some(key),
            source: Some(DiscoveryBrowserErrorSource::Metadata(source)),
        }
    }

    /// Describes the failure.
    pub fn message(&self) -> (s: String)
        ensures
            s@ == self@.kind.text(),
    {
        let message = match self.kind {
            DiscoveryBrowserErrorKind::Initialization => "failed to initialize mDNS browsing",
            DiscoveryBrowserErrorKind::Browse => "failed to start the DNS-SD browse request",
            DiscoveryBrowserErrorKind::InvalidTransientKey =>
                "invalid transient DNS-SD service key",
            DiscoveryBrowserErrorKind::MalformedResolution =>
                "resolved DNS-SD service has no usable endpoints",
            DiscoveryBrowserErrorKind::InvalidPort =>
                "resolved DNS-SD service advertised port zero",
            DiscoveryBrowserErrorKind::EndpointLimit =>
                "resolved DNS-SD service exceeds the endpoint limit",
            DiscoveryBrowserErrorKind::Metadata => "invalid discovery TXT metadata",
            DiscoveryBrowserErrorKind::IncompatibleProtocol =>
                "discovered service has no compatible protocol major",
            DiscoveryBrowserErrorKind::Daemon => "the mDNS browser daemon reported an error",
            DiscoveryBrowserErrorKind::StopBrowse => "failed to stop the DNS-SD browse request",
            DiscoveryBrowserErrorKind::Shutdown => "failed to shut down the mDNS browser daemon",
        };
        message.to_owned()
    }
}

/// A bounded, compatible, unauthenticated resolved service snapshot.
#[derive(Debug)]
pub struct DiscoveredPeer {
    key: TransientDiscoveryKey,
    metadata: DiscoveryMetadata,
    port: u16,
    endpoints: Vec<DiscoveryEndpoint>,
    protocol_major: u16,
}

impl View for DiscoveredPeer {
    type V = PeerModel;

    closed spec fn view(&self) -> PeerModel {
        PeerModel {
            key: self.key@,
            metadata: self.metadata@,
            port: self.port,
            endpoints: self.endpoints@,
            protocol_major: self.protocol_major,
        }
    }
}

impl PartialEq for DiscoveredPeer {
    fn eq(&self, other: &Self) -> (r: bool) {
        self.key == other.key && self.metadata == other.metadata && self.port == other.port
            && same_endpoints(&self.endpoints, &other.endpoints) && self.protocol_major
            == other.protocol_major
    }
}

impl vstd::std_specs::cmp::PartialEqSpecImpl for DiscoveredPeer {
    open spec fn obeys_eq_spec() -> bool {
        true
    }

    open spec fn eq_spec(&self, other: &Self) -> bool {
        self@ == other@
    }
}

impl Eq for DiscoveredPeer {

}

impl Clone for DiscoveredPeer {
    fn clone(&self) -> (r: Self)
        ensures
            r@ == self@,
    {
        proof {
            use_type_invariant(self);
        }
        let endpoints = vstd::slice::slice_to_vec(self.endpoints.as_slice());
        DiscoveredPeer {
            key: self.key.clone(),
            metadata: self.metadata.clone(),
            port: self.port,
            endpoints,
            protocol_major: self.protocol_major,
        }
    }
}

/// Reports whether two lists of endpoints are equal.
fn same_endpoints(a: &Vec<DiscoveryEndpoint>, b: &Vec<DiscoveryEndpoint>) -> (r: bool)
    ensures
        r == (a@ == b@),
{
    if a.len() != b.len() {
        return false;
    }
    let mut i: usize = 0;
    while i < a.len()
        invariant
            i <= a.len(),
            a.len() == b.len(),
            forall|j: int| 0 <= j < i ==> a@[j] == b@[j],
        decreases a.len() - i,
    {
        if a[i] != b[i] {
            assert(a@[i as int] != b@[i as int]);
            return false;
        }
        i = i + 1;
    }
    assert(a@ =~= b@);
    true
}

/// What holds of every discovered peer: a valid key, valid metadata that shares the
/// given protocol major version with this release, a port other than zero, and one
/// to sixteen endpoints in ascending order without repetition.
pub open spec fn is_peer(p: PeerModel) -> bool {
    &&& transient_key_of(p.key) == Some(p.key)
    &&& discovery::is_metadata(p.metadata)
    &&& p.port != 0
    &&& 0 < p.endpoints.len() <= MAX_DISCOVERED_ENDPOINTS
    &&& endpoints_ascend(p.endpoints)
    &&& discovery::highest_common_version(supported_protocols(), p.metadata.protocols) == Some(
        p.protocol_major,
    )
}

/// The protocol range of this release.
pub open spec fn supported_protocols() -> (u16, u16) {
    (discovery::INITIAL_PROTOCOL_MAJOR, discovery::INITIAL_PROTOCOL_MAJOR)
}

impl DiscoveredPeer {
    #[verifier::type_invariant]
    spec fn well_formed(self) -> bool {
        is_peer(self@)
    }

    /// Returns the transient advertisement key, not a permanent peer identity.
    #[must_use]
    pub fn key(&self) -> (r: &TransientDiscoveryKey)
        ensures
            r@ == self@.key,
            is_peer(self@),
    {
        proof {
            use_type_invariant(self);
        }
        &self.key
    }

    /// Returns the validated, advisory discovery metadata.
    #[must_use]
    pub fn metadata(&self) -> (r: &DiscoveryMetadata)
        ensures
            r@ == self@.metadata,
    {
        &self.metadata
    }

    /// Returns the resolved non-zero TCP service port.
    #[must_use]
    pub fn port(&self) -> (r: u16)
        ensures
            r == self@.port,
            r != 0,
    {
        proof {
            use_type_invariant(self);
        }
        self.port
    }

    /// Returns the bounded, sorted, deduplicated resolved endpoints.
    #[must_use]
    pub fn endpoints(&self) -> (r: &[DiscoveryEndpoint])
        ensures
            r@ == self@.endpoints,
            0 < r@.len() <= MAX_DISCOVERED_ENDPOINTS,
            endpoints_ascend(r@),
    {
        proof {
            use_type_invariant(self);
        }
        self.endpoints.as_slice()
    }

    /// Returns the highest application-protocol major shared with this release.
    #[must_use]
    pub fn protocol_major(&self) -> (r: u16)
        ensures
            r == self@.protocol_major,
    {
        self.protocol_major
    }
}

/// A resolution as the infrastructure delivers it, before validation.
#[derive(Debug)]
pub struct RawResolvedService {
    /// The DNS-SD fullname.
    pub fullname: String,
    /// The service port.
    pub port: u16,
    /// The resolved endpoints, in any order.
    pub endpoints: Vec<DiscoveryEndpoint>,
    /// The TXT entries.
    pub txt: Vec<DiscoveryTxtEntry>,
}

/// The contents of a resolution.
pub struct ResolvedModel {
    /// The DNS-SD fullname.
    pub fullname: Seq<char>,
    /// The service port.
    pub port: u16,
    /// The resolved endpoints, in any order.
    pub endpoints: Seq<DiscoveryEndpoint>,
    /// The TXT entries.
    pub txt: Seq<(Seq<char>, Seq<u8>)>,
}

impl View for RawResolvedService {
    type V = ResolvedModel;

    open spec fn view(&self) -> ResolvedModel {
        ResolvedModel {
            fullname: self.fullname@,
            port: self.port,
            endpoints: self.endpoints@,
            txt: discovery::entry_views(self.txt@),
        }
    }
}

/// The peer that a resolution describes, or the first reason for which it is refused.
pub open spec fn peer_of(resolved: ResolvedModel) -> Result<PeerModel, BrowserErrorModel> {
    match transient_key_of(resolved.fullname) {
        None => Err(plain_error(DiscoveryBrowserErrorKind::InvalidTransientKey)),
        Some(key) => if resolved.port == 0 {
            Err(keyed_error(DiscoveryBrowserErrorKind::InvalidPort, key))
        } else if resolved.endpoints.len() == 0 {
            Err(keyed_error(DiscoveryBrowserErrorKind::MalformedResolution, key))
        } else if endpoint_listing(resolved.endpoints).len() > MAX_DISCOVERED_ENDPOINTS {
            Err(keyed_error(DiscoveryBrowserErrorKind::EndpointLimit, key))
        } else {
            match discovery::metadata_of(resolved.txt) {
                Err(error) => Err(metadata_error(key, error)),
                Ok(metadata) => match discovery::highest_common_version(
                    supported_protocols(),
                    metadata.protocols,
                ) {
                    None => Err(keyed_error(DiscoveryBrowserErrorKind::IncompatibleProtocol, key)),
                    Some(protocol_major) => Ok(
                        PeerModel {
                            key,
                            metadata,
                            port: resolved.port,
                            endpoints: endpoint_listing(resolved.endpoints),
                            protocol_major,
                        },
                    ),
                },
            }
        },
    }
}

/// Validates a resolution into a peer.
pub fn validate_resolution(resolved: &RawResolvedService) -> (r: Result<
    DiscoveredPeer,
    DiscoveryBrowserError,
>)
    ensures
        match peer_of(resolved@) {
            Ok(peer) => r is Ok && r->Ok_0@ == peer && is_peer(peer),
            Err(error) => r is Err && r->Err_0@ == error,
        },
{
    let key = match TransientDiscoveryKey::new(resolved.fullname.as_str()) {
        Ok(key) => key,
        Err(error) => return Err(error),
    };
    if resolved.port == 0 {
        return Err(DiscoveryBrowserError::for_key(DiscoveryBrowserErrorKind::InvalidPort, key));
    }
    let endpoints = listed_endpoints(resolved.endpoints.as_slice());
    proof {
        if resolved@.endpoints.len() > 0 {
            assert(resolved@.endpoints.contains(resolved@.endpoints[0]));
            assert(endpoints@.contains(resolved@.endpoints[0]));
        }
        if endpoints@.len() > 0 {
            assert(endpoints@.contains(endpoints@[0]));
            assert(resolved@.endpoints.contains(endpoints@[0]));
        }
    }
    if endpoints.len() == 0 {
        return Err(
            DiscoveryBrowserError::for_key(DiscoveryBrowserErrorKind::MalformedResolution, key),
        );
    }
    if endpoints.len() > MAX_DISCOVERED_ENDPOINTS {
        return Err(DiscoveryBrowserError::for_key(DiscoveryBrowserErrorKind::EndpointLimit, key));
    }
    let metadata = match DiscoveryMetadata::from_txt_entries(resolved.txt.as_slice()) {
        Ok(metadata) => metadata,
        Err(error) => return Err(DiscoveryBrowserError::for_metadata(key, error)),
    };
    let shared = DiscoveryProtocolRange::initial().highest_compatible_version(metadata.protocols());
    let protocol_major: u16 = match shared {
        Some(version) => version,
        None => {
            return Err(
                DiscoveryBrowserError::for_key(
                    DiscoveryBrowserErrorKind::IncompatibleProtocol,
                    key,
                ),
            );
        },
    };
    proof {
        transient_key_is_normal(resolved@.fullname);
    }
    Ok(DiscoveredPeer { key, metadata, port: resolved.port, endpoints, protocol_major })
}

/// A transient, unauthenticated discovery-session event.
#[derive(Debug)]
pub enum DiscoveryBrowserEvent {
    /// First valid compatible resolution for an advertisement key.
    Added(DiscoveredPeer),
    /// Meaningful validated state changed for an already resolved advertisement.
    Updated(DiscoveredPeer),
    /// An equivalent valid resolution refreshed advertisement liveness.
    Refreshed(DiscoveredPeer),
    /// A previously resolved advertisement is no longer visible.
    Removed(TransientDiscoveryKey),
    /// A daemon, lifecycle, or hostile-input failure occurred.
    Error(DiscoveryBrowserError),
}

/// The contents of a discovery-session event.
pub enum BrowserEventModel {
    /// First valid compatible resolution for an advertisement key.
    Added(PeerModel),
    /// Meaningful validated state changed for an already resolved advertisement.
    Updated(PeerModel),
    /// An equivalent valid resolution refreshed advertisement liveness.
    Refreshed(PeerModel),
    /// A previously resolved advertisement is no longer visible.
    Removed(Seq<char>),
    /// A daemon, lifecycle, or hostile-input failure occurred.
    Error(BrowserErrorModel),
}

impl View for DiscoveryBrowserEvent {
    type V = BrowserEventModel;

    open spec fn view(&self) -> BrowserEventModel {
        match *self {
            DiscoveryBrowserEvent::Added(peer) => BrowserEventModel::Added(peer@),
            DiscoveryBrowserEvent::Updated(peer) => BrowserEventModel::Updated(peer@),
            DiscoveryBrowserEvent::Refreshed(peer) => BrowserEventModel::Refreshed(peer@),
            DiscoveryBrowserEvent::Removed(key) => BrowserEventModel::Removed(key@),
            DiscoveryBrowserEvent::Error(error) => BrowserEventModel::Error(error@),
        }
    }
}

/// What the infrastructure reports, before translation.
#[derive(Debug)]
pub enum RawBrowserEvent {
    /// A service was resolved.
    Resolved(RawResolvedService),
    /// The service of the given fullname went away.
    Removed(String),
    /// The infrastructure failed.
    Error(DiscoveryBrowserError),
}

/// The contents of an infrastructure report.
pub enum RawEventModel {
    /// A service was resolved.
    Resolved(ResolvedModel),
    /// The service of the given fullname went away.
    Removed(Seq<char>),
    /// The infrastructure failed.
    Error(BrowserErrorModel),
}

impl View for RawBrowserEvent {
    type V = RawEventModel;

    open spec fn view(&self) -> RawEventModel {
        match *self {
            RawBrowserEvent::Resolved(resolved) => RawEventModel::Resolved(resolved@),
            RawBrowserEvent::Removed(fullname) => RawEventModel::Removed(fullname@),
            RawBrowserEvent::Error(error) => RawEventModel::Error(error@),
        }
    }
}

/// The peers known after a report, by transient key.
pub open spec fn peers_after(
    peers: Map<Seq<char>, PeerModel>,
    event: RawEventModel,
) -> Map<Seq<char>, PeerModel> {
    match event {
        RawEventModel::Resolved(resolved) => match peer_of(resolved) {
            Ok(peer) => peers.insert(peer.key, peer),
            Err(_) => peers,
        },
        RawEventModel::Removed(fullname) => match transient_key_of(fullname) {
            Some(key) => peers.remove(key),
            None => peers,
        },
        RawEventModel::Error(_) => peers,
    }
}

/// The event that a report gives rise to.
pub open spec fn event_for(
    peers: Map<Seq<char>, PeerModel>,
    event: RawEventModel,
) -> Option<BrowserEventModel> {
    match event {
        RawEventModel::Resolved(resolved) => Some(
            match peer_of(resolved) {
                Ok(peer) => if !peers.dom().contains(peer.key) {
                    BrowserEventModel::Added(peer)
                } else if peers[peer.key] == peer {
                    BrowserEventModel::Refreshed(peer)
                } else {
                    BrowserEventModel::Updated(peer)
                },
                Err(error) => BrowserEventModel::Error(error),
            },
        ),
        RawEventModel::Removed(fullname) => match transient_key_of(fullname) {
            Some(key) => if peers.dom().contains(key) {
                Some(BrowserEventModel::Removed(key))
            } else {
                None
            },
            None => Some(
                BrowserEventModel::Error(
                    plain_error(DiscoveryBrowserErrorKind::InvalidTransientKey),
                ),
            ),
        },
        RawEventModel::Error(error) => Some(BrowserEventModel::Error(error)),
    }
}

/// Coalesces raw resolutions into deduplicated peers keyed by transient name.
#[derive(Debug)]
pub struct BrowserState {
    peers: TextMap<DiscoveredPeer>,
}

impl View for BrowserState {
    type V = Map<Seq<char>, PeerModel>;

    closed spec fn view(&self) -> Map<Seq<char>, PeerModel> {
        self.peers@.map_values(|peer: DiscoveredPeer| peer@)
    }
}

impl BrowserState {
    /// The peers are filed under distinct keys.
    pub closed spec fn wf(self) -> bool {
        self.peers.wf()
    }

    /// A session that has resolved nothing yet.
    pub fn new() -> (r: Self)
        ensures
            r.wf(),
            r@ == Map::<Seq<char>, PeerModel>::empty(),
    {
        let r = BrowserState { peers: TextMap::new() };
        assert(r@ =~= Map::<Seq<char>, PeerModel>::empty());
        r
    }

    /// Returns the number of known peers.
    #[must_use]
    pub fn len(&self) -> (n: usize)
        requires
            self.wf(),
        ensures
            n == self@.dom().len(),
            self@.dom().finite(),
    {
        proof {
            self.peers.lemma_entries();
            assert(self@.dom() =~= self.peers@.dom());
        }
        self.peers.len()
    }

    /// Returns the peer that is known under a transient key.
    #[must_use]
    pub fn get(&self, key: &TransientDiscoveryKey) -> (r: Option<&DiscoveredPeer>)
        requires
            self.wf(),
        ensures
            match r {
                Some(peer) => self@.dom().contains(key@) && self@[key@] == peer@,
                None => !self@.dom().contains(key@),
            },
    {
        self.peers.get(key.as_str())
    }

    /// Translates one infrastructure report into at most one event.
    pub fn translate(&mut self, event: RawBrowserEvent) -> (r: Option<DiscoveryBrowserEvent>)
        requires
            old(self).wf(),
        ensures
            final(self).wf(),
            final(self)@ == peers_after(old(self)@, event@),
            match r {
                Some(translated) => event_for(old(self)@, event@) == Some(translated@),
                None => event_for(old(self)@, event@) is None,
            },
    {
        match event {
            RawBrowserEvent::Resolved(resolved) => {
                match self.resolve(resolved) {
                    Ok(translated) => Some(translated),
                    Err(error) => Some(DiscoveryBrowserEvent::Error(error)),
                }
            },
            RawBrowserEvent::Removed(fullname) => {
                let key = match TransientDiscoveryKey::new(fullname.as_str()) {
                    Ok(key) => key,
                    Err(error) => return Some(DiscoveryBrowserEvent::Error(error)),
                };
                let known = self.peers.remove(key.as_str());
                assert(self@ =~= old(self)@.remove(key@));
                if known {
                    Some(DiscoveryBrowserEvent::Removed(key))
                } else {
                    None
                }
            },
            RawBrowserEvent::Error(error) => Some(DiscoveryBrowserEvent::Error(error)),
        }
    }

    /// Records a resolution under its key.
    fn resolve(&mut self, resolved: RawResolvedService) -> (r: Result<
        DiscoveryBrowserEvent,
        DiscoveryBrowserError,
    >)
        requires
            old(self).wf(),
        ensures
            final(self).wf(),
            final(self)@ == peers_after(old(self)@, RawEventModel::Resolved(resolved@)),
            match r {
                Ok(translated) => peer_of(resolved@) is Ok && event_for(
                    old(self)@,
                    RawEventModel::Resolved(resolved@),
                ) == Some(translated@),
                Err(error) => peer_of(resolved@) == Err::<PeerModel, BrowserErrorModel>(error@),
            },
    {
        let peer = match validate_resolution(&resolved) {
            Ok(peer) => peer,
            Err(error) => return Err(error),
        };
        let key = peer.key().as_str().to_owned();
        match self.peers.get(key.as_str()) {
            Some(previous) => {
                if *previous == peer {
                    assert(self@ =~= old(self)@.insert(peer@.key, peer@));
                    return Ok(DiscoveryBrowserEvent::Refreshed(peer));
                }
                self.peers.insert(key, peer.clone());
                assert(self@ =~= old(self)@.insert(peer@.key, peer@));
                Ok(DiscoveryBrowserEvent::Updated(peer))
            },
            None => {
                self.peers.insert(key, peer.clone());
                assert(self@ =~= old(self)@.insert(peer@.key, peer@));
                Ok(DiscoveryBrowserEvent::Added(peer))
            },
        }
    }
}

impl Default for BrowserState {
    fn default() -> (r: Self)
        ensures
            r.wf(),
            r@ == Map::<Seq<char>, PeerModel>::empty(),
    {
        BrowserState::new()
    }
}

/// Every accepted resolution yields a valid, bounded peer.
pub proof fn accepted_peer_is_valid(resolved: ResolvedModel)
    requires
        peer_of(resolved) is Ok,
    ensures
        is_peer(peer_of(resolved)->Ok_0),
{
    transient_key_is_normal(resolved.fullname);
    discovery::parsed_metadata_is_valid(resolved.txt);
    let listing = endpoint_listing(resolved.endpoints);
    endpoint_listing_exists(resolved.endpoints);
    assert(resolved.endpoints.contains(resolved.endpoints[0]));
    assert(listing.contains(resolved.endpoints[0]));
}

/// Neither the order nor the repetition of resolved endpoints matters.
pub proof fn endpoint_order_is_irrelevant(a: ResolvedModel, b: ResolvedModel)
    requires
        a.fullname == b.fullname,
        a.port == b.port,
        a.txt == b.txt,
        forall|e: DiscoveryEndpoint| #[trigger]
            a.endpoints.contains(e) <==> b.endpoints.contains(e),
    ensures
        peer_of(a) == peer_of(b),
{
    endpoint_listing_exists(a.endpoints);
    endpoint_listing_exists(b.endpoints);
    let listing = endpoint_listing(a.endpoints);
    assert(is_endpoint_listing(listing, b.endpoints));
    endpoint_listing_is_unique(listing, endpoint_listing(b.endpoints), b.endpoints);
    if a.endpoints.len() > 0 {
        assert(a.endpoints.contains(a.endpoints[0]));
        assert(b.endpoints.contains(a.endpoints[0]));
    }
    if b.endpoints.len() > 0 {
        assert(b.endpoints.contains(b.endpoints[0]));
        assert(a.endpoints.contains(b.endpoints[0]));
    }
}

/// A resolution that is accepted gives the same peer whatever the order of its TXT
/// entries.
pub proof fn txt_order_is_irrelevant(a: ResolvedModel, b: ResolvedModel)
    requires
        a.fullname == b.fullname,
        a.port == b.port,
        a.endpoints == b.endpoints,
        a.txt.to_multiset() == b.txt.to_multiset(),
        peer_of(a) is Ok,
    ensures
        peer_of(b) == peer_of(a),
{
    discovery::entry_order_is_irrelevant(a.txt, b.txt);
}

/// A refused resolution, a removal of an invalid name and an infrastructure failure
/// change no peer, and are reported as errors.
pub proof fn refused_reports_change_nothing(peers: Map<Seq<char>, PeerModel>, event: RawEventModel)
    requires
        match event {
            RawEventModel::Resolved(resolved) => peer_of(resolved) is Err,
            RawEventModel::Removed(fullname) => transient_key_of(fullname) is None,
            RawEventModel::Error(_) => true,
        },
    ensures
        peers_after(peers, event) == peers,
        event_for(peers, event) matches Some(BrowserEventModel::Error(_)),
{
}

/// Resolving the same service again refreshes it and changes nothing; resolving it
/// with different contents updates it.
pub proof fn repeated_resolution_is_coalesced(
    peers: Map<Seq<char>, PeerModel>,
    first: ResolvedModel,
    second: ResolvedModel,
)
    requires
        peer_of(first) is Ok,
        peer_of(second) is Ok,
        peer_of(first)->Ok_0.key == peer_of(second)->Ok_0.key,
    ensures
        ({
            let after = peers_after(peers, RawEventModel::Resolved(first));
            let peer = peer_of(second)->Ok_0;
            if peer_of(first) == peer_of(second) {
                &&& peers_after(after, RawEventModel::Resolved(second)) == after
                &&& event_for(after, RawEventModel::Resolved(second)) == Some(
                    BrowserEventModel::Refreshed(peer),
                )
            } else {
                event_for(after, RawEventModel::Resolved(second)) == Some(
                    BrowserEventModel::Updated(peer),
                )
            }
        }),
{
    let after = peers_after(peers, RawEventModel::Resolved(first));
    if peer_of(first) == peer_of(second) {
        assert(peers_after(after, RawEventModel::Resolved(second)) =~= after);
    }
}

/// A removal is reported once; removing what is not there is silent.
pub proof fn removal_is_reported_once(peers: Map<Seq<char>, PeerModel>, fullname: Seq<char>)
    requires
        transient_key_of(fullname) is Some,
    ensures
        ({
            let after = peers_after(peers, RawEventModel::Removed(fullname));
            &&& event_for(after, RawEventModel::Removed(fullname)) is None
            &&& peers_after(after, RawEventModel::Removed(fullname)) == after
        }),
{
    let after = peers_after(peers, RawEventModel::Removed(fullname));
    assert(peers_after(after, RawEventModel::Removed(fullname)) =~= after);
}

/// The transient key that a report concerns.
pub open spec fn report_key(event: RawEventModel) -> Option<Seq<char>> {
    match event {
        RawEventModel::Resolved(resolved) => transient_key_of(resolved.fullname),
        RawEventModel::Removed(fullname) => transient_key_of(fullname),
        RawEventModel::Error(_) => None,
    }
}

/// A report touches no other advertisement than its own.
pub proof fn reports_are_isolated(
    peers: Map<Seq<char>, PeerModel>,
    event: RawEventModel,
    other: Seq<char>,
)
    requires
        report_key(event) != Some(other),
    ensures
        peers_after(peers, event).dom().contains(other) == peers.dom().contains(other),
        peers.dom().contains(other) ==> peers_after(peers, event)[other] == peers[other],
{
}

/// An address of a resolved service as the mDNS daemon reports it.
#[derive(Clone, Copy, Debug, PartialEq, Eq, Structural)]
pub enum ServiceAddress {
    /// An IPv4 address.
    V4(u32),
    /// An IPv6 address and the index of the interface it was seen on.
    V6 { address: u128, scope_id: u32 },
    /// An address of another family.
    Unsupported,
}

/// A TXT property of a resolved service as the mDNS daemon reports it.
#[derive(Debug)]
pub struct ServiceProperty {
    /// The property key.
    pub key: String,
    /// The property value, absent for a key without `=`.
    pub value: Option<Vec<u8>>,
}

impl View for ServiceProperty {
    type V = (Seq<char>, Seq<u8>);

    /// The key and the value, which is empty when absent.
    open spec fn view(&self) -> (Seq<char>, Seq<u8>) {
        (
            self.key@,
            match self.value {
                Some(value) => value@,
                None => Seq::empty(),
            },
        )
    }
}

/// A resolved service as the mDNS daemon reports it.
#[derive(Debug)]
pub struct ServiceRecord {
    /// The DNS-SD fullname.
    pub fullname: String,
    /// The service port.
    pub port: u16,
    /// The addresses, in any order.
    pub addresses: Vec<ServiceAddress>,
    /// The TXT properties.
    pub properties: Vec<ServiceProperty>,
}

/// The endpoints among the addresses of a service.
pub open spec fn service_endpoints(addresses: Seq<ServiceAddress>) -> Seq<DiscoveryEndpoint>
    decreases addresses.len(),
{
    if addresses.len() == 0 {
        Seq::empty()
    } else {
        let before = service_endpoints(addresses.drop_last());
        match addresses.last() {
            ServiceAddress::V4(address) => before.push(
                DiscoveryEndpoint { address: IpAddress::V4(address), scope_id: None },
            ),
            ServiceAddress::V6 { address, scope_id } => before.push(
                DiscoveryEndpoint { address: IpAddress::V6(address), scope_id: Some(scope_id) },
            ),
            ServiceAddress::Unsupported => before,
        }
    }
}

/// The contents of TXT properties.
pub open spec fn property_views(properties: Seq<ServiceProperty>) -> Seq<(Seq<char>, Seq<u8>)> {
    properties.map_values(|property: ServiceProperty| property@)
}

/// Why the first property that is no TXT entry is none.
pub open spec fn first_property_error(properties: Seq<(Seq<char>, Seq<u8>)>) -> Option<
    DiscoveryMetadataError,
>
    decreases properties.len(),
{
    if properties.len() == 0 {
        None
    } else {
        match first_property_error(properties.drop_last()) {
            Some(error) => Some(error),
            None => discovery::txt_entry_error(properties.last().0, properties.last().1),
        }
    }
}

/// The resolution that a service record holds, or why it holds none.
pub open spec fn raw_service_of(service: ServiceRecord) -> Result<
    ResolvedModel,
    BrowserErrorModel,
> {
    match transient_key_of(service.fullname@) {
        None => Err(plain_error(DiscoveryBrowserErrorKind::InvalidTransientKey)),
        Some(key) => match first_property_error(property_views(service.properties@)) {
            Some(error) => Err(metadata_error(key, error)),
            None => Ok(
                ResolvedModel {
                    fullname: service.fullname@,
                    port: service.port,
                    endpoints: service_endpoints(service.addresses@),
                    txt: property_views(service.properties@),
                },
            ),
        },
    }
}

/// Takes what browsing needs from a resolved service.
pub fn raw_service(service: &ServiceRecord) -> (r: Result<
    RawResolvedService,
    DiscoveryBrowserError,
>)
    ensures
        match raw_service_of(*service) {
            Ok(resolved) => r is Ok && r->Ok_0@ == resolved,
            Err(error) => r is Err && r->Err_0@ == error,
        },
{
    let key = match TransientDiscoveryKey::new(service.fullname.as_str()) {
        Ok(key) => key,
        Err(error) => return Err(error),
    };
    let ghost properties = property_views(service.properties@);
    let mut txt: Vec<DiscoveryTxtEntry> = Vec::new();
    let mut i: usize = 0;
    while i < service.properties.len()
        invariant
            i <= service.properties.len(),
            properties == property_views(service.properties@),
            discovery::entry_views(txt@) == properties.take(i as int),
            first_property_error(properties.take(i as int)) is None,
            transient_key_of(service.fullname@) == Some(key@),
        decreases service.properties.len() - i,
    {
        let property = &service.properties[i];
        proof {
            lemma_first_property_error(properties, i + 1);
            assert(properties.take(i + 1).drop_last() =~= properties.take(i as int));
            assert(properties[i as int] == property@);
        }
        let empty: Vec<u8> = Vec::new();
        let value: &[u8] = match &property.value {
            Some(value) => value.as_slice(),
            None => empty.as_slice(),
        };
        assert(value@ =~= property@.1);
        match DiscoveryTxtEntry::new(property.key.as_str(), value) {
            Ok(entry) => {
                let ghost before = txt@;
                txt.push(entry);
                assert(discovery::entry_views(txt@) =~= discovery::entry_views(before).push(
                    entry@,
                ));
                assert(properties.take(i + 1) =~= properties.take(i as int).push(entry@));
            },
            Err(error) => return Err(DiscoveryBrowserError::for_metadata(key, error)),
        }
        i = i + 1;
    }
    assert(properties.take(i as int) =~= properties);
    let mut endpoints: Vec<DiscoveryEndpoint> = Vec::new();
    let mut j: usize = 0;
    while j < service.addresses.len()
        invariant
            j <= service.addresses.len(),
            endpoints@ == service_endpoints(service.addresses@.take(j as int)),
        decreases service.addresses.len() - j,
    {
        assert(service.addresses@.take(j + 1).drop_last() =~= service.addresses@.take(j as int));
        match service.addresses[j] {
            ServiceAddress::V4(address) => endpoints.push(DiscoveryEndpoint::ipv4(address)),
            ServiceAddress::V6 { address, scope_id } => endpoints.push(
                DiscoveryEndpoint::ipv6(address, scope_id),
            ),
            ServiceAddress::Unsupported => {},
        }
        j = j + 1;
    }
    assert(service.addresses@.take(j as int) =~= service.addresses@);
    Ok(RawResolvedService { fullname: service.fullname.clone(), port: service.port, endpoints, txt })
}

/// An error among the first properties is the first error of all of them.
proof fn lemma_first_property_error(properties: Seq<(Seq<char>, Seq<u8>)>, k: int)
    requires
        0 <= k <= properties.len(),
    ensures
        first_property_error(properties.take(k)) is Some ==> first_property_error(properties)
            == first_property_error(properties.take(k)),
    decreases properties.len() - k,
{
    if k < properties.len() {
        lemma_first_property_error(properties, k + 1);
        assert(properties.take(k + 1).drop_last() =~= properties.take(k));
    } else {
        assert(properties.take(k) =~= properties);
    }
}

/// A step of starting to browse.
#[derive(Debug)]
pub enum BrowseStartStep {
    /// Create the mDNS daemon.
    CreateDaemon,
    /// Open the daemon's monitor channel.
    Monitor,
    /// Ask the daemon to browse for the service type.
    Browse { service_type: &'static str },
    /// Ask the daemon to shut down, whatever it answers, and fail with this.
    Abandon(DiscoveryBrowserError),
    /// The operation is over.
    Done(Result<(), DiscoveryBrowserError>),
}

/// Whether a step of starting to browse can follow another. Only before there is a daemon
/// does a failure end the start at once.
pub open spec fn start_follows(from: BrowseStartStep, to: BrowseStartStep) -> bool {
    match from {
        BrowseStartStep::CreateDaemon => to is Monitor || to matches BrowseStartStep::Done(Err(_)),
        BrowseStartStep::Monitor => to == (BrowseStartStep::Browse {
            service_type: LOCAL_SERVICE_TYPE,
        }) || to is Abandon,
        BrowseStartStep::Browse { service_type: _ } => to == BrowseStartStep::Done(Ok(()))
            || to is Abandon,
        BrowseStartStep::Abandon(error) => to == BrowseStartStep::Done(Err(error)),
        BrowseStartStep::Done(_) => false,
    }
}

/// Begins to browse.
pub fn start_browsing() -> (r: BrowseStartStep)
    ensures
        r is CreateDaemon,
{
    BrowseStartStep::CreateDaemon
}

/// Goes on after creating the daemon.
pub fn after_create_daemon(outcome: Result<(), String>) -> (r: BrowseStartStep)
    ensures
        match outcome {
            Ok(_) => r is Monitor,
            Err(source) => r matches BrowseStartStep::Done(Err(error)) && error@ == backend_error(
                DiscoveryBrowserErrorKind::Initialization,
                source@,
            ),
        },
        start_follows(BrowseStartStep::CreateDaemon, r),
{
    match outcome {
        Ok(_) => BrowseStartStep::Monitor,
        Err(source) => BrowseStartStep::Done(
            Err(
                DiscoveryBrowserError::with_source(
                    DiscoveryBrowserErrorKind::Initialization,
                    source,
                ),
            ),
        ),
    }
}

/// Goes on after opening the monitor channel. A daemon that cannot be monitored is not
/// left running.
pub fn after_monitor(outcome: Result<(), String>) -> (r: BrowseStartStep)
    ensures
        match outcome {
            Ok(_) => r == (BrowseStartStep::Browse { service_type: LOCAL_SERVICE_TYPE }),
            Err(source) => r matches BrowseStartStep::Abandon(error) && error@ == backend_error(
                DiscoveryBrowserErrorKind::Initialization,
                source@,
            ),
        },
        start_follows(BrowseStartStep::Monitor, r),
{
    match outcome {
        Ok(_) => BrowseStartStep::Browse { service_type: LOCAL_SERVICE_TYPE },
        Err(source) => BrowseStartStep::Abandon(
            DiscoveryBrowserError::with_source(DiscoveryBrowserErrorKind::Initialization, source),
        ),
    }
}

/// Ends after asking the daemon to browse. A daemon that does not browse is not left
/// running.
pub fn after_browse(outcome: Result<(), String>) -> (r: BrowseStartStep)
    ensures
        match outcome {
            Ok(_) => r == BrowseStartStep::Done(Ok(())),
            Err(source) => r matches BrowseStartStep::Abandon(error) && error@ == backend_error(
                DiscoveryBrowserErrorKind::Browse,
                source@,
            ),
        },
        start_follows(BrowseStartStep::Browse { service_type: LOCAL_SERVICE_TYPE }, r),
{
    match outcome {
        Ok(_) => BrowseStartStep::Done(Ok(())),
        Err(source) => BrowseStartStep::Abandon(
            DiscoveryBrowserError::with_source(DiscoveryBrowserErrorKind::Browse, source),
        ),
    }
}

/// What one look at the daemon's monitor channel found.
#[derive(Debug)]
pub enum DaemonSignal {
    /// The daemon reported the given failure.
    Failed(String),
    /// The daemon reported something that browsing has no use for.
    Other,
    /// Nothing is waiting.
    Empty,
    /// The channel itself failed.
    Disconnected(String),
}

/// What one look at the browse channel found.
#[derive(Debug)]
pub enum ServiceSignal {
    /// A service was resolved.
    Resolved(ServiceRecord),
    /// The service of the given fullname went away.
    Removed(String),
    /// The daemon reported something that browsing has no use for.
    Other,
    /// Nothing is waiting.
    Empty,
    /// The channel itself failed.
    Disconnected(String),
}

/// What a poll does after one look at a channel.
#[derive(Debug)]
pub enum PollStep {
    /// Look again.
    Again,
    /// The channel has nothing to report.
    Idle,
    /// Report this.
    Emit(RawBrowserEvent),
}

/// Decides what to do with a look at the monitor channel, which comes first.
pub fn daemon_step(signal: DaemonSignal) -> (r: PollStep)
    ensures
        match signal {
            DaemonSignal::Failed(source) => r matches PollStep::Emit(event) && event@
                == RawEventModel::Error(backend_error(DiscoveryBrowserErrorKind::Daemon, source@)),
            DaemonSignal::Other => r is Again,
            DaemonSignal::Empty => r is Idle,
            DaemonSignal::Disconnected(source) => r matches PollStep::Emit(event) && event@
                == RawEventModel::Error(backend_error(DiscoveryBrowserErrorKind::Daemon, source@)),
        },
{
    match signal {
        DaemonSignal::Failed(source) => PollStep::Emit(
            RawBrowserEvent::Error(
                DiscoveryBrowserError::with_source(DiscoveryBrowserErrorKind::Daemon, source),
            ),
        ),
        DaemonSignal::Other => PollStep::Again,
        DaemonSignal::Empty => PollStep::Idle,
        DaemonSignal::Disconnected(source) => PollStep::Emit(
            RawBrowserEvent::Error(
                DiscoveryBrowserError::with_source(DiscoveryBrowserErrorKind::Daemon, source),
            ),
        ),
    }
}

/// Decides what to do with a look at the browse channel.
pub fn service_step(signal: ServiceSignal) -> (r: PollStep)
    ensures
        match signal {
            ServiceSignal::Resolved(service) => r matches PollStep::Emit(event) && event@ == (
            match raw_service_of(service) {
                Ok(resolved) => RawEventModel::Resolved(resolved),
                Err(error) => RawEventModel::Error(error),
            }),
            ServiceSignal::Removed(fullname) => r matches PollStep::Emit(event) && event@
                == RawEventModel::Removed(fullname@),
            ServiceSignal::Other => r is Again,
            ServiceSignal::Empty => r is Idle,
            ServiceSignal::Disconnected(source) => r matches PollStep::Emit(event) && event@
                == RawEventModel::Error(backend_error(DiscoveryBrowserErrorKind::Daemon, source@)),
        },
{
    match signal {
        ServiceSignal::Resolved(service) => match raw_service(&service) {
            Ok(resolved) => PollStep::Emit(RawBrowserEvent::Resolved(resolved)),
            Err(error) => PollStep::Emit(RawBrowserEvent::Error(error)),
        },
        ServiceSignal::Removed(fullname) => PollStep::Emit(RawBrowserEvent::Removed(fullname)),
        ServiceSignal::Other => PollStep::Again,
        ServiceSignal::Empty => PollStep::Idle,
        ServiceSignal::Disconnected(source) => PollStep::Emit(
            RawBrowserEvent::Error(
                DiscoveryBrowserError::with_source(DiscoveryBrowserErrorKind::Daemon, source),
            ),
        ),
    }
}

/// How the daemon answered a shutdown request.
#[derive(Debug)]
pub enum ShutdownReply {
    /// The request itself was refused.
    Refused(String),
    /// The daemon shut down.
    Stopped,
    /// The daemon answered, but not that it shut down.
    StillRunning,
    /// No answer came in time.
    Unanswered(String),
}

/// What holds of a stop after both of its requests: the first failure of the two.
pub open spec fn stop_error(
    browse: Result<(), Seq<char>>,
    shutdown: ShutdownReply,
) -> Option<BrowserErrorModel> {
    match browse {
        Err(source) => Some(backend_error(DiscoveryBrowserErrorKind::StopBrowse, source)),
        Ok(_) => match shutdown {
            ShutdownReply::Refused(source) => Some(
                backend_error(DiscoveryBrowserErrorKind::Shutdown, source@),
            ),
            ShutdownReply::Stopped => None,
            ShutdownReply::StillRunning => Some(plain_error(DiscoveryBrowserErrorKind::Shutdown)),
            ShutdownReply::Unanswered(source) => Some(
                backend_error(DiscoveryBrowserErrorKind::Shutdown, source@),
            ),
        },
    }
}

/// Combines the outcomes of stopping the browse request and shutting down the daemon.
pub fn stop_outcome(browse: Result<(), String>, shutdown: ShutdownReply) -> (r: Result<
    (),
    DiscoveryBrowserError,
>)
    ensures
        match stop_error(
            match browse {
                Ok(_) => Ok(()),
                Err(source) => Err(source@),
            },
            shutdown,
        ) {
            Some(error) => r is Err && r->Err_0@ == error,
            None => r is Ok,
        },
{
    if let Err(source) = browse {
        return Err(
            DiscoveryBrowserError::with_source(DiscoveryBrowserErrorKind::StopBrowse, source),
        );
    }
    match shutdown {
        ShutdownReply::Refused(source) => Err(
            DiscoveryBrowserError::with_source(DiscoveryBrowserErrorKind::Shutdown, source),
        ),
        ShutdownReply::Stopped => Ok(()),
        ShutdownReply::StillRunning => Err(
            DiscoveryBrowserError::without_source(DiscoveryBrowserErrorKind::Shutdown),
        ),
        ShutdownReply::Unanswered(source) => Err(
            DiscoveryBrowserError::with_source(DiscoveryBrowserErrorKind::Shutdown, source),
        ),
    }
}

/// The lifecycle of one browsing session. The owner polls its backend and stops it
/// only while the session is active, and hands the outcomes back.
#[derive(Debug)]
pub struct BrowserSession {
    state: BrowserState,
    active: bool,
}

/// The contents of a browsing session.
pub struct BrowserSessionModel {
    /// The peers known to the session.
    pub peers: Map<Seq<char>, PeerModel>,
    /// Whether the backend is still to be polled and stopped.
    pub active: bool,
}

/// The contents of what a poll gave.
pub open spec fn raw_view(polled: Option<RawBrowserEvent>) -> Option<RawEventModel> {
    match polled {
        Some(raw) => Some(raw@),
        None => None,
    }
}

/// A session after a poll of its backend.
pub open spec fn session_after_poll(
    session: BrowserSessionModel,
    polled: Option<RawEventModel>,
) -> BrowserSessionModel {
    match polled {
        Some(raw) => if session.active {
            BrowserSessionModel { peers: peers_after(session.peers, raw), ..session }
        } else {
            session
        },
        None => session,
    }
}

/// What a session reports after a poll of its backend.
pub open spec fn session_event(
    session: BrowserSessionModel,
    polled: Option<RawEventModel>,
) -> Option<BrowserEventModel> {
    match polled {
        Some(raw) => if session.active {
            event_for(session.peers, raw)
        } else {
            None
        },
        None => None,
    }
}

/// A session after its backend was asked to stop, and stopped or not.
pub open spec fn session_after_stop(
    session: BrowserSessionModel,
    stopped: bool,
) -> BrowserSessionModel {
    BrowserSessionModel { active: session.active && !stopped, ..session }
}

impl View for BrowserSession {
    type V = BrowserSessionModel;

    closed spec fn view(&self) -> BrowserSessionModel {
        BrowserSessionModel { peers: self.state@, active: self.active }
    }
}

impl BrowserSession {
    /// The peers are filed under distinct keys.
    pub closed spec fn wf(self) -> bool {
        self.state.wf()
    }

    /// Begins a session once its backend has started.
    pub fn start(backend: Result<(), DiscoveryBrowserError>) -> (r: Result<
        Self,
        DiscoveryBrowserError,
    >)
        ensures
            match backend {
                Ok(_) => r is Ok && r->Ok_0.wf() && r->Ok_0@ == (BrowserSessionModel {
                    peers: Map::empty(),
                    active: true,
                }),
                Err(error) => r == Err::<Self, DiscoveryBrowserError>(error),
            },
    {
        match backend {
            Ok(_) => Ok(BrowserSession { state: BrowserState::new(), active: true }),
            Err(error) => Err(error),
        }
    }

    /// Reports whether the backend is to be polled, and to be stopped when the
    /// session is given up.
    #[must_use]
    pub fn is_active(&self) -> (r: bool)
        ensures
            r == self@.active,
    {
        self.active
    }

    /// Translates what a poll of the backend gave. A stopped session reports nothing.
    pub fn poll_event(&mut self, polled: Option<RawBrowserEvent>) -> (r: Option<
        DiscoveryBrowserEvent,
    >)
        requires
            old(self).wf(),
        ensures
            final(self).wf(),
            final(self)@.active == old(self)@.active,
            match (old(self)@.active, polled) {
                (true, Some(raw)) => {
                    &&& final(self)@.peers == peers_after(old(self)@.peers, raw@)
                    &&& match r {
                        Some(event) => event_for(old(self)@.peers, raw@) == Some(event@),
                        None => event_for(old(self)@.peers, raw@) is None,
                    }
                },
                _ => final(self)@.peers == old(self)@.peers && r is None,
            },
            final(self)@ == session_after_poll(old(self)@, raw_view(polled)),
            match r {
                Some(event) => session_event(old(self)@, raw_view(polled)) == Some(event@),
                None => session_event(old(self)@, raw_view(polled)) is None,
            },
    {
        if !self.active {
            return None;
        }
        match polled {
            Some(raw) => self.state.translate(raw),
            None => None,
        }
    }

    /// Records the outcome of stopping the backend. A failed stop may be tried again;
    /// after a successful one, stopping is harmless.
    pub fn stop(&mut self, stopped: Result<(), DiscoveryBrowserError>) -> (r: Result<
        (),
        DiscoveryBrowserError,
    >)
        requires
            old(self).wf(),
        ensures
            final(self).wf(),
            final(self)@.peers == old(self)@.peers,
            r == (if old(self)@.active {
                stopped
            } else {
                Ok::<(), DiscoveryBrowserError>(())
            }),
            final(self)@.active == (old(self)@.active && stopped is Err),
            final(self)@ == session_after_stop(old(self)@, stopped is Ok),
    {
        if !self.active {
            return Ok(());
        }
        if stopped.is_ok() {
            self.active = false;
        }
        stopped
    }
}

/// A fullname has a transient key exactly if it is a non-empty instance name before the
/// service suffix in any case, at most 255 bytes long and without control codes. The key
/// is the instance name as it is, before the suffix in lower case.
pub proof fn transient_key_keeps_the_instance_name(instance: Seq<char>, tail: Seq<char>)
    requires
        tail.len() == 28,
    ensures
        ({
            let suffix = "._local-transfer._tcp.local."@;
            let value = instance + tail;
            let valid = {
                &&& instance.len() > 0
                &&& text::ascii_lowered(tail) == suffix
                &&& encode_utf8(value).len() <= 255
                &&& forall|i: int|
                    0 <= i < instance.len() ==> !text::is_control(#[trigger] instance[i])
            };
            &&& transient_key_of(value) == Some(instance + suffix) <==> valid
            &&& transient_key_of(value) is None <==> !valid
        }),
{
    let suffix = "._local-transfer._tcp.local."@;
    let value = instance + tail;
    let n = instance.len() as int;
    reveal_strlit("._local-transfer._tcp.local.");
    assert(suffix.len() == 28);
    assert(value.take(n) =~= instance);
    assert(value.skip(n) =~= tail);
    assert(text::ascii_lowered(suffix) =~= suffix);
    if text::ascii_lowered(tail) == suffix {
        assert forall|i: int| 0 <= i < 28 implies !text::is_control(#[trigger] tail[i]) by {
            assert(text::ascii_lowered(tail)[i] == text::ascii_lower(tail[i]));
            assert(!text::is_control(suffix[i]));
        }
        assert forall|i: int| 0 <= i < value.len() && text::is_control(#[trigger] value[i]) implies i
            < n && text::is_control(instance[i]) by {
            if i >= n {
                assert(value[i] == tail[i - n]);
            }
        }
        assert forall|i: int| 0 <= i < n && text::is_control(#[trigger] instance[i]) implies text::has_control(
            value,
        ) by {
            assert(value[i] == instance[i]);
        }
    }
}

/// What is no longer than the service suffix has no transient key.
pub proof fn short_names_have_no_transient_key(value: Seq<char>)
    requires
        value.len() <= 28,
    ensures
        transient_key_of(value) is None,
{
    reveal_strlit("._local-transfer._tcp.local.");
}

/// Endpoints are ordered with IPv4 before IPv6, then by address, then by scope with an
/// absent scope first.
pub proof fn endpoints_order_by_family_address_and_scope(
    a: u32,
    b: u32,
    x: u128,
    y: u128,
    s: Option<u32>,
    t: Option<u32>,
)
    ensures
        ({
            let four = |address: u32, scope_id: Option<u32>|
                DiscoveryEndpoint { address: IpAddress::V4(address), scope_id };
            let six = |address: u128, scope_id: Option<u32>|
                DiscoveryEndpoint { address: IpAddress::V6(address), scope_id };
            let narrower = t is Some && (s is None || s->0 < t->0);
            &&& endpoint_less(four(a, s), six(y, t)) && !endpoint_less(six(y, t), four(a, s))
            &&& endpoint_less(four(a, s), four(b, t)) <==> a < b || a == b && narrower
            &&& endpoint_less(six(x, s), six(y, t)) <==> x < y || x == y && narrower
        }),
{
}

/// Every supported address of a service becomes an endpoint, and nothing else does: an
/// endpoint is among them exactly if the service has that IPv4 address, without a scope,
/// or that IPv6 address with that scope. They keep the order of the addresses, and there
/// are as many as there are supported addresses.
#[verifier::spinoff_prover]
#[verifier::rlimit(40)]
pub proof fn every_supported_address_is_an_endpoint(addresses: Seq<ServiceAddress>)
    ensures
        forall|e: DiscoveryEndpoint| #[trigger]
            service_endpoints(addresses).contains(e) <==> match (e.address, e.scope_id) {
                (IpAddress::V4(a), None) => addresses.contains(ServiceAddress::V4(a)),
                (IpAddress::V6(a), Some(s)) => addresses.contains(
                    ServiceAddress::V6 { address: a, scope_id: s },
                ),
                _ => false,
            },
        service_endpoints(addresses).len() == addresses.filter(
            |a: ServiceAddress| !(a is Unsupported),
        ).len(),
        forall|i: int|
            0 <= i < addresses.len() && !((#[trigger] addresses[i]) is Unsupported) ==> {
                let before = addresses.take(i).filter(|a: ServiceAddress| !(a is Unsupported)).len();
                &&& before < service_endpoints(addresses).len()
                &&& addresses[i] matches ServiceAddress::V4(a) ==> service_endpoints(
                    addresses,
                )[before as int] == (DiscoveryEndpoint {
                    address: IpAddress::V4(a),
                    scope_id: None,
                })
                &&& addresses[i] matches ServiceAddress::V6 { address, scope_id }
                    ==> service_endpoints(addresses)[before as int] == (DiscoveryEndpoint {
                    address: IpAddress::V6(address),
                    scope_id: Some(scope_id),
                })
            },
    decreases addresses.len(),
{
    reveal(Seq::filter);
    let supported = |a: ServiceAddress| !(a is Unsupported);
    if addresses.len() > 0 {
        let rest = addresses.drop_last();
        let last = addresses.last();
        let before = service_endpoints(rest);
        let n = rest.len() as int;
        every_supported_address_is_an_endpoint(rest);
        assert(addresses =~= rest.push(last));
        ordered::lemma_push_contains(rest, last);
        match last {
            ServiceAddress::V4(a) => {
                ordered::lemma_push_contains(
                    before,
                    DiscoveryEndpoint { address: IpAddress::V4(a), scope_id: None },
                );
            },
            ServiceAddress::V6 { address, scope_id } => {
                ordered::lemma_push_contains(
                    before,
                    DiscoveryEndpoint { address: IpAddress::V6(address), scope_id: Some(scope_id) },
                );
            },
            ServiceAddress::Unsupported => {},
        }
        assert(addresses.take(n) =~= rest);
        assert forall|i: int| 0 <= i < n implies #[trigger] addresses.take(i) =~= rest.take(i) by {}
        assert forall|i: int|
            0 <= i < n && !((#[trigger] addresses[i]) is Unsupported) implies addresses.take(
            i,
        ).filter(supported).len() < before.len() by {
            assert(rest[i] == addresses[i]);
            assert(addresses.take(i) =~= rest.take(i));
        }
        assert forall|i: int| 0 <= i < n && !((#[trigger] addresses[i]) is Unsupported) implies {
            let k = addresses.take(i).filter(supported).len();
            service_endpoints(addresses)[k as int] == before[k as int]
        } by {
            assert(addresses.take(i).filter(supported).len() < before.len());
        }
        assert forall|i: int| 0 <= i < n implies rest[i] == #[trigger] addresses[i] by {}
    }
}

/// The properties of a service are TXT entries exactly if each of them is: otherwise the
/// error is that of the first that is none.
pub proof fn every_property_counts(properties: Seq<(Seq<char>, Seq<u8>)>)
    ensures
        first_property_error(properties) is None <==> forall|i: int|
            0 <= i < properties.len() ==> discovery::txt_entry_error(
                (#[trigger] properties[i]).0,
                properties[i].1,
            ) is None,
        first_property_error(properties) is Some ==> exists|i: int|
            {
                &&& 0 <= i < properties.len()
                &&& discovery::txt_entry_error((#[trigger] properties[i]).0, properties[i].1)
                    == first_property_error(properties)
                &&& forall|j: int|
                    0 <= j < i ==> discovery::txt_entry_error(
                        (#[trigger] properties[j]).0,
                        properties[j].1,
                    ) is None
            },
    decreases properties.len(),
{
    if properties.len() > 0 {
        let rest = properties.drop_last();
        let n = properties.len() - 1;
        every_property_counts(rest);
        assert(properties[n] == properties.last());
        assert forall|i: int| 0 <= i < n implies rest[i] == #[trigger] properties[i] by {}
        if first_property_error(rest) is Some {
            let i = choose|i: int|
                {
                    &&& 0 <= i < rest.len()
                    &&& discovery::txt_entry_error((#[trigger] rest[i]).0, rest[i].1)
                        == first_property_error(rest)
                    &&& forall|j: int|
                        0 <= j < i ==> discovery::txt_entry_error(
                            (#[trigger] rest[j]).0,
                            rest[j].1,
                        ) is None
                };
            assert(discovery::txt_entry_error(properties[i].0, properties[i].1)
                == first_property_error(properties));
            assert forall|j: int| 0 <= j < i implies discovery::txt_entry_error(
                (#[trigger] properties[j]).0,
                properties[j].1,
            ) is None by {
                assert(rest[j] == properties[j]);
            }
        } else {
            assert forall|j: int| 0 <= j < n implies discovery::txt_entry_error(
                (#[trigger] properties[j]).0,
                properties[j].1,
            ) is None by {
                assert(rest[j] == properties[j]);
            }
            assert(discovery::txt_entry_error(properties[n].0, properties[n].1)
                == first_property_error(properties));
        }
    }
}

/// A service record is taken over exactly if its fullname has a transient key and each of
/// its properties is a TXT entry. Name and port are then those of the record, and the TXT
/// entries are its properties in order, with nothing for an absent value.
#[verifier::spinoff_prover]
#[verifier::rlimit(40)]
pub proof fn service_record_is_taken_over(service: ServiceRecord)
    ensures
        ({
            let r = raw_service_of(service);
            let key = transient_key_of(service.fullname@);
            let sound = forall|i: int|
                0 <= i < service.properties@.len() ==> discovery::txt_entry_error(
                    (#[trigger] service.properties@[i]).key@,
                    match service.properties@[i].value {
                        Some(value) => value@,
                        None => Seq::empty(),
                    },
                ) is None;
            &&& r is Ok <==> key is Some && sound
            &&& key is None <==> r == Err::<ResolvedModel, BrowserErrorModel>(
                BrowserErrorModel {
                    kind: DiscoveryBrowserErrorKind::InvalidTransientKey,
                    key: None,
                    source: None,
                },
            )
            &&& key is Some && !sound ==> (r matches Err(error) && error.kind
                == DiscoveryBrowserErrorKind::Metadata && error.key == key && (
            error.source matches Some(ErrorSourceModel::Metadata(cause)) && exists|i: int|
                0 <= i < service.properties@.len() && discovery::txt_entry_error(
                    (#[trigger] service.properties@[i]).key@,
                    match service.properties@[i].value {
                        Some(value) => value@,
                        None => Seq::empty(),
                    },
                ) == Some(cause)))
            &&& r matches Ok(resolved) ==> {
                &&& resolved.fullname == service.fullname@
                &&& resolved.port == service.port
                &&& resolved.endpoints == service_endpoints(service.addresses@)
                &&& resolved.txt.len() == service.properties@.len()
                &&& forall|i: int|
                    0 <= i < service.properties@.len() ==> (#[trigger] resolved.txt[i]).0
                        == service.properties@[i].key@ && resolved.txt[i].1 == (
                    match service.properties@[i].value {
                        Some(value) => value@,
                        None => Seq::empty(),
                    })
            }
        }),
{
    let properties = property_views(service.properties@);
    every_property_counts(properties);
    assert forall|i: int| 0 <= i < service.properties@.len() implies (#[trigger] properties[i]).0
        == service.properties@[i].key@ && properties[i].1 == (match service.properties@[i].value {
        Some(value) => value@,
        None => Seq::empty(),
    }) by {}
    if first_property_error(properties) is None {
        assert forall|i: int| 0 <= i < service.properties@.len() implies discovery::txt_entry_error(
            (#[trigger] service.properties@[i]).key@,
            match service.properties@[i].value {
                Some(value) => value@,
                None => Seq::empty(),
            },
        ) is None by {
            assert(discovery::txt_entry_error(properties[i].0, properties[i].1) is None);
        }
    } else {
        let i = choose|i: int|
            {
                &&& 0 <= i < properties.len()
                &&& discovery::txt_entry_error((#[trigger] properties[i]).0, properties[i].1)
                    == first_property_error(properties)
                &&& forall|j: int|
                    0 <= j < i ==> discovery::txt_entry_error(
                        (#[trigger] properties[j]).0,
                        properties[j].1,
                    ) is None
            };
        assert(service.properties@[i].key@ == properties[i].0);
    }
}

/// What becomes of a resolution, in the order of the checks: a name without transient key
/// is refused, then port zero, then no endpoints, then more than sixteen different ones,
/// then its metadata, then a peer that does not speak protocol version 1. What passes is
/// a peer with the key, the port and the metadata of the resolution, and with each of its
/// endpoints once, in ascending order.
#[verifier::spinoff_prover]
#[verifier::rlimit(40)]
pub proof fn resolution_is_checked_in_order(resolved: ResolvedModel)
    ensures
        ({
            let r = peer_of(resolved);
            let key = transient_key_of(resolved.fullname);
            let refused = |kind: DiscoveryBrowserErrorKind|
                r == Err::<PeerModel, BrowserErrorModel>(
                    BrowserErrorModel { kind, key, source: None },
                );
            let addressed = key is Some && resolved.port != 0 && resolved.endpoints.len() > 0;
            let few = addressed && resolved.endpoints.to_set().len() <= 16;
            let metadata = discovery::metadata_of(resolved.txt);
            let described = few && metadata is Ok;
            let (least, most) = metadata->Ok_0.protocols;
            &&& key is None ==> refused(DiscoveryBrowserErrorKind::InvalidTransientKey)
            &&& key is Some && resolved.port == 0 ==> refused(
                DiscoveryBrowserErrorKind::InvalidPort,
            )
            &&& key is Some && resolved.port != 0 && resolved.endpoints.len() == 0 ==> refused(
                DiscoveryBrowserErrorKind::MalformedResolution,
            )
            &&& addressed && !few ==> refused(DiscoveryBrowserErrorKind::EndpointLimit)
            &&& few && metadata is Err ==> r == Err::<PeerModel, BrowserErrorModel>(
                BrowserErrorModel {
                    kind: DiscoveryBrowserErrorKind::Metadata,
                    key,
                    source: Some(ErrorSourceModel::Metadata(metadata->Err_0)),
                },
            )
            &&& described && !(least <= 1 <= most) ==> refused(
                DiscoveryBrowserErrorKind::IncompatibleProtocol,
            )
            &&& described && least <= 1 <= most <==> r is Ok
            &&& r matches Ok(peer) ==> {
                &&& Some(peer.key) == key
                &&& peer.port == resolved.port
                &&& peer.metadata == metadata->Ok_0
                &&& peer.protocol_major == 1
                &&& forall|e: DiscoveryEndpoint| #[trigger]
                    peer.endpoints.contains(e) <==> resolved.endpoints.contains(e)
                &&& forall|i: int, j: int|
                    0 <= i < j < peer.endpoints.len() ==> endpoint_less(
                        #[trigger] peer.endpoints[i],
                        #[trigger] peer.endpoints[j],
                    )
            }
        }),
{
    let listing = endpoint_listing(resolved.endpoints);
    endpoint_listing_exists(resolved.endpoints);
    let less = endpoint_order();
    assert forall|i: int, j: int| 0 <= i < j < listing.len() implies endpoint_less(
        #[trigger] listing[i],
        #[trigger] listing[j],
    ) by {
        assert(less(listing[i], listing[j]));
    }
    assert forall|i: int, j: int|
        0 <= i < listing.len() && 0 <= j < listing.len() && i != j implies listing[i]
        != listing[j] by {
        if i < j {
            assert(less(listing[i], listing[j]));
        } else {
            assert(less(listing[j], listing[i]));
        }
    }
    listing.unique_seq_to_set();
    assert(listing.to_set() =~= resolved.endpoints.to_set());
}

/// What a report does to a session. An accepted resolution is what is known of its key
/// from then on, and is reported as added if nothing was known of the key, as refreshed
/// if just this peer was, and as updated otherwise. A removal of a known key forgets it
/// and is reported; of an unknown key it is silent. Everything else changes nothing and
/// is reported as the error that it is.
pub proof fn reports_are_told_apart(peers: Map<Seq<char>, PeerModel>, event: RawEventModel)
    ensures
        ({
            let after = peers_after(peers, event);
            let told = event_for(peers, event);
            &&& event matches RawEventModel::Resolved(resolved) ==> match peer_of(resolved) {
                Ok(peer) => {
                    let known = peers.dom().contains(peer.key);
                    &&& after.dom() == peers.dom().insert(peer.key)
                    &&& after[peer.key] == peer
                    &&& told == Some(BrowserEventModel::Added(peer)) <==> !known
                    &&& told == Some(BrowserEventModel::Refreshed(peer)) <==> known
                        && peers[peer.key] == peer
                    &&& told == Some(BrowserEventModel::Updated(peer)) <==> known
                        && peers[peer.key] != peer
                },
                Err(error) => after == peers && told == Some(BrowserEventModel::Error(error)),
            }
            &&& event matches RawEventModel::Removed(fullname) ==> match transient_key_of(
                fullname,
            ) {
                Some(key) => {
                    &&& after.dom() == peers.dom().remove(key)
                    &&& peers.dom().contains(key) <==> told == Some(BrowserEventModel::Removed(key))
                    &&& !peers.dom().contains(key) <==> told is None
                },
                None => after == peers && told == Some(
                    BrowserEventModel::Error(
                        BrowserErrorModel {
                            kind: DiscoveryBrowserErrorKind::InvalidTransientKey,
                            key: None,
                            source: None,
                        },
                    ),
                ),
            }
            &&& event matches RawEventModel::Error(error) ==> after == peers && told == Some(
                BrowserEventModel::Error(error),
            )
        }),
{
    let after = peers_after(peers, event);
    match event {
        RawEventModel::Resolved(resolved) => {
            if let Ok(peer) = peer_of(resolved) {
                assert(after.dom() =~= peers.dom().insert(peer.key));
            }
        },
        RawEventModel::Removed(fullname) => {
            if let Some(key) = transient_key_of(fullname) {
                assert(after.dom() =~= peers.dom().remove(key));
            }
        },
        RawEventModel::Error(_) => {},
    }
}

/// A stop succeeds exactly if the browse request stopped and the daemon shut down. A
/// failure to stop browsing is reported before one to shut down, each with its cause.
pub proof fn stop_reports_its_first_failure(
    browse: Result<(), Seq<char>>,
    shutdown: ShutdownReply,
)
    ensures
        ({
            let error = stop_error(browse, shutdown);
            &&& error is None <==> browse is Ok && shutdown is Stopped
            &&& browse matches Err(source) ==> error == Some(
                BrowserErrorModel {
                    kind: DiscoveryBrowserErrorKind::StopBrowse,
                    key: None,
                    source: Some(ErrorSourceModel::Backend(source)),
                },
            )
            &&& browse is Ok && !(shutdown is Stopped) ==> error is Some && error->0.kind
                == DiscoveryBrowserErrorKind::Shutdown && error->0.key is None
            &&& browse is Ok && shutdown is StillRunning ==> error->0.source is None
            &&& browse is Ok ==> (shutdown matches ShutdownReply::Refused(source)
                ==> error->0.source == Some(ErrorSourceModel::Backend(source@)))
            &&& browse is Ok ==> (shutdown matches ShutdownReply::Unanswered(source)
                ==> error->0.source == Some(ErrorSourceModel::Backend(source@)))
        }),
{
}

/// Browsing has started only after the daemon was created, monitored and asked for the
/// service type. A start that fails after the daemon was created gives it up first, and
/// fails with the error that it was given up for.
pub proof fn failed_start_gives_the_daemon_up(steps: Seq<BrowseStartStep>)
    requires
        forall|i: int| 0 < i < steps.len() ==> start_follows(steps[i - 1], #[trigger] steps[i]),
        steps.len() > 0,
        steps[0] is CreateDaemon,
        steps.last() is Done,
    ensures
        steps.last() == BrowseStartStep::Done(Ok(())) ==> steps.len() == 4 && steps[1] is Monitor
            && steps[2] == (BrowseStartStep::Browse { service_type: LOCAL_SERVICE_TYPE }),
        steps.len() > 2 && steps.last() != BrowseStartStep::Done(Ok(())) ==> steps[steps.len()
            - 2] is Abandon && steps.last() == BrowseStartStep::Done(
            Err(steps[steps.len() - 2]->Abandon_0),
        ),
{
    assert(steps.len() > 1);
    assert(start_follows(steps[0], steps[1]));
    if steps.len() > 2 {
        assert(start_follows(steps[1], steps[2]));
        if steps.len() > 3 {
            assert(start_follows(steps[2], steps[3]));
            if steps.len() > 4 {
                assert(start_follows(steps[3], steps[4]));
                if steps.len() > 5 {
                    assert(start_follows(steps[4], steps[5]));
                }
            }
        }
    }
}

/// Different categories of failure have different descriptions.
pub proof fn failure_categories_are_told_apart(
    a: DiscoveryBrowserErrorKind,
    b: DiscoveryBrowserErrorKind,
)
    requires
        a.text() == b.text(),
    ensures
        a == b,
{
    reveal_strlit("failed to initialize mDNS browsing");
    reveal_strlit("failed to start the DNS-SD browse request");
    reveal_strlit("invalid transient DNS-SD service key");
    reveal_strlit("resolved DNS-SD service has no usable endpoints");
    reveal_strlit("resolved DNS-SD service advertised port zero");
    reveal_strlit("resolved DNS-SD service exceeds the endpoint limit");
    reveal_strlit("invalid discovery TXT metadata");
    reveal_strlit("discovered service has no compatible protocol major");
    reveal_strlit("the mDNS browser daemon reported an error");
    reveal_strlit("failed to stop the DNS-SD browse request");
    reveal_strlit("failed to shut down the mDNS browser daemon");
    assert("failed to initialize mDNS browsing"@.len() == 34);
    assert("failed to start the DNS-SD browse request"@.len() == 41);
    assert("invalid transient DNS-SD service key"@.len() == 36);
    assert("resolved DNS-SD service has no usable endpoints"@.len() == 47);
    assert("resolved DNS-SD service advertised port zero"@.len() == 44);
    assert("resolved DNS-SD service exceeds the endpoint limit"@.len() == 50);
    assert("invalid discovery TXT metadata"@.len() == 30);
    assert("discovered service has no compatible protocol major"@.len() == 51);
    assert("the mDNS browser daemon reported an error"@.len() == 41);
    assert("failed to stop the DNS-SD browse request"@.len() == 40);
    assert("failed to shut down the mDNS browser daemon"@.len() == 43);
    assert("failed to start the DNS-SD browse request"@[0] == 'f');
    assert("the mDNS browser daemon reported an error"@[0] == 't');
}

/// A session reports until it was stopped, and nothing after that; a stop that fails
/// leaves it as it was, so that it can be stopped again, and a second stop changes
/// nothing.
pub proof fn stopped_session_is_silent(
    session: BrowserSessionModel,
    raw: RawEventModel,
    polled: Option<RawEventModel>,
    again: bool,
)
    ensures
        ({
            let over = session_after_stop(session, true);
            &&& !over.active
            &&& over.peers == session.peers
            &&& session_event(over, polled) is None
            &&& session_after_poll(over, polled) == over
            &&& session_after_stop(over, again) == over
            &&& session_after_stop(session, false) == session
            &&& session.active ==> session_event(session, Some(raw)) == event_for(
                session.peers,
                raw,
            )
            &&& session.active ==> session_after_poll(session, Some(raw)).peers == peers_after(
                session.peers,
                raw,
            )
            &&& session_after_poll(session, polled).active == session.active
            &&& session_after_poll(session, None) == session
            &&& session_event(session, None) is None
        }),
{
}

} // verus!
