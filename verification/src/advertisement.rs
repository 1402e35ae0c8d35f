//! DNS-SD advertisement lifecycle built on the bounded discovery contract.

use vstd::multiset::Multiset;
use vstd::prelude::*;
use vstd::utf8::*;

use crate::browser;
use crate::browser::DiscoveryEndpoint;
use crate::discovery;
use crate::discovery::{
    DiscoveryMetadata, MetadataModel, DISCOVERY_SERVICE_TYPE,
    MAX_DISCOVERY_TXT_BYTES,
};
use crate::text;
use crate::text::decode_text;
use crate::uuids;
use crate::uuids::{hyphenated_text, random_uuid};

verus! {

/// The domain of multicast DNS names.
pub const LOCAL_DOMAIN_SUFFIX: &'static str = ".local.";

/// How long each acknowledgement of a stop is waited for.
pub const STOP_TIMEOUT_NANOS: u128 = 2_000_000_000;

/// A DNS-SD service description, ready to be registered.
#[verifier::external_type_specification]
#[verifier::external_body]
pub struct ExServiceInfo(mdns_sd::ServiceInfo);

/// A failure that the mDNS implementation reports.
#[verifier::external_type_specification]
#[verifier::external_body]
pub struct ExMdnsError(mdns_sd::Error);

/// The stage at which a discovery advertisement operation failed.
#[derive(Clone, Copy, Debug, PartialEq, Eq, Structural)]
pub enum DiscoveryAdvertisementErrorKind {
    /// TCP port zero was supplied.
    InvalidPort,
    /// Validated metadata could not be represented safely as TXT properties.
    MetadataEncoding,
    /// The mDNS daemon could not be created.
    DaemonStartup,
    /// The DNS-SD service description could not be constructed.
    ServiceConstruction,
    /// The daemon rejected the registration request.
    Registration,
    /// The daemon reported a later asynchronous failure.
    Daemon,
    /// Graceful service unregistration failed.
    Unregister,
    /// Graceful daemon shutdown failed.
    Shutdown,
}

impl DiscoveryAdvertisementErrorKind {
    /// The description of the stage.
    pub open spec fn text(self) -> Seq<char> {
        match self {
            DiscoveryAdvertisementErrorKind::InvalidPort =>
                "discovery advertisement port must not be zero"@,
            DiscoveryAdvertisementErrorKind::MetadataEncoding =>
                "discovery metadata could not be encoded safely"@,
            DiscoveryAdvertisementErrorKind::DaemonStartup =>
                "failed to start the mDNS advertisement daemon"@,
            DiscoveryAdvertisementErrorKind::ServiceConstruction =>
                "failed to construct the DNS-SD service"@,
            DiscoveryAdvertisementErrorKind::Registration =>
                "failed to submit the DNS-SD registration"@,
            DiscoveryAdvertisementErrorKind::Daemon =>
                "the mDNS advertisement daemon reported an error"@,
            DiscoveryAdvertisementErrorKind::Unregister =>
                "failed to unregister the DNS-SD service"@,
            DiscoveryAdvertisementErrorKind::Shutdown =>
                "failed to shut down the mDNS advertisement daemon"@,
        }
    }
}

/// What caused an advertisement failure.
#[derive(Debug, PartialEq, Eq)]
pub enum DiscoveryAdvertisementErrorSource {
    /// The service description was refused.
    Service(mdns_sd::Error),
    /// The mDNS infrastructure reported the given failure.
    Backend(String),
}

/// A focused error boundary that hides infrastructure types while preserving causes.
#[derive(Debug, PartialEq, Eq)]
pub struct DiscoveryAdvertisementError {
    kind: DiscoveryAdvertisementErrorKind,
    source: Option<DiscoveryAdvertisementErrorSource>,
}

/// The contents of the cause of an advertisement failure.
pub enum AdvertisementCause {
    /// The service description was refused.
    Service(mdns_sd::Error),
    /// The mDNS infrastructure reported the given failure.
    Backend(Seq<char>),
}

/// The contents of an advertisement failure.
pub struct AdvertisementErrorModel {
    /// The stage.
    pub kind: DiscoveryAdvertisementErrorKind,
    /// The cause.
    pub cause: Option<AdvertisementCause>,
}

impl View for DiscoveryAdvertisementErrorSource {
    type V = AdvertisementCause;

    open spec fn view(&self) -> AdvertisementCause {
        match *self {
            DiscoveryAdvertisementErrorSource::Service(error) => AdvertisementCause::Service(error),
            DiscoveryAdvertisementErrorSource::Backend(source) => AdvertisementCause::Backend(
                source@,
            ),
        }
    }
}

impl View for DiscoveryAdvertisementError {
    type V = AdvertisementErrorModel;

    closed spec fn view(&self) -> AdvertisementErrorModel {
        AdvertisementErrorModel {
            kind: self.kind,
            cause: match self.source {
                Some(source) => Some(source@),
                None => None,
            },
        }
    }
}

/// A failure of which only the stage is known.
pub open spec fn plain_error(kind: DiscoveryAdvertisementErrorKind) -> AdvertisementErrorModel {
    AdvertisementErrorModel { kind, cause: None }
}

/// A failure that the mDNS infrastructure described.
pub open spec fn backend_error(
    kind: DiscoveryAdvertisementErrorKind,
    source: Seq<char>,
) -> AdvertisementErrorModel {
    AdvertisementErrorModel { kind, cause: Some(AdvertisementCause::Backend(source)) }
}

/// The refusal of a service description.
pub open spec fn service_error(source: mdns_sd::Error) -> AdvertisementErrorModel {
    AdvertisementErrorModel {
        kind: DiscoveryAdvertisementErrorKind::ServiceConstruction,
        cause: Some(AdvertisementCause::Service(source)),
    }
}

impl DiscoveryAdvertisementError {
    /// Returns the operation category.
    #[must_use]
    pub fn kind(&self) -> (r: DiscoveryAdvertisementErrorKind)
        ensures
            r == self@.kind,
    {
        self.kind
    }

    /// A failure of which only the stage is known.
    pub fn without_source(kind: DiscoveryAdvertisementErrorKind) -> (r: Self)
        ensures
            r@ == plain_error(kind),
    {
        DiscoveryAdvertisementError { kind, source: None }
    }

    /// A failure that the mDNS infrastructure described.
    pub fn with_source(kind: DiscoveryAdvertisementErrorKind, source: String) -> (r: Self)
        ensures
            r@ == backend_error(kind, source@),
    {
        DiscoveryAdvertisementError {
            kind,
            source: Some(DiscoveryAdvertisementErrorSource::Backend(source)),
        }
    }

    /// The refusal of a service description.
    fn for_service(source: mdns_sd::Error) -> (r: Self)
        ensures
            r@ == service_error(source),
    {
        DiscoveryAdvertisementError {
            kind: DiscoveryAdvertisementErrorKind::ServiceConstruction,
            source: Some(DiscoveryAdvertisementErrorSource::Service(source)),
        }
    }

    /// Describes the failure.
    pub fn message(&self) -> (s: String)
        ensures
            s@ == self@.kind.text(),
    {
        String::from_str(
            match self.kind {
                DiscoveryAdvertisementErrorKind::InvalidPort =>
                    "discovery advertisement port must not be zero",
                DiscoveryAdvertisementErrorKind::MetadataEncoding =>
                    "discovery metadata could not be encoded safely",
                DiscoveryAdvertisementErrorKind::DaemonStartup =>
                    "failed to start the mDNS advertisement daemon",
                DiscoveryAdvertisementErrorKind::ServiceConstruction =>
                    "failed to construct the DNS-SD service",
                DiscoveryAdvertisementErrorKind::Registration =>
                    "failed to submit the DNS-SD registration",
                DiscoveryAdvertisementErrorKind::Daemon =>
                    "the mDNS advertisement daemon reported an error",
                DiscoveryAdvertisementErrorKind::Unregister =>
                    "failed to unregister the DNS-SD service",
                DiscoveryAdvertisementErrorKind::Shutdown =>
                    "failed to shut down the mDNS advertisement daemon",
            },
        )
    }

    /// The cause of the failure.
    pub fn source(&self) -> (r: Option<&DiscoveryAdvertisementErrorSource>)
        ensures
            match r {
                Some(source) => self@.cause == Some(source@),
                None => self@.cause is None,
            },
    {
        self.source.as_ref()
    }
}

/// Configuration for one local DNS-SD advertisement.
#[derive(Debug, PartialEq, Eq)]
pub struct DiscoveryAdvertisementConfig {
    metadata: DiscoveryMetadata,
    port: u16,
}

/// The contents of an advertisement configuration.
pub struct AdvertisementConfigModel {
    /// The metadata to advertise.
    pub metadata: MetadataModel,
    /// The TCP port of the service.
    pub port: u16,
}

impl View for DiscoveryAdvertisementConfig {
    type V = AdvertisementConfigModel;

    closed spec fn view(&self) -> AdvertisementConfigModel {
        AdvertisementConfigModel { metadata: self.metadata@, port: self.port }
    }
}

impl Clone for DiscoveryAdvertisementConfig {
    fn clone(&self) -> (r: Self)
        ensures
            r == *self,
    {
        proof {
            use_type_invariant(self);
        }
        DiscoveryAdvertisementConfig { metadata: self.metadata.clone(), port: self.port }
    }
}

impl DiscoveryAdvertisementConfig {
    #[verifier::type_invariant]
    spec fn well_formed(self) -> bool {
        self.port != 0
    }

    /// Creates an advertisement configuration with a caller-owned TCP port.
    pub fn new(metadata: DiscoveryMetadata, port: u16) -> (r: Result<
        Self,
        DiscoveryAdvertisementError,
    >)
        ensures
            if port == 0 {
                r is Err && r->Err_0@ == plain_error(DiscoveryAdvertisementErrorKind::InvalidPort)
            } else {
                r is Ok && r->Ok_0@ == (AdvertisementConfigModel { metadata: metadata@, port })
            },
    {
        if port == 0 {
            return Err(
                DiscoveryAdvertisementError::without_source(
                    DiscoveryAdvertisementErrorKind::InvalidPort,
                ),
            );
        }
        Ok(DiscoveryAdvertisementConfig { metadata, port })
    }

    /// Returns the validated discovery metadata to advertise.
    #[must_use]
    pub fn metadata(&self) -> (r: &DiscoveryMetadata)
        ensures
            r@ == self@.metadata,
    {
        &self.metadata
    }

    /// Returns the non-zero TCP service port supplied by the caller.
    #[must_use]
    pub fn port(&self) -> (r: u16)
        ensures
            r == self@.port,
            r != 0,
    {
        proof {
            use_type_invariant(self);
        }
        self.port
    }
}

/// A noteworthy asynchronous event from an active advertisement.
#[derive(Debug, PartialEq, Eq)]
pub enum DiscoveryAdvertisementEvent {
    /// Standards-based conflict resolution changed an ephemeral DNS name.
    NameChanged {
        /// The originally requested ephemeral name.
        original: String,
        /// The replacement name selected by the mDNS implementation.
        replacement: String,
    },
}

impl Clone for DiscoveryAdvertisementEvent {
    fn clone(&self) -> (r: Self)
        ensures
            r == *self,
    {
        match self {
            DiscoveryAdvertisementEvent::NameChanged { original, replacement } =>
                DiscoveryAdvertisementEvent::NameChanged {
                original: original.clone(),
                replacement: replacement.clone(),
            },
        }
    }
}

/// A label of random session identity: the prefix and the text of a random UUID.
pub open spec fn is_random_label(label: Seq<char>) -> bool {
    exists|bytes: Seq<u8>|
        bytes.len() == 16 && uuids::uuid_version(bytes) == 4 && label == "lt-"@
            + #[trigger] uuids::hyphenated(bytes)
}

/// A label that DNS can carry as it is: at most 63 octets, each a lower-case letter, a
/// digit or a hyphen.
pub open spec fn is_dns_label(label: Seq<char>) -> bool {
    &&& 0 < label.len() <= 63
    &&& forall|i: int| 0 <= i < label.len() ==> is_dns_char(#[trigger] label[i])
}

/// A lower-case letter, a digit or a hyphen.
pub open spec fn is_dns_char(c: char) -> bool {
    'a' <= c <= 'z' || '0' <= c <= '9' || c == '-'
}

/// Random session labels can be carried by DNS as they are.
pub proof fn random_labels_are_dns_labels(label: Seq<char>)
    requires
        is_random_label(label),
    ensures
        is_dns_label(label),
        label.len() == 39,
        label.take(3) == "lt-"@,
{
    reveal_strlit("lt-");
    let bytes = choose|bytes: Seq<u8>|
        bytes.len() == 16 && uuids::uuid_version(bytes) == 4 && label == "lt-"@
            + #[trigger] uuids::hyphenated(bytes);
    let h = uuids::hyphenated(bytes);
    uuids::lemma_hyphenated_shape(bytes);
    uuids::lemma_hyphenated_chars(bytes);
    assert(label.take(3) =~= "lt-"@);
    assert forall|i: int| 0 <= i < label.len() implies is_dns_char(#[trigger] label[i]) by {
        if i < 3 {
            assert(label[i] == "lt-"@[i]);
        } else {
            assert(label[i] == h[i - 3]);
        }
    }
}

/// The ephemeral name of one session.
#[derive(Debug)]
pub struct SessionIdentity {
    label: String,
}

impl View for SessionIdentity {
    type V = Seq<char>;

    closed spec fn view(&self) -> Seq<char> {
        self.label@
    }
}

impl SessionIdentity {
    /// Makes a fresh name, drawn at random. It is neither persisted nor derived from
    /// anything that identifies the device or its user.
    pub fn random() -> (r: Self)
        ensures
            is_random_label(r@),
    {
        let bytes = random_uuid();
        let label = String::from_str("lt-").concat(hyphenated_text(bytes).as_str());
        assert(label@ == "lt-"@ + uuids::hyphenated(bytes@));
        SessionIdentity { label }
    }

    /// Makes a name with the given ending.
    pub fn fixed(suffix: &str) -> (r: Self)
        ensures
            r@ == "lt-"@ + suffix@,
    {
        SessionIdentity { label: String::from_str("lt-").concat(suffix) }
    }

    /// Returns the name.
    pub fn label(&self) -> (s: &str)
        ensures
            s@ == self@,
    {
        self.label.as_str()
    }
}

/// The contents of a service description.
pub struct ServiceSpecModel {
    /// The service type with its domain.
    pub service_type: Seq<char>,
    /// The name of the service instance.
    pub instance_name: Seq<char>,
    /// The name of the host.
    pub hostname: Seq<char>,
    /// The TCP port.
    pub port: u16,
    /// The TXT properties.
    pub properties: Seq<(Seq<char>, Seq<char>)>,
}

/// The service type with its domain.
pub open spec fn local_service_type() -> Seq<char> {
    DISCOVERY_SERVICE_TYPE@ + LOCAL_DOMAIN_SUFFIX@
}

/// The TXT properties that carry entries.
pub open spec fn properties_of(entries: Seq<(Seq<char>, Seq<u8>)>) -> Seq<(Seq<char>, Seq<char>)> {
    entries.map_values(|entry: (Seq<char>, Seq<u8>)| (entry.0, decode_utf8(entry.1)))
}

/// The service description for a configuration, under the name of a session.
pub open spec fn service_for(config: AdvertisementConfigModel, label: Seq<char>) -> ServiceSpecModel {
    ServiceSpecModel {
        service_type: local_service_type(),
        instance_name: label,
        hostname: label + LOCAL_DOMAIN_SUFFIX@,
        port: config.port,
        properties: properties_of(discovery::txt_entries_of(config.metadata)),
    }
}

/// The contents of TXT properties.
pub open spec fn property_views(properties: Seq<(String, String)>) -> Seq<
    (Seq<char>, Seq<char>),
> {
    properties.map_values(|property: (String, String)| (property.0@, property.1@))
}

/// A TXT property that a service description can carry: its key is ASCII without an
/// equals sign, and its length fits one octet.
pub open spec fn property_fits(property: (Seq<char>, Seq<char>)) -> bool {
    &&& is_ascii_chars(property.0)
    &&& !property.0.contains('=')
    &&& encode_utf8(property.0).len() + encode_utf8(property.1).len() + 1 <= 255
}

/// Every TXT property can be carried.
pub open spec fn properties_fit(properties: Seq<(Seq<char>, Seq<char>)>) -> bool {
    forall|i: int| 0 <= i < properties.len() ==> property_fits(#[trigger] properties[i])
}

/// No key occurs twice.
pub open spec fn keys_are_distinct(properties: Seq<(Seq<char>, Seq<char>)>) -> bool {
    forall|i: int, j: int|
        0 <= i < j < properties.len() ==> (#[trigger] properties[i]).0 != (
        #[trigger] properties[j]).0
}

/// A text ends in another.
pub open spec fn ends_with(value: Seq<char>, suffix: Seq<char>) -> bool {
    suffix.len() <= value.len() && value.skip(value.len() - suffix.len()) == suffix
}

/// A text holds another somewhere.
pub open spec fn holds(value: Seq<char>, part: Seq<char>) -> bool {
    exists|i: int| #[trigger] holds_at(value, part, i)
}

/// A text holds another at an index.
pub open spec fn holds_at(value: Seq<char>, part: Seq<char>, i: int) -> bool {
    0 <= i && i + part.len() <= value.len() && value.subrange(i, i + part.len()) == part
}

/// The TXT properties of advertised metadata have distinct keys and can be carried.
pub proof fn advertised_properties_fit(m: MetadataModel)
    requires
        discovery::is_metadata(m),
    ensures
        properties_fit(properties_of(discovery::txt_entries_of(m))),
        keys_are_distinct(properties_of(discovery::txt_entries_of(m))),
{
    let entries = discovery::txt_entries_of(m);
    let properties = properties_of(entries);
    discovery::lemma_emitted_entries(m);
    assert forall|i: int| 0 <= i < properties.len() implies property_fits(
        #[trigger] properties[i],
    ) by {
        let entry = entries[i];
        assert(properties[i] == (entry.0, decode_utf8(entry.1)));
        decode_utf8_encode_utf8(entry.1);
        assert(discovery::is_txt_key(entry.0));
        assert forall|k: int| 0 <= k < entry.0.len() implies '\0' <= #[trigger] entry.0[k]
            <= '\u{7f}' && entry.0[k] != '=' by {
            assert(discovery::is_key_char(entry.0[k]));
        }
    }
    reveal_strlit("dv");
    reveal_strlit("pmin");
    reveal_strlit("pmax");
    reveal_strlit("name");
    reveal_strlit("os");
    assert("pmin"@[2] == 'i');
    assert("pmax"@[2] == 'a');
    assert("dv"@[0] == 'd');
    assert("os"@[0] == 'o');
    assert("name"@[0] == 'n');
}

/// What is advertised for one session.
#[derive(Debug)]
pub struct ServiceSpec {
    service_type: String,
    instance_name: String,
    hostname: String,
    port: u16,
    properties: Vec<(String, String)>,
}

impl View for ServiceSpec {
    type V = ServiceSpecModel;

    closed spec fn view(&self) -> ServiceSpecModel {
        ServiceSpecModel {
            service_type: self.service_type@,
            instance_name: self.instance_name@,
            hostname: self.hostname@,
            port: self.port,
            properties: property_views(self.properties@),
        }
    }
}

impl ServiceSpec {
    #[verifier::type_invariant]
    spec fn well_formed(self) -> bool {
        &&& self.service_type@ == local_service_type()
        &&& self.hostname@ == self.instance_name@ + LOCAL_DOMAIN_SUFFIX@
        &&& properties_fit(property_views(self.properties@))
        &&& keys_are_distinct(property_views(self.properties@))
    }

    /// Describes the service of a configuration under the name of a session. Validated
    /// metadata can always be represented as TXT properties.
    pub fn new(config: DiscoveryAdvertisementConfig, identity: SessionIdentity) -> (r: Result<
        Self,
        DiscoveryAdvertisementError,
    >)
        ensures
            r is Ok,
            r->Ok_0@ == service_for(config@, identity@),
    {
        let ghost metadata = config@.metadata;
        let entries = config.metadata.to_txt_entries();
        let ghost views = discovery::txt_entries_of(metadata);
        proof {
            discovery::metadata_round_trip(metadata);
            discovery::lemma_emitted_entries(metadata);
            advertised_properties_fit(metadata);
        }
        let total = discovery::total_size(entries.as_slice());
        if total > MAX_DISCOVERY_TXT_BYTES {
            return Err(
                DiscoveryAdvertisementError::without_source(
                    DiscoveryAdvertisementErrorKind::MetadataEncoding,
                ),
            );
        }
        let mut properties: Vec<(String, String)> = Vec::new();
        let mut i: usize = 0;
        while i < entries.len()
            invariant
                i <= entries.len(),
                discovery::entry_views(entries@) == views,
                forall|k: int| 0 <= k < views.len() ==> valid_utf8((#[trigger] views[k]).1),
                property_views(properties@) == properties_of(views).take(i as int),
            decreases entries.len() - i,
        {
            let entry = &entries[i];
            assert(entry@ == views[i as int]);
            let value = match decode_text(entry.value()) {
                Some(value) => value,
                None => return Err(
                    DiscoveryAdvertisementError::without_source(
                        DiscoveryAdvertisementErrorKind::MetadataEncoding,
                    ),
                ),
            };
            let ghost before = property_views(properties@);
            let ghost pair = (entry@.0, value@);
            properties.push((entry.key().to_owned(), value));
            assert(property_views(properties@) =~= before.push(pair));
            assert(properties_of(views).take(i + 1) =~= properties_of(views).take(i as int).push(
                properties_of(views)[i as int],
            ));
            i = i + 1;
        }
        assert(properties_of(views).take(i as int) =~= properties_of(views));
        Ok(
            ServiceSpec {
                service_type: String::from_str(DISCOVERY_SERVICE_TYPE).concat(LOCAL_DOMAIN_SUFFIX),
                hostname: identity.label.as_str().to_owned().concat(LOCAL_DOMAIN_SUFFIX),
                instance_name: identity.label,
                port: config.port,
                properties,
            },
        )
    }

    /// Returns the service type with its domain.
    pub fn service_type(&self) -> (s: &str)
        ensures
            s@ == self@.service_type,
    {
        self.service_type.as_str()
    }

    /// Returns the ephemeral name of the service instance.
    pub fn instance_name(&self) -> (s: &str)
        ensures
            s@ == self@.instance_name,
    {
        self.instance_name.as_str()
    }

    /// Returns the ephemeral hostname.
    pub fn hostname(&self) -> (s: &str)
        ensures
            s@ == self@.hostname,
    {
        self.hostname.as_str()
    }

    /// Returns the TXT properties.
    pub fn properties(&self) -> (r: &[(String, String)])
        ensures
            property_views(r@) == self@.properties,
    {
        self.properties.as_slice()
    }

    /// Names the service instance in its domain.
    pub fn fullname(&self) -> (s: String)
        ensures
            s@ == self@.instance_name + "."@ + self@.service_type,
    {
        self.instance_name.as_str().to_owned().concat(".").concat(self.service_type.as_str())
    }
}

/// The name of an instance as it stands in a full name: its dots and backslashes are
/// preceded by a backslash.
pub open spec fn escaped(name: Seq<char>) -> Seq<char>
    decreases name.len(),
{
    if name.len() == 0 {
        name
    } else if name.last() == '.' || name.last() == '\\' {
        escaped(name.drop_last()).push('\\').push(name.last())
    } else {
        escaped(name.drop_last()).push(name.last())
    }
}

/// A hostname with its domain once, where it ends in the domain twice.
pub open spec fn undoubled(hostname: Seq<char>) -> Seq<char> {
    if ends_with(hostname, ".local.local."@) {
        hostname.take(hostname.len() - "local."@.len())
    } else {
        hostname
    }
}

/// The service type that `mdns_sd::ServiceInfo::get_type` gives.
pub uninterp spec fn described_type(info: mdns_sd::ServiceInfo) -> Seq<char>;

/// The full name that `mdns_sd::ServiceInfo::get_fullname` gives.
pub uninterp spec fn described_fullname(info: mdns_sd::ServiceInfo) -> Seq<char>;

/// The hostname that `mdns_sd::ServiceInfo::get_hostname` gives.
pub uninterp spec fn described_hostname(info: mdns_sd::ServiceInfo) -> Seq<char>;

/// The port that `mdns_sd::ServiceInfo::get_port` gives.
pub uninterp spec fn described_port(info: mdns_sd::ServiceInfo) -> u16;

/// The keys and values that `mdns_sd::ServiceInfo::get_properties` holds, in whatever
/// order.
pub uninterp spec fn described_properties(info: mdns_sd::ServiceInfo) -> Multiset<
    (Seq<char>, Seq<char>),
>;

/// How many addresses `mdns_sd::ServiceInfo::get_addresses` holds.
pub uninterp spec fn described_addresses(info: mdns_sd::ServiceInfo) -> nat;

/// What `mdns_sd::ServiceInfo::is_addr_auto` gives: whether the addresses follow those of
/// the host.
pub uninterp spec fn described_auto(info: mdns_sd::ServiceInfo) -> bool;

/// `mdns_sd::ServiceInfo::new` without addresses: it is refused exactly when a TXT
/// property cannot be carried. The port and the properties are the given ones, and there
/// are no addresses, which are not automatic. The hostname has its domain once. Where
/// the type names no subtype it stays as it is, and the full name joins the escaped
/// instance and the type. What becomes of a type that names a subtype is left unsaid.
#[verifier::external_body]
fn new_service_info(
    service_type: &str,
    instance: &str,
    hostname: &str,
    port: u16,
    properties: &Vec<(String, String)>,
) -> (r: Result<mdns_sd::ServiceInfo, mdns_sd::Error>)
    requires
        keys_are_distinct(property_views(properties@)),
    ensures
        r is Ok <==> properties_fit(property_views(properties@)),
        r matches Ok(info) ==> (!holds(service_type@, "._sub."@) ==> described_type(info)
            == service_type@ && described_fullname(info) == escaped(instance@) + "."@
            + service_type@),
        r matches Ok(info) ==> described_hostname(info) == undoubled(hostname@),
        r matches Ok(info) ==> described_port(info) == port,
        r matches Ok(info) ==> described_properties(info) == property_views(
            properties@,
        ).to_multiset(),
        r matches Ok(info) ==> described_addresses(info) == 0 && !described_auto(info),
{
    let listed: std::collections::HashMap<String, String> = properties.iter().cloned().collect();
    mdns_sd::ServiceInfo::new(service_type, instance, hostname, (), port, listed)
}

/// `mdns_sd::ServiceInfo::enable_addr_auto` makes the addresses automatic and leaves the
/// rest of the description as it is.
pub assume_specification[ mdns_sd::ServiceInfo::enable_addr_auto ](
    info: mdns_sd::ServiceInfo,
) -> (r: mdns_sd::ServiceInfo)
    ensures
        described_auto(r),
        described_type(r) == described_type(info),
        described_fullname(r) == described_fullname(info),
        described_hostname(r) == described_hostname(info),
        described_port(r) == described_port(info),
        described_properties(r) == described_properties(info),
        described_addresses(r) == described_addresses(info),
;

/// The description is the one of a service: its type, its instance, its host, its port
/// and its TXT properties, with addresses that follow those of the host.
pub open spec fn describes(info: mdns_sd::ServiceInfo, spec: ServiceSpecModel) -> bool {
    &&& described_type(info) == spec.service_type
    &&& described_fullname(info) == escaped(spec.instance_name) + "."@ + spec.service_type
    &&& described_hostname(info) == undoubled(spec.hostname)
    &&& described_port(info) == spec.port
    &&& described_properties(info) == spec.properties.to_multiset()
    &&& described_addresses(info) == 0
    &&& described_auto(info)
}

/// Builds the service description that is registered. A described service can always
/// be built; its addresses follow those of the host.
pub fn build_service_info(spec: &ServiceSpec) -> (r: Result<
    mdns_sd::ServiceInfo,
    DiscoveryAdvertisementError,
>)
    ensures
        r matches Ok(info) && describes(info, spec@),
{
    proof {
        use_type_invariant(spec);
        lemma_service_type_has_no_subtype();
    }
    match new_service_info(
        spec.service_type.as_str(),
        spec.instance_name.as_str(),
        spec.hostname.as_str(),
        spec.port,
        &spec.properties,
    ) {
        Ok(info) => Ok(info.enable_addr_auto()),
        Err(source) => Err(DiscoveryAdvertisementError::for_service(source)),
    }
}

/// The full name and the hostname of an instance whose name holds no dot and no
/// backslash are built as they are described.
pub proof fn plain_names_are_kept(label: Seq<char>)
    requires
        !label.contains('.'),
        !label.contains('\\'),
    ensures
        escaped(label) == label,
        undoubled(label + LOCAL_DOMAIN_SUFFIX@) == label + LOCAL_DOMAIN_SUFFIX@,
{
    lemma_escaped_plain(label);
    lemma_domain_is_not_doubled(label);
}

/// A name without dots and backslashes needs no escape.
proof fn lemma_escaped_plain(name: Seq<char>)
    requires
        !name.contains('.'),
        !name.contains('\\'),
    ensures
        escaped(name) == name,
    decreases name.len(),
{
    if name.len() > 0 {
        let rest = name.drop_last();
        assert(name.contains(name.last()));
        assert forall|i: int| 0 <= i < rest.len() implies rest[i] != '.' && rest[i] != '\\' by {
            assert(name.contains(name[i]));
        }
        lemma_escaped_plain(rest);
        assert(rest.push(name.last()) =~= name);
    }
}

/// The service type names no subtype.
proof fn lemma_service_type_has_no_subtype()
    ensures
        !holds(local_service_type(), "._sub."@),
{
    reveal_strlit("_local-transfer._tcp");
    reveal_strlit(".local.");
    reveal_strlit("._sub.");
    let value = local_service_type();
    let part = "._sub."@;
    assert forall|i: int| !#[trigger] holds_at(value, part, i) by {
        if holds_at(value, part, i) {
            let found = value.subrange(i, i + part.len());
            assert(found[0] == '.' && found[1] == '_' && found[2] == 's');
            assert(value[i] == '.' && value[i + 1] == '_' && value[i + 2] == 's');
            assert(value.len() == 27);
        }
    }
}

/// A hostname whose first label holds no dot has its domain once.
proof fn lemma_domain_is_not_doubled(label: Seq<char>)
    requires
        !label.contains('.'),
    ensures
        !ends_with(label + LOCAL_DOMAIN_SUFFIX@, ".local.local."@),
{
    reveal_strlit(".local.");
    reveal_strlit(".local.local.");
    let value = label + LOCAL_DOMAIN_SUFFIX@;
    let doubled = ".local.local."@;
    if ends_with(value, doubled) {
        let start = value.len() - doubled.len();
        assert(value.skip(start)[0] == value[start]);
        assert(doubled[0] == '.');
        assert(label[start] == '.');
    }
}

/// The service type that is advertised is the one that is browsed.
pub proof fn advertised_type_is_browsed()
    ensures
        local_service_type() == browser::LOCAL_SERVICE_TYPE@,
        "."@ + local_service_type() == browser::TRANSIENT_KEY_SUFFIX@,
{
    reveal_strlit(".");
    reveal_strlit("_local-transfer._tcp");
    reveal_strlit(".local.");
    reveal_strlit("_local-transfer._tcp.local.");
    reveal_strlit("._local-transfer._tcp.local.");
    assert(local_service_type() =~= browser::LOCAL_SERVICE_TYPE@);
    assert("."@ + local_service_type() =~= browser::TRANSIENT_KEY_SUFFIX@);
}

/// The resolution that a browser gets of a registered service, at the endpoints and with
/// the TXT entries that it finds.
pub open spec fn resolution_of(
    info: mdns_sd::ServiceInfo,
    endpoints: Seq<DiscoveryEndpoint>,
    txt: Seq<(Seq<char>, Seq<u8>)>,
) -> browser::ResolvedModel {
    browser::ResolvedModel {
        fullname: described_fullname(info),
        port: described_port(info),
        endpoints,
        txt,
    }
}

/// What is advertised is discovered as it is: a browser that resolves the registered
/// service at an acceptable number of endpoints, with its TXT entries in whatever order,
/// and shares a protocol version with it, sees a peer under its name, with its port and
/// its metadata.
pub proof fn advertised_service_is_discovered(
    config: AdvertisementConfigModel,
    label: Seq<char>,
    info: mdns_sd::ServiceInfo,
    endpoints: Seq<DiscoveryEndpoint>,
    txt: Seq<(Seq<char>, Seq<u8>)>,
)
    requires
        discovery::is_metadata(config.metadata),
        config.port != 0,
        is_dns_label(label),
        describes(info, service_for(config, label)),
        0 < endpoints.len(),
        browser::endpoint_listing(endpoints).len() <= browser::MAX_DISCOVERED_ENDPOINTS,
        discovery::ranges_overlap(browser::supported_protocols(), config.metadata.protocols),
        txt.to_multiset() == discovery::txt_entries_of(config.metadata).to_multiset(),
    ensures
        browser::peer_of(resolution_of(info, endpoints, txt)) matches Ok(peer) && peer.key == label
            + "."@ + local_service_type() && peer.port == config.port && peer.metadata
            == config.metadata && peer.endpoints == browser::endpoint_listing(endpoints),
{
    let name = label + "."@ + local_service_type();
    let suffix = browser::TRANSIENT_KEY_SUFFIX@;
    advertised_type_is_browsed();
    reveal_strlit("._local-transfer._tcp.local.");
    reveal_strlit(".");
    assert(name =~= label + suffix);
    assert(name.skip(label.len() as int) =~= suffix);
    assert(name.take(label.len() as int) =~= label);
    assert forall|i: int| 0 <= i < name.len() implies '\0' <= #[trigger] name[i] <= '\u{7f}'
        && !text::is_control(name[i]) by {
        if i < label.len() {
            assert(name[i] == label[i]);
            assert(is_dns_char(label[i]));
        } else {
            assert(name[i] == suffix[i - label.len()]);
        }
    }
    is_ascii_chars_encode_utf8(name);
    assert forall|i: int| 0 <= i < label.len() implies label[i] != '.' && label[i] != '\\' by {
        assert(is_dns_char(label[i]));
    }
    plain_names_are_kept(label);
    discovery::metadata_round_trip(config.metadata);
    discovery::entry_order_is_irrelevant(discovery::txt_entries_of(config.metadata), txt);
}

/// A step of starting the advertisement of a built service.
#[derive(Debug)]
pub enum AdvertisementStartStep {
    /// Create the mDNS daemon.
    CreateDaemon,
    /// Open the daemon's monitor channel.
    Monitor,
    /// Register the service with the daemon.
    Register,
    /// Ask the daemon to shut down, whatever it answers, and fail with this.
    Abandon(DiscoveryAdvertisementError),
    /// The operation is over.
    Done(Result<(), DiscoveryAdvertisementError>),
}

/// Whether a step of starting to advertise can follow another. Only before there is a
/// daemon does a failure end the start at once.
pub open spec fn start_follows(from: AdvertisementStartStep, to: AdvertisementStartStep) -> bool {
    match from {
        AdvertisementStartStep::CreateDaemon => to is Monitor
            || to matches AdvertisementStartStep::Done(Err(_)),
        AdvertisementStartStep::Monitor => to is Register || to is Abandon,
        AdvertisementStartStep::Register => to == AdvertisementStartStep::Done(Ok(()))
            || to is Abandon,
        AdvertisementStartStep::Abandon(error) => to == AdvertisementStartStep::Done(Err(error)),
        AdvertisementStartStep::Done(_) => false,
    }
}

/// Begins to advertise a service, once it is built: a service that cannot be built
/// starts no daemon.
pub fn start_advertising(built: Result<&mdns_sd::ServiceInfo, DiscoveryAdvertisementError>) -> (r:
    AdvertisementStartStep)
    ensures
        match built {
            Ok(_) => r is CreateDaemon,
            Err(error) => r == AdvertisementStartStep::Done(Err(error)),
        },
{
    match built {
        Ok(_) => AdvertisementStartStep::CreateDaemon,
        Err(error) => AdvertisementStartStep::Done(Err(error)),
    }
}

/// Goes on after creating the daemon.
pub fn after_create_daemon(outcome: Result<(), String>) -> (r: AdvertisementStartStep)
    ensures
        match outcome {
            Ok(_) => r is Monitor,
            Err(source) => r matches AdvertisementStartStep::Done(Err(error)) && error@
                == backend_error(DiscoveryAdvertisementErrorKind::DaemonStartup, source@),
        },
        start_follows(AdvertisementStartStep::CreateDaemon, r),
{
    match outcome {
        Ok(_) => AdvertisementStartStep::Monitor,
        Err(source) => AdvertisementStartStep::Done(
            Err(
                DiscoveryAdvertisementError::with_source(
                    DiscoveryAdvertisementErrorKind::DaemonStartup,
                    source,
                ),
            ),
        ),
    }
}

/// Goes on after opening the monitor channel. A daemon that cannot be monitored is not
/// left running.
pub fn after_monitor(outcome: Result<(), String>) -> (r: AdvertisementStartStep)
    ensures
        match outcome {
            Ok(_) => r is Register,
            Err(source) => r matches AdvertisementStartStep::Abandon(error) && error@
                == backend_error(DiscoveryAdvertisementErrorKind::DaemonStartup, source@),
        },
        start_follows(AdvertisementStartStep::Monitor, r),
{
    match outcome {
        Ok(_) => AdvertisementStartStep::Register,
        Err(source) => AdvertisementStartStep::Abandon(
            DiscoveryAdvertisementError::with_source(
                DiscoveryAdvertisementErrorKind::DaemonStartup,
                source,
            ),
        ),
    }
}

/// Ends after registering the service. A daemon without it is not left running.
pub fn after_register(outcome: Result<(), String>) -> (r: AdvertisementStartStep)
    ensures
        match outcome {
            Ok(_) => r == AdvertisementStartStep::Done(Ok(())),
            Err(source) => r matches AdvertisementStartStep::Abandon(error) && error@
                == backend_error(DiscoveryAdvertisementErrorKind::Registration, source@),
        },
        start_follows(AdvertisementStartStep::Register, r),
{
    match outcome {
        Ok(_) => AdvertisementStartStep::Done(Ok(())),
        Err(source) => AdvertisementStartStep::Abandon(
            DiscoveryAdvertisementError::with_source(
                DiscoveryAdvertisementErrorKind::Registration,
                source,
            ),
        ),
    }
}

/// What one look at the daemon's monitor channel found.
#[derive(Debug)]
pub enum AdvertisementSignal {
    /// The daemon reported the given failure.
    Failed(String),
    /// The daemon replaced an ephemeral name.
    NameChange { original: String, new_name: String },
    /// The daemon reported something that advertising has no use for.
    Other,
    /// Nothing is waiting.
    Empty,
    /// The channel itself failed.
    Disconnected(String),
}

/// What a poll does after one look at the channel.
#[derive(Debug)]
pub enum AdvertisementPollStep {
    /// Look again.
    Again,
    /// The poll is over.
    Done(Result<Option<DiscoveryAdvertisementEvent>, DiscoveryAdvertisementError>),
}

/// Decides what to do with a look at the monitor channel.
pub fn advertisement_step(signal: AdvertisementSignal) -> (r: AdvertisementPollStep)
    ensures
        match signal {
            AdvertisementSignal::Failed(source) => r matches AdvertisementPollStep::Done(Err(e))
                && e@ == backend_error(DiscoveryAdvertisementErrorKind::Daemon, source@),
            AdvertisementSignal::NameChange { original, new_name } => r
                == AdvertisementPollStep::Done(
                Ok(
                    Some(
                        DiscoveryAdvertisementEvent::NameChanged {
                            original,
                            replacement: new_name,
                        },
                    ),
                ),
            ),
            AdvertisementSignal::Other => r is Again,
            AdvertisementSignal::Empty => r == AdvertisementPollStep::Done(Ok(None)),
            AdvertisementSignal::Disconnected(source) => r matches AdvertisementPollStep::Done(
                Err(e),
            ) && e@ == backend_error(DiscoveryAdvertisementErrorKind::Daemon, source@),
        },
{
    match signal {
        AdvertisementSignal::Failed(source) => AdvertisementPollStep::Done(
            Err(
                DiscoveryAdvertisementError::with_source(
                    DiscoveryAdvertisementErrorKind::Daemon,
                    source,
                ),
            ),
        ),
        AdvertisementSignal::NameChange { original, new_name } => AdvertisementPollStep::Done(
            Ok(
                Some(
                    DiscoveryAdvertisementEvent::NameChanged { original, replacement: new_name },
                ),
            ),
        ),
        AdvertisementSignal::Other => AdvertisementPollStep::Again,
        AdvertisementSignal::Empty => AdvertisementPollStep::Done(Ok(None)),
        AdvertisementSignal::Disconnected(source) => AdvertisementPollStep::Done(
            Err(
                DiscoveryAdvertisementError::with_source(
                    DiscoveryAdvertisementErrorKind::Daemon,
                    source,
                ),
            ),
        ),
    }
}

/// How the daemon answered a request to unregister the service.
#[derive(Debug)]
pub enum UnregisterReply {
    /// The request itself was refused.
    Refused(String),
    /// The service is unregistered, or was not registered any more.
    Gone,
    /// No answer came in time.
    Unanswered(String),
}

/// How the daemon answered a request to shut down.
#[derive(Debug)]
pub enum DaemonReply {
    /// The request itself was refused.
    Refused(String),
    /// The daemon shut down.
    Stopped,
    /// The daemon answered, but not that it shut down.
    StillRunning,
    /// No answer came in time.
    Unanswered(String),
}

/// What holds of a stop after both of its requests: the first failure of the two.
pub open spec fn stop_error(unregister: UnregisterReply, shutdown: DaemonReply) -> Option<
    AdvertisementErrorModel,
> {
    match unregister {
        UnregisterReply::Refused(source) => Some(
            backend_error(DiscoveryAdvertisementErrorKind::Unregister, source@),
        ),
        UnregisterReply::Unanswered(source) => Some(
            backend_error(DiscoveryAdvertisementErrorKind::Unregister, source@),
        ),
        UnregisterReply::Gone => match shutdown {
            DaemonReply::Refused(source) => Some(
                backend_error(DiscoveryAdvertisementErrorKind::Shutdown, source@),
            ),
            DaemonReply::Stopped => None,
            DaemonReply::StillRunning => Some(
                plain_error(DiscoveryAdvertisementErrorKind::Shutdown),
            ),
            DaemonReply::Unanswered(source) => Some(
                backend_error(DiscoveryAdvertisementErrorKind::Shutdown, source@),
            ),
        },
    }
}

/// Combines the answers to unregistering the service and shutting down the daemon.
pub fn stop_outcome(unregister: UnregisterReply, shutdown: DaemonReply) -> (r: Result<
    (),
    DiscoveryAdvertisementError,
>)
    ensures
        match stop_error(unregister, shutdown) {
            Some(error) => r is Err && r->Err_0@ == error,
            None => r is Ok,
        },
{
    let (kind, source) = match unregister {
        UnregisterReply::Refused(source) => (
            DiscoveryAdvertisementErrorKind::Unregister,
            source,
        ),
        UnregisterReply::Unanswered(source) => (
            DiscoveryAdvertisementErrorKind::Unregister,
            source,
        ),
        UnregisterReply::Gone => match shutdown {
            DaemonReply::Refused(source) => (DiscoveryAdvertisementErrorKind::Shutdown, source),
            DaemonReply::Stopped => return Ok(()),
            DaemonReply::StillRunning => return Err(
                DiscoveryAdvertisementError::without_source(
                    DiscoveryAdvertisementErrorKind::Shutdown,
                ),
            ),
            DaemonReply::Unanswered(source) => (DiscoveryAdvertisementErrorKind::Shutdown, source),
        },
    };
    Err(DiscoveryAdvertisementError::with_source(kind, source))
}

/// The lifecycle of one advertisement. The owner stops its backend only while the
/// session is active, and hands the outcome back.
#[derive(Debug)]
pub struct AdvertisementSession {
    spec: ServiceSpec,
    active: bool,
}

/// Whether a session is active after its backend was asked to stop, and stopped or not.
pub open spec fn active_after_stop(active: bool, stopped: bool) -> bool {
    active && !stopped
}

impl AdvertisementSession {
    /// What the session advertises.
    pub closed spec fn service(self) -> ServiceSpecModel {
        self.spec@
    }

    /// Whether the backend is still to be stopped.
    pub closed spec fn active(self) -> bool {
        self.active
    }

    /// Begins a session once its backend has started.
    pub fn start(spec: ServiceSpec, backend: Result<(), DiscoveryAdvertisementError>) -> (r: Result<
        Self,
        DiscoveryAdvertisementError,
    >)
        ensures
            match backend {
                Ok(_) => r is Ok && r->Ok_0.service() == spec@ && r->Ok_0.active(),
                Err(error) => r == Err::<Self, DiscoveryAdvertisementError>(error),
            },
    {
        match backend {
            Ok(_) => Ok(AdvertisementSession { spec, active: true }),
            Err(error) => Err(error),
        }
    }

    /// Returns the requested ephemeral DNS-SD instance label for this session.
    #[must_use]
    pub fn instance_name(&self) -> (s: &str)
        ensures
            s@ == self.service().instance_name,
    {
        self.spec.instance_name.as_str()
    }

    /// Returns the requested ephemeral `.local.` hostname for this session.
    #[must_use]
    pub fn hostname(&self) -> (s: &str)
        ensures
            s@ == self.service().hostname,
    {
        self.spec.hostname.as_str()
    }

    /// Reports whether the backend is to be stopped, now or when the session is given
    /// up.
    #[must_use]
    pub fn is_active(&self) -> (r: bool)
        ensures
            r == self.active(),
    {
        self.active
    }

    /// Records the outcome of stopping the backend. A failed stop may be tried again;
    /// after a successful one, stopping is harmless.
    pub fn stop(&mut self, stopped: Result<(), DiscoveryAdvertisementError>) -> (r: Result<
        (),
        DiscoveryAdvertisementError,
    >)
        ensures
            final(self).service() == old(self).service(),
            r == (if old(self).active() {
                stopped
            } else {
                Ok::<(), DiscoveryAdvertisementError>(())
            }),
            final(self).active() == (old(self).active() && stopped is Err),
            final(self).active() == active_after_stop(old(self).active(), stopped is Ok),
    {
        if !self.active {
            return Ok(());
        }
        if stopped.is_ok() {
            self.active = false;
        }
        stopped
    }
}

/// What is advertised for a configuration and a session label: the browsed service type,
/// the label as instance name and as host in the local domain, the port, and the schema
/// version, the protocol range and the hints of the metadata as text properties.
pub proof fn advertised_service_is_the_configured_one(
    config: AdvertisementConfigModel,
    label: Seq<char>,
)
    ensures
        ({
            let service = service_for(config, label);
            let m = config.metadata;
            let named: int = if m.name is Some {
                1
            } else {
                0
            };
            let hinted: int = if m.platform is Some {
                1
            } else {
                0
            };
            &&& service.service_type == "_local-transfer._tcp.local."@
            &&& service.instance_name == label
            &&& service.hostname == label + ".local."@
            &&& service.port == config.port
            &&& service.properties.len() == 3 + named + hinted
            &&& service.properties[0] == ("dv"@, "1"@)
            &&& service.properties[1] == ("pmin"@, text::decimal(m.protocols.0 as nat))
            &&& service.properties[2] == ("pmax"@, text::decimal(m.protocols.1 as nat))
            &&& m.name is Some ==> service.properties[3] == ("name"@, m.name->0)
            &&& m.platform is Some ==> service.properties[3 + named] == (
                "os"@,
                m.platform->0.text(),
            )
        }),
{
    let m = config.metadata;
    advertised_type_is_browsed();
    discovery::advertised_entries_are_documented(m);
    encode_utf8_decode_utf8("1"@);
    encode_utf8_decode_utf8(text::decimal(m.protocols.0 as nat));
    encode_utf8_decode_utf8(text::decimal(m.protocols.1 as nat));
    if let Some(name) = m.name {
        encode_utf8_decode_utf8(name);
    }
    if let Some(platform) = m.platform {
        encode_utf8_decode_utf8(platform.text());
    }
}

/// A stop succeeds exactly if the service is unregistered and the daemon shut down. A
/// failure to unregister is reported before one to shut down, each with its cause.
pub proof fn stop_reports_its_first_failure(unregister: UnregisterReply, shutdown: DaemonReply)
    ensures
        ({
            let error = stop_error(unregister, shutdown);
            &&& error is None <==> unregister is Gone && shutdown is Stopped
            &&& !(unregister is Gone) ==> error is Some && error->0.kind
                == DiscoveryAdvertisementErrorKind::Unregister
            &&& unregister matches UnregisterReply::Refused(source) ==> error->0.cause == Some(
                AdvertisementCause::Backend(source@),
            )
            &&& unregister matches UnregisterReply::Unanswered(source) ==> error->0.cause == Some(
                AdvertisementCause::Backend(source@),
            )
            &&& unregister is Gone && !(shutdown is Stopped) ==> error is Some && error->0.kind
                == DiscoveryAdvertisementErrorKind::Shutdown
            &&& unregister is Gone && shutdown is StillRunning ==> error->0.cause is None
            &&& unregister is Gone ==> (shutdown matches DaemonReply::Refused(source)
                ==> error->0.cause == Some(AdvertisementCause::Backend(source@)))
            &&& unregister is Gone ==> (shutdown matches DaemonReply::Unanswered(source)
                ==> error->0.cause == Some(AdvertisementCause::Backend(source@)))
        }),
{
}

/// Advertising has started only after the daemon was created, monitored and asked to
/// register the service. A start that fails after the daemon was created gives it up first, and
/// fails with the error that it was given up for.
pub proof fn failed_start_gives_the_daemon_up(steps: Seq<AdvertisementStartStep>)
    requires
        forall|i: int| 0 < i < steps.len() ==> start_follows(steps[i - 1], #[trigger] steps[i]),
        steps.len() > 0,
        steps[0] is CreateDaemon,
        steps.last() is Done,
    ensures
        steps.last() == AdvertisementStartStep::Done(Ok(())) ==> steps.len() == 4 && steps[1] is Monitor
            && steps[2] is Register,
        steps.len() > 2 && steps.last() != AdvertisementStartStep::Done(Ok(())) ==> steps[steps.len()
            - 2] is Abandon && steps.last() == AdvertisementStartStep::Done(
            Err(steps[steps.len() - 2]->Abandon_0),
        ),
{
    assert(steps.len() > 1);
    assert(start_follows(steps[0], steps[1]));
    if steps.len() > 2 {
        assert(start_follows(steps[1], steps[2]));
        if steps.len() > 3 {
            assert(start_follows(steps[2], steps[3]));
            if steps.len() > 4 {
                assert(start_follows(steps[3], steps[4]));
                if steps.len() > 5 {
                    assert(start_follows(steps[4], steps[5]));
                }
            }
        }
    }
}

/// Different categories of failure have different descriptions.
pub proof fn failure_categories_are_told_apart(
    a: DiscoveryAdvertisementErrorKind,
    b: DiscoveryAdvertisementErrorKind,
)
    requires
        a.text() == b.text(),
    ensures
        a == b,
{
    reveal_strlit("discovery advertisement port must not be zero");
    reveal_strlit("discovery metadata could not be encoded safely");
    reveal_strlit("failed to start the mDNS advertisement daemon");
    reveal_strlit("failed to construct the DNS-SD service");
    reveal_strlit("failed to submit the DNS-SD registration");
    reveal_strlit("the mDNS advertisement daemon reported an error");
    reveal_strlit("failed to unregister the DNS-SD service");
    reveal_strlit("failed to shut down the mDNS advertisement daemon");
    assert("discovery advertisement port must not be zero"@.len() == 45);
    assert("discovery metadata could not be encoded safely"@.len() == 46);
    assert("failed to start the mDNS advertisement daemon"@.len() == 45);
    assert("failed to construct the DNS-SD service"@.len() == 38);
    assert("failed to submit the DNS-SD registration"@.len() == 40);
    assert("the mDNS advertisement daemon reported an error"@.len() == 47);
    assert("failed to unregister the DNS-SD service"@.len() == 39);
    assert("failed to shut down the mDNS advertisement daemon"@.len() == 49);
    assert("discovery advertisement port must not be zero"@[0] == 'd');
    assert("failed to start the mDNS advertisement daemon"@[0] == 'f');
}

/// A stop that succeeds ends a session for good; one that fails leaves it to be stopped
/// again.
pub proof fn stopping_ends_a_session_once(active: bool, again: bool)
    ensures
        !active_after_stop(active, true),
        active_after_stop(active, false) == active,
        !active_after_stop(active_after_stop(active, true), again),
{
}

} // verus!
