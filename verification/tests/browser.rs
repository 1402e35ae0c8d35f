//! Translation of DNS-SD resolutions, the browsing session, and both feeding the lifecycle
//! state.

use std::cell::RefCell;
use std::collections::VecDeque;
use std::rc::Rc;

use local_transfer_core::browser::{
    after_browse, after_create_daemon, after_monitor, daemon_step, raw_service, service_step,
    start_browsing, stop_outcome, BrowseStartStep, BrowserSession, BrowserState, DaemonSignal,
    DiscoveredPeer, DiscoveryBrowserError, DiscoveryBrowserErrorKind,
    DiscoveryBrowserErrorSource, DiscoveryBrowserEvent, DiscoveryEndpoint, PollStep,
    RawBrowserEvent, RawResolvedService, ServiceAddress, ServiceProperty, ServiceRecord,
    ServiceSignal, ShutdownReply, TransientDiscoveryKey, LOCAL_SERVICE_TYPE,
    MAX_DISCOVERED_ENDPOINTS, MAX_TRANSIENT_DISCOVERY_KEY_BYTES,
};
use local_transfer_core::discovered_peers::{
    DiscoveredPeerNoopReason, DiscoveredPeerRemovalReason, DiscoveredPeerState,
    DiscoveredPeerTransition,
};
use local_transfer_core::discovery::{
    DiscoveryMetadata, DiscoveryMetadataError, DiscoveryNameHint, DiscoveryPlatformHint,
    DiscoveryProtocolRange, DiscoveryTxtEntry, DISCOVERY_SERVICE_TYPE,
};
use local_transfer_core::time::Duration;

const KEY: &str = "lt-session._local-transfer._tcp.local.";

fn octets(a: u8, b: u8, c: u8, d: u8) -> u32 {
    u32::from_be_bytes([a, b, c, d])
}

fn txt(key: &str, value: &str) -> DiscoveryTxtEntry {
    DiscoveryTxtEntry::new(key, value.as_bytes()).unwrap()
}

fn txt_with_range(min: u16, max: u16) -> Vec<DiscoveryTxtEntry> {
    vec![
        txt("dv", "1"),
        txt("pmin", &min.to_string()),
        txt("pmax", &max.to_string()),
    ]
}

fn resolved() -> RawResolvedService {
    RawResolvedService {
        fullname: KEY.to_owned(),
        port: 4242,
        endpoints: vec![DiscoveryEndpoint::ipv4(octets(192, 0, 2, 1))],
        txt: txt_with_range(1, 1),
    }
}

fn peer(event: DiscoveryBrowserEvent) -> DiscoveredPeer {
    match event {
        DiscoveryBrowserEvent::Added(peer)
        | DiscoveryBrowserEvent::Updated(peer)
        | DiscoveryBrowserEvent::Refreshed(peer) => peer,
        _ => panic!("expected resolved peer event"),
    }
}

fn error_kind(event: DiscoveryBrowserEvent) -> DiscoveryBrowserErrorKind {
    match event {
        DiscoveryBrowserEvent::Error(error) => error.kind(),
        _ => panic!("expected error event"),
    }
}

#[test]
fn canonical_service_type_is_browsed_with_library_domain() {
    assert_eq!(DISCOVERY_SERVICE_TYPE, "_local-transfer._tcp");
    assert_eq!(LOCAL_SERVICE_TYPE, "_local-transfer._tcp.local.");
}

#[test]
fn valid_resolution_adds_refreshes_and_meaningful_changes_update() {
    let mut initial_state = BrowserState::default();
    let first = initial_state
        .translate(RawBrowserEvent::Resolved(resolved()))
        .unwrap();
    let first_peer = peer(first);
    assert_eq!(first_peer.key().as_str(), KEY);
    assert_eq!(first_peer.port(), 4242);
    assert_eq!(first_peer.protocol_major(), 1);
    assert!(matches!(
        initial_state.translate(RawBrowserEvent::Resolved(resolved())),
        Some(DiscoveryBrowserEvent::Refreshed(_))
    ));

    let mut metadata_state = BrowserState::default();
    metadata_state.translate(RawBrowserEvent::Resolved(resolved()));
    let mut metadata_change = resolved();
    metadata_change
        .txt
        .push(txt("name", "Kitchen"));
    assert!(matches!(
        metadata_state.translate(RawBrowserEvent::Resolved(metadata_change)),
        Some(DiscoveryBrowserEvent::Updated(_))
    ));

    let mut port_state = BrowserState::default();
    port_state.translate(RawBrowserEvent::Resolved(resolved()));
    let mut port_change = resolved();
    port_change.port = 4343;
    assert!(matches!(
        port_state.translate(RawBrowserEvent::Resolved(port_change)),
        Some(DiscoveryBrowserEvent::Updated(_))
    ));

    let mut endpoint_state = BrowserState::default();
    endpoint_state.translate(RawBrowserEvent::Resolved(resolved()));
    let mut endpoint_change = resolved();
    endpoint_change.endpoints = vec![DiscoveryEndpoint::ipv4(octets(192, 0, 2, 2))];
    assert!(matches!(
        endpoint_state.translate(RawBrowserEvent::Resolved(endpoint_change)),
        Some(DiscoveryBrowserEvent::Updated(_))
    ));
}

#[test]
fn reordered_and_duplicate_endpoints_coalesce_without_a_semantic_update() {
    let near = DiscoveryEndpoint::ipv4(octets(192, 0, 2, 10));
    let far = DiscoveryEndpoint::ipv4(octets(192, 0, 2, 20));
    let mut state = BrowserState::default();

    let mut first = resolved();
    first.endpoints = vec![near, far];
    let added = peer(state.translate(RawBrowserEvent::Resolved(first)).unwrap());
    assert_eq!(added.endpoints(), &[near, far]);

    let mut reordered = resolved();
    reordered.endpoints = vec![far, near, far, near];
    let event = state
        .translate(RawBrowserEvent::Resolved(reordered))
        .unwrap();
    assert!(matches!(event, DiscoveryBrowserEvent::Refreshed(_)));
    assert_eq!(peer(event).endpoints(), &[near, far]);
    assert_eq!(state.len(), 1);
}

#[test]
fn partially_overlapping_endpoint_sets_are_a_meaningful_update() {
    let a = DiscoveryEndpoint::ipv4(octets(192, 0, 2, 10));
    let b = DiscoveryEndpoint::ipv4(octets(192, 0, 2, 20));
    let c = DiscoveryEndpoint::ipv4(octets(192, 0, 2, 30));
    let mut state = BrowserState::default();

    let mut first = resolved();
    first.endpoints = vec![a, b];
    state.translate(RawBrowserEvent::Resolved(first));

    let mut overlapping = resolved();
    overlapping.endpoints = vec![c, b];
    let event = state
        .translate(RawBrowserEvent::Resolved(overlapping))
        .unwrap();
    assert!(matches!(event, DiscoveryBrowserEvent::Updated(_)));
    assert_eq!(peer(event).endpoints(), &[b, c]);
    assert_eq!(state.len(), 1);
}

#[test]
fn multiple_interface_addresses_collapse_into_one_normalized_peer() {
    let mut state = BrowserState::default();
    let mut resolution = resolved();
    resolution.endpoints = vec![
        DiscoveryEndpoint::ipv6(1, 2),
        DiscoveryEndpoint::ipv4(octets(192, 0, 2, 2)),
        DiscoveryEndpoint::ipv4(octets(192, 0, 2, 1)),
    ];

    let added = peer(
        state
            .translate(RawBrowserEvent::Resolved(resolution))
            .unwrap(),
    );

    assert_eq!(
        added.endpoints(),
        &[
            DiscoveryEndpoint::ipv4(octets(192, 0, 2, 1)),
            DiscoveryEndpoint::ipv4(octets(192, 0, 2, 2)),
            DiscoveryEndpoint::ipv6(1, 2),
        ]
    );
    assert_eq!(state.len(), 1);
}

#[test]
fn advertisements_sharing_a_name_hint_remain_distinct_transient_keys() {
    const OTHER_KEY: &str = "lt-other._local-transfer._tcp.local.";
    let mut state = BrowserState::default();

    let mut first = resolved();
    first
        .txt
        .push(txt("name", "Studio"));
    let mut second = resolved();
    second.fullname = OTHER_KEY.to_owned();
    second.endpoints = vec![DiscoveryEndpoint::ipv4(octets(192, 0, 2, 99))];
    second
        .txt
        .push(txt("name", "Studio"));

    assert!(matches!(
        state.translate(RawBrowserEvent::Resolved(first)).unwrap(),
        DiscoveryBrowserEvent::Added(_)
    ));
    assert!(matches!(
        state.translate(RawBrowserEvent::Resolved(second)).unwrap(),
        DiscoveryBrowserEvent::Added(_)
    ));

    assert_eq!(state.len(), 2);
    let first_peer = state
        .get(&TransientDiscoveryKey::new(KEY).unwrap())
        .unwrap();
    let second_peer = state
        .get(&TransientDiscoveryKey::new(OTHER_KEY).unwrap())
        .unwrap();
    assert_eq!(first_peer.metadata().name().unwrap().as_str(), "Studio");
    assert_eq!(second_peer.metadata().name().unwrap().as_str(), "Studio");
    assert_ne!(first_peer.key(), second_peer.key());
}

#[test]
fn transient_service_keys_are_bounded_and_treated_as_untrusted_text() {
    assert_eq!(
        TransientDiscoveryKey::new(&"x".repeat(MAX_TRANSIENT_DISCOVERY_KEY_BYTES + 1))
            .unwrap_err()
            .kind(),
        DiscoveryBrowserErrorKind::InvalidTransientKey
    );
    assert_eq!(
        TransientDiscoveryKey::new("peer\n._local-transfer._tcp.local.")
            .unwrap_err()
            .kind(),
        DiscoveryBrowserErrorKind::InvalidTransientKey
    );
    assert_eq!(
        TransientDiscoveryKey::new("peer._other._tcp.local.")
            .unwrap_err()
            .kind(),
        DiscoveryBrowserErrorKind::InvalidTransientKey
    );
    assert_eq!(
        TransientDiscoveryKey::new("peer._LOCAL-TRANSFER._TCP.LOCAL.")
            .unwrap()
            .as_str(),
        "peer._local-transfer._tcp.local."
    );
}

#[test]
fn removal_only_refers_to_a_previously_resolved_transient_key() {
    let mut state = BrowserState::default();
    state.translate(RawBrowserEvent::Resolved(resolved()));

    let event = state
        .translate(RawBrowserEvent::Removed(KEY.to_owned()))
        .unwrap();
    match event {
        DiscoveryBrowserEvent::Removed(key) => assert_eq!(key.as_str(), KEY),
        _ => panic!("expected removal"),
    }
    assert!(
        state
            .translate(RawBrowserEvent::Removed(KEY.to_owned()))
            .is_none()
    );
}

#[test]
fn malformed_unsupported_and_incompatible_metadata_are_diagnostics() {
    let mut state = BrowserState::default();

    let mut missing = resolved();
    missing.txt.pop();
    assert_eq!(
        error_kind(state.translate(RawBrowserEvent::Resolved(missing)).unwrap()),
        DiscoveryBrowserErrorKind::Metadata
    );

    let mut unsupported = resolved();
    unsupported.txt[0] = txt("dv", "2");
    assert_eq!(
        error_kind(
            state
                .translate(RawBrowserEvent::Resolved(unsupported))
                .unwrap()
        ),
        DiscoveryBrowserErrorKind::Metadata
    );

    let mut incompatible = resolved();
    incompatible.txt = txt_with_range(2, 2);
    assert_eq!(
        error_kind(
            state
                .translate(RawBrowserEvent::Resolved(incompatible))
                .unwrap()
        ),
        DiscoveryBrowserErrorKind::IncompatibleProtocol
    );
}

#[test]
fn invalid_port_optional_hints_and_endpoint_rules_are_bounded() {
    let mut state = BrowserState::default();
    let mut invalid_port = resolved();
    invalid_port.port = 0;
    assert_eq!(
        error_kind(
            state
                .translate(RawBrowserEvent::Resolved(invalid_port))
                .unwrap()
        ),
        DiscoveryBrowserErrorKind::InvalidPort
    );

    let ipv4 = DiscoveryEndpoint::ipv4(octets(192, 0, 2, 1));
    let ipv6 = DiscoveryEndpoint::ipv6(1, 4);
    let mut endpoints = resolved();
    endpoints.endpoints = vec![ipv4, ipv4, ipv6];
    endpoints
        .txt
        .push(txt("name", "\n"));
    endpoints
        .txt
        .push(txt("os", "plan9"));
    let peer = peer(
        state
            .translate(RawBrowserEvent::Resolved(endpoints))
            .unwrap(),
    );
    assert_eq!(peer.endpoints(), &[ipv4, ipv6]);
    assert_eq!(peer.metadata().name(), None);
    assert_eq!(peer.metadata().platform(), None);

    let mut too_many = resolved();
    too_many.endpoints = (1..=MAX_DISCOVERED_ENDPOINTS + 1)
        .map(|last| DiscoveryEndpoint::ipv4(octets(198, 51, 100, last as u8)))
        .collect();
    assert_eq!(
        error_kind(
            state
                .translate(RawBrowserEvent::Resolved(too_many))
                .unwrap()
        ),
        DiscoveryBrowserErrorKind::EndpointLimit
    );
}

#[test]
fn transient_model_contains_only_advisory_resolution_data() {
    let metadata = DiscoveryMetadata::new(
        DiscoveryProtocolRange::initial(),
        Some(DiscoveryNameHint::new("Not identity").unwrap()),
        Some(DiscoveryPlatformHint::Linux),
    );
    let peer = peer(
        BrowserState::default()
            .translate(RawBrowserEvent::Resolved(RawResolvedService {
                fullname: KEY.to_owned(),
                port: 4242,
                endpoints: vec![DiscoveryEndpoint::ipv4(octets(127, 0, 0, 1))],
                txt: metadata.to_txt_entries(),
            }))
            .unwrap(),
    );

    assert_eq!(peer.key().as_str(), KEY);
    assert_eq!(peer.metadata().name().unwrap().as_str(), "Not identity");
}

#[derive(Default)]
struct FakeState {
    starts: usize,
    stops: usize,
    drops: usize,
    stop_error: Option<DiscoveryBrowserErrorKind>,
    events: VecDeque<RawBrowserEvent>,
}

/// Owns a session and its backend, as an application does: the backend is stopped only
/// while the session is active.
struct Owner {
    session: BrowserSession,
    backend: Rc<RefCell<FakeState>>,
}

impl Owner {
    fn start(backend: Rc<RefCell<FakeState>>) -> Result<Self, DiscoveryBrowserError> {
        backend.borrow_mut().starts += 1;
        let session = BrowserSession::start(Ok(()))?;
        Ok(Self { session, backend })
    }

    fn poll_event(&mut self) -> Option<DiscoveryBrowserEvent> {
        let polled = self.backend.borrow_mut().events.pop_front();
        self.session.poll_event(polled)
    }

    fn stop(&mut self) -> Result<(), DiscoveryBrowserError> {
        if !self.session.is_active() {
            return self.session.stop(Ok(()));
        }
        let stopped = {
            let mut state = self.backend.borrow_mut();
            state.stops += 1;
            match state.stop_error {
                Some(kind) => Err(DiscoveryBrowserError::without_source(kind)),
                None => Ok(()),
            }
        };
        self.session.stop(stopped)
    }
}

impl Drop for Owner {
    fn drop(&mut self) {
        if self.session.is_active() {
            self.backend.borrow_mut().drops += 1;
        }
    }
}

#[test]
fn session_lifecycle_and_backend_errors_are_deterministic() {
    let start_error = match BrowserSession::start(Err(DiscoveryBrowserError::without_source(
        DiscoveryBrowserErrorKind::Browse,
    ))) {
        Ok(_) => panic!("browse start should fail"),
        Err(error) => error,
    };
    assert_eq!(start_error.kind(), DiscoveryBrowserErrorKind::Browse);

    let state = Rc::new(RefCell::new(FakeState::default()));
    state.borrow_mut().events.push_back(RawBrowserEvent::Error(
        DiscoveryBrowserError::without_source(DiscoveryBrowserErrorKind::Daemon),
    ));
    let mut session = Owner::start(state.clone()).unwrap();
    assert_eq!(
        error_kind(session.poll_event().unwrap()),
        DiscoveryBrowserErrorKind::Daemon
    );
    session.stop().unwrap();
    session.stop().unwrap();
    drop(session);
    let state = state.borrow();
    assert_eq!((state.starts, state.stops, state.drops), (1, 1, 0));
}

#[test]
fn failed_stop_remains_active_for_best_effort_drop_cleanup() {
    for kind in [
        DiscoveryBrowserErrorKind::StopBrowse,
        DiscoveryBrowserErrorKind::Shutdown,
    ] {
        let state = Rc::new(RefCell::new(FakeState {
            stop_error: Some(kind),
            ..FakeState::default()
        }));
        let mut session = Owner::start(state.clone()).unwrap();
        assert_eq!(session.stop().unwrap_err().kind(), kind);
        drop(session);
        assert_eq!(state.borrow().drops, 1);
    }
}

fn seconds(value: u64) -> Duration {
    Duration::from_secs(value)
}

fn assert_rejection(
    transition: &Option<DiscoveredPeerTransition>,
    expected: DiscoveryBrowserErrorKind,
) {
    match transition {
        Some(DiscoveredPeerTransition::Rejected(error)) => assert_eq!(error.kind(), expected),
        other => panic!("expected {expected:?} rejection, got {other:?}"),
    }
}

/// Drives a fake browser backend end to end into discovery lifecycle state.
///
/// Every raw backend event is polled through a real `BrowserSession`, and
/// the translated browser event, when any, is applied to one
/// `DiscoveredPeerState` at the caller-supplied time. No clock, sleep, or
/// socket is involved, so the whole pipeline stays deterministic.
fn run_discovery_pipeline(
    steps: Vec<(RawBrowserEvent, Duration)>,
) -> (DiscoveredPeerState, Vec<Option<DiscoveredPeerTransition>>) {
    let backend_state = Rc::new(RefCell::new(FakeState::default()));
    let times: Vec<Duration> = steps.iter().map(|(_, at)| *at).collect();
    {
        let mut queue = backend_state.borrow_mut();
        for (raw, _) in steps {
            queue.events.push_back(raw);
        }
    }

    let mut session = Owner::start(backend_state).unwrap();
    let mut lifecycle = DiscoveredPeerState::new();
    let mut transitions = Vec::with_capacity(times.len());
    for observed_at in times {
        let transition = session
            .poll_event()
            .map(|event| lifecycle.apply(event, observed_at));
        transitions.push(transition);
    }

    assert!(
        session.poll_event().is_none(),
        "the fake backend queue must be fully drained"
    );
    session.stop().unwrap();
    (lifecycle, transitions)
}

#[test]
fn browse_to_lifecycle_covers_appear_refresh_and_update() {
    let a = DiscoveryEndpoint::ipv4(octets(192, 0, 2, 1));
    let b = DiscoveryEndpoint::ipv4(octets(192, 0, 2, 2));
    let c = DiscoveryEndpoint::ipv4(octets(192, 0, 2, 3));
    let with_endpoints = |endpoints: Vec<DiscoveryEndpoint>| {
        let mut resolution = resolved();
        resolution.endpoints = endpoints;
        resolution
    };
    let renamed = |endpoints: Vec<DiscoveryEndpoint>| {
        let mut resolution = with_endpoints(endpoints);
        resolution
            .txt
            .push(txt("name", "Kitchen"));
        resolution
    };

    let (state, transitions) = run_discovery_pipeline(vec![
        (
            RawBrowserEvent::Resolved(with_endpoints(vec![a, b])),
            seconds(1),
        ),
        (
            RawBrowserEvent::Resolved(with_endpoints(vec![a, b])),
            seconds(3),
        ),
        (
            RawBrowserEvent::Resolved(with_endpoints(vec![b, a, a, b])),
            seconds(5),
        ),
        (
            RawBrowserEvent::Resolved(with_endpoints(vec![b, c])),
            seconds(7),
        ),
        (RawBrowserEvent::Resolved(renamed(vec![b, c])), seconds(9)),
    ]);

    assert!(matches!(
        transitions.as_slice(),
        [
            Some(DiscoveredPeerTransition::Appeared(_)),
            Some(DiscoveredPeerTransition::Refreshed(_)),
            Some(DiscoveredPeerTransition::Refreshed(_)),
            Some(DiscoveredPeerTransition::Updated(_)),
            Some(DiscoveredPeerTransition::Updated(_)),
        ]
    ));
    assert_eq!(state.len(), 1);
    let peer = state
        .get(&TransientDiscoveryKey::new(KEY).unwrap())
        .unwrap();
    assert_eq!(peer.endpoints(), &[b, c]);
    assert_eq!(peer.metadata().name().unwrap().as_str(), "Kitchen");
}

#[test]
fn browse_to_lifecycle_expiry_uses_caller_supplied_time() {
    let (mut state, transitions) = run_discovery_pipeline(vec![
        (RawBrowserEvent::Resolved(resolved()), seconds(1)),
        (RawBrowserEvent::Resolved(resolved()), seconds(8)),
    ]);

    assert!(matches!(
        transitions.as_slice(),
        [
            Some(DiscoveredPeerTransition::Appeared(_)),
            Some(DiscoveredPeerTransition::Refreshed(_)),
        ]
    ));
    assert_eq!(state.len(), 1);

    // The refresh advanced liveness to t=8, so t=12 is only four seconds stale.
    assert!(state.expire(seconds(12), seconds(5)).is_empty());
    assert_eq!(state.len(), 1);

    let expired = state.expire(seconds(14), seconds(5));
    assert!(matches!(
        expired.as_slice(),
        [DiscoveredPeerTransition::Removed {
            reason: DiscoveredPeerRemovalReason::Expired,
            ..
        }]
    ));
    assert!(state.is_empty());

    // Expiring already-absent state stays a deterministic no-op.
    assert!(state.expire(seconds(99), seconds(1)).is_empty());
    assert!(state.is_empty());
}

#[test]
fn browse_to_lifecycle_removal_absent_and_stale_are_deterministic() {
    let (state, transitions) = run_discovery_pipeline(vec![
        // Removal of a never-seen advertisement produces no browser event at all.
        (RawBrowserEvent::Removed(KEY.to_owned()), seconds(1)),
        // Normal appearance and explicit removal.
        (RawBrowserEvent::Resolved(resolved()), seconds(5)),
        (RawBrowserEvent::Removed(KEY.to_owned()), seconds(8)),
        // A second removal is coalesced away by the browser before lifecycle state.
        (RawBrowserEvent::Removed(KEY.to_owned()), seconds(9)),
        // An observation that predates the removal cannot resurrect the peer.
        (RawBrowserEvent::Resolved(resolved()), seconds(7)),
        // A later observation makes the transient advertisement visible again.
        (RawBrowserEvent::Resolved(resolved()), seconds(12)),
    ]);

    assert!(matches!(
        transitions.as_slice(),
        [
            None,
            Some(DiscoveredPeerTransition::Appeared(_)),
            Some(DiscoveredPeerTransition::Removed {
                reason: DiscoveredPeerRemovalReason::Explicit,
                ..
            }),
            None,
            Some(DiscoveredPeerTransition::Noop {
                reason: DiscoveredPeerNoopReason::Stale,
                ..
            }),
            Some(DiscoveredPeerTransition::Appeared(_)),
        ]
    ));
    assert_eq!(state.len(), 1);
}

#[test]
fn browse_to_lifecycle_rejects_invalid_observations_without_touching_visible_state() {
    let missing_schema = || {
        let mut resolution = resolved();
        resolution.txt.remove(0); // drop the required `dv` entry
        resolution
    };
    let unsupported_schema = || {
        let mut resolution = resolved();
        resolution.txt[0] = txt("dv", "2");
        resolution
    };
    let incompatible_protocol = || {
        let mut resolution = resolved();
        resolution.txt = txt_with_range(2, 2);
        resolution
    };
    let zero_port = || {
        let mut resolution = resolved();
        resolution.port = 0;
        resolution
    };
    let too_many_endpoints = || {
        let mut resolution = resolved();
        resolution.endpoints = (1..=MAX_DISCOVERED_ENDPOINTS + 1)
            .map(|last| DiscoveryEndpoint::ipv4(octets(198, 51, 100, last as u8)))
            .collect();
        resolution
    };

    let (mut state, transitions) = run_discovery_pipeline(vec![
        (RawBrowserEvent::Resolved(resolved()), seconds(1)),
        (RawBrowserEvent::Resolved(missing_schema()), seconds(2)),
        (RawBrowserEvent::Resolved(unsupported_schema()), seconds(3)),
        (
            RawBrowserEvent::Resolved(incompatible_protocol()),
            seconds(4),
        ),
        (RawBrowserEvent::Resolved(zero_port()), seconds(5)),
        (RawBrowserEvent::Resolved(too_many_endpoints()), seconds(6)),
    ]);

    assert!(matches!(
        &transitions[0],
        Some(DiscoveredPeerTransition::Appeared(_))
    ));
    assert_rejection(&transitions[1], DiscoveryBrowserErrorKind::Metadata);
    assert_rejection(&transitions[2], DiscoveryBrowserErrorKind::Metadata);
    assert_rejection(
        &transitions[3],
        DiscoveryBrowserErrorKind::IncompatibleProtocol,
    );
    assert_rejection(&transitions[4], DiscoveryBrowserErrorKind::InvalidPort);
    assert_rejection(&transitions[5], DiscoveryBrowserErrorKind::EndpointLimit);

    assert_eq!(state.len(), 1);
    // Liveness never advanced past the only valid observation at t=1.
    let expired = state.expire(seconds(10), seconds(9));
    assert!(matches!(
        expired.as_slice(),
        [DiscoveredPeerTransition::Removed {
            reason: DiscoveredPeerRemovalReason::Expired,
            ..
        }]
    ));
    assert!(state.is_empty());
}

#[test]
fn browse_to_lifecycle_keeps_same_name_advertisements_distinct() {
    const KEY_TWO: &str = "lt-second._local-transfer._tcp.local.";
    let named = |fullname: &str, last_octet: u8| {
        let mut resolution = resolved();
        resolution.fullname = fullname.to_owned();
        resolution.endpoints = vec![DiscoveryEndpoint::ipv4(octets(
            192, 0, 2, last_octet,
        ))];
        resolution
            .txt
            .push(txt("name", "Studio"));
        resolution
    };

    let (state, transitions) = run_discovery_pipeline(vec![
        (RawBrowserEvent::Resolved(named(KEY, 1)), seconds(1)),
        (RawBrowserEvent::Resolved(named(KEY_TWO, 2)), seconds(1)),
    ]);

    assert!(matches!(
        transitions.as_slice(),
        [
            Some(DiscoveredPeerTransition::Appeared(_)),
            Some(DiscoveredPeerTransition::Appeared(_)),
        ]
    ));
    assert_eq!(state.len(), 2);
    let first = state
        .get(&TransientDiscoveryKey::new(KEY).unwrap())
        .unwrap();
    let second = state
        .get(&TransientDiscoveryKey::new(KEY_TWO).unwrap())
        .unwrap();
    assert_eq!(first.metadata().name().unwrap().as_str(), "Studio");
    assert_eq!(second.metadata().name().unwrap().as_str(), "Studio");
    assert_ne!(first.key(), second.key());
}

#[test]
fn browse_to_lifecycle_propagates_typed_adapter_failure() {
    let (mut state, transitions) = run_discovery_pipeline(vec![
        (RawBrowserEvent::Resolved(resolved()), seconds(1)),
        (
            RawBrowserEvent::Error(DiscoveryBrowserError::without_source(
                DiscoveryBrowserErrorKind::Daemon,
            )),
            seconds(2),
        ),
    ]);

    assert!(matches!(
        &transitions[0],
        Some(DiscoveredPeerTransition::Appeared(_))
    ));
    assert_rejection(&transitions[1], DiscoveryBrowserErrorKind::Daemon);

    assert_eq!(state.len(), 1);
    // The adapter failure did not refresh the visible peer.
    let expired = state.expire(seconds(11), seconds(10));
    assert!(matches!(
        expired.as_slice(),
        [DiscoveredPeerTransition::Removed {
            reason: DiscoveredPeerRemovalReason::Expired,
            ..
        }]
    ));
    assert!(state.is_empty());
}

fn record() -> ServiceRecord {
    ServiceRecord {
        fullname: KEY.to_owned(),
        port: 4242,
        addresses: vec![
            ServiceAddress::V4(octets(192, 0, 2, 1)),
            ServiceAddress::Unsupported,
            ServiceAddress::V6 { address: 1, scope_id: 7 },
        ],
        properties: vec![
            ServiceProperty { key: "dv".to_owned(), value: Some(b"1".to_vec()) },
            ServiceProperty { key: "flag".to_owned(), value: None },
        ],
    }
}

#[test]
fn a_service_record_becomes_a_raw_resolution() {
    let raw = raw_service(&record()).unwrap();

    assert_eq!(raw.fullname, KEY);
    assert_eq!(raw.port, 4242);
    assert_eq!(
        raw.endpoints,
        [DiscoveryEndpoint::ipv4(octets(192, 0, 2, 1)), DiscoveryEndpoint::ipv6(1, 7)]
    );
    let entries: Vec<(&str, &[u8])> = raw.txt.iter().map(|e| (e.key(), e.value())).collect();
    assert_eq!(entries, [("dv", &b"1"[..]), ("flag", &b""[..])]);
}

#[test]
fn a_service_record_with_a_bad_name_or_property_is_refused() {
    let mut unnamed = record();
    unnamed.fullname = "nobody".to_owned();
    assert_eq!(
        raw_service(&unnamed).unwrap_err().kind(),
        DiscoveryBrowserErrorKind::InvalidTransientKey
    );

    let mut malformed = record();
    malformed.properties[1].key = "a=b".to_owned();
    let error = raw_service(&malformed).unwrap_err();
    assert_eq!(error.kind(), DiscoveryBrowserErrorKind::Metadata);
    assert_eq!(error.key().unwrap().as_str(), KEY);
    assert_eq!(
        error.source().unwrap(),
        &DiscoveryBrowserErrorSource::Metadata(DiscoveryMetadataError::InvalidTxtKey)
    );
}

#[test]
fn polling_decides_by_what_the_channels_hold() {
    assert!(matches!(daemon_step(DaemonSignal::Empty), PollStep::Idle));
    assert!(matches!(daemon_step(DaemonSignal::Other), PollStep::Again));
    for signal in [DaemonSignal::Failed("x".to_owned()), DaemonSignal::Disconnected("x".to_owned())] {
        match daemon_step(signal) {
            PollStep::Emit(RawBrowserEvent::Error(error)) => {
                assert_eq!(error.kind(), DiscoveryBrowserErrorKind::Daemon);
                assert_eq!(
                    error.source().unwrap(),
                    &DiscoveryBrowserErrorSource::Backend("x".to_owned())
                );
            }
            other => panic!("expected an error, got {other:?}"),
        }
    }

    assert!(matches!(service_step(ServiceSignal::Empty), PollStep::Idle));
    assert!(matches!(service_step(ServiceSignal::Other), PollStep::Again));
    assert!(matches!(
        service_step(ServiceSignal::Removed(KEY.to_owned())),
        PollStep::Emit(RawBrowserEvent::Removed(fullname)) if fullname == KEY
    ));
    assert!(matches!(
        service_step(ServiceSignal::Resolved(record())),
        PollStep::Emit(RawBrowserEvent::Resolved(raw)) if raw.port == 4242
    ));
    assert!(matches!(
        service_step(ServiceSignal::Disconnected("gone".to_owned())),
        PollStep::Emit(RawBrowserEvent::Error(_))
    ));
}

#[test]
fn the_first_failure_of_a_stop_is_reported() {
    assert!(stop_outcome(Ok(()), ShutdownReply::Stopped).is_ok());
    assert_eq!(
        stop_outcome(Err("x".to_owned()), ShutdownReply::Stopped).unwrap_err().kind(),
        DiscoveryBrowserErrorKind::StopBrowse
    );
    assert_eq!(
        stop_outcome(Err("x".to_owned()), ShutdownReply::StillRunning).unwrap_err().kind(),
        DiscoveryBrowserErrorKind::StopBrowse
    );
    for reply in [
        ShutdownReply::StillRunning,
        ShutdownReply::Refused("x".to_owned()),
        ShutdownReply::Unanswered("x".to_owned()),
    ] {
        assert_eq!(
            stop_outcome(Ok(()), reply).unwrap_err().kind(),
            DiscoveryBrowserErrorKind::Shutdown
        );
    }
}

#[test]
fn a_stopped_session_reports_nothing() {
    let mut session = BrowserSession::start(Ok(())).unwrap();
    session.stop(Ok(())).unwrap();

    assert!(!session.is_active());
    assert!(session.poll_event(Some(RawBrowserEvent::Resolved(resolved()))).is_none());
}

#[test]
fn a_resolution_without_endpoints_is_refused() {
    let mut bare = resolved();
    bare.endpoints.clear();

    assert_eq!(
        error_kind(BrowserState::default().translate(RawBrowserEvent::Resolved(bare)).unwrap()),
        DiscoveryBrowserErrorKind::MalformedResolution
    );
}

#[test]
fn endpoints_are_ordered_by_family_address_and_scope() {
    let mut mixed = resolved();
    mixed.endpoints = vec![
        DiscoveryEndpoint::ipv6(2, 1),
        DiscoveryEndpoint::ipv6(1, 9),
        DiscoveryEndpoint::ipv6(1, 2),
        DiscoveryEndpoint::ipv4(octets(255, 0, 0, 1)),
    ];

    let added =
        peer(BrowserState::default().translate(RawBrowserEvent::Resolved(mixed)).unwrap());

    assert_eq!(
        added.endpoints(),
        &[
            DiscoveryEndpoint::ipv4(octets(255, 0, 0, 1)),
            DiscoveryEndpoint::ipv6(1, 2),
            DiscoveryEndpoint::ipv6(1, 9),
            DiscoveryEndpoint::ipv6(2, 1),
        ]
    );
}

#[test]
fn starting_goes_from_the_daemon_to_the_browse_channel() {
    assert!(matches!(start_browsing(), BrowseStartStep::CreateDaemon));
    assert!(matches!(after_create_daemon(Ok(())), BrowseStartStep::Monitor));
    assert!(matches!(
        after_monitor(Ok(())),
        BrowseStartStep::Browse { service_type: "_local-transfer._tcp.local." }
    ));
    assert!(matches!(after_browse(Ok(())), BrowseStartStep::Done(Ok(()))));
}

#[test]
fn a_failed_start_never_leaves_a_daemon_running() {
    match after_create_daemon(Err("no socket".to_owned())) {
        BrowseStartStep::Done(Err(error)) => {
            assert_eq!(error.kind(), DiscoveryBrowserErrorKind::Initialization);
            assert_eq!(
                error.source(),
                Some(&DiscoveryBrowserErrorSource::Backend("no socket".to_owned()))
            );
        }
        other => panic!("expected a failure, got {other:?}"),
    }
    match after_monitor(Err("closed".to_owned())) {
        BrowseStartStep::Abandon(error) => {
            assert_eq!(error.kind(), DiscoveryBrowserErrorKind::Initialization)
        }
        other => panic!("expected an abandoned daemon, got {other:?}"),
    }
    match after_browse(Err("busy".to_owned())) {
        BrowseStartStep::Abandon(error) => {
            assert_eq!(error.kind(), DiscoveryBrowserErrorKind::Browse)
        }
        other => panic!("expected an abandoned daemon, got {other:?}"),
    }
}

#[test]
fn the_order_of_txt_entries_does_not_matter() {
    let mut state = BrowserState::default();
    let first = peer(state.translate(RawBrowserEvent::Resolved(resolved())).unwrap());

    let mut reversed = resolved();
    reversed.txt.reverse();

    match state.translate(RawBrowserEvent::Resolved(reversed)) {
        Some(DiscoveryBrowserEvent::Refreshed(again)) => assert_eq!(again, first),
        other => panic!("expected a refresh, got {other:?}"),
    }
}
