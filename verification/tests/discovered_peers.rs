//! The lifecycle of discovered peers.

use local_transfer_core::browser::{
    validate_resolution, DiscoveredPeer, DiscoveryBrowserErrorKind, DiscoveryBrowserEvent,
    DiscoveryEndpoint, IpAddress, RawResolvedService, TransientDiscoveryKey,
};
use local_transfer_core::discovered_peers::{
    DiscoveredPeerNoopReason, DiscoveredPeerRemovalReason, DiscoveredPeerState,
    DiscoveredPeerTransition, MAX_RETAINED_TOMBSTONES, TOMBSTONE_RETENTION_NANOS,
};
use local_transfer_core::discovery::{
    DiscoveryMetadata, DiscoveryNameHint, DiscoveryPlatformHint, DiscoveryProtocolRange,
};
use local_transfer_core::time::Duration;

const KEY_A: &str = "peer-a._local-transfer._tcp.local.";
const KEY_B: &str = "peer-b._local-transfer._tcp.local.";

fn time(seconds: u64) -> Duration {
    Duration::from_secs(seconds)
}

fn key(value: &str) -> TransientDiscoveryKey {
    TransientDiscoveryKey::new(value).unwrap()
}

fn peer(key_value: &str, name: &str, address_last_octet: u8) -> DiscoveredPeer {
    let metadata = DiscoveryMetadata::new(
        DiscoveryProtocolRange::initial(),
        Some(DiscoveryNameHint::new(name).unwrap()),
        Some(DiscoveryPlatformHint::Linux),
    );
    validate_resolution(&RawResolvedService {
        fullname: key_value.to_owned(),
        port: 4242,
        endpoints: vec![DiscoveryEndpoint::ipv4(ipv4(192, 0, 2, address_last_octet))],
        txt: metadata.to_txt_entries(),
    })
    .unwrap()
}

fn ipv4(a: u8, b: u8, c: u8, d: u8) -> u32 {
    u32::from_be_bytes([a, b, c, d])
}

fn later(base: Duration, seconds: u64) -> Duration {
    Duration::from_nanos(base.nanos + time(seconds).nanos)
}

fn assert_noop(transition: DiscoveredPeerTransition, expected: DiscoveredPeerNoopReason) {
    assert!(matches!(
        transition,
        DiscoveredPeerTransition::Noop {
            reason,
            ..
        } if reason == expected
    ));
}

#[test]
fn first_observation_appears_without_trust_or_identity_state() {
    let mut state = DiscoveredPeerState::new();

    let transition = state.apply(
        DiscoveryBrowserEvent::Added(peer(KEY_A, "Desk", 1)),
        time(1),
    );

    assert!(matches!(transition, DiscoveredPeerTransition::Appeared(_)));
    assert_eq!(state.len(), 1);
    let visible = state.get(&key(KEY_A)).unwrap();
    assert_eq!(visible.key().as_str(), KEY_A);
    assert_eq!(state.last_observed_at(&key(KEY_A)), Some(time(1)));
}

#[test]
fn equivalent_observations_refresh_liveness_without_duplicates() {
    let mut state = DiscoveredPeerState::new();
    state.apply(
        DiscoveryBrowserEvent::Added(peer(KEY_A, "Desk", 1)),
        time(1),
    );

    let transition = state.apply(
        DiscoveryBrowserEvent::Refreshed(peer(KEY_A, "Desk", 1)),
        time(4),
    );

    assert!(matches!(transition, DiscoveredPeerTransition::Refreshed(_)));
    assert_eq!(state.len(), 1);
    assert_eq!(state.iter().len(), 1);
    assert_eq!(state.last_observed_at(&key(KEY_A)), Some(time(4)));
}

#[test]
fn meaningful_observation_updates_existing_peer() {
    let mut state = DiscoveredPeerState::new();
    state.apply(
        DiscoveryBrowserEvent::Added(peer(KEY_A, "Desk", 1)),
        time(1),
    );

    let transition = state.apply(
        DiscoveryBrowserEvent::Updated(peer(KEY_A, "Kitchen", 2)),
        time(2),
    );

    assert!(matches!(transition, DiscoveredPeerTransition::Updated(_)));
    assert_eq!(state.len(), 1);
    let visible = state.get(&key(KEY_A)).unwrap();
    assert_eq!(visible.metadata().name().unwrap().as_str(), "Kitchen");
    assert_eq!(
        visible.endpoints()[0].address(),
        IpAddress::V4(ipv4(192, 0, 2, 2))
    );
}

#[test]
fn expiry_is_explicit_deterministic_and_idempotent() {
    let mut state = DiscoveredPeerState::new();
    state.apply(
        DiscoveryBrowserEvent::Added(peer(KEY_A, "Desk", 1)),
        time(2),
    );

    assert!(state.expire(time(6), time(5)).is_empty());
    let expired = state.expire(time(7), time(5));
    assert!(matches!(
        expired.as_slice(),
        [DiscoveredPeerTransition::Removed {
            reason: DiscoveredPeerRemovalReason::Expired,
            ..
        }]
    ));
    assert!(state.is_empty());
    assert!(state.expire(time(20), time(5)).is_empty());
}

#[test]
fn explicit_and_duplicate_removal_have_distinct_outcomes() {
    let mut state = DiscoveredPeerState::new();
    state.apply(
        DiscoveryBrowserEvent::Added(peer(KEY_A, "Desk", 1)),
        time(1),
    );

    let removed = state.apply(DiscoveryBrowserEvent::Removed(key(KEY_A)), time(2));
    assert!(matches!(
        removed,
        DiscoveredPeerTransition::Removed {
            reason: DiscoveredPeerRemovalReason::Explicit,
            ..
        }
    ));
    assert_noop(
        state.apply(DiscoveryBrowserEvent::Removed(key(KEY_A)), time(3)),
        DiscoveredPeerNoopReason::AlreadyAbsent,
    );
    assert!(state.expire(time(20), time(1)).is_empty());
}

#[test]
fn stale_events_cannot_undo_newer_lifecycle_state() {
    let mut state = DiscoveredPeerState::new();
    state.apply(
        DiscoveryBrowserEvent::Added(peer(KEY_A, "Desk", 1)),
        time(5),
    );
    state.apply(DiscoveryBrowserEvent::Removed(key(KEY_A)), time(8));

    assert_noop(
        state.apply(
            DiscoveryBrowserEvent::Added(peer(KEY_A, "Late", 2)),
            time(7),
        ),
        DiscoveredPeerNoopReason::Stale,
    );
    assert_noop(
        state.apply(
            DiscoveryBrowserEvent::Added(peer(KEY_A, "Same", 2)),
            time(8),
        ),
        DiscoveredPeerNoopReason::Stale,
    );
    assert!(state.is_empty());

    assert!(matches!(
        state.apply(
            DiscoveryBrowserEvent::Added(peer(KEY_A, "Back", 2)),
            time(9)
        ),
        DiscoveredPeerTransition::Appeared(_)
    ));
}

#[test]
fn observations_at_or_before_expiry_do_not_restore_visibility() {
    let mut state = DiscoveredPeerState::new();
    state.apply(
        DiscoveryBrowserEvent::Added(peer(KEY_A, "Desk", 1)),
        time(1),
    );
    state.expire(time(6), time(5));

    assert_noop(
        state.apply(
            DiscoveryBrowserEvent::Refreshed(peer(KEY_A, "Desk", 1)),
            time(5),
        ),
        DiscoveredPeerNoopReason::Stale,
    );
    assert_noop(
        state.apply(
            DiscoveryBrowserEvent::Refreshed(peer(KEY_A, "Desk", 1)),
            time(6),
        ),
        DiscoveredPeerNoopReason::Stale,
    );
    assert!(state.is_empty());
}

#[test]
fn tombstones_expire_without_mutating_unrelated_visible_peers() {
    let mut state = DiscoveredPeerState::new();
    state.apply(
        DiscoveryBrowserEvent::Added(peer(KEY_A, "Visible", 1)),
        time(1),
    );
    state.apply(DiscoveryBrowserEvent::Removed(key(KEY_B)), time(1));
    assert_eq!(state.tombstone_count(), 1);

    state.expire(later(Duration::from_nanos(time(1).nanos + TOMBSTONE_RETENTION_NANOS), 1), time(10_000));

    assert_eq!(state.tombstone_count(), 0);
    assert_eq!(state.len(), 1);
    assert!(state.get(&key(KEY_A)).is_some());
}

#[test]
fn observation_after_tombstone_retention_can_reappear() {
    let mut state = DiscoveredPeerState::new();
    state.apply(
        DiscoveryBrowserEvent::Added(peer(KEY_A, "Desk", 1)),
        time(1),
    );
    state.apply(DiscoveryBrowserEvent::Removed(key(KEY_A)), time(2));

    let transition = state.apply(
        DiscoveryBrowserEvent::Added(peer(KEY_A, "Desk", 1)),
        later(Duration::from_nanos(time(2).nanos + TOMBSTONE_RETENTION_NANOS), 1),
    );

    assert!(matches!(transition, DiscoveredPeerTransition::Appeared(_)));
    assert_eq!(state.len(), 1);
    assert_eq!(state.tombstone_count(), 0);
}

#[test]
fn capacity_pressure_evicts_oldest_tombstones_and_allows_reappearance() {
    let mut state = DiscoveredPeerState::new();
    let churn_count = MAX_RETAINED_TOMBSTONES + 100;

    for index in 0..churn_count {
        let transient = key(&format!("churn-{index:04}._local-transfer._tcp.local."));
        state.apply(DiscoveryBrowserEvent::Removed(transient), time(1));
    }

    assert_eq!(state.tombstone_count(), MAX_RETAINED_TOMBSTONES);
    let evicted_key = "churn-0000._local-transfer._tcp.local.";
    assert!(matches!(
        state.apply(
            DiscoveryBrowserEvent::Added(peer(evicted_key, "Reappeared", 3)),
            time(1),
        ),
        DiscoveredPeerTransition::Appeared(_)
    ));
    let retained_key = format!("churn-{:04}._local-transfer._tcp.local.", churn_count - 1);
    assert_noop(
        state.apply(
            DiscoveryBrowserEvent::Added(peer(&retained_key, "Still stale", 4)),
            time(1),
        ),
        DiscoveredPeerNoopReason::Stale,
    );
    assert_eq!(state.len(), 1);
}

#[test]
fn rejected_observations_never_enter_or_refresh_state() {
    let mut state = DiscoveredPeerState::new();
    state.apply(
        DiscoveryBrowserEvent::Added(peer(KEY_A, "Desk", 1)),
        time(2),
    );

    let error = TransientDiscoveryKey::new("invalid").unwrap_err();
    assert_eq!(error.kind(), DiscoveryBrowserErrorKind::InvalidTransientKey);
    assert!(matches!(
        state.apply(DiscoveryBrowserEvent::Error(error), time(10)),
        DiscoveredPeerTransition::Rejected(_)
    ));
    assert_eq!(state.len(), 1);
    assert_eq!(state.last_observed_at(&key(KEY_A)), Some(time(2)));

    let mut empty = DiscoveredPeerState::new();
    let error = TransientDiscoveryKey::new("invalid").unwrap_err();
    assert!(matches!(
        empty.apply(DiscoveryBrowserEvent::Error(error), time(1)),
        DiscoveredPeerTransition::Rejected(_)
    ));
    assert!(empty.is_empty());
}

#[test]
fn peer_transitions_are_isolated_and_expiry_order_is_stable() {
    let mut state = DiscoveredPeerState::new();
    state.apply(DiscoveryBrowserEvent::Added(peer(KEY_B, "B", 2)), time(1));
    state.apply(DiscoveryBrowserEvent::Added(peer(KEY_A, "A", 1)), time(1));
    state.apply(
        DiscoveryBrowserEvent::Refreshed(peer(KEY_A, "A", 1)),
        time(5),
    );

    let expired = state.expire(time(6), time(5));
    assert_eq!(expired.len(), 1);
    assert!(matches!(
        &expired[0],
        DiscoveredPeerTransition::Removed { key, .. } if key.as_str() == KEY_B
    ));
    assert!(state.get(&key(KEY_A)).is_some());
    assert!(state.get(&key(KEY_B)).is_none());
}

#[test]
fn every_visible_peer_is_listed_once() {
    let mut state = DiscoveredPeerState::default();
    state.apply(DiscoveryBrowserEvent::Added(peer(KEY_B, "B", 2)), time(1));
    state.apply(DiscoveryBrowserEvent::Added(peer(KEY_A, "A", 1)), time(2));
    state.apply(DiscoveryBrowserEvent::Refreshed(peer(KEY_B, "B", 2)), time(3));

    let mut keys: Vec<&str> = state.iter().iter().map(|peer| peer.key().as_str()).collect();
    keys.sort_unstable();

    assert_eq!(keys, [KEY_A, KEY_B]);
}

#[test]
fn a_tombstone_lasts_to_the_end_of_its_retention() {
    let end = Duration::from_nanos(time(2).nanos + TOMBSTONE_RETENTION_NANOS);
    let mut state = DiscoveredPeerState::new();
    state.apply(DiscoveryBrowserEvent::Removed(key(KEY_A)), time(2));

    state.expire(end, time(1));
    assert_eq!(state.tombstone_count(), 1);

    state.expire(Duration::from_nanos(end.nanos + 1), time(1));
    assert_eq!(state.tombstone_count(), 0);
}

#[test]
fn stale_input_leaves_a_visible_peer_as_it_was() {
    let mut state = DiscoveredPeerState::new();
    state.apply(DiscoveryBrowserEvent::Added(peer(KEY_A, "Desk", 1)), time(5));

    assert_noop(
        state.apply(DiscoveryBrowserEvent::Removed(key(KEY_A)), time(4)),
        DiscoveredPeerNoopReason::Stale,
    );
    assert_noop(
        state.apply(DiscoveryBrowserEvent::Updated(peer(KEY_A, "Late", 2)), time(4)),
        DiscoveredPeerNoopReason::Stale,
    );
    assert_eq!(state.get(&key(KEY_A)).unwrap().metadata().name().unwrap().as_str(), "Desk");
    assert_eq!(state.last_observed_at(&key(KEY_A)), Some(time(5)));
    assert_eq!(state.last_observed_at(&key(KEY_B)), None);
}

#[test]
fn a_removal_outdates_every_observation_up_to_its_time() {
    let mut state = DiscoveredPeerState::new();
    state.apply(DiscoveryBrowserEvent::Added(peer(KEY_A, "Desk", 1)), time(10));
    let removed = state.apply(DiscoveryBrowserEvent::Removed(key(KEY_A)), time(20));
    assert!(matches!(
        removed,
        DiscoveredPeerTransition::Removed { reason: DiscoveredPeerRemovalReason::Explicit, .. }
    ));

    for seconds in [5, 10, 20] {
        assert!(matches!(
            state.apply(DiscoveryBrowserEvent::Refreshed(peer(KEY_A, "Desk", 1)), time(seconds)),
            DiscoveredPeerTransition::Noop { reason: DiscoveredPeerNoopReason::Stale, .. }
        ));
        assert!(state.is_empty());
    }
    assert!(matches!(
        state.apply(DiscoveryBrowserEvent::Added(peer(KEY_A, "Desk", 1)), time(21)),
        DiscoveredPeerTransition::Appeared(_)
    ));
}
