//! An observation pass over nearby devices, and its report.

use std::cell::Cell;
use std::collections::VecDeque;

use local_transfer_core::browser::{
    validate_resolution, DiscoveryBrowserError, DiscoveryBrowserEvent, DiscoveryEndpoint,
    RawResolvedService, TransientDiscoveryKey,
};
use local_transfer_core::discover::{
    after_poll, render_transition, socket_address, write_report, DeviceCard, DiscoverArgs,
    DiscoveryCliError, DiscoveryCliErrorSource, DurationRangeError, ObservationPass, ObserveStep,
    WaitStep, ADVISORY_NOTICE,
};
use local_transfer_core::discovered_peers::{
    DiscoveredPeerNoopReason, DiscoveredPeerRemovalReason, DiscoveredPeerTransition,
};
use local_transfer_core::discovery::{
    DiscoveryMetadata, DiscoveryNameHint, DiscoveryPlatformHint, DiscoveryProtocolRange,
};
use local_transfer_core::time::Duration;

fn key(instance: &str) -> TransientDiscoveryKey {
    TransientDiscoveryKey::new(&format!("{instance}._local-transfer._tcp.local.")).unwrap()
}

/// The public API exposes no error constructor; a rejected key yields a real typed error.
fn browser_error() -> DiscoveryBrowserError {
    TransientDiscoveryKey::new("not a service name").unwrap_err()
}

fn appeared(instance: &str) -> DiscoveredPeerTransition {
    DiscoveredPeerTransition::Appeared(key(instance))
}

fn expired(instance: &str) -> DiscoveredPeerTransition {
    DiscoveredPeerTransition::Removed {
        key: key(instance),
        reason: DiscoveredPeerRemovalReason::Expired,
    }
}

struct FakeSession {
    transitions: VecDeque<DiscoveredPeerTransition>,
    expirations: VecDeque<Vec<DiscoveredPeerTransition>>,
    cards: Vec<DeviceCard>,
    next_calls: usize,
    expire_calls: usize,
    stop_calls: usize,
    stop_fails: bool,
}

impl FakeSession {
    fn empty() -> Self {
        Self {
            transitions: VecDeque::new(),
            expirations: VecDeque::new(),
            cards: Vec::new(),
            next_calls: 0,
            expire_calls: 0,
            stop_calls: 0,
            stop_fails: false,
        }
    }

    fn with_transitions(transitions: Vec<DiscoveredPeerTransition>) -> Self {
        let mut session = Self::empty();
        session.transitions = transitions.into();
        session
    }

    fn failing_stop(mut self) -> Self {
        self.stop_fails = true;
        self
    }
}

impl FakeSession {
    fn next_transition(&mut self, _now: Duration) -> Option<DiscoveredPeerTransition> {
        self.next_calls += 1;
        self.transitions.pop_front()
    }

    fn expire(
        &mut self,
        _now: Duration,
        _stale_after: Duration,
    ) -> Vec<DiscoveredPeerTransition> {
        self.expire_calls += 1;
        self.expirations.pop_front().unwrap_or_default()
    }

    fn stop(&mut self) -> Result<(), DiscoveryBrowserError> {
        self.stop_calls += 1;
        if self.stop_fails {
            Err(browser_error())
        } else {
            Ok(())
        }
    }

    fn snapshot(&self) -> Vec<DeviceCard> {
        self.cards.clone()
    }
}

struct FakeCancellation {
    checks_before_cancel: Cell<u32>,
}

impl FakeCancellation {
    fn never() -> Self {
        Self {
            checks_before_cancel: Cell::new(u32::MAX),
        }
    }

    fn after(checks: u32) -> Self {
        Self {
            checks_before_cancel: Cell::new(checks),
        }
    }
}

impl FakeCancellation {
    fn is_cancelled(&self) -> bool {
        let left = self.checks_before_cancel.get();
        if left == 0 {
            return true;
        }
        self.checks_before_cancel.set(left - 1);
        false
    }
}

fn args(events: bool) -> DiscoverArgs {
    DiscoverArgs {
        events,
        window: 3,
        stale_after: None,
    }
}

fn monotonic_clock() -> impl FnMut() -> Duration {
    let mut ticks = 0_u64;
    move || {
        ticks += 1;
        Duration::from_secs(ticks)
    }
}

/// Performs the steps of a pass, as an application does.
fn run_session(
    args: &DiscoverArgs,
    session: &mut FakeSession,
    cancel: &FakeCancellation,
) -> (String, Result<(), DiscoveryCliError>) {
    run_writing(args, session, cancel, Ok(()))
}

/// The same, with the outcome of writing the report.
fn run_writing(
    args: &DiscoverArgs,
    session: &mut FakeSession,
    cancel: &FakeCancellation,
    written: Result<(), String>,
) -> (String, Result<(), DiscoveryCliError>) {
    let mut out = String::new();
    let mut clock = monotonic_clock();
    let (mut pass, mut step) = ObservationPass::observe(args);
    loop {
        step = match step {
            ObserveStep::CheckCancelled => pass.after_check(cancel.is_cancelled()),
            ObserveStep::NextTransition => {
                let transition = session.next_transition(clock());
                pass.after_transition(transition.as_ref())
            }
            ObserveStep::Expire { stale_after, last } => {
                let transitions = session.expire(clock(), stale_after);
                pass.after_expire(last, &transitions)
            }
            ObserveStep::Stop => {
                let stopped = session.stop();
                pass.after_stop(stopped, &session.snapshot())
            }
            ObserveStep::Write { report, stopped } => {
                out.push_str(&report);
                pass.after_write(stopped, written.clone())
            }
            ObserveStep::Done(result) => return (out, result),
        };
    }
}

fn run(
    args: &DiscoverArgs,
    session: &mut FakeSession,
) -> (String, Result<(), DiscoveryCliError>) {
    run_session(args, session, &FakeCancellation::never())
}

fn card(
    session: &str,
    name: Option<&str>,
    platform: Option<DiscoveryPlatformHint>,
    addresses: &[&str],
) -> DeviceCard {
    DeviceCard {
        session: session.to_owned(),
        name: name.map(str::to_owned),
        platform,
        protocol_major: 1,
        addresses: addresses.iter().map(|value| (*value).to_owned()).collect(),
    }
}

fn snapshot(cards: &[DeviceCard]) -> String {
    write_report(false, &[], cards)
}

#[test]
fn snapshot_declares_discovery_advisory_and_unauthenticated() {
    let output = snapshot(&[card(
        "lt-a._local-transfer._tcp.local.",
        Some("Studio"),
        Some(DiscoveryPlatformHint::Linux),
        &["192.0.2.10:4242"],
    )]);

    assert!(output.contains("advisory and unauthenticated"));
    assert!(output.contains("not paired, trusted, or authenticated"));
    assert!(!output.contains("trusted device"));
    assert!(!output.contains("is verified"));
    assert!(!output.to_lowercase().contains("paired with"));
}

#[test]
fn snapshot_without_devices_is_explicit() {
    let output = snapshot(&[]);

    assert!(output.contains("No nearby devices are currently visible."));
    assert!(output.contains("advisory and unauthenticated"));
}

#[test]
fn snapshot_renders_session_platform_protocol_and_address() {
    let output = snapshot(&[card(
        "lt-desk._local-transfer._tcp.local.",
        Some("Studio"),
        Some(DiscoveryPlatformHint::MacOs),
        &["192.0.2.5:4242", "[fe80::1%3]:4242"],
    )]);

    assert!(output.contains("- Studio (macOS)"));
    assert!(output.contains("session:  lt-desk._local-transfer._tcp.local."));
    assert!(output.contains("protocol: 1"));
    assert!(output.contains("address:  192.0.2.5:4242, [fe80::1%3]:4242"));
}

#[test]
fn snapshot_keeps_same_name_devices_distinguishable() {
    let output = snapshot(&[
        card(
            "lt-one._local-transfer._tcp.local.",
            Some("Studio"),
            Some(DiscoveryPlatformHint::Linux),
            &["192.0.2.10:4242"],
        ),
        card(
            "lt-two._local-transfer._tcp.local.",
            Some("Studio"),
            Some(DiscoveryPlatformHint::Linux),
            &["192.0.2.20:4242"],
        ),
    ]);

    assert_eq!(output.matches("- Studio (Linux)").count(), 2);
    assert!(output.contains("session:  lt-one._local-transfer._tcp.local."));
    assert!(output.contains("session:  lt-two._local-transfer._tcp.local."));
    assert!(output.contains("2 nearby device(s) currently visible:"));
}

#[test]
fn snapshot_orders_devices_by_session_key() {
    let output = snapshot(&[
        card(
            "lt-zeta._local-transfer._tcp.local.",
            Some("Z"),
            Some(DiscoveryPlatformHint::Linux),
            &["192.0.2.9:4242"],
        ),
        card(
            "lt-alpha._local-transfer._tcp.local.",
            Some("A"),
            Some(DiscoveryPlatformHint::Linux),
            &["192.0.2.1:4242"],
        ),
    ]);

    let alpha = output.find("lt-alpha").unwrap();
    let zeta = output.find("lt-zeta").unwrap();
    assert!(alpha < zeta);
}

#[test]
fn snapshot_names_unset_name_and_platform_conservatively() {
    let output = snapshot(&[card(
        "lt-x._local-transfer._tcp.local.",
        None,
        None,
        &["192.0.2.10:4242"],
    )]);

    assert!(output.contains("- unnamed (unknown platform)"));
}

#[test]
fn transition_lines_are_distinct_per_lifecycle_kind() {
    let anchor = key("lt-evt");

    assert!(
        render_transition(&DiscoveredPeerTransition::Appeared(anchor.clone()))
            .starts_with("appeared")
    );
    assert!(
        render_transition(&DiscoveredPeerTransition::Updated(anchor.clone()))
            .starts_with("updated")
    );

    let removed = render_transition(&DiscoveredPeerTransition::Removed {
        key: anchor.clone(),
        reason: DiscoveredPeerRemovalReason::Explicit,
    });
    assert!(removed.starts_with("removed"));
    assert!(removed.contains("no longer advertised"));

    let stale = render_transition(&expired("lt-evt"));
    assert!(stale.starts_with("expired"));

    let ignored = render_transition(&DiscoveredPeerTransition::Noop {
        key: anchor.clone(),
        reason: DiscoveredPeerNoopReason::AlreadyAbsent,
    });
    assert!(ignored.starts_with("ignored"));
    assert!(ignored.contains("already absent"));

    let superseded = render_transition(&DiscoveredPeerTransition::Noop {
        key: anchor,
        reason: DiscoveredPeerNoopReason::Stale,
    });
    assert!(superseded.starts_with("ignored"));
}

#[test]
fn refresh_is_never_reported_as_a_new_appearance() {
    let line = render_transition(&DiscoveredPeerTransition::Refreshed(key("lt-r")));

    assert!(line.contains("refreshed"));
    assert!(!line.contains("appeared"));
}

#[test]
fn rejected_transition_shows_a_safe_message_only() {
    let error = TransientDiscoveryKey::new("\u{7}control-name").unwrap_err();

    let line = render_transition(&DiscoveredPeerTransition::Rejected(error));

    assert!(line.starts_with("rejected"));
    assert!(line.contains("invalid transient DNS-SD service key"));
    assert!(!line.contains("control-name"));
    assert!(!line.contains('\u{7}'));
}

#[test]
fn observe_reports_empty_snapshot_and_always_stops_the_session() {
    let mut session = FakeSession::empty();

    let (output, result) = run(&args(false), &mut session);

    assert!(result.is_ok());
    assert_eq!(session.stop_calls, 1);
    assert!(output.contains("advisory and unauthenticated"));
    assert!(output.contains("No nearby devices are currently visible."));
}

#[test]
fn observe_streams_events_in_order_before_the_snapshot() {
    let mut session = FakeSession::with_transitions(vec![
        DiscoveredPeerTransition::Noop {
            key: key("lt-ghost"),
            reason: DiscoveredPeerNoopReason::AlreadyAbsent,
        },
        DiscoveredPeerTransition::Rejected(browser_error()),
    ]);

    let (output, result) = run(&args(true), &mut session);

    assert!(result.is_ok());
    assert_eq!(session.stop_calls, 1);
    let ignored = output.find("ignored").unwrap();
    let rejected = output.find("rejected").unwrap();
    let listing = output.find("No nearby devices").unwrap();
    assert!(ignored < rejected && rejected < listing);
    assert!(output.contains("already absent"));
}

#[test]
fn observe_hides_event_lines_without_the_events_flag() {
    let mut session = FakeSession::with_transitions(vec![
        DiscoveredPeerTransition::Noop {
            key: key("lt-ghost"),
            reason: DiscoveredPeerNoopReason::AlreadyAbsent,
        },
        DiscoveredPeerTransition::Rejected(browser_error()),
    ]);

    let (output, _) = run(&args(false), &mut session);

    assert!(!output.contains("ignored"));
    assert!(!output.contains("rejected"));
    assert!(output.contains("No nearby devices are currently visible."));
}

#[test]
fn observe_reports_cleanup_failure_as_a_typed_error_after_writing_results() {
    let mut session = FakeSession::empty().failing_stop();

    let (output, result) = run(&args(false), &mut session);

    assert_eq!(session.stop_calls, 1);
    assert!(matches!(result, Err(DiscoveryCliError::Shutdown(_))));
    assert!(output.contains("advisory and unauthenticated"));
}

#[test]
fn observe_never_treats_a_rejected_event_as_a_visible_device() {
    let mut session =
        FakeSession::with_transitions(vec![
            DiscoveredPeerTransition::Rejected(browser_error()),
        ]);

    let (output, _) = run(&args(true), &mut session);

    assert!(output.contains("rejected"));
    assert!(output.contains("No nearby devices are currently visible."));
}

#[test]
fn observe_renders_the_session_snapshot() {
    let mut session = FakeSession::empty();
    session.cards = vec![card(
        "lt-desk._local-transfer._tcp.local.",
        Some("Desk"),
        Some(DiscoveryPlatformHint::Linux),
        &["192.0.2.7:4242"],
    )];

    let (output, _) = run(&args(false), &mut session);

    assert!(output.contains("- Desk (Linux)"));
    assert!(output.contains("session:  lt-desk._local-transfer._tcp.local."));
}

#[test]
fn observe_stops_consuming_transitions_once_cancelled() {
    let mut session = FakeSession::with_transitions(vec![
        appeared("lt-a"),
        appeared("lt-b"),
        appeared("lt-c"),
    ]);

    let cancel = FakeCancellation::after(1);
    let (output, result) = run_session(&args(true), &mut session, &cancel);

    assert!(result.is_ok());
    assert_eq!(session.next_calls, 1);
    assert_eq!(session.stop_calls, 1);
    assert!(output.contains("appeared   lt-a._local-transfer._tcp.local."));
    assert!(!output.contains("lt-b"));
    assert!(!output.contains("lt-c"));
}

#[test]
fn observe_reports_cleanup_failure_after_cancellation() {
    let mut session = FakeSession::with_transitions(vec![appeared("lt-a")]).failing_stop();

    let cancel = FakeCancellation::after(1);
    let (output, result) = run_session(&args(false), &mut session, &cancel);

    assert_eq!(session.stop_calls, 1);
    assert!(matches!(result, Err(DiscoveryCliError::Shutdown(_))));
    assert!(output.contains("advisory and unauthenticated"));
}

#[test]
fn observe_cancelled_before_any_transition_still_stops_and_reports() {
    let mut session = FakeSession::with_transitions(vec![appeared("lt-a")]);

    let cancel = FakeCancellation::after(0);
    let (output, result) = run_session(&args(false), &mut session, &cancel);

    assert!(result.is_ok());
    assert_eq!(session.next_calls, 0);
    assert_eq!(session.stop_calls, 1);
    assert!(output.contains("No nearby devices are currently visible."));
}

#[test]
fn stale_after_renders_core_expiry_transitions() {
    let mut session = FakeSession::with_transitions(vec![appeared("lt-desk")]);
    session.expirations.push_back(Vec::new()); // after the appearance
    session.expirations.push_back(vec![expired("lt-desk")]); // final sweep

    let args = DiscoverArgs {
        events: true,
        window: 5,
        stale_after: Some(2),
    };
    let (output, result) = run(&args, &mut session);

    assert!(result.is_ok());
    assert!(output.contains("appeared   lt-desk._local-transfer._tcp.local."));
    assert!(
        output.contains("expired    lt-desk._local-transfer._tcp.local.  (not re-observed)")
    );
    assert_eq!(session.expire_calls, 2);
}

#[test]
fn without_stale_after_core_expiry_is_never_invoked() {
    let mut session = FakeSession::with_transitions(vec![appeared("lt-a")]);
    session.expirations.push_back(vec![expired("lt-a")]);

    let (output, _) = run(&args(true), &mut session);

    assert_eq!(session.expire_calls, 0);
    assert!(!output.contains("expired"));
    assert_eq!(session.expirations.len(), 1);
}

#[test]
fn a_whole_report_is_exact() {
    let output = write_report(
        true,
        &["appeared   x".to_owned()],
        &[
            card("b", Some("B"), Some(DiscoveryPlatformHint::Windows), &["1:1", "2:2", "3:3"]),
            card("a", None, None, &[]),
        ],
    );

    let expected = [
        ADVISORY_NOTICE,
        "",
        "appeared   x",
        "",
        "2 nearby device(s) currently visible:",
        "",
        "- unnamed (unknown platform)",
        "  session:  a",
        "  protocol: 1",
        "  address:  ",
        "",
        "- B (Windows)",
        "  session:  b",
        "  protocol: 1",
        "  address:  1:1, 2:2, 3:3",
        "",
    ];
    assert_eq!(output, expected.join("\n"));
}

#[test]
fn a_report_without_events_says_so_when_events_are_shown() {
    assert_eq!(
        write_report(true, &[], &[]),
        format!(
            "{ADVISORY_NOTICE}\n\nNo discovery events were observed.\n\n\
             No nearby devices are currently visible.\n"
        )
    );
}

#[test]
fn cards_of_one_session_keep_their_order() {
    let output = snapshot(&[
        card("s", Some("First"), None, &[]),
        card("r", Some("Zero"), None, &[]),
        card("s", Some("Second"), None, &[]),
    ]);

    let zero = output.find("- Zero").unwrap();
    let first = output.find("- First").unwrap();
    let second = output.find("- Second").unwrap();
    assert!(zero < first && first < second);
}

#[test]
fn cards_project_visible_peers() {
    let metadata = DiscoveryMetadata::new(
        DiscoveryProtocolRange::initial(),
        Some(DiscoveryNameHint::new("Desk").unwrap()),
        Some(DiscoveryPlatformHint::Linux),
    );
    let peer = validate_resolution(&RawResolvedService {
        fullname: "lt-desk._local-transfer._tcp.local.".to_owned(),
        port: 4242,
        endpoints: vec![
            DiscoveryEndpoint::ipv6(0xfe80_0000_0000_0000_0000_0000_0000_0001, 3),
            DiscoveryEndpoint::ipv4(0xc000_0205),
        ],
        txt: metadata.to_txt_entries(),
    })
    .unwrap();

    let projected =
        DeviceCard::from_peer(&peer, &["192.0.2.5".to_owned(), "fe80::1".to_owned()]);

    assert_eq!(
        projected,
        card(
            "lt-desk._local-transfer._tcp.local.",
            Some("Desk"),
            Some(DiscoveryPlatformHint::Linux),
            &["192.0.2.5:4242", "[fe80::1%3]:4242"],
        )
    );
}

#[test]
fn socket_addresses_bracket_ipv6() {
    let unscoped = DiscoveryEndpoint {
        address: DiscoveryEndpoint::ipv6(1, 0).address(),
        scope_id: None,
    };

    assert_eq!(socket_address(&DiscoveryEndpoint::ipv4(1), "0.0.0.1", 80), "0.0.0.1:80");
    assert_eq!(socket_address(&DiscoveryEndpoint::ipv6(1, 12), "::1", 80), "[::1%12]:80");
    assert_eq!(socket_address(&unscoped, "::1", 80), "[::1]:80");
}

#[test]
fn waiting_applies_events_before_it_ends() {
    let event = || DiscoveryBrowserEvent::Error(browser_error());

    assert!(matches!(after_poll(Some(event()), true, true), WaitStep::Apply(_)));
    assert!(matches!(after_poll(None, true, false), WaitStep::Over));
    assert!(matches!(after_poll(None, false, true), WaitStep::Over));
    assert!(matches!(after_poll(None, false, false), WaitStep::Sleep));
}

#[test]
fn discovery_failures_describe_themselves_and_their_cause() {
    let start = DiscoveryCliError::Start(browser_error());
    assert_eq!(
        start.message(),
        "failed to start discovery: invalid transient DNS-SD service key"
    );
    assert!(matches!(start.source(), DiscoveryCliErrorSource::Browser(_)));

    assert_eq!(
        DiscoveryCliError::Shutdown(browser_error()).message(),
        "failed to stop discovery cleanly: invalid transient DNS-SD service key"
    );
    let interrupt = DiscoveryCliError::Interrupt("denied".to_owned());
    assert_eq!(interrupt.message(), "failed to install the interrupt handler: denied");
    assert_eq!(interrupt.source(), DiscoveryCliErrorSource::Io("denied"));
    assert_eq!(
        DiscoveryCliError::Output("closed".to_owned()).message(),
        "failed to write command output: closed"
    );
}

#[test]
fn parses_discover_command_with_defaults() {
    let expected = DiscoverArgs { events: false, window: 3, stale_after: None };

    assert_eq!(DiscoverArgs::new(false, None, None).unwrap(), expected);
    assert_eq!(DiscoverArgs::default(), expected);
}

#[test]
fn parses_discover_events_window_and_stale_after_flags() {
    assert_eq!(
        DiscoverArgs::new(true, Some(12), Some(20)).unwrap(),
        DiscoverArgs { events: true, window: 12, stale_after: Some(20) }
    );
}

#[test]
fn rejects_discover_durations_outside_the_supported_range() {
    assert_eq!(
        DiscoverArgs::new(false, Some(0), None).unwrap_err().message(),
        "0 is not in 1..=60"
    );
    assert_eq!(
        DiscoverArgs::new(false, Some(600), None).unwrap_err(),
        DurationRangeError { seconds: 600, maximum: 60 }
    );
    assert_eq!(
        DiscoverArgs::new(false, None, Some(0)).unwrap_err(),
        DurationRangeError { seconds: 0, maximum: 3600 }
    );
    assert!(DiscoverArgs::new(false, Some(60), Some(3600)).is_ok());
    assert!(DiscoverArgs::new(false, Some(61), Some(3600)).is_err());
    assert!(DiscoverArgs::new(false, Some(60), Some(3601)).is_err());
}

#[test]
fn a_failed_write_comes_before_a_failed_stop() {
    let closed = || Err("closed".to_owned());
    let never = FakeCancellation::never();

    let mut both = FakeSession::empty().failing_stop();
    assert_eq!(
        run_writing(&args(false), &mut both, &never, closed()).1,
        Err(DiscoveryCliError::Output("closed".to_owned()))
    );
    assert_eq!(both.stop_calls, 1);
    assert_eq!(
        run_writing(&args(false), &mut FakeSession::empty(), &never, closed()).1,
        Err(DiscoveryCliError::Output("closed".to_owned()))
    );
    assert_eq!(
        run_writing(&args(false), &mut FakeSession::empty().failing_stop(), &never, Ok(())).1,
        Err(DiscoveryCliError::Shutdown(browser_error()))
    );
    assert_eq!(run_writing(&args(false), &mut FakeSession::empty(), &never, Ok(())).1, Ok(()));
}
