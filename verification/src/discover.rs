//! One pass of observing transient, unauthenticated nearby devices, and its report.
//!
//! An observation pass is a sequence of steps over the discovery lifecycle state: its
//! owner performs a step and hands the outcome back. The pass collects the lifecycle
//! events and ends in a report of the devices that are visible.

use vstd::prelude::*;

use crate::browser;
use crate::browser::{
    DiscoveredPeer, DiscoveryBrowserError, DiscoveryBrowserEvent, DiscoveryEndpoint, IpAddress,
};
use crate::discovered_peers::{
    DiscoveredPeerNoopReason, DiscoveredPeerRemovalReason, DiscoveredPeerTransition,
    TransitionModel,
};
use crate::discovery::DiscoveryPlatformHint;
use crate::text;
use crate::text::{decimal_text, text_precedes};
use crate::time::Duration;

verus! {

/// Interval between backend polls while the observation window is open.
pub const POLL_INTERVAL_MILLIS: u64 = 20;

/// The seconds for which a pass observes the network unless told otherwise.
pub const DEFAULT_WINDOW_SECONDS: u64 = 3;

/// The most seconds for which a pass can be told to observe the network.
pub const MAX_WINDOW_SECONDS: u64 = 60;

/// The most seconds after which a pass can be told to drop silent devices.
pub const MAX_STALE_AFTER_SECONDS: u64 = 3600;

/// Standing reminder that discovery never establishes trust or identity.
pub const ADVISORY_NOTICE: &'static str =
    "Discovery is advisory and unauthenticated: a device listed here is currently advertising on the local network but is not paired, trusted, or authenticated, and its name and addresses are unverified hints.";

/// What a pass is told to do.
#[derive(Clone, Copy, Debug, PartialEq, Eq, Structural)]
pub struct DiscoverArgs {
    /// Whether each discovery lifecycle event is listed before the devices.
    pub events: bool,
    /// Seconds to observe the local network.
    pub window: u64,
    /// Seconds after which devices that were not observed again are dropped, if any.
    pub stale_after: Option<u64>,
}

/// A number of seconds outside its supported range, which begins at one.
#[derive(Clone, Copy, Debug, PartialEq, Eq, Structural)]
pub struct DurationRangeError {
    /// The rejected number.
    pub seconds: u64,
    /// The greatest supported number.
    pub maximum: u64,
}

impl DurationRangeError {
    /// The description of the error.
    pub open spec fn text(self) -> Seq<char> {
        text::decimal(self.seconds as nat) + " is not in 1..="@ + text::decimal(self.maximum as nat)
    }

    /// Describes the error.
    pub fn message(&self) -> (s: String)
        ensures
            s@ == self.text(),
    {
        decimal_text(self.seconds).concat(" is not in 1..=").concat(
            decimal_text(self.maximum).as_str(),
        )
    }
}

/// Why a number of seconds is outside its supported range.
pub open spec fn range_error(seconds: u64, maximum: u64) -> Option<DurationRangeError> {
    if 1 <= seconds <= maximum {
        None
    } else {
        Some(DurationRangeError { seconds, maximum })
    }
}

/// What a pass is told to do for what the user asked for, or the first number that is
/// outside its range.
pub open spec fn args_for(
    events: bool,
    window: Option<u64>,
    stale_after: Option<u64>,
) -> Result<DiscoverArgs, DurationRangeError> {
    let seconds = match window {
        Some(seconds) => seconds,
        None => DEFAULT_WINDOW_SECONDS,
    };
    match (range_error(seconds, MAX_WINDOW_SECONDS), stale_after) {
        (Some(error), _) => Err(error),
        (None, Some(stale)) => match range_error(stale, MAX_STALE_AFTER_SECONDS) {
            Some(error) => Err(error),
            None => Ok(DiscoverArgs { events, window: seconds, stale_after }),
        },
        (None, None) => Ok(DiscoverArgs { events, window: seconds, stale_after }),
    }
}

impl Default for DiscoverArgs {
    fn default() -> (r: Self)
        ensures
            r == (DiscoverArgs {
                events: false,
                window: DEFAULT_WINDOW_SECONDS,
                stale_after: None,
            }),
    {
        DiscoverArgs { events: false, window: DEFAULT_WINDOW_SECONDS, stale_after: None }
    }
}

impl DiscoverArgs {
    /// Holds what the user asked for to its supported ranges. The window comes first.
    pub fn new(events: bool, window: Option<u64>, stale_after: Option<u64>) -> (r: Result<
        Self,
        DurationRangeError,
    >)
        ensures
            ({
                let seconds = match window {
                    Some(seconds) => seconds,
                    None => DEFAULT_WINDOW_SECONDS,
                };
                match (range_error(seconds, MAX_WINDOW_SECONDS), stale_after) {
                    (Some(error), _) => r == Err::<Self, DurationRangeError>(error),
                    (None, Some(stale)) if range_error(stale, MAX_STALE_AFTER_SECONDS) is Some => r
                        == Err::<Self, DurationRangeError>(
                        range_error(stale, MAX_STALE_AFTER_SECONDS)->0,
                    ),
                    _ => r == Ok::<Self, DurationRangeError>(
                        DiscoverArgs { events, window: seconds, stale_after },
                    ),
                }
            }),            r == args_for(events, window, stale_after),
    {
        let seconds: u64 = match window {
            Some(seconds) => seconds,
            None => DEFAULT_WINDOW_SECONDS,
        };
        if seconds == 0 || seconds > MAX_WINDOW_SECONDS {
            return Err(DurationRangeError { seconds, maximum: MAX_WINDOW_SECONDS });
        }
        if let Some(stale) = stale_after {
            if stale == 0 || stale > MAX_STALE_AFTER_SECONDS {
                return Err(DurationRangeError { seconds: stale, maximum: MAX_STALE_AFTER_SECONDS });
            }
        }
        Ok(DiscoverArgs { events, window: seconds, stale_after })
    }
}

/// A discovery command failure that keeps infrastructure detail behind the boundary.
///
/// The descriptions of operating-system failures are texts for display.
#[derive(Debug, PartialEq, Eq)]
pub enum DiscoveryCliError {
    /// The interrupt handler could not be installed.
    Interrupt(String),
    /// Discovery could not be started.
    Start(DiscoveryBrowserError),
    /// Discovery resources could not be stopped cleanly.
    Shutdown(DiscoveryBrowserError),
    /// Command output could not be written.
    Output(String),
}

/// What caused a discovery command failure.
#[derive(Debug, PartialEq, Eq)]
pub enum DiscoveryCliErrorSource<'a> {
    /// The operating system reported this.
    Io(&'a str),
    /// Browsing failed.
    Browser(&'a DiscoveryBrowserError),
}

impl DiscoveryCliError {
    /// The description of the failure.
    pub open spec fn text(self) -> Seq<char> {
        match self {
            DiscoveryCliError::Interrupt(source) => "failed to install the interrupt handler: "@
                + source@,
            DiscoveryCliError::Start(source) => "failed to start discovery: "@
                + source@.kind.text(),
            DiscoveryCliError::Shutdown(source) => "failed to stop discovery cleanly: "@
                + source@.kind.text(),
            DiscoveryCliError::Output(source) => "failed to write command output: "@ + source@,
        }
    }

    /// Describes the failure.
    pub fn message(&self) -> (s: String)
        ensures
            s@ == self.text(),
    {
        match self {
            DiscoveryCliError::Interrupt(source) => String::from_str(
                "failed to install the interrupt handler: ",
            ).concat(source.as_str()),
            DiscoveryCliError::Start(source) => String::from_str(
                "failed to start discovery: ",
            ).concat(source.message().as_str()),
            DiscoveryCliError::Shutdown(source) => String::from_str(
                "failed to stop discovery cleanly: ",
            ).concat(source.message().as_str()),
            DiscoveryCliError::Output(source) => String::from_str(
                "failed to write command output: ",
            ).concat(source.as_str()),
        }
    }

    /// The cause of the failure.
    pub fn source(&self) -> (r: DiscoveryCliErrorSource)
        ensures
            match (*self, r) {
                (DiscoveryCliError::Interrupt(source), DiscoveryCliErrorSource::Io(e)) => e@
                    == source@,
                (DiscoveryCliError::Output(source), DiscoveryCliErrorSource::Io(e)) => e@
                    == source@,
                (DiscoveryCliError::Start(source), DiscoveryCliErrorSource::Browser(e)) => *e
                    == source,
                (DiscoveryCliError::Shutdown(source), DiscoveryCliErrorSource::Browser(e)) => *e
                    == source,
                _ => false,
            },
    {
        match self {
            DiscoveryCliError::Interrupt(source) => DiscoveryCliErrorSource::Io(source.as_str()),
            DiscoveryCliError::Output(source) => DiscoveryCliErrorSource::Io(source.as_str()),
            DiscoveryCliError::Start(source) => DiscoveryCliErrorSource::Browser(source),
            DiscoveryCliError::Shutdown(source) => DiscoveryCliErrorSource::Browser(source),
        }
    }
}

/// What to do while waiting for the next browser event.
#[derive(Debug)]
pub enum WaitStep {
    /// Apply this event.
    Apply(DiscoveryBrowserEvent),
    /// The pass is over: it was cancelled, or its window has elapsed.
    Over,
    /// Sleep for the poll interval, then poll again.
    Sleep,
}

/// Decides what to do after one poll of the browser. An event that is there is applied
/// even when the pass is about to end.
pub fn after_poll(
    polled: Option<DiscoveryBrowserEvent>,
    cancelled: bool,
    window_elapsed: bool,
) -> (r: WaitStep)
    ensures
        match polled {
            Some(event) => r == WaitStep::Apply(event),
            None => if cancelled || window_elapsed {
                r is Over
            } else {
                r is Sleep
            },
        },
{
    match polled {
        Some(event) => WaitStep::Apply(event),
        None => if cancelled || window_elapsed {
            WaitStep::Over
        } else {
            WaitStep::Sleep
        },
    }
}

/// The line that lists a lifecycle event.
pub open spec fn transition_line(transition: TransitionModel) -> Seq<char> {
    match transition {
        TransitionModel::Appeared(key) => "appeared   "@ + key,
        TransitionModel::Refreshed(key) => "refreshed  "@ + key,
        TransitionModel::Updated(key) => "updated    "@ + key,
        TransitionModel::Removed(key, DiscoveredPeerRemovalReason::Explicit) => "removed    "@ + key
            + "  (no longer advertised)"@,
        TransitionModel::Removed(key, DiscoveredPeerRemovalReason::Expired) => "expired    "@ + key
            + "  (not re-observed)"@,
        TransitionModel::Noop(key, DiscoveredPeerNoopReason::AlreadyAbsent) => "ignored    "@ + key
            + "  (already absent)"@,
        TransitionModel::Noop(key, DiscoveredPeerNoopReason::Stale) => "ignored    "@ + key
            + "  (superseded observation)"@,
        TransitionModel::Rejected(error) => "rejected   "@ + error.kind.text(),
    }
}

/// Renders the line that lists a lifecycle event.
pub fn render_transition(transition: &DiscoveredPeerTransition) -> (s: String)
    ensures
        s@ == transition_line(transition@),
{
    match transition {
        DiscoveredPeerTransition::Appeared(key) => String::from_str("appeared   ").concat(
            key.as_str(),
        ),
        DiscoveredPeerTransition::Refreshed(key) => String::from_str("refreshed  ").concat(
            key.as_str(),
        ),
        DiscoveredPeerTransition::Updated(key) => String::from_str("updated    ").concat(
            key.as_str(),
        ),
        DiscoveredPeerTransition::Removed { key, reason } => match reason {
            DiscoveredPeerRemovalReason::Explicit => String::from_str("removed    ").concat(
                key.as_str(),
            ).concat("  (no longer advertised)"),
            DiscoveredPeerRemovalReason::Expired => String::from_str("expired    ").concat(
                key.as_str(),
            ).concat("  (not re-observed)"),
        },
        DiscoveredPeerTransition::Noop { key, reason } => match reason {
            DiscoveredPeerNoopReason::AlreadyAbsent => String::from_str("ignored    ").concat(
                key.as_str(),
            ).concat("  (already absent)"),
            DiscoveredPeerNoopReason::Stale => String::from_str("ignored    ").concat(
                key.as_str(),
            ).concat("  (superseded observation)"),
        },
        DiscoveredPeerTransition::Rejected(error) => String::from_str("rejected   ").concat(
            error.message().as_str(),
        ),
    }
}

/// The contents of a device card.
pub struct CardModel {
    /// The transient session key.
    pub session: Seq<char>,
    /// The name hint.
    pub name: Option<Seq<char>>,
    /// The platform hint.
    pub platform: Option<DiscoveryPlatformHint>,
    /// The shared protocol major version.
    pub protocol_major: u16,
    /// The texts of the socket addresses.
    pub addresses: Seq<Seq<char>>,
}

/// A render-ready projection of one visible peer.
#[derive(Clone, Debug, PartialEq, Eq)]
pub struct DeviceCard {
    /// The transient session key.
    pub session: String,
    /// The name hint.
    pub name: Option<String>,
    /// The platform hint.
    pub platform: Option<DiscoveryPlatformHint>,
    /// The shared protocol major version.
    pub protocol_major: u16,
    /// The texts of the socket addresses.
    pub addresses: Vec<String>,
}

impl View for DeviceCard {
    type V = CardModel;

    open spec fn view(&self) -> CardModel {
        CardModel {
            session: self.session@,
            name: match self.name {
                Some(name) => Some(name@),
                None => None,
            },
            platform: self.platform,
            protocol_major: self.protocol_major,
            addresses: text::text_views(self.addresses@),
        }
    }
}

/// The text of a socket address, given the text of its IP address: an IPv6 address
/// stands in brackets, with the interface scope that belongs to it.
pub open spec fn socket_text(endpoint: DiscoveryEndpoint, address: Seq<char>, port: u16) -> Seq<
    char,
> {
    match endpoint.address {
        IpAddress::V4(_) => address + ":"@ + text::decimal(port as nat),
        IpAddress::V6(_) => match endpoint.scope_id {
            Some(scope) => "["@ + address + "%"@ + text::decimal(scope as nat) + "]:"@
                + text::decimal(port as nat),
            None => "["@ + address + "]:"@ + text::decimal(port as nat),
        },
    }
}

/// Renders a socket address, given the text of its IP address.
pub fn socket_address(endpoint: &DiscoveryEndpoint, address: &str, port: u16) -> (s: String)
    ensures
        s@ == socket_text(*endpoint, address@, port),
{
    let port_text = decimal_text(port as u64);
    match endpoint.address {
        IpAddress::V4(_) => address.to_owned().concat(":").concat(port_text.as_str()),
        IpAddress::V6(_) => match endpoint.scope_id {
            Some(scope) => String::from_str("[").concat(address).concat("%").concat(
                decimal_text(scope as u64).as_str(),
            ).concat("]:").concat(port_text.as_str()),
            None => String::from_str("[").concat(address).concat("]:").concat(port_text.as_str()),
        },
    }
}

/// The card of a visible peer, given the texts of its IP addresses.
pub open spec fn card_of(peer: browser::PeerModel, addresses: Seq<Seq<char>>) -> CardModel {
    CardModel {
        session: peer.key,
        name: peer.metadata.name,
        platform: peer.metadata.platform,
        protocol_major: peer.protocol_major,
        addresses: Seq::new(
            peer.endpoints.len(),
            |i: int| socket_text(peer.endpoints[i], addresses[i], peer.port),
        ),
    }
}

impl DeviceCard {
    /// Projects a visible peer, given the texts of its IP addresses in the order of its
    /// endpoints.
    pub fn from_peer(peer: &DiscoveredPeer, addresses: &[String]) -> (r: Self)
        requires
            addresses@.len() == peer@.endpoints.len(),
        ensures
            r@ == card_of(peer@, text::text_views(addresses@)),
    {
        let port = peer.port();
        let endpoints = peer.endpoints();
        let mut texts: Vec<String> = Vec::new();
        let mut i: usize = 0;
        while i < endpoints.len()
            invariant
                i <= endpoints.len(),
                endpoints@ == peer@.endpoints,
                port == peer@.port,
                addresses@.len() == endpoints@.len(),
                texts@.len() == i,
                forall|k: int|
                    0 <= k < i ==> (#[trigger] texts@[k])@ == socket_text(
                        endpoints@[k],
                        addresses@[k]@,
                        port,
                    ),
            decreases endpoints.len() - i,
        {
            texts.push(socket_address(&endpoints[i], addresses[i].as_str(), port));
            i = i + 1;
        }
        let card = DeviceCard {
            session: peer.key().as_str().to_owned(),
            name: match peer.metadata().name() {
                Some(hint) => Some(hint.as_str().to_owned()),
                None => None,
            },
            platform: peer.metadata().platform(),
            protocol_major: peer.protocol_major(),
            addresses: texts,
        };
        assert(card@.addresses =~= card_of(peer@, text::text_views(addresses@)).addresses);
        card
    }
}

/// The contents of cards.
pub open spec fn card_views(cards: Seq<DeviceCard>) -> Seq<CardModel> {
    cards.map_values(|card: DeviceCard| card@)
}

/// The cards of one session, in their order.
pub open spec fn with_session(cards: Seq<CardModel>, session: Seq<char>) -> Seq<CardModel>
    decreases cards.len(),
{
    if cards.len() == 0 {
        Seq::empty()
    } else {
        let rest = with_session(cards.drop_last(), session);
        if cards.last().session == session {
            rest.push(cards.last())
        } else {
            rest
        }
    }
}

/// No card stands behind one whose session key is greater.
pub open spec fn in_session_order(cards: Seq<CardModel>) -> bool {
    forall|i: int, j: int|
        0 <= i < j < cards.len() ==> !text::text_less(
            (#[trigger] cards[j]).session,
            (#[trigger] cards[i]).session,
        )
}

/// A sequence holds the given cards in the order of their session keys, and those of
/// one session in their given order.
pub open spec fn is_ordered(ordered: Seq<CardModel>, cards: Seq<CardModel>) -> bool {
    &&& in_session_order(ordered)
    &&& forall|session: Seq<char>|
        #![trigger with_session(ordered, session)]
        #![trigger with_session(cards, session)]
        with_session(ordered, session) == with_session(cards, session)
}

/// The cards in the order in which they are listed.
pub open spec fn ordered_cards(cards: Seq<CardModel>) -> Seq<CardModel> {
    choose|ordered: Seq<CardModel>| is_ordered(ordered, cards)
}

/// The cards of a session are there only if one of the cards is.
proof fn lemma_with_session(cards: Seq<CardModel>, session: Seq<char>)
    ensures
        with_session(cards, session).len() > 0 <==> exists|i: int|
            0 <= i < cards.len() && (#[trigger] cards[i]).session == session,
    decreases cards.len(),
{
    if cards.len() > 0 {
        let rest = cards.drop_last();
        lemma_with_session(rest, session);
        assert forall|i: int| 0 <= i < rest.len() implies rest[i] == #[trigger] cards[i] by {}
        if with_session(rest, session).len() > 0 {
            let i = choose|i: int| 0 <= i < rest.len() && (#[trigger] rest[i]).session == session;
            assert(cards[i].session == session);
        }
        assert(cards[cards.len() - 1] == cards.last());
    }
}

/// The order in which cards are listed is determined by the cards.
pub proof fn card_order_is_unique(a: Seq<CardModel>, b: Seq<CardModel>, cards: Seq<CardModel>)
    requires
        is_ordered(a, cards),
        is_ordered(b, cards),
    ensures
        a == b,
{
    assert forall|session: Seq<char>| #[trigger] with_session(a, session) == with_session(
        b,
        session,
    ) by {
        assert(with_session(a, session) == with_session(cards, session));
        assert(with_session(b, session) == with_session(cards, session));
    }
    lemma_same_sessions(a, b);
}

/// Ordered sequences with the same cards in every session are equal.
proof fn lemma_same_sessions(a: Seq<CardModel>, b: Seq<CardModel>)
    requires
        in_session_order(a),
        in_session_order(b),
        forall|session: Seq<char>| #[trigger]
            with_session(a, session) == with_session(b, session),
    ensures
        a == b,
    decreases a.len(),
{
    if a.len() == 0 || b.len() == 0 {
        if a.len() > 0 {
            assert(a[a.len() - 1].session == a.last().session);
            lemma_with_session(a, a.last().session);
            assert(with_session(a, a.last().session).len() > 0);
        }
        if b.len() > 0 {
            assert(b[b.len() - 1].session == b.last().session);
            lemma_with_session(b, b.last().session);
            assert(with_session(a, b.last().session).len() > 0);
        }
        assert(a =~= b);
    } else {
        let s = a.last().session;
        let t = b.last().session;
        assert(a[a.len() - 1].session == s);
        assert(b[b.len() - 1].session == t);
        lemma_with_session(a, s);
        lemma_with_session(b, s);
        lemma_with_session(a, t);
        lemma_with_session(b, t);
        assert(with_session(b, s).len() > 0);
        assert(with_session(a, t).len() > 0);
        let i = choose|i: int| 0 <= i < b.len() && (#[trigger] b[i]).session == s;
        let j = choose|j: int| 0 <= j < a.len() && (#[trigger] a[j]).session == t;
        text::lemma_text_order(s, t);
        assert(!text::text_less(t, s)) by {
            assert(!text::text_less(b[b.len() - 1].session, b[i].session));
        }
        assert(!text::text_less(s, t)) by {
            assert(!text::text_less(a[a.len() - 1].session, a[j].session));
        }
        assert(s == t);
        let x = with_session(a.drop_last(), s);
        let y = with_session(b.drop_last(), s);
        assert(x.push(a.last()) == y.push(b.last()));
        assert(x.push(a.last()).last() == a.last());
        assert(y.push(b.last()).last() == b.last());
        assert(a.last() == b.last());
        assert(x.push(a.last()).drop_last() =~= x);
        assert(y.push(b.last()).drop_last() =~= y);
        assert forall|session: Seq<char>| #[trigger]
            with_session(a.drop_last(), session) == with_session(b.drop_last(), session) by {
            assert(with_session(a, session) == with_session(b, session));
        }
        lemma_same_sessions(a.drop_last(), b.drop_last());
        assert(a =~= a.drop_last().push(a.last()));
        assert(b =~= b.drop_last().push(b.last()));
    }
}

/// Inserting a card behind the last one of its session adds it to that session alone.
proof fn lemma_insert_card(ordered: Seq<CardModel>, k: int, card: CardModel, session: Seq<char>)
    requires
        0 <= k <= ordered.len(),
        forall|i: int| k <= i < ordered.len() ==> (#[trigger] ordered[i]).session != card.session,
    ensures
        with_session(ordered.insert(k, card), session) == if session == card.session {
            with_session(ordered, session).push(card)
        } else {
            with_session(ordered, session)
        },
    decreases ordered.len(),
{
    let after = ordered.insert(k, card);
    if k == ordered.len() {
        assert(after.drop_last() =~= ordered);
        assert(after.last() == card);
    } else {
        let rest = ordered.drop_last();
        assert forall|i: int| k <= i < rest.len() implies (#[trigger] rest[i]).session
            != card.session by {
            assert(rest[i] == ordered[i]);
        }
        lemma_insert_card(rest, k, card, session);
        assert(after.drop_last() =~= rest.insert(k, card));
        assert(after.last() == ordered.last());
        assert(ordered[ordered.len() - 1].session != card.session);
    }
}

/// The contents of borrowed cards.
spec fn borrowed_views(cards: Seq<&DeviceCard>) -> Seq<CardModel> {
    cards.map_values(|card: &DeviceCard| card@)
}

/// Orders cards by session key, keeping those of one session in their order.
fn order_cards(cards: &[DeviceCard]) -> (r: Vec<&DeviceCard>)
    ensures
        borrowed_views(r@) == ordered_cards(card_views(cards@)),
        is_ordered(borrowed_views(r@), card_views(cards@)),
        r@.len() == cards@.len(),
{
    let ghost all = card_views(cards@);
    let mut ordered: Vec<&DeviceCard> = Vec::new();
    let mut i: usize = 0;
    while i < cards.len()
        invariant
            i <= cards.len(),
            all == card_views(cards@),
            ordered@.len() == i,
            is_ordered(borrowed_views(ordered@), all.take(i as int)),
        decreases cards.len() - i,
    {
        let card = &cards[i];
        let mut k: usize = ordered.len();
        while k > 0 && text_precedes(card.session.as_str(), ordered[k - 1].session.as_str())
            invariant
                k <= ordered.len(),
                in_session_order(borrowed_views(ordered@)),
                forall|j: int|
                    k <= j < ordered.len() ==> text::text_less(
                        card@.session,
                        (#[trigger] borrowed_views(ordered@)[j]).session,
                    ),
            decreases k,
        {
            k = k - 1;
            assert(borrowed_views(ordered@)[k as int] == ordered@[k as int]@);
        }
        let ghost before = borrowed_views(ordered@);
        proof {
            lemma_place(before, k as int, card@);
        }
        ordered.insert(k, card);
        proof {
            let after = borrowed_views(ordered@);
            assert(after =~= before.insert(k as int, card@));
            assert(all.take(i + 1).drop_last() =~= all.take(i as int));
            assert(all.take(i + 1).last() == card@);
            assert forall|session: Seq<char>| #[trigger] with_session(after, session)
                == with_session(all.take(i + 1), session) by {
                lemma_insert_card(before, k as int, card@, session);
                assert(with_session(before, session) == with_session(all.take(i as int), session));
            }
        }
        i = i + 1;
    }
    proof {
        assert(all.take(i as int) =~= all);
        card_order_is_unique(borrowed_views(ordered@), ordered_cards(all), all);
    }
    ordered
}

/// A card inserted before the first one of a greater session keeps the order.
proof fn lemma_place(before: Seq<CardModel>, k: int, card: CardModel)
    requires
        in_session_order(before),
        0 <= k <= before.len(),
        k > 0 ==> !text::text_less(card.session, before[k - 1].session),
        forall|j: int|
            k <= j < before.len() ==> text::text_less(card.session, (#[trigger] before[j]).session),
    ensures
        in_session_order(before.insert(k, card)),
        forall|j: int| k <= j < before.len() ==> (#[trigger] before[j]).session != card.session,
{
    let after = before.insert(k, card);
    text::lemma_text_order_is_strict();
    let less = text::text_order();
    assert forall|j: int| k <= j < before.len() implies (#[trigger] before[j]).session
        != card.session by {
        text::lemma_text_order(card.session, card.session);
    }
    assert forall|i: int, j: int| 0 <= i < j < after.len() implies !text::text_less(
        (#[trigger] after[j]).session,
        (#[trigger] after[i]).session,
    ) by {
        if j < k {
            assert(after[i] == before[i] && after[j] == before[j]);
        } else if j == k {
            assert(after[i] == before[i]);
            if i < k - 1 {
                assert(!text::text_less(before[k - 1].session, before[i].session));
            }
            if less(card.session, before[i].session) {
                text::lemma_text_order(before[i].session, before[k - 1].session);
                if i < k - 1 && before[i].session != before[k - 1].session {
                    assert(less(before[i].session, before[k - 1].session));
                    assert(less(card.session, before[k - 1].session));
                }
            }
        } else if i < k {
            assert(after[i] == before[i] && after[j] == before[j - 1]);
        } else if i == k {
            assert(after[j] == before[j - 1]);
            text::lemma_text_order(card.session, before[j - 1].session);
        } else {
            assert(after[i] == before[i - 1] && after[j] == before[j - 1]);
        }
    }
}

/// Where a card goes among ordered ones: behind every card whose session is not greater.
proof fn lemma_card_place(before: Seq<CardModel>, card: CardModel) -> (k: int)
    requires
        in_session_order(before),
    ensures
        0 <= k <= before.len(),
        k > 0 ==> !text::text_less(card.session, before[k - 1].session),
        forall|j: int|
            k <= j < before.len() ==> text::text_less(card.session, (#[trigger] before[j]).session),
    decreases before.len(),
{
    if before.len() > 0 && text::text_less(card.session, before.last().session) {
        let rest = before.drop_last();
        assert forall|i: int, j: int| 0 <= i < j < rest.len() implies !text::text_less(
            (#[trigger] rest[j]).session,
            (#[trigger] rest[i]).session,
        ) by {
            assert(!text::text_less(before[j].session, before[i].session));
        }
        let k = lemma_card_place(rest, card);
        assert forall|j: int| k <= j < before.len() implies text::text_less(
            card.session,
            (#[trigger] before[j]).session,
        ) by {
            if j < rest.len() {
                assert(rest[j] == before[j]);
            }
        }
        k
    } else {
        before.len() as int
    }
}

/// Any cards have an order in which they are listed.
pub proof fn card_order_exists(cards: Seq<CardModel>)
    ensures
        is_ordered(ordered_cards(cards), cards),
    decreases cards.len(),
{
    if cards.len() == 0 {
        assert(is_ordered(cards, cards));
    } else {
        let rest = cards.drop_last();
        let card = cards.last();
        card_order_exists(rest);
        let before = ordered_cards(rest);
        let k = lemma_card_place(before, card);
        lemma_place(before, k, card);
        let after = before.insert(k, card);
        assert forall|session: Seq<char>| #[trigger] with_session(after, session) == with_session(
            cards,
            session,
        ) by {
            lemma_insert_card(before, k, card, session);
            assert(with_session(before, session) == with_session(rest, session));
        }
        assert(is_ordered(after, cards));
    }
}

/// Parts joined by a separator.
pub open spec fn joined(parts: Seq<Seq<char>>, separator: Seq<char>) -> Seq<char>
    decreases parts.len(),
{
    if parts.len() == 0 {
        Seq::empty()
    } else if parts.len() == 1 {
        parts[0]
    } else {
        joined(parts.drop_last(), separator) + separator + parts.last()
    }
}

/// Joins parts by a separator.
fn join(parts: &[String], separator: &str) -> (s: String)
    ensures
        s@ == joined(text::text_views(parts@), separator@),
{
    let ghost views = text::text_views(parts@);
    let mut s = String::from_str("");
    proof {
        reveal_strlit("");
    }
    let mut i: usize = 0;
    while i < parts.len()
        invariant
            i <= parts.len(),
            views == text::text_views(parts@),
            s@ == joined(views.take(i as int), separator@),
        decreases parts.len() - i,
    {
        assert(views.take(i + 1).drop_last() =~= views.take(i as int));
        assert(views.take(i + 1).last() == parts@[i as int]@);
        if i > 0 {
            s.append(separator);
        }
        let ghost before = s@;
        s.append(parts[i].as_str());
        assert(i == 0 ==> before + parts@[i as int]@ =~= parts@[i as int]@);
        i = i + 1;
    }
    assert(views.take(i as int) =~= views);
    s
}

/// What a platform hint is called.
pub open spec fn platform_label(platform: Option<DiscoveryPlatformHint>) -> Seq<char> {
    match platform {
        Some(DiscoveryPlatformHint::MacOs) => "macOS"@,
        Some(DiscoveryPlatformHint::Windows) => "Windows"@,
        Some(DiscoveryPlatformHint::Linux) => "Linux"@,
        None => "unknown platform"@,
    }
}

/// Names a platform hint.
fn hint_label(platform: Option<DiscoveryPlatformHint>) -> (s: &'static str)
    ensures
        s@ == platform_label(platform),
{
    match platform {
        Some(DiscoveryPlatformHint::MacOs) => "macOS",
        Some(DiscoveryPlatformHint::Windows) => "Windows",
        Some(DiscoveryPlatformHint::Linux) => "Linux",
        None => "unknown platform",
    }
}

/// The lines that list a card, with the empty one before it.
pub open spec fn card_lines(card: CardModel) -> Seq<Seq<char>> {
    seq![
        Seq::empty(),
        "- "@ + (match card.name {
            Some(name) => name,
            None => "unnamed"@,
        }) + " ("@ + platform_label(card.platform) + ")"@,
        "  session:  "@ + card.session,
        "  protocol: "@ + text::decimal(card.protocol_major as nat),
        "  address:  "@ + joined(card.addresses, ", "@),
    ]
}

/// The lines that list cards.
pub open spec fn all_card_lines(cards: Seq<CardModel>) -> Seq<Seq<char>>
    decreases cards.len(),
{
    if cards.len() == 0 {
        Seq::empty()
    } else {
        all_card_lines(cards.drop_last()) + card_lines(cards.last())
    }
}

/// The lines that list the visible devices.
pub open spec fn snapshot_lines(cards: Seq<CardModel>) -> Seq<Seq<char>> {
    if cards.len() == 0 {
        seq!["No nearby devices are currently visible."@]
    } else {
        seq![text::decimal(cards.len()) + " nearby device(s) currently visible:"@]
            + all_card_lines(ordered_cards(cards))
    }
}

/// The lines that list the lifecycle events.
pub open spec fn event_lines(events: Seq<Seq<char>>) -> Seq<Seq<char>> {
    if events.len() == 0 {
        seq![Seq::empty(), "No discovery events were observed."@]
    } else {
        seq![Seq::empty()] + events
    }
}

/// The lines of a report: the standing reminder, the events if they are shown, and the
/// visible devices.
pub open spec fn report_lines(
    show_events: bool,
    events: Seq<Seq<char>>,
    cards: Seq<CardModel>,
) -> Seq<Seq<char>> {
    seq![ADVISORY_NOTICE@] + (if show_events {
        event_lines(events)
    } else {
        Seq::empty()
    }) + seq![Seq::empty()] + snapshot_lines(cards)
}

/// Lines as one text, each with a line break behind it.
pub open spec fn lines_text(lines: Seq<Seq<char>>) -> Seq<char>
    decreases lines.len(),
{
    if lines.len() == 0 {
        Seq::empty()
    } else {
        lines_text(lines.drop_last()) + lines.last() + seq!['\n']
    }
}

/// The text of a report that grows line by line.
struct Report {
    text: String,
    lines: Ghost<Seq<Seq<char>>>,
}

impl Report {
    /// The text is that of the lines.
    spec fn wf(self) -> bool {
        self.text@ == lines_text(self.lines@)
    }

    /// A report without lines.
    fn new() -> (r: Self)
        ensures
            r.wf(),
            r.lines@ == Seq::<Seq<char>>::empty(),
    {
        proof {
            reveal_strlit("");
        }
        let text = String::from_str("");
        assert(text@ =~= Seq::<char>::empty());
        Report { text, lines: Ghost(Seq::empty()) }
    }

    /// Adds a line.
    fn put(&mut self, line: &str)
        requires
            old(self).wf(),
        ensures
            final(self).wf(),
            final(self).lines@ == old(self).lines@.push(line@),
    {
        self.text.append(line);
        self.text.push('\n');
        let ghost lines = self.lines@.push(line@);
        assert(lines.drop_last() =~= self.lines@);
        self.lines = Ghost(lines);
        assert(self.text@ =~= lines_text(lines));
    }

    /// Adds an empty line.
    fn put_empty(&mut self)
        requires
            old(self).wf(),
        ensures
            final(self).wf(),
            final(self).lines@ == old(self).lines@.push(Seq::<char>::empty()),
    {
        proof {
            reveal_strlit("");
        }
        assert(""@ =~= Seq::<char>::empty());
        self.put("");
    }

    /// Adds the lines that list a card.
    fn put_card(&mut self, card: &DeviceCard)
        requires
            old(self).wf(),
        ensures
            final(self).wf(),
            final(self).lines@ == old(self).lines@ + card_lines(card@),
    {
        let ghost before = self.lines@;
        self.put_empty();
        let name = match &card.name {
            Some(name) => name.as_str(),
            None => "unnamed",
        };
        self.put(
            String::from_str("- ").concat(name).concat(" (").concat(
                hint_label(card.platform),
            ).concat(")").as_str(),
        );
        self.put(String::from_str("  session:  ").concat(card.session.as_str()).as_str());
        self.put(
            String::from_str("  protocol: ").concat(
                decimal_text(card.protocol_major as u64).as_str(),
            ).as_str(),
        );
        self.put(
            String::from_str("  address:  ").concat(
                join(card.addresses.as_slice(), ", ").as_str(),
            ).as_str(),
        );
        assert(self.lines@ =~= before + card_lines(card@));
    }

    /// Adds the lines that list the visible devices.
    fn put_snapshot(&mut self, cards: &[DeviceCard])
        requires
            old(self).wf(),
        ensures
            final(self).wf(),
            final(self).lines@ == old(self).lines@ + snapshot_lines(card_views(cards@)),
    {
        let ghost before = self.lines@;
        let ghost all = card_views(cards@);
        if cards.len() == 0 {
            self.put("No nearby devices are currently visible.");
            assert(self.lines@ =~= before + snapshot_lines(all));
            return;
        }
        let ordered = order_cards(cards);
        let ghost listed = borrowed_views(ordered@);
        self.put(
            decimal_text(ordered.len() as u64).concat(
                " nearby device(s) currently visible:",
            ).as_str(),
        );
        let ghost header = self.lines@;
        let mut i: usize = 0;
        while i < ordered.len()
            invariant
                i <= ordered.len(),
                self.wf(),
                listed == borrowed_views(ordered@),
                self.lines@ == header + all_card_lines(listed.take(i as int)),
            decreases ordered.len() - i,
        {
            assert(listed.take(i + 1).drop_last() =~= listed.take(i as int));
            assert(listed.take(i + 1).last() == ordered@[i as int]@);
            self.put_card(ordered[i]);
            assert(self.lines@ =~= header + all_card_lines(listed.take(i + 1)));
            i = i + 1;
        }
        assert(listed.take(i as int) =~= listed);
        assert(self.lines@ =~= before + snapshot_lines(all));
    }
}

/// Writes the report of a pass.
pub fn write_report(show_events: bool, events: &[String], cards: &[DeviceCard]) -> (s: String)
    ensures
        s@ == lines_text(
            report_lines(show_events, text::text_views(events@), card_views(cards@)),
        ),
{
    let ghost shown = text::text_views(events@);
    let mut report = Report::new();
    report.put(ADVISORY_NOTICE);
    let ghost start = report.lines@;
    assert(start =~= seq![ADVISORY_NOTICE@]);
    if show_events {
        report.put_empty();
        if events.len() == 0 {
            report.put("No discovery events were observed.");
        } else {
            let mut i: usize = 0;
            assert(report.lines@ =~= start + seq![Seq::<char>::empty()] + shown.take(0));
            while i < events.len()
                invariant
                    i <= events.len(),
                    report.wf(),
                    shown == text::text_views(events@),
                    report.lines@ == start + seq![Seq::<char>::empty()] + shown.take(i as int),
                decreases events.len() - i,
            {
                report.put(events[i].as_str());
                assert(shown.take(i + 1) =~= shown.take(i as int).push(events@[i as int]@));
                assert(report.lines@ =~= start + seq![Seq::<char>::empty()] + shown.take(i + 1));
                i = i + 1;
            }
            assert(shown.take(i as int) =~= shown);
        }
        assert(report.lines@ =~= start + event_lines(shown));
    }
    report.put_empty();
    report.put_snapshot(cards);
    assert(report.lines@ =~= report_lines(show_events, shown, card_views(cards@)));
    report.text
}

/// A step of an observation pass.
#[derive(Debug)]
pub enum ObserveStep {
    /// See whether the user has asked the pass to stop early.
    CheckCancelled,
    /// Apply the next observed browser event to the lifecycle state, if the pass is not
    /// over.
    NextTransition,
    /// Expire entries of the lifecycle state that are older than this.
    Expire { stale_after: Duration, last: bool },
    /// Stop the underlying discovery resources, then render the visible peers.
    Stop,
    /// Write this report. The resources stopped like this.
    Write { report: String, stopped: Result<(), DiscoveryBrowserError> },
    /// The pass is over.
    Done(Result<(), DiscoveryCliError>),
}

/// The result of a pass: a report that could not be written comes first, then a session
/// that did not stop cleanly.
pub open spec fn pass_result(
    stopped: Result<(), DiscoveryBrowserError>,
    written: Result<(), String>,
) -> Result<(), DiscoveryCliError> {
    match written {
        Err(source) => Err(DiscoveryCliError::Output(source)),
        Ok(_) => match stopped {
            Err(error) => Err(DiscoveryCliError::Shutdown(error)),
            Ok(_) => Ok(()),
        },
    }
}

/// The contents of an observation pass.
pub struct ObservationModel {
    /// Whether the lifecycle events are listed.
    pub show_events: bool,
    /// The seconds after which silent devices are dropped.
    pub stale_after: Option<u64>,
    /// The lines that list the events so far.
    pub events: Seq<Seq<char>>,
}

/// The contents of transitions.
pub open spec fn transition_views(transitions: Seq<DiscoveredPeerTransition>) -> Seq<
    TransitionModel,
> {
    transitions.map_values(|transition: DiscoveredPeerTransition| transition@)
}

/// The lines that list transitions.
pub open spec fn transition_lines(transitions: Seq<TransitionModel>) -> Seq<Seq<char>> {
    transitions.map_values(|transition: TransitionModel| transition_line(transition))
}

/// A pass after it has seen transitions.
pub open spec fn recorded(
    pass: ObservationModel,
    transitions: Seq<TransitionModel>,
) -> ObservationModel {
    ObservationModel {
        events: if pass.show_events {
            pass.events + transition_lines(transitions)
        } else {
            pass.events
        },
        ..pass
    }
}

/// The step after one whose outcome calls for expiry, if the pass expires anything.
pub open spec fn is_expiry_or(step: ObserveStep, stale_after: Option<u64>, last: bool) -> bool {
    match stale_after {
        Some(seconds) => step matches ObserveStep::Expire { stale_after: window, last: l }
            && window.nanos == seconds * 1_000_000_000 && l == last,
        None => if last {
            step is Stop
        } else {
            step is CheckCancelled
        },
    }
}

/// Whether a step of a pass that drops devices after the given silence can follow
/// another.
pub open spec fn follows(from: ObserveStep, to: ObserveStep, stale_after: Option<u64>) -> bool {
    match from {
        ObserveStep::CheckCancelled => to is NextTransition || is_expiry_or(to, stale_after, true),
        ObserveStep::NextTransition => is_expiry_or(to, stale_after, false) || is_expiry_or(
            to,
            stale_after,
            true,
        ),
        ObserveStep::Expire { stale_after: _, last } => if last {
            to is Stop
        } else {
            to is CheckCancelled
        },
        ObserveStep::Stop => to is Write,
        ObserveStep::Write { report: _, stopped } => exists|written: Result<(), String>|
            to == ObserveStep::Done(#[trigger] pass_result(stopped, written)),
        ObserveStep::Done(_) => false,
    }
}

/// One observation pass over the discovery lifecycle state.
///
/// Transitions are collected as they are observed; when silent devices are dropped,
/// expiry is invoked after each event and once at the end. The session is always
/// stopped before the pass ends, and a cleanup failure is surfaced as a typed error
/// only after the collected results have been written.
#[derive(Debug)]
pub struct ObservationPass {
    show_events: bool,
    stale_after: Option<u64>,
    events: Vec<String>,
}

impl View for ObservationPass {
    type V = ObservationModel;

    closed spec fn view(&self) -> ObservationModel {
        ObservationModel {
            show_events: self.show_events,
            stale_after: self.stale_after,
            events: text::text_views(self.events@),
        }
    }
}

impl ObservationPass {
    /// Begins a pass.
    pub fn observe(args: &DiscoverArgs) -> (r: (Self, ObserveStep))
        ensures
            r.0@ == (ObservationModel {
                show_events: args.events,
                stale_after: args.stale_after,
                events: Seq::empty(),
            }),
            r.1 is CheckCancelled,
    {
        let pass = ObservationPass {
            show_events: args.events,
            stale_after: args.stale_after,
            events: Vec::new(),
        };
        assert(pass@.events =~= Seq::<Seq<char>>::empty());
        (pass, ObserveStep::CheckCancelled)
    }

    /// Goes on after seeing whether the user has cancelled the pass.
    pub fn after_check(&self, cancelled: bool) -> (r: ObserveStep)
        ensures
            if cancelled {
                is_expiry_or(r, self@.stale_after, true)
            } else {
                r is NextTransition
            },
            follows(ObserveStep::CheckCancelled, r, self@.stale_after),
    {
        if cancelled {
            self.expiry(true)
        } else {
            ObserveStep::NextTransition
        }
    }

    /// Goes on after the next browser event, or after the end of the window.
    pub fn after_transition(&mut self, transition: Option<&DiscoveredPeerTransition>) -> (r:
        ObserveStep)
        ensures
            match transition {
                Some(transition) => final(self)@ == recorded(old(self)@, seq![transition@])
                    && is_expiry_or(r, old(self)@.stale_after, false),
                None => final(self)@ == old(self)@ && is_expiry_or(r, old(self)@.stale_after, true),
            },
            follows(ObserveStep::NextTransition, r, old(self)@.stale_after),
    {
        match transition {
            Some(transition) => {
                self.record(transition);
                self.expiry(false)
            },
            None => self.expiry(true),
        }
    }

    /// Goes on after expiry.
    pub fn after_expire(&mut self, last: bool, transitions: &[DiscoveredPeerTransition]) -> (r:
        ObserveStep)
        ensures
            final(self)@ == recorded(old(self)@, transition_views(transitions@)),
            if last {
                r is Stop
            } else {
                r is CheckCancelled
            },
            forall|stale_after: Duration| #[trigger]
                follows(ObserveStep::Expire { stale_after, last }, r, old(self)@.stale_after),
    {
        let ghost start = self@;
        let ghost views = transition_views(transitions@);
        let mut i: usize = 0;
        assert(recorded(start, views.take(0)).events =~= start.events);
        while i < transitions.len()
            invariant
                i <= transitions.len(),
                views == transition_views(transitions@),
                self@ == recorded(start, views.take(i as int)),
            decreases transitions.len() - i,
        {
            let ghost before = self@;
            self.record(&transitions[i]);
            assert(views.take(i + 1) =~= views.take(i as int) + seq![transitions@[i as int]@]);
            assert(recorded(before, seq![transitions@[i as int]@]).events =~= recorded(
                start,
                views.take(i + 1),
            ).events);
            i = i + 1;
        }
        assert(views.take(i as int) =~= views);
        if last {
            ObserveStep::Stop
        } else {
            ObserveStep::CheckCancelled
        }
    }

    /// Goes on after the session was stopped, cleanly or not: now the report is written.
    pub fn after_stop(
        &self,
        stopped: Result<(), DiscoveryBrowserError>,
        cards: &[DeviceCard],
    ) -> (r: ObserveStep)
        ensures
            r matches ObserveStep::Write { report, stopped: kept } && report@ == lines_text(
                report_lines(self@.show_events, self@.events, card_views(cards@)),
            ) && kept == stopped,
            follows(ObserveStep::Stop, r, self@.stale_after),
    {
        ObserveStep::Write {
            report: write_report(self.show_events, self.events.as_slice(), cards),
            stopped,
        }
    }

    /// Ends the pass after the report was written. A cleanup failure is surfaced only
    /// where the results were written.
    pub fn after_write(
        &self,
        stopped: Result<(), DiscoveryBrowserError>,
        written: Result<(), String>,
    ) -> (r: ObserveStep)
        ensures
            r == ObserveStep::Done(pass_result(stopped, written)),
            forall|report: String| #[trigger]
                follows(ObserveStep::Write { report, stopped }, r, self@.stale_after),
    {
        match written {
            Err(source) => ObserveStep::Done(Err(DiscoveryCliError::Output(source))),
            Ok(_) => match stopped {
                Err(error) => ObserveStep::Done(Err(DiscoveryCliError::Shutdown(error))),
                Ok(_) => ObserveStep::Done(Ok(())),
            },
        }
    }

    /// Lists a transition, if events are listed.
    fn record(&mut self, transition: &DiscoveredPeerTransition)
        ensures
            final(self)@ == recorded(old(self)@, seq![transition@]),
    {
        let ghost before = self@;
        if self.show_events {
            self.events.push(render_transition(transition));
        }
        assert(self@.events =~= recorded(before, seq![transition@]).events);
    }

    /// The step after one whose outcome calls for expiry.
    fn expiry(&self, last: bool) -> (r: ObserveStep)
        ensures
            is_expiry_or(r, self@.stale_after, last),
    {
        match self.stale_after {
            Some(seconds) => ObserveStep::Expire {
                stale_after: Duration::from_secs(seconds),
                last,
            },
            None => if last {
                ObserveStep::Stop
            } else {
                ObserveStep::CheckCancelled
            },
        }
    }
}

/// Whether each step of a pass follows the one before.
pub open spec fn is_run(steps: Seq<ObserveStep>, stale_after: Option<u64>) -> bool {
    forall|i: int| 0 < i < steps.len() ==> follows(steps[i - 1], #[trigger] steps[i], stale_after)
}

/// Every pass that ends has stopped its session exactly once, after everything else but
/// the report, has then written the report once, whether or not the session stopped
/// cleanly, and ends with the result of both. A pass that drops no silent devices never
/// expires anything; one that does expires after each look for a transition and once at
/// the end.
pub proof fn session_is_stopped_once_before_the_report(
    steps: Seq<ObserveStep>,
    stale_after: Option<u64>,
    result: Result<(), DiscoveryCliError>,
)
    requires
        is_run(steps, stale_after),
        steps.len() > 0,
        steps[0] is CheckCancelled,
        steps.last() == ObserveStep::Done(result),
    ensures
        ({
            let n = steps.len() as int;
            &&& n >= 4
            &&& forall|i: int| 0 <= i < n ==> ((#[trigger] steps[i]) is Stop <==> i == n - 3)
            &&& forall|i: int| 0 <= i < n ==> ((#[trigger] steps[i]) is Write <==> i == n - 2)
            &&& forall|i: int| 0 <= i < n ==> ((#[trigger] steps[i]) is Done <==> i == n - 1)
            &&& exists|written: Result<(), String>|
                result == #[trigger] pass_result(steps[n - 2]->stopped, written)
            &&& match stale_after {
                None => forall|i: int| 0 <= i < n ==> !((#[trigger] steps[i]) is Expire),
                Some(seconds) => {
                    &&& forall|i: int|
                        0 <= i < n ==> ((#[trigger] steps[i]) is Expire && steps[i]->last <==> i
                            == n - 4)
                    &&& forall|i: int|
                        0 <= i < n && (#[trigger] steps[i]) is NextTransition ==> steps[i
                            + 1] is Expire
                    &&& forall|i: int|
                        0 <= i < n && (#[trigger] steps[i]) is Expire && !steps[i]->last ==> i > 0
                            && steps[i - 1] is NextTransition && steps[i + 1] is CheckCancelled
                    &&& forall|i: int|
                        0 <= i < n && (#[trigger] steps[i]) is Expire
                            ==> steps[i]->stale_after.nanos == seconds * 1_000_000_000
                },
            }
        }),
{
    let n = steps.len() as int;
    assert(n > 1);
    assert forall|i: int| 0 <= i < n && i != n - 1 implies !((#[trigger] steps[i]) is Done) by {
        assert(follows(steps[i], steps[i + 1], stale_after));
    }
    assert(follows(steps[n - 2], steps[n - 1], stale_after));
    assert(steps[n - 2] is Write);
    assert(follows(steps[n - 3], steps[n - 2], stale_after));
    assert(steps[n - 3] is Stop);
    assert(follows(steps[n - 4], steps[n - 3], stale_after));
    assert forall|i: int| 0 <= i < n && i != n - 2 implies !((#[trigger] steps[i]) is Write) by {
        if i < n - 1 {
            assert(follows(steps[i], steps[i + 1], stale_after));
        }
    }
    assert forall|i: int| 0 <= i < n && i != n - 3 implies !((#[trigger] steps[i]) is Stop) by {
        if i < n - 1 {
            assert(follows(steps[i], steps[i + 1], stale_after));
        }
    }
    assert forall|i: int| 0 <= i < n && (#[trigger] steps[i]) is Expire implies i > 0 && match stale_after {
        Some(seconds) => {
            &&& steps[i]->stale_after.nanos == seconds * 1_000_000_000
            &&& steps[i]->last <==> i == n - 4
            &&& !steps[i]->last ==> steps[i - 1] is NextTransition && steps[i
                + 1] is CheckCancelled
        },
        None => false,
    } by {
        assert(follows(steps[i - 1], steps[i], stale_after));
        assert(follows(steps[i], steps[i + 1], stale_after));
        if i == n - 4 {
            assert(steps[i + 1] is Stop);
        }
    }
    assert forall|i: int|
        0 <= i < n && (#[trigger] steps[i]) is NextTransition && stale_after is Some implies steps[i
        + 1] is Expire by {
        assert(follows(steps[i], steps[i + 1], stale_after));
    }
}

/// A pass that does not list events reports the same whatever it observed.
pub proof fn hidden_events_leave_no_trace(
    pass: ObservationModel,
    transitions: Seq<TransitionModel>,
    cards: Seq<CardModel>,
)
    requires
        !pass.show_events,
    ensures
        recorded(pass, transitions) == pass,
        report_lines(pass.show_events, recorded(pass, transitions).events, cards) == report_lines(
            false,
            Seq::empty(),
            cards,
        ),
{
}

/// A pass that lists events lists each of them once, in the order of observation.
pub proof fn events_are_listed_in_order(
    pass: ObservationModel,
    first: Seq<TransitionModel>,
    second: Seq<TransitionModel>,
)
    ensures
        recorded(recorded(pass, first), second) == recorded(pass, first + second),
{
    assert(transition_lines(first + second) =~= transition_lines(first) + transition_lines(second));
    assert(recorded(recorded(pass, first), second).events =~= recorded(
        pass,
        first + second,
    ).events);
}

/// The line of a refreshed observation is never that of an appearance.
pub proof fn refresh_is_never_an_appearance(a: Seq<char>, b: Seq<char>)
    ensures
        transition_line(TransitionModel::Refreshed(a)) != transition_line(
            TransitionModel::Appeared(b),
        ),
{
    reveal_strlit("refreshed  ");
    reveal_strlit("appeared   ");
    let x = transition_line(TransitionModel::Refreshed(a));
    let y = transition_line(TransitionModel::Appeared(b));
    assert(x[0] == 'r');
    assert(y[0] == 'a');
}

/// The line of a transition is its kind in a column of eleven characters, then the
/// session key that it concerns, then a remark that says why, where there is one.
pub proof fn transition_line_names_its_key(key: Seq<char>)
    ensures
        ({
            let appeared = transition_line(TransitionModel::Appeared(key));
            let refreshed = transition_line(TransitionModel::Refreshed(key));
            let updated = transition_line(TransitionModel::Updated(key));
            let removed = transition_line(
                TransitionModel::Removed(key, DiscoveredPeerRemovalReason::Explicit),
            );
            let expired = transition_line(
                TransitionModel::Removed(key, DiscoveredPeerRemovalReason::Expired),
            );
            let absent = transition_line(
                TransitionModel::Noop(key, DiscoveredPeerNoopReason::AlreadyAbsent),
            );
            let stale = transition_line(
                TransitionModel::Noop(key, DiscoveredPeerNoopReason::Stale),
            );
            let n = 11 + key.len() as int;
            &&& appeared.take(11) == "appeared   "@ && appeared.skip(11) == key
            &&& refreshed.take(11) == "refreshed  "@ && refreshed.skip(11) == key
            &&& updated.take(11) == "updated    "@ && updated.skip(11) == key
            &&& removed.take(11) == "removed    "@ && removed.subrange(11, n) == key
                && removed.skip(n) == "  (no longer advertised)"@
            &&& expired.take(11) == "expired    "@ && expired.subrange(11, n) == key
                && expired.skip(n) == "  (not re-observed)"@
            &&& absent.take(11) == "ignored    "@ && absent.subrange(11, n) == key && absent.skip(n)
                == "  (already absent)"@
            &&& stale.take(11) == "ignored    "@ && stale.subrange(11, n) == key && stale.skip(n)
                == "  (superseded observation)"@
        }),
{
    lemma_columns();
    let n = 11 + key.len() as int;
    assert(("appeared   "@ + key).take(11) =~= "appeared   "@);
    assert(("appeared   "@ + key).skip(11) =~= key);
    assert(("refreshed  "@ + key).take(11) =~= "refreshed  "@);
    assert(("refreshed  "@ + key).skip(11) =~= key);
    assert(("updated    "@ + key).take(11) =~= "updated    "@);
    assert(("updated    "@ + key).skip(11) =~= key);
    lemma_line_parts("removed    "@, key, "  (no longer advertised)"@);
    lemma_line_parts("expired    "@, key, "  (not re-observed)"@);
    lemma_line_parts("ignored    "@, key, "  (already absent)"@);
    lemma_line_parts("ignored    "@, key, "  (superseded observation)"@);
}

/// The line of a rejection is its kind in a column of eleven characters, then the
/// description of the failure.
pub proof fn rejection_line_names_the_failure(error: browser::BrowserErrorModel)
    ensures
        transition_line(TransitionModel::Rejected(error)).take(11) == "rejected   "@,
        transition_line(TransitionModel::Rejected(error)).skip(11) == error.kind.text(),
{
    lemma_columns();
    assert(("rejected   "@ + error.kind.text()).take(11) =~= "rejected   "@);
    assert(("rejected   "@ + error.kind.text()).skip(11) =~= error.kind.text());
}

proof fn lemma_line_parts(column: Seq<char>, key: Seq<char>, remark: Seq<char>)
    requires
        column.len() == 11,
    ensures
        (column + key + remark).take(11) == column,
        (column + key + remark).subrange(11, 11 + key.len() as int) == key,
        (column + key + remark).skip(11 + key.len() as int) == remark,
{
    let line = column + key + remark;
    assert(line.take(11) =~= column);
    assert(line.subrange(11, 11 + key.len() as int) =~= key);
    assert(line.skip(11 + key.len() as int) =~= remark);
}

/// The columns are eleven characters wide, and no two are the same.
proof fn lemma_columns()
    ensures
        ({
            let columns = seq![
                "appeared   "@,
                "refreshed  "@,
                "updated    "@,
                "removed    "@,
                "expired    "@,
                "ignored    "@,
                "rejected   "@,
            ];
            &&& forall|i: int| 0 <= i < 7 ==> (#[trigger] columns[i]).len() == 11
            &&& forall|i: int, j: int|
                0 <= i < 7 && 0 <= j < 7 && i != j ==> #[trigger] columns[i]
                    != #[trigger] columns[j]
        }),
        "appeared   "@.len() == 11,
        "refreshed  "@.len() == 11,
        "updated    "@.len() == 11,
        "removed    "@.len() == 11,
        "expired    "@.len() == 11,
        "ignored    "@.len() == 11,
        "rejected   "@.len() == 11,
{
    reveal_strlit("appeared   ");
    reveal_strlit("refreshed  ");
    reveal_strlit("updated    ");
    reveal_strlit("removed    ");
    reveal_strlit("expired    ");
    reveal_strlit("ignored    ");
    reveal_strlit("rejected   ");
    let columns = seq![
        "appeared   "@,
        "refreshed  "@,
        "updated    "@,
        "removed    "@,
        "expired    "@,
        "ignored    "@,
        "rejected   "@,
    ];
    assert(columns[0][0] == 'a');
    assert(columns[1][0] == 'r' && columns[1][2] == 'f');
    assert(columns[2][0] == 'u');
    assert(columns[3][0] == 'r' && columns[3][2] == 'm');
    assert(columns[4][0] == 'e');
    assert(columns[5][0] == 'i');
    assert(columns[6][0] == 'r' && columns[6][2] == 'j');
}

/// The number of a transition's kind among the columns.
spec fn column_of(transition: TransitionModel) -> int {
    match transition {
        TransitionModel::Appeared(_) => 0,
        TransitionModel::Refreshed(_) => 1,
        TransitionModel::Updated(_) => 2,
        TransitionModel::Removed(_, DiscoveredPeerRemovalReason::Explicit) => 3,
        TransitionModel::Removed(_, DiscoveredPeerRemovalReason::Expired) => 4,
        TransitionModel::Noop(_, _) => 5,
        TransitionModel::Rejected(_) => 6,
    }
}

/// Transitions with the same line are the same, but for what a rejection does not show:
/// lines tell the kinds apart, and the session keys within a kind.
#[verifier::spinoff_prover]
#[verifier::rlimit(40)]
pub proof fn transition_lines_tell_transitions_apart(a: TransitionModel, b: TransitionModel)
    requires
        transition_line(a) == transition_line(b),
    ensures
        a is Rejected <==> b is Rejected,
        !(a is Rejected) ==> a == b,
        a matches TransitionModel::Rejected(x) ==> (b matches TransitionModel::Rejected(y)
            && x.kind.text() == y.kind.text()),
{
    let columns = seq![
        "appeared   "@,
        "refreshed  "@,
        "updated    "@,
        "removed    "@,
        "expired    "@,
        "ignored    "@,
        "rejected   "@,
    ];
    lemma_columns();
    lemma_transition_column(a);
    lemma_transition_column(b);
    assert(columns[column_of(a)] == columns[column_of(b)]);
    assert(column_of(a) == column_of(b));
    reveal_strlit("  (already absent)");
    reveal_strlit("  (superseded observation)");
    match (a, b) {
        (TransitionModel::Noop(x, r), TransitionModel::Noop(y, s)) => {
            let line = transition_line(a);
            let other = transition_line(b);
            transition_line_names_its_key(x);
            transition_line_names_its_key(y);
            assert(line[line.len() - 2] == if r is Stale {
                'n'
            } else {
                't'
            });
            assert(other[other.len() - 2] == if s is Stale {
                'n'
            } else {
                't'
            });
            assert(r == s);
            assert(x.len() == y.len());
        },
        (TransitionModel::Removed(x, r), TransitionModel::Removed(y, s)) => {
            transition_line_names_its_key(x);
            transition_line_names_its_key(y);
            assert(x.len() == y.len());
        },
        (TransitionModel::Appeared(x), TransitionModel::Appeared(y)) => {
            transition_line_names_its_key(x);
            transition_line_names_its_key(y);
        },
        (TransitionModel::Refreshed(x), TransitionModel::Refreshed(y)) => {
            transition_line_names_its_key(x);
            transition_line_names_its_key(y);
        },
        (TransitionModel::Updated(x), TransitionModel::Updated(y)) => {
            transition_line_names_its_key(x);
            transition_line_names_its_key(y);
        },
        (TransitionModel::Rejected(x), TransitionModel::Rejected(y)) => {
            rejection_line_names_the_failure(x);
            rejection_line_names_the_failure(y);
        },
        _ => {},
    }
}

proof fn lemma_transition_column(t: TransitionModel)
    ensures
        0 <= column_of(t) < 7,
        transition_line(t).take(11) == seq![
            "appeared   "@,
            "refreshed  "@,
            "updated    "@,
            "removed    "@,
            "expired    "@,
            "ignored    "@,
            "rejected   "@,
        ][column_of(t)],
{
    match t {
        TransitionModel::Rejected(error) => rejection_line_names_the_failure(error),
        TransitionModel::Appeared(key) => transition_line_names_its_key(key),
        TransitionModel::Refreshed(key) => transition_line_names_its_key(key),
        TransitionModel::Updated(key) => transition_line_names_its_key(key),
        TransitionModel::Removed(key, _) => transition_line_names_its_key(key),
        TransitionModel::Noop(key, _) => transition_line_names_its_key(key),
    }
}

/// A pass that lists events adds one line for each transition, in order; one that does
/// not adds none. Nothing else of the pass changes.
pub proof fn every_transition_is_listed(
    pass: ObservationModel,
    transitions: Seq<TransitionModel>,
)
    ensures
        ({
            let after = recorded(pass, transitions);
            &&& after.show_events == pass.show_events
            &&& after.stale_after == pass.stale_after
            &&& !pass.show_events ==> after.events == pass.events
            &&& pass.show_events ==> {
                &&& after.events.len() == pass.events.len() + transitions.len()
                &&& after.events.take(pass.events.len() as int) == pass.events
                &&& forall|i: int|
                    0 <= i < transitions.len() ==> after.events[pass.events.len() + i]
                        == transition_line(#[trigger] transitions[i])
            }
        }),
{
    let after = recorded(pass, transitions);
    if pass.show_events {
        assert(after.events.take(pass.events.len() as int) =~= pass.events);
    }
}

/// The text of a socket address is the text of the IP address, in brackets with its scope
/// if it is an IPv6 address, then a colon and the port.
pub proof fn socket_text_names_address_and_port(
    endpoint: DiscoveryEndpoint,
    address: Seq<char>,
    port: u16,
)
    ensures
        ({
            let s = socket_text(endpoint, address, port);
            let tail = seq![':'] + text::decimal(port as nat);
            let n = s.len() - tail.len();
            &&& n >= 0
            &&& s.skip(n) == tail
            &&& endpoint.address is V4 ==> s.take(n) == address
            &&& endpoint.address is V6 ==> s.take(n) == seq!['['] + address + (
            match endpoint.scope_id {
                Some(scope) => seq!['%'] + text::decimal(scope as nat),
                None => Seq::empty(),
            }) + seq![']']
        }),
{
    reveal_strlit(":");
    reveal_strlit("[");
    reveal_strlit("%");
    reveal_strlit("]:");
    assert(":"@ =~= seq![':']);
    let s = socket_text(endpoint, address, port);
    let tail = seq![':'] + text::decimal(port as nat);
    let head = match endpoint.address {
        IpAddress::V4(_) => address,
        IpAddress::V6(_) => seq!['['] + address + (match endpoint.scope_id {
            Some(scope) => seq!['%'] + text::decimal(scope as nat),
            None => Seq::empty(),
        }) + seq![']'],
    };
    assert(s =~= head + tail);
    assert(s.skip(head.len() as int) =~= tail);
    assert(s.take(head.len() as int) =~= head);
}

/// A card shows the peer that it is made of: its session key, its name and platform
/// hints, the shared protocol version, and one socket address for each endpoint, in
/// order, each with the service port.
pub proof fn card_shows_its_peer(peer: browser::PeerModel, addresses: Seq<Seq<char>>)
    requires
        addresses.len() == peer.endpoints.len(),
    ensures
        ({
            let card = card_of(peer, addresses);
            &&& card.session == peer.key
            &&& card.name == peer.metadata.name
            &&& card.platform == peer.metadata.platform
            &&& card.protocol_major == peer.protocol_major
            &&& card.addresses.len() == peer.endpoints.len()
            &&& forall|i: int|
                0 <= i < peer.endpoints.len() ==> #[trigger] card.addresses[i] == socket_text(
                    peer.endpoints[i],
                    addresses[i],
                    peer.port,
                )
        }),
{
}

/// The lines of a card: an empty one, its name or that it has none with its platform, its
/// session key, its protocol version, and all of its addresses.
pub proof fn card_lines_show_the_card(card: CardModel)
    ensures
        ({
            let lines = card_lines(card);
            let name = match card.name {
                Some(name) => name,
                None => "unnamed"@,
            };
            let platform = match card.platform {
                Some(DiscoveryPlatformHint::MacOs) => "macOS"@,
                Some(DiscoveryPlatformHint::Windows) => "Windows"@,
                Some(DiscoveryPlatformHint::Linux) => "Linux"@,
                None => "unknown platform"@,
            };
            &&& lines.len() == 5
            &&& lines[0].len() == 0
            &&& lines[1] == seq!['-', ' '] + name + seq![' ', '('] + platform + seq![')']
            &&& lines[2].take(12) == "  session:  "@ && lines[2].skip(12) == card.session
            &&& lines[3].take(12) == "  protocol: "@ && lines[3].skip(12) == text::decimal(
                card.protocol_major as nat,
            )
            &&& lines[4].take(12) == "  address:  "@ && forall|i: int|
                0 <= i < card.addresses.len() ==> text::mentions(
                    lines[4],
                    #[trigger] card.addresses[i],
                )
        }),
{
    reveal_strlit("- ");
    reveal_strlit(" (");
    reveal_strlit(")");
    reveal_strlit("  session:  ");
    reveal_strlit("  protocol: ");
    reveal_strlit("  address:  ");
    assert("- "@ =~= seq!['-', ' ']);
    assert(" ("@ =~= seq![' ', '(']);
    assert(")"@ =~= seq![')']);
    let lines = card_lines(card);
    assert(lines[2].take(12) =~= "  session:  "@);
    assert(lines[2].skip(12) =~= card.session);
    assert(lines[3].take(12) =~= "  protocol: "@);
    assert(lines[3].skip(12) =~= text::decimal(card.protocol_major as nat));
    assert(lines[4].take(12) =~= "  address:  "@);
    let all = joined(card.addresses, ", "@);
    assert forall|i: int| 0 <= i < card.addresses.len() implies text::mentions(
        lines[4],
        #[trigger] card.addresses[i],
    ) by {
        let k = lemma_joined_part(card.addresses, ", "@, i);
        let part = card.addresses[i];
        assert(lines[4].subrange(12 + k, 12 + k + part.len()) =~= all.subrange(k, k + part.len()));
    }
}

/// Each part stands somewhere in the joined text.
proof fn lemma_joined_part(parts: Seq<Seq<char>>, separator: Seq<char>, i: int) -> (k: int)
    requires
        0 <= i < parts.len(),
    ensures
        0 <= k,
        k + parts[i].len() <= joined(parts, separator).len(),
        joined(parts, separator).subrange(k, k + parts[i].len()) == parts[i],
    decreases parts.len(),
{
    let all = joined(parts, separator);
    if parts.len() == 1 {
        assert(all.subrange(0, parts[0].len() as int) =~= parts[0]);
        0
    } else {
        let rest = parts.drop_last();
        let before = joined(rest, separator);
        if i == parts.len() - 1 {
            let k = (before + separator).len() as int;
            assert(all.subrange(k, k + parts[i].len()) =~= parts[i]);
            k
        } else {
            let k = lemma_joined_part(rest, separator, i);
            assert(all.subrange(k, k + parts[i].len()) =~= before.subrange(k, k + parts[i].len()));
            k
        }
    }
}

/// Joining puts the separator between consecutive parts and nowhere else.
pub proof fn joining_separates_consecutive_parts(
    parts: Seq<Seq<char>>,
    part: Seq<char>,
    separator: Seq<char>,
)
    ensures
        joined(Seq::empty(), separator) == Seq::<char>::empty(),
        parts.len() == 0 ==> joined(parts.push(part), separator) == part,
        parts.len() > 0 ==> joined(parts.push(part), separator) == joined(parts, separator)
            + separator + part,
{
    assert(parts.push(part).drop_last() =~= parts);
}

/// The cards are listed by session key, each as often as it is given.
pub proof fn cards_are_listed_by_session(cards: Seq<CardModel>)
    ensures
        ({
            let listed = ordered_cards(cards);
            &&& listed.to_multiset() == cards.to_multiset()
            &&& listed.len() == cards.len()
            &&& forall|i: int, j: int|
                0 <= i < j < listed.len() ==> (#[trigger] listed[i]).session == (
                #[trigger] listed[j]).session || text::text_less(
                    listed[i].session,
                    listed[j].session,
                )
        }),
{
    let listed = ordered_cards(cards);
    card_order_exists(cards);
    assert forall|card: CardModel| #[trigger] listed.to_multiset().count(card)
        == cards.to_multiset().count(card) by {
        lemma_session_count(listed, card);
        lemma_session_count(cards, card);
        assert(with_session(listed, card.session) == with_session(cards, card.session));
    }
    assert(listed.to_multiset() =~= cards.to_multiset());
    listed.to_multiset_ensures();
    cards.to_multiset_ensures();
    assert forall|i: int, j: int| 0 <= i < j < listed.len() implies (#[trigger] listed[i]).session
        == (#[trigger] listed[j]).session || text::text_less(
        listed[i].session,
        listed[j].session,
    ) by {
        text::lemma_text_order(listed[i].session, listed[j].session);
    }
}

/// A card occurs as often among the cards of its session as among all.
proof fn lemma_session_count(cards: Seq<CardModel>, card: CardModel)
    ensures
        with_session(cards, card.session).to_multiset().count(card) == cards.to_multiset().count(
            card,
        ),
    decreases cards.len(),
{
    if cards.len() > 0 {
        let rest = cards.drop_last();
        let last = cards.last();
        lemma_session_count(rest, card);
        assert(cards =~= rest.push(last));
        rest.to_multiset_ensures();
        with_session(rest, card.session).to_multiset_ensures();
        assert(cards.to_multiset() == rest.to_multiset().insert(last));
        if last.session == card.session {
            assert(with_session(cards, card.session).to_multiset() == with_session(
                rest,
                card.session,
            ).to_multiset().insert(last));
        }
    } else {
        assert(cards =~= Seq::<CardModel>::empty());
    }
}

/// The lines of several cards are those of each, one after the other.
proof fn lemma_card_lines_at(cards: Seq<CardModel>, i: int)
    requires
        0 <= i < cards.len(),
    ensures
        all_card_lines(cards).len() == 5 * cards.len(),
        all_card_lines(cards).subrange(5 * i, 5 * i + 5) == card_lines(cards[i]),
    decreases cards.len(),
{
    let rest = cards.drop_last();
    let all = all_card_lines(cards);
    let before = all_card_lines(rest);
    if rest.len() == 0 {
        assert(before.len() == 0);
    } else {
        lemma_card_lines_at(rest, if i < rest.len() {
            i
        } else {
            0
        });
    }
    if i == rest.len() {
        assert(all.subrange(5 * i, 5 * i + 5) =~= card_lines(cards[i]));
    } else {
        assert(all.subrange(5 * i, 5 * i + 5) =~= before.subrange(5 * i, 5 * i + 5));
    }
}

/// A report begins with the standing reminder. If events are shown, an empty line and one
/// line for each event follow, or the remark that there were none; if not, nothing of
/// them. After another empty line comes the snapshot.
pub proof fn report_has_its_parts_in_order(
    show_events: bool,
    events: Seq<Seq<char>>,
    cards: Seq<CardModel>,
)
    ensures
        ({
            let lines = report_lines(show_events, events, cards);
            let n: int = if !show_events {
                1
            } else if events.len() == 0 {
                3
            } else {
                2 + events.len() as int
            };
            &&& lines.len() > n
            &&& lines[0] == ADVISORY_NOTICE@
            &&& show_events ==> lines[1].len() == 0
            &&& show_events && events.len() == 0 ==> lines[2]
                == "No discovery events were observed."@
            &&& show_events && events.len() > 0 ==> lines.subrange(2, n) == events
            &&& lines[n].len() == 0
            &&& lines.skip(n + 1) == snapshot_lines(cards)
        }),
{
    let lines = report_lines(show_events, events, cards);
    let n: int = if !show_events {
        1
    } else if events.len() == 0 {
        3
    } else {
        2 + events.len() as int
    };
    if show_events && events.len() > 0 {
        assert(lines.subrange(2, n) =~= events);
    }
    assert(lines.skip(n + 1) =~= snapshot_lines(cards));
}

/// The snapshot says that nothing is visible, or how many devices are and then lists each
/// of them with its five lines, in the order of their session keys.
pub proof fn snapshot_lists_every_card(cards: Seq<CardModel>, i: int)
    requires
        0 <= i < cards.len() || cards.len() == 0,
    ensures
        cards.len() == 0 ==> snapshot_lines(cards) == seq![
            "No nearby devices are currently visible."@,
        ],
        cards.len() > 0 ==> {
            &&& snapshot_lines(cards).len() == 1 + 5 * cards.len()
            &&& snapshot_lines(cards)[0] == text::decimal(cards.len())
                + " nearby device(s) currently visible:"@
            &&& snapshot_lines(cards).subrange(1 + 5 * i, 6 + 5 * i) == card_lines(
                ordered_cards(cards)[i],
            )
        },
{
    if cards.len() > 0 {
        let listed = ordered_cards(cards);
        cards_are_listed_by_session(cards);
        lemma_card_lines_at(listed, i);
        let lines = snapshot_lines(cards);
        assert(lines.subrange(1 + 5 * i, 6 + 5 * i) =~= all_card_lines(listed).subrange(
            5 * i,
            5 * i + 5,
        ));
    }
}

/// A text of lines is each line with a line break behind it, one after the other.
pub proof fn every_line_ends_in_a_line_break(lines: Seq<Seq<char>>, line: Seq<char>)
    ensures
        lines_text(Seq::empty()) == Seq::<char>::empty(),
        lines_text(lines.push(line)) == lines_text(lines) + line + seq!['\n'],
{
    assert(lines.push(line).drop_last() =~= lines);
}

/// A window is 1 to 60 seconds long and silence 1 to 3600 seconds; a number of seconds
/// outside its range is refused with the range.
pub proof fn seconds_have_a_range(seconds: u64, maximum: u64)
    ensures
        range_error(seconds, maximum) is None <==> seconds != 0 && seconds <= maximum,
        range_error(seconds, maximum) matches Some(error) ==> error.seconds == seconds
            && error.maximum == maximum,
        range_error(seconds, MAX_WINDOW_SECONDS) is None <==> 1 <= seconds <= 60,
        range_error(seconds, MAX_STALE_AFTER_SECONDS) is None <==> 1 <= seconds <= 3600,
        range_error(DEFAULT_WINDOW_SECONDS, MAX_WINDOW_SECONDS) is None,
{
}

/// A pass fails for its report if that could not be written, else for the session if that
/// did not stop cleanly, and otherwise succeeds.
pub proof fn pass_fails_for_its_report_first(
    stopped: Result<(), DiscoveryBrowserError>,
    written: Result<(), String>,
)
    ensures
        ({
            let result = pass_result(stopped, written);
            &&& result is Ok <==> stopped is Ok && written is Ok
            &&& written is Err <==> (result matches Err(DiscoveryCliError::Output(source))
                && source == written->Err_0)
            &&& written is Ok && stopped is Err <==> (result matches Err(
                DiscoveryCliError::Shutdown(error),
            ) && error == stopped->Err_0)
        }),
{
}

/// The description of a failure names its cause.
pub proof fn failure_names_its_cause(error: DiscoveryCliError)
    ensures
        match error {
            DiscoveryCliError::Interrupt(source) => text::mentions(error.text(), source@),
            DiscoveryCliError::Start(source) => text::mentions(error.text(), source@.kind.text()),
            DiscoveryCliError::Shutdown(source) => text::mentions(
                error.text(),
                source@.kind.text(),
            ),
            DiscoveryCliError::Output(source) => text::mentions(error.text(), source@),
        },
{
    let none = Seq::<char>::empty();
    match error {
        DiscoveryCliError::Interrupt(source) => text::lemma_mentions(
            "failed to install the interrupt handler: "@,
            source@,
            none,
        ),
        DiscoveryCliError::Start(source) => text::lemma_mentions(
            "failed to start discovery: "@,
            source@.kind.text(),
            none,
        ),
        DiscoveryCliError::Shutdown(source) => text::lemma_mentions(
            "failed to stop discovery cleanly: "@,
            source@.kind.text(),
            none,
        ),
        DiscoveryCliError::Output(source) => text::lemma_mentions(
            "failed to write command output: "@,
            source@,
            none,
        ),
    }
}

/// What the user asks for is taken over as it is, with a window of three seconds where
/// none is named, if the window is 1 to 60 seconds and the silence, where one is named, 1
/// to 3600; otherwise it is refused for the window first.
pub proof fn arguments_are_taken_over_in_range(
    events: bool,
    window: Option<u64>,
    stale_after: Option<u64>,
)
    ensures
        ({
            let r = args_for(events, window, stale_after);
            let seconds = if window is Some {
                window->0
            } else {
                3
            };
            let windowed = 1 <= seconds <= 60;
            let silent = stale_after is None || 1 <= stale_after->0 <= 3600;
            &&& windowed && silent <==> r is Ok
            &&& r matches Ok(args) ==> args.events == events && args.window == seconds
                && args.stale_after == stale_after
            &&& !windowed ==> r == Err::<DiscoverArgs, DurationRangeError>(
                DurationRangeError { seconds, maximum: 60 },
            )
            &&& windowed && !silent ==> r == Err::<DiscoverArgs, DurationRangeError>(
                DurationRangeError { seconds: stale_after->0, maximum: 3600 },
            )
        }),
{
}

} // verus!
