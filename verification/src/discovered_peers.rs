//! Deterministic advisory state for currently visible discovered peers.

use vstd::prelude::*;

use crate::browser;
use crate::browser::{
    DiscoveredPeer, DiscoveryBrowserError, DiscoveryBrowserEvent, TransientDiscoveryKey,
};
use crate::ordered;
use crate::text;
use crate::text::text_precedes;
use crate::text_map::TextMap;
use crate::time::Duration;

verus! {

/// Maximum absent advertisement keys retained to reject late lifecycle input.
pub const MAX_RETAINED_TOMBSTONES: usize = 256;

/// Caller-time horizon, in nanoseconds, for retaining an absent advertisement key.
pub const TOMBSTONE_RETENTION_NANOS: u128 = 300_000_000_000;

/// One currently visible, unauthenticated discovery snapshot and its liveness time.
#[derive(Debug)]
struct VisibleDiscoveredPeer {
    peer: DiscoveredPeer,
    last_observed_at: Duration,
}

/// What is retained of one advertisement.
#[derive(Debug)]
struct PeerRecord {
    visible: Option<VisibleDiscoveredPeer>,
    last_transition_at: Duration,
}

/// The contents of a visible snapshot.
pub struct VisibleModel {
    /// The peer.
    pub peer: browser::PeerModel,
    /// When it was last observed.
    pub last_observed_at: Duration,
}

/// The contents of what is retained of one advertisement; an absent one is a tombstone.
pub struct RecordModel {
    /// The visible snapshot.
    pub visible: Option<VisibleModel>,
    /// When the advertisement last changed.
    pub last_transition_at: Duration,
}

impl View for PeerRecord {
    type V = RecordModel;

    closed spec fn view(&self) -> RecordModel {
        RecordModel {
            visible: match self.visible {
                Some(visible) => Some(
                    VisibleModel {
                        peer: visible.peer@,
                        last_observed_at: visible.last_observed_at,
                    },
                ),
                None => None,
            },
            last_transition_at: self.last_transition_at,
        }
    }
}

/// Why a currently visible advertisement left discovery state.
#[derive(Clone, Copy, Debug, PartialEq, Eq, Structural)]
pub enum DiscoveredPeerRemovalReason {
    /// The discovery adapter explicitly reported removal.
    Explicit,
    /// The caller expired the advertisement after its liveness window elapsed.
    Expired,
}

/// Why a lifecycle input produced no state change.
#[derive(Clone, Copy, Debug, PartialEq, Eq, Structural)]
pub enum DiscoveredPeerNoopReason {
    /// The advertisement was already absent.
    AlreadyAbsent,
    /// The input predates the latest transition retained for this advertisement.
    Stale,
}

/// The explicit result of applying one discovery lifecycle input.
#[derive(Debug)]
pub enum DiscoveredPeerTransition {
    /// A valid compatible advertisement became visible.
    Appeared(TransientDiscoveryKey),
    /// An equivalent valid observation refreshed liveness only.
    Refreshed(TransientDiscoveryKey),
    /// A valid observation meaningfully changed the visible snapshot.
    Updated(TransientDiscoveryKey),
    /// A visible advertisement was removed.
    Removed {
        /// The affected transient advertisement key.
        key: TransientDiscoveryKey,
        /// The reason it left visible state.
        reason: DiscoveredPeerRemovalReason,
    },
    /// A valid lifecycle input intentionally had no effect.
    Noop {
        /// The affected transient advertisement key.
        key: TransientDiscoveryKey,
        /// Why state did not change.
        reason: DiscoveredPeerNoopReason,
    },
    /// Browser validation or infrastructure rejected an observation before state mutation.
    Rejected(DiscoveryBrowserError),
}

/// The contents of a transition.
pub enum TransitionModel {
    /// A valid compatible advertisement became visible.
    Appeared(Seq<char>),
    /// An equivalent valid observation refreshed liveness only.
    Refreshed(Seq<char>),
    /// A valid observation meaningfully changed the visible snapshot.
    Updated(Seq<char>),
    /// A visible advertisement was removed.
    Removed(Seq<char>, DiscoveredPeerRemovalReason),
    /// A valid lifecycle input intentionally had no effect.
    Noop(Seq<char>, DiscoveredPeerNoopReason),
    /// An observation was rejected before state mutation.
    Rejected(browser::BrowserErrorModel),
}

impl View for DiscoveredPeerTransition {
    type V = TransitionModel;

    open spec fn view(&self) -> TransitionModel {
        match *self {
            DiscoveredPeerTransition::Appeared(key) => TransitionModel::Appeared(key@),
            DiscoveredPeerTransition::Refreshed(key) => TransitionModel::Refreshed(key@),
            DiscoveredPeerTransition::Updated(key) => TransitionModel::Updated(key@),
            DiscoveredPeerTransition::Removed { key, reason } => TransitionModel::Removed(
                key@,
                reason,
            ),
            DiscoveredPeerTransition::Noop { key, reason } => TransitionModel::Noop(key@, reason),
            DiscoveredPeerTransition::Rejected(error) => TransitionModel::Rejected(error@),
        }
    }
}

/// The keys of the visible advertisements.
pub open spec fn visible_keys(records: Map<Seq<char>, RecordModel>) -> Set<Seq<char>> {
    Set::new(|k: Seq<char>| records.dom().contains(k) && records[k].visible is Some)
}

/// The keys of the tombstones.
pub open spec fn tombstones(records: Map<Seq<char>, RecordModel>) -> Set<Seq<char>> {
    Set::new(|k: Seq<char>| records.dom().contains(k) && records[k].visible is None)
}

/// One tombstone is newer than another: it changed later, or at the same time under
/// a later key.
pub open spec fn newer(records: Map<Seq<char>, RecordModel>, a: Seq<char>, b: Seq<char>) -> bool {
    ||| records[b].last_transition_at.nanos < records[a].last_transition_at.nanos
    ||| records[b].last_transition_at.nanos == records[a].last_transition_at.nanos
        && text::text_less(b, a)
}

/// The tombstones that are newer than a given one.
pub open spec fn newer_tombstones(
    records: Map<Seq<char>, RecordModel>,
    key: Seq<char>,
) -> Set<Seq<char>> {
    Set::new(|k: Seq<char>| tombstones(records).contains(k) && newer(records, k, key))
}

/// The records without the tombstones whose retention has elapsed.
pub open spec fn unelapsed(
    records: Map<Seq<char>, RecordModel>,
    now: Duration,
) -> Map<Seq<char>, RecordModel> {
    records.restrict(
        Set::new(
            |k: Seq<char>|
                records.dom().contains(k) && (records[k].visible is Some || now.nanos
                    <= records[k].last_transition_at.nanos + TOMBSTONE_RETENTION_NANOS),
        ),
    )
}

/// The records with only the newest 256 tombstones.
pub open spec fn newest(records: Map<Seq<char>, RecordModel>) -> Map<Seq<char>, RecordModel> {
    records.restrict(
        Set::new(
            |k: Seq<char>|
                records.dom().contains(k) && (records[k].visible is Some || newer_tombstones(
                    records,
                    k,
                ).len() < MAX_RETAINED_TOMBSTONES),
        ),
    )
}

/// The records after tombstones are pruned: first those whose retention has elapsed,
/// then the oldest in excess of the limit.
pub open spec fn pruned(
    records: Map<Seq<char>, RecordModel>,
    now: Duration,
) -> Map<Seq<char>, RecordModel> {
    newest(unelapsed(records, now))
}

/// The transition of observing a peer.
pub open spec fn observe_transition(
    records: Map<Seq<char>, RecordModel>,
    peer: browser::PeerModel,
    at: Duration,
) -> TransitionModel {
    let key = peer.key;
    if !records.dom().contains(key) {
        TransitionModel::Appeared(key)
    } else if at.nanos < records[key].last_transition_at.nanos {
        TransitionModel::Noop(key, DiscoveredPeerNoopReason::Stale)
    } else {
        match records[key].visible {
            Some(visible) => if visible.peer == peer {
                TransitionModel::Refreshed(key)
            } else {
                TransitionModel::Updated(key)
            },
            None => if at.nanos == records[key].last_transition_at.nanos {
                TransitionModel::Noop(key, DiscoveredPeerNoopReason::Stale)
            } else {
                TransitionModel::Appeared(key)
            },
        }
    }
}

/// The record of a peer that was just observed.
pub open spec fn observed_record(peer: browser::PeerModel, at: Duration) -> RecordModel {
    RecordModel {
        visible: Some(VisibleModel { peer, last_observed_at: at }),
        last_transition_at: at,
    }
}

/// The record of an advertisement that just left.
pub open spec fn absent_record(at: Duration) -> RecordModel {
    RecordModel { visible: None, last_transition_at: at }
}

/// The records after observing a peer.
pub open spec fn observed(
    records: Map<Seq<char>, RecordModel>,
    peer: browser::PeerModel,
    at: Duration,
) -> Map<Seq<char>, RecordModel> {
    if observe_transition(records, peer, at) is Noop {
        records
    } else {
        records.insert(peer.key, observed_record(peer, at))
    }
}

/// The transition of an explicit removal.
pub open spec fn remove_transition(
    records: Map<Seq<char>, RecordModel>,
    key: Seq<char>,
    at: Duration,
) -> TransitionModel {
    if records.dom().contains(key) && at.nanos < records[key].last_transition_at.nanos {
        TransitionModel::Noop(key, DiscoveredPeerNoopReason::Stale)
    } else if records.dom().contains(key) && records[key].visible is Some {
        TransitionModel::Removed(key, DiscoveredPeerRemovalReason::Explicit)
    } else {
        TransitionModel::Noop(key, DiscoveredPeerNoopReason::AlreadyAbsent)
    }
}

/// The records after an explicit removal: unless the removal is stale, a tombstone
/// with its time.
pub open spec fn removed(
    records: Map<Seq<char>, RecordModel>,
    key: Seq<char>,
    at: Duration,
) -> Map<Seq<char>, RecordModel> {
    if remove_transition(records, key, at) == TransitionModel::Noop(
        key,
        DiscoveredPeerNoopReason::Stale,
    ) {
        records
    } else {
        records.insert(key, absent_record(at))
    }
}

/// The keys of the visible advertisements that are at least `stale_after` old.
pub open spec fn expired_keys(
    records: Map<Seq<char>, RecordModel>,
    now: Duration,
    stale_after: Duration,
) -> Set<Seq<char>> {
    Set::new(
        |k: Seq<char>|
            visible_keys(records).contains(k) && records[k].visible->0.last_observed_at.nanos
                + stale_after.nanos <= now.nanos,
    )
}

/// The records after the given advertisements expired.
pub open spec fn expired(
    records: Map<Seq<char>, RecordModel>,
    keys: Set<Seq<char>>,
    now: Duration,
) -> Map<Seq<char>, RecordModel> {
    Map::new(
        |k: Seq<char>| records.dom().contains(k),
        |k: Seq<char>|
            if keys.contains(k) {
                absent_record(now)
            } else {
                records[k]
            },
    )
}

/// The records after one lifecycle input.
pub open spec fn applied(
    records: Map<Seq<char>, RecordModel>,
    event: browser::BrowserEventModel,
    at: Duration,
) -> Map<Seq<char>, RecordModel> {
    match event {
        browser::BrowserEventModel::Added(peer) => observed(pruned(records, at), peer, at),
        browser::BrowserEventModel::Updated(peer) => observed(pruned(records, at), peer, at),
        browser::BrowserEventModel::Refreshed(peer) => observed(pruned(records, at), peer, at),
        browser::BrowserEventModel::Removed(key) => pruned(
            removed(pruned(records, at), key, at),
            at,
        ),
        browser::BrowserEventModel::Error(_) => records,
    }
}

/// The transition of one lifecycle input.
pub open spec fn apply_transition(
    records: Map<Seq<char>, RecordModel>,
    event: browser::BrowserEventModel,
    at: Duration,
) -> TransitionModel {
    match event {
        browser::BrowserEventModel::Added(peer) => observe_transition(
            pruned(records, at),
            peer,
            at,
        ),
        browser::BrowserEventModel::Updated(peer) => observe_transition(
            pruned(records, at),
            peer,
            at,
        ),
        browser::BrowserEventModel::Refreshed(peer) => observe_transition(
            pruned(records, at),
            peer,
            at,
        ),
        browser::BrowserEventModel::Removed(key) => remove_transition(pruned(records, at), key, at),
        browser::BrowserEventModel::Error(error) => TransitionModel::Rejected(error),
    }
}

/// What holds of the records in every state: a visible advertisement is filed under
/// its own key and last changed when it was last observed, and there are finitely
/// many records, no more than 256 of them tombstones.
pub open spec fn is_state(records: Map<Seq<char>, RecordModel>) -> bool {
    &&& records.dom().finite()
    &&& forall|k: Seq<char>| #[trigger]
        records.dom().contains(k) ==> (records[k].visible matches Some(visible) ==> visible.peer.key
            == k && visible.last_observed_at == records[k].last_transition_at)
    &&& tombstones(records).len() <= MAX_RETAINED_TOMBSTONES
}

/// Portable state for bounded, compatible, unauthenticated discovery snapshots.
///
/// Times are durations on a caller-owned monotonic timeline. The state reads no
/// clock and schedules no work. Recent absent records are retained as bounded
/// tombstones so late observations cannot undo a newer removal or expiry.
#[derive(Debug)]
pub struct DiscoveredPeerState {
    records: TextMap<PeerRecord>,
    visible_count: usize,
}

impl View for DiscoveredPeerState {
    type V = Map<Seq<char>, RecordModel>;

    closed spec fn view(&self) -> Map<Seq<char>, RecordModel> {
        self.records@.map_values(|record: PeerRecord| record@)
    }
}

impl DiscoveredPeerState {
    /// The state is consistent and its count of visible advertisements is right.
    pub closed spec fn wf(self) -> bool {
        &&& self.consistent()
        &&& is_state(self@)
    }

    /// The state is consistent, whatever the number of its tombstones.
    closed spec fn consistent(self) -> bool {
        &&& self.records.wf()
        &&& forall|k: Seq<char>| #[trigger]
            self@.dom().contains(k) ==> (self@[k].visible matches Some(visible)
                ==> visible.peer.key == k && visible.last_observed_at
                == self@[k].last_transition_at)
        &&& visible_keys(self@).len() == self.visible_count
    }

    /// What holds of the records in every state holds of every consistent one.
    pub proof fn lemma_is_state(self)
        requires
            self.wf(),
        ensures
            is_state(self@),
    {
    }

    /// The domain of the view and its subsets are finite.
    proof fn lemma_finite(self)
        requires
            self.records.wf(),
        ensures
            self@.dom() == self.records@.dom(),
            self@.dom().finite(),
            visible_keys(self@).finite(),
            tombstones(self@).finite(),
            visible_keys(self@).len() <= self@.dom().len(),
            self@.dom().len() == self.records.keys().len(),
    {
        self.records.lemma_entries();
        assert(self@.dom() =~= self.records@.dom());
        assert(visible_keys(self@).subset_of(self@.dom()));
        assert(tombstones(self@).subset_of(self@.dom()));
        vstd::set_lib::lemma_set_subset_finite(self@.dom(), visible_keys(self@));
        vstd::set_lib::lemma_set_subset_finite(self@.dom(), tombstones(self@));
        vstd::set_lib::lemma_len_subset(visible_keys(self@), self@.dom());
    }

    /// Creates empty discovery lifecycle state.
    #[must_use]
    pub fn new() -> (r: Self)
        ensures
            r.wf(),
            is_state(r@),
            r@ == Map::<Seq<char>, RecordModel>::empty(),
    {
        let r = DiscoveredPeerState { records: TextMap::new(), visible_count: 0 };
        proof {
            assert(r@ =~= Map::<Seq<char>, RecordModel>::empty());
            assert(visible_keys(r@) =~= Set::<Seq<char>>::empty());
            assert(tombstones(r@) =~= Set::<Seq<char>>::empty());
        }
        r
    }

    /// Returns the number of currently visible advertisements.
    #[must_use]
    pub fn len(&self) -> (n: usize)
        requires
            self.wf(),
        ensures
            n == visible_keys(self@).len(),
            is_state(self@),
    {
        self.visible_count
    }

    /// Reports whether no advertisements are currently visible.
    #[must_use]
    pub fn is_empty(&self) -> (r: bool)
        requires
            self.wf(),
        ensures
            r == (visible_keys(self@).len() == 0),
    {
        self.visible_count == 0
    }

    /// Returns a visible advertisement by its transient session key.
    #[must_use]
    pub fn get(&self, key: &TransientDiscoveryKey) -> (r: Option<&DiscoveredPeer>)
        requires
            self.wf(),
        ensures
            match r {
                Some(peer) => visible_keys(self@).contains(key@) && peer@
                    == self@[key@].visible->0.peer,
                None => !visible_keys(self@).contains(key@),
            },
    {
        match self.records.get(key.as_str()) {
            Some(record) => match &record.visible {
                Some(visible) => Some(&visible.peer),
                None => None,
            },
            None => None,
        }
    }

    /// Returns when a visible advertisement was last observed.
    #[must_use]
    pub fn last_observed_at(&self, key: &TransientDiscoveryKey) -> (r: Option<Duration>)
        requires
            self.wf(),
        ensures
            match r {
                Some(at) => visible_keys(self@).contains(key@) && at
                    == self@[key@].visible->0.last_observed_at,
                None => !visible_keys(self@).contains(key@),
            },
    {
        match self.records.get(key.as_str()) {
            Some(record) => match &record.visible {
                Some(visible) => Some(visible.last_observed_at),
                None => None,
            },
            None => None,
        }
    }

    /// Records that a peer was seen.
    fn observe(&mut self, peer: DiscoveredPeer, observed_at: Duration) -> (r:
        DiscoveredPeerTransition)
        requires
            old(self).wf(),
        ensures
            final(self).wf(),
            final(self)@ == observed(old(self)@, peer@, observed_at),
            r@ == observe_transition(old(self)@, peer@, observed_at),
    {
        let key = peer.key().clone();
        let ghost before = self@;
        let ghost model = peer@;
        proof {
            self.lemma_finite();
        }
        let (transition, appeared): (DiscoveredPeerTransition, bool) = match self.records.get(
            key.as_str(),
        ) {
            Some(record) => {
                if observed_at.nanos < record.last_transition_at.nanos {
                    return DiscoveredPeerTransition::Noop {
                        key,
                        reason: DiscoveredPeerNoopReason::Stale,
                    };
                }
                match &record.visible {
                    Some(visible) => if visible.peer == peer {
                        (DiscoveredPeerTransition::Refreshed(key.clone()), false)
                    } else {
                        (DiscoveredPeerTransition::Updated(key.clone()), false)
                    },
                    None => {
                        if observed_at.nanos == record.last_transition_at.nanos {
                            return DiscoveredPeerTransition::Noop {
                                key,
                                reason: DiscoveredPeerNoopReason::Stale,
                            };
                        }
                        (DiscoveredPeerTransition::Appeared(key.clone()), true)
                    },
                }
            },
            None => (DiscoveredPeerTransition::Appeared(key.clone()), true),
        };
        let record = PeerRecord {
            visible: Some(VisibleDiscoveredPeer { peer, last_observed_at: observed_at }),
            last_transition_at: observed_at,
        };
        self.records.insert(key.as_str().to_owned(), record);
        let entries: usize = self.records.len();
        proof {
            assert(self@ =~= before.insert(key@, observed_record(model, observed_at)));
            self.lemma_finite();
            assert(visible_keys(self@) =~= visible_keys(before).insert(key@));
            assert(visible_keys(self@).len() <= entries);
            assert(tombstones(self@).subset_of(tombstones(before)));
            vstd::set_lib::lemma_len_subset(tombstones(self@), tombstones(before));
        }
        if appeared {
            self.visible_count = self.visible_count + 1;
        }
        transition
    }

    /// Records that an advertisement was withdrawn.
    fn remove(&mut self, key: TransientDiscoveryKey, removed_at: Duration) -> (r:
        DiscoveredPeerTransition)
        requires
            old(self).wf(),
        ensures
            final(self).consistent(),
            final(self)@ == removed(old(self)@, key@, removed_at),
            r@ == remove_transition(old(self)@, key@, removed_at),
    {
        let ghost before = self@;
        proof {
            self.lemma_finite();
        }
        let was_visible: bool = match self.records.get(key.as_str()) {
            Some(record) => {
                if removed_at.nanos < record.last_transition_at.nanos {
                    return DiscoveredPeerTransition::Noop {
                        key,
                        reason: DiscoveredPeerNoopReason::Stale,
                    };
                }
                record.visible.is_some()
            },
            None => false,
        };
        let record = PeerRecord { visible: None, last_transition_at: removed_at };
        self.records.insert(key.as_str().to_owned(), record);
        proof {
            assert(self@ =~= before.insert(key@, absent_record(removed_at)));
            self.lemma_finite();
            assert(visible_keys(self@) =~= visible_keys(before).remove(key@));
        }
        if was_visible {
            self.visible_count = self.visible_count - 1;
            DiscoveredPeerTransition::Removed { key, reason: DiscoveredPeerRemovalReason::Explicit }
        } else {
            DiscoveredPeerTransition::Noop { key, reason: DiscoveredPeerNoopReason::AlreadyAbsent }
        }
    }

    /// The keys of the tombstones among the first entries.
    closed spec fn tombstones_before(self, i: int) -> Set<Seq<char>> {
        Set::new(
            |k: Seq<char>|
                exists|j: int|
                    0 <= j < i && #[trigger] self.records.keys()[j] == k
                        && self.records.values()[j].visible is None,
        )
    }

    /// Counts the retained tombstones.
    fn count_tombstones(&self) -> (n: usize)
        requires
            self.records.wf(),
        ensures
            n == tombstones(self@).len(),
    {
        let mut n: usize = 0;
        let mut i: usize = 0;
        proof {
            self.records.lemma_entries();
            assert(self.tombstones_before(0) =~= Set::<Seq<char>>::empty());
        }
        while i < self.records.len()
            invariant
                i <= self.records.keys().len(),
                self.records.wf(),
                self.tombstones_before(i as int).finite(),
                n == self.tombstones_before(i as int).len(),
                n <= i,
            decreases self.records.keys().len() - i,
        {
            let ghost here = self.tombstones_before(i as int);
            let ghost next = self.tombstones_before(i + 1);
            let ghost key = self.records.keys()[i as int];
            proof {
                self.records.lemma_entries();
                assert forall|k: Seq<char>| here.contains(k) implies #[trigger] next.contains(
                    k,
                ) by {
                    let j = choose|j: int|
                        0 <= j < i && #[trigger] self.records.keys()[j] == k
                            && self.records.values()[j].visible is None;
                    assert(self.records.keys()[j] == k);
                }
            }
            if self.records.value_at(i).visible.is_none() {
                n = n + 1;
                assert(self.records.keys()[i as int] == key);
                assert(next =~= here.insert(key));
                assert(!here.contains(key));
            } else {
                assert(next =~= here);
            }
            i = i + 1;
        }
        proof {
            self.records.lemma_entries();
            let all = self.tombstones_before(i as int);
            assert forall|k: Seq<char>| all.contains(k) == #[trigger] tombstones(self@).contains(
                k,
            ) by {
                if tombstones(self@).contains(k) {
                    let j = choose|j: int|
                        0 <= j < self.records.keys().len() && self.records.keys()[j] == k;
                    assert(self.records.keys()[j] == k);
                }
            }
            assert(all =~= tombstones(self@));
        }
        n
    }

    /// Finds the oldest tombstone.
    fn oldest_tombstone(&self) -> (r: Option<usize>)
        requires
            self.records.wf(),
        ensures
            match r {
                Some(i) => {
                    &&& i < self.records.keys().len()
                    &&& tombstones(self@).contains(self.records.keys()[i as int])
                    &&& forall|k: Seq<char>| #[trigger]
                        tombstones(self@).contains(k) && k != self.records.keys()[i as int]
                            ==> newer(self@, k, self.records.keys()[i as int])
                },
                None => forall|k: Seq<char>| !tombstones(self@).contains(k),
            },
    {
        let mut oldest: Option<usize> = None;
        let mut i: usize = 0;
        proof {
            self.records.lemma_entries();
        }
        while i < self.records.len()
            invariant
                i <= self.records.keys().len(),
                self.records.wf(),
                match oldest {
                    Some(o) => {
                        &&& o < i
                        &&& tombstones(self@).contains(self.records.keys()[o as int])
                        &&& forall|j: int|
                            0 <= j < i && tombstones(self@).contains(
                                #[trigger] self.records.keys()[j],
                            ) && j != o ==> newer(
                                self@,
                                self.records.keys()[j],
                                self.records.keys()[o as int],
                            )
                    },
                    None => forall|j: int|
                        0 <= j < i ==> !tombstones(self@).contains(
                            #[trigger] self.records.keys()[j],
                        ),
                },
            decreases self.records.keys().len() - i,
        {
            proof {
                self.records.lemma_entries();
            }
            let record = self.records.value_at(i);
            if record.visible.is_none() {
                match oldest {
                    None => {
                        oldest = Some(i);
                    },
                    Some(o) => {
                        let other = self.records.value_at(o);
                        let a = self.records.key_at(i);
                        let b = self.records.key_at(o);
                        let at = record.last_transition_at.nanos;
                        let bt = other.last_transition_at.nanos;
                        let is_older = at < bt || (at == bt && text_precedes(a, b));
                        proof {
                            assert(a@ != b@);
                            text::lemma_text_order(a@, b@);
                            if is_older {
                                assert(newer(self@, b@, a@));
                                assert forall|j: int|
                                    0 <= j < i && tombstones(self@).contains(
                                        #[trigger] self.records.keys()[j],
                                    ) implies newer(self@, self.records.keys()[j], a@) by {
                                    if j != o {
                                        lemma_newer_transitive(
                                            self@,
                                            self.records.keys()[j],
                                            b@,
                                            a@,
                                        );
                                    }
                                }
                            } else {
                                assert(newer(self@, a@, b@));
                            }
                        }
                        if is_older {
                            oldest = Some(i);
                        }
                    },
                }
            }
            i = i + 1;
        }
        proof {
            self.records.lemma_entries();
        }
        oldest
    }

    /// Removes an entry that is a tombstone.
    fn drop_tombstone(&mut self, i: usize)
        requires
            old(self).consistent(),
            i < old(self).records.keys().len(),
            tombstones(old(self)@).contains(old(self).records.keys()[i as int]),
        ensures
            final(self).consistent(),
            final(self)@ == old(self)@.remove(old(self).records.keys()[i as int]),
            final(self).records.keys() == old(self).records.keys().remove(i as int),
    {
        let ghost before = self@;
        let ghost key = self.records.keys()[i as int];
        proof {
            self.lemma_finite();
        }
        self.records.remove_at(i);
        proof {
            assert(self@ =~= before.remove(key));
            self.lemma_finite();
            assert(visible_keys(self@) =~= visible_keys(before));
        }
    }

    /// Drops the tombstones whose retention has elapsed.
    fn drop_elapsed(&mut self, now: Duration)
        requires
            old(self).consistent(),
        ensures
            final(self).consistent(),
            final(self)@ == unelapsed(old(self)@, now),
    {
        let ghost before = self@;
        let ghost kept = unelapsed(before, now);
        let mut i: usize = 0;
        while i < self.records.len()
            invariant
                self.consistent(),
                i <= self.records.keys().len(),
                kept == unelapsed(before, now),
                forall|k: Seq<char>| #[trigger]
                    self@.dom().contains(k) ==> before.dom().contains(k) && self@[k] == before[k],
                kept.dom().subset_of(self@.dom()),
                forall|j: int|
                    0 <= j < i ==> kept.dom().contains(#[trigger] self.records.keys()[j]),
            decreases self.records.keys().len() - i,
        {
            proof {
                self.records.lemma_entries();
            }
            let ghost keys = self.records.keys();
            let record = self.records.value_at(i);
            let elapsed = record.visible.is_none() && now.nanos > record.last_transition_at.nanos
                && now.nanos - record.last_transition_at.nanos > TOMBSTONE_RETENTION_NANOS;
            assert(self@[keys[i as int]] == record@);
            assert(self@.dom().contains(keys[i as int]));
            assert(before[keys[i as int]] == record@);
            if elapsed {
                self.drop_tombstone(i);
                assert forall|j: int| 0 <= j < i implies kept.dom().contains(
                    #[trigger] self.records.keys()[j],
                ) by {
                    assert(self.records.keys()[j] == keys[j]);
                }
            } else {
                assert(kept.dom().contains(keys[i as int]));
                i = i + 1;
            }
        }
        proof {
            self.records.lemma_entries();
            assert(self@ =~= kept);
        }
    }

    /// Drops what late input no longer has to be held against.
    fn prune_tombstones(&mut self, now: Duration)
        requires
            old(self).consistent(),
        ensures
            final(self).wf(),
            final(self)@ == pruned(old(self)@, now),
    {
        self.drop_elapsed(now);
        let ghost base = self@;
        proof {
            self.lemma_finite();
        }
        let mut count = self.count_tombstones();
        while count > MAX_RETAINED_TOMBSTONES
            invariant
                self.consistent(),
                count == tombstones(self@).len(),
                forall|k: Seq<char>| #[trigger]
                    self@.dom().contains(k) ==> base.dom().contains(k) && self@[k] == base[k],
                base.dom().finite(),
                tombstones(base).finite(),
                forall|k: Seq<char>|
                    base.dom().contains(k) && !#[trigger] self@.dom().contains(k)
                        ==> base[k].visible is None && newer_tombstones(base, k).len()
                        >= MAX_RETAINED_TOMBSTONES,
                forall|k: Seq<char>, m: Seq<char>|
                    #![trigger self@.dom().contains(k), tombstones(self@).contains(m)]
                    base.dom().contains(k) && !self@.dom().contains(k) && tombstones(
                        self@,
                    ).contains(m) ==> newer(base, m, k),
            decreases count,
        {
            let ghost current = self@;
            proof {
                self.lemma_finite();
                if forall|k: Seq<char>| !tombstones(self@).contains(k) {
                    assert(tombstones(self@) =~= Set::<Seq<char>>::empty());
                }
            }
            if let Some(i) = self.oldest_tombstone() {
                let ghost oldest = self.records.keys()[i as int];
                self.drop_tombstone(i);
                proof {
                    self.lemma_finite();
                    let others = tombstones(current).remove(oldest);
                    assert(tombstones(self@) =~= others);
                    assert(newer_tombstones(base, oldest).subset_of(tombstones(base)));
                    vstd::set_lib::lemma_set_subset_finite(
                        tombstones(base),
                        newer_tombstones(base, oldest),
                    );
                    assert forall|k: Seq<char>| #[trigger] others.contains(
                        k,
                    ) implies newer_tombstones(base, oldest).contains(k) by {
                        assert(tombstones(current).contains(k));
                        assert(newer(current, k, oldest));
                    }
                    vstd::set_lib::lemma_len_subset(others, newer_tombstones(base, oldest));
                    assert forall|k: Seq<char>, m: Seq<char>|
                        #![trigger self@.dom().contains(k), tombstones(self@).contains(m)]
                        base.dom().contains(k) && !self@.dom().contains(k) && tombstones(
                            self@,
                        ).contains(m) implies newer(base, m, k) by {
                        assert(tombstones(current).contains(m));
                        if k != oldest {
                            assert(!current.dom().contains(k));
                        } else {
                            assert(newer(current, m, oldest));
                        }
                    }
                    assert forall|k: Seq<char>|
                        base.dom().contains(k) && !#[trigger] self@.dom().contains(
                            k,
                        ) implies base[k].visible is None && newer_tombstones(base, k).len()
                        >= MAX_RETAINED_TOMBSTONES by {
                        if k != oldest {
                            assert(!current.dom().contains(k));
                        }
                    }
                }
            }
            count = count - 1;
        }
        proof {
            self.lemma_finite();
            assert forall|k: Seq<char>| tombstones(self@).contains(k) implies #[trigger] newer_tombstones(
                base,
                k,
            ).len() < MAX_RETAINED_TOMBSTONES by {
                let ahead = newer_tombstones(base, k);
                let others = tombstones(self@).remove(k);
                assert forall|m: Seq<char>| #[trigger] ahead.contains(m) implies others.contains(
                    m,
                ) by {
                    lemma_newer_asymmetric(base, m, k);
                    if !self@.dom().contains(m) {
                        assert(newer(base, k, m));
                    }
                }
                vstd::set_lib::lemma_len_subset(ahead, others);
            }
            assert(self@ =~= newest(base)) by {
                assert forall|k: Seq<char>| #[trigger]
                    newest(base).dom().contains(k) == self@.dom().contains(k) by {
                    if self@.dom().contains(k) && base[k].visible is None {
                        assert(tombstones(self@).contains(k));
                    }
                }
            }
        }
    }

    /// Returns the number of retained tombstones.
    #[must_use]
    pub fn tombstone_count(&self) -> (n: usize)
        requires
            self.wf(),
        ensures
            n == tombstones(self@).len(),
    {
        self.count_tombstones()
    }

    /// Returns the currently visible advertisements, each once, in unspecified order.
    pub fn iter(&self) -> (r: Vec<&DiscoveredPeer>)
        requires
            self.wf(),
        ensures
            r@.len() == visible_keys(self@).len(),
            listed_peers(r@).no_duplicates(),
            forall|p: browser::PeerModel| #[trigger]
                listed_peers(r@).contains(p) <==> visible_keys(self@).contains(p.key)
                    && self@[p.key].visible->0.peer == p,
    {
        let mut r: Vec<&DiscoveredPeer> = Vec::new();
        let ghost mut keys: Seq<Seq<char>> = Seq::empty();
        let mut i: usize = 0;
        proof {
            self.records.lemma_entries();
        }
        while i < self.records.len()
            invariant
                self.wf(),
                i <= self.records.keys().len(),
                keys.len() == r@.len(),
                keys.no_duplicates(),
                forall|j: int|
                    0 <= j < keys.len() ==> visible_keys(self@).contains(#[trigger] keys[j])
                        && r@[j]@ == self@[keys[j]].visible->0.peer && r@[j]@.key == keys[j],
                forall|k: Seq<char>| #[trigger]
                    keys.contains(k) <==> visible_keys(self@).contains(k) && exists|j: int|
                        0 <= j < i && self.records.keys()[j] == k,
            decreases self.records.keys().len() - i,
        {
            let ghost key = self.records.keys()[i as int];
            let ghost before = keys;
            proof {
                self.records.lemma_entries();
                assert(self@.dom().contains(key));
            }
            if let Some(visible) = &self.records.value_at(i).visible {
                r.push(&visible.peer);
                proof {
                    assert(!before.contains(key));
                    keys = keys.push(key);
                    assert forall|k: Seq<char>| #[trigger]
                        keys.contains(k) <==> before.contains(k) || k == key by {
                        if before.contains(k) {
                            let j = choose|j: int| 0 <= j < before.len() && before[j] == k;
                            assert(keys[j] == k);
                        }
                        assert(keys[keys.len() - 1] == key);
                    }
                }
            }
            proof {
                assert forall|k: Seq<char>| #[trigger]
                    keys.contains(k) <==> visible_keys(self@).contains(k) && exists|j: int|
                        0 <= j < i + 1 && self.records.keys()[j] == k by {
                    if k == key {
                        assert(self.records.keys()[i as int] == k);
                    } else {
                        assert(keys.contains(k) <==> before.contains(k));
                    }
                }
            }
            i = i + 1;
        }
        proof {
            self.records.lemma_entries();
            self.lemma_finite();
            assert(keys.to_set() =~= visible_keys(self@)) by {
                assert forall|k: Seq<char>| visible_keys(self@).contains(k) implies keys.contains(
                    k,
                ) by {
                    let j = choose|j: int|
                        0 <= j < self.records.keys().len() && self.records.keys()[j] == k;
                    assert(self.records.keys()[j] == k);
                }
            }
            keys.unique_seq_to_set();
            let peers = listed_peers(r@);
            assert forall|a: int, b: int|
                0 <= a < peers.len() && 0 <= b < peers.len() && a != b implies peers[a]
                != peers[b] by {
                assert(peers[a].key == keys[a] && peers[b].key == keys[b]);
            }
            assert forall|p: browser::PeerModel| #[trigger]
                peers.contains(p) <==> visible_keys(self@).contains(p.key)
                    && self@[p.key].visible->0.peer == p by {
                if peers.contains(p) {
                    let j = choose|j: int| 0 <= j < peers.len() && peers[j] == p;
                    assert(p.key == keys[j]);
                }
                if visible_keys(self@).contains(p.key) && self@[p.key].visible->0.peer == p {
                    assert(keys.to_set().contains(p.key));
                    let j = choose|j: int| 0 <= j < keys.len() && keys[j] == p.key;
                    assert(peers[j] == p);
                }
            }
        }
        r
    }

    /// Applies one validated browser event at an explicit caller-supplied time.
    ///
    /// Rejected browser events never create, mutate, or refresh visible state.
    pub fn apply(&mut self, event: DiscoveryBrowserEvent, observed_at: Duration) -> (r:
        DiscoveredPeerTransition)
        requires
            old(self).wf(),
        ensures
            final(self).wf(),
            is_state(final(self)@),
            final(self)@ == applied(old(self)@, event@, observed_at),
            r@ == apply_transition(old(self)@, event@, observed_at),
    {
        match event {
            DiscoveryBrowserEvent::Added(peer) => {
                self.prune_tombstones(observed_at);
                self.observe(peer, observed_at)
            },
            DiscoveryBrowserEvent::Updated(peer) => {
                self.prune_tombstones(observed_at);
                self.observe(peer, observed_at)
            },
            DiscoveryBrowserEvent::Refreshed(peer) => {
                self.prune_tombstones(observed_at);
                self.observe(peer, observed_at)
            },
            DiscoveryBrowserEvent::Removed(key) => {
                self.prune_tombstones(observed_at);
                let transition = self.remove(key, observed_at);
                self.prune_tombstones(observed_at);
                transition
            },
            DiscoveryBrowserEvent::Error(error) => DiscoveredPeerTransition::Rejected(error),
        }
    }

    /// Expires every visible advertisement at least `stale_after` old.
    ///
    /// Returned transitions are sorted by transient key for deterministic callers.
    pub fn expire(&mut self, now: Duration, stale_after: Duration) -> (r: Vec<
        DiscoveredPeerTransition,
    >)
        requires
            old(self).wf(),
        ensures
            final(self).wf(),
            is_state(final(self)@),
            ({
                let base = pruned(old(self)@, now);
                let keys = expired_keys(base, now, stale_after);
                &&& final(self)@ == pruned(expired(base, keys, now), now)
                &&& is_expiry_report(r@, keys)
            }),
    {
        self.prune_tombstones(now);
        let ghost base = self@;
        let ghost entries = self.records.keys();
        let ghost all = expired_keys(base, now, stale_after);
        let ghost mut done: Set<Seq<char>> = Set::empty();
        let mut keys: Vec<TransientDiscoveryKey> = Vec::new();
        assert(self@ =~= expired(base, done, now));
        let mut i: usize = 0;
        while i < self.records.len()
            invariant
                self.consistent(),
                i <= entries.len(),
                entries == self.records.keys(),
                all == expired_keys(base, now, stale_after),
                self@ == expired(base, done, now),
                text::is_text_listing(key_views(keys@), done),
                forall|k: Seq<char>| #[trigger]
                    done.contains(k) <==> all.contains(k) && exists|j: int|
                        0 <= j < i && entries[j] == k,
            decreases entries.len() - i,
        {
            let ghost key = entries[i as int];
            let ghost before = self@;
            proof {
                self.records.lemma_entries();
                self.lemma_finite();
                assert(self@.dom().contains(key));
                if done.contains(key) {
                    let j = choose|j: int| 0 <= j < i && entries[j] == key;
                    assert(entries[j] == entries[i as int]);
                }
                assert(before[key] == base[key]);
            }
            let due: Option<TransientDiscoveryKey> = match &self.records.value_at(i).visible {
                Some(visible) => {
                    let seen = visible.last_observed_at.nanos;
                    if now.nanos >= seen && now.nanos - seen >= stale_after.nanos {
                        Some(visible.peer.key().clone())
                    } else {
                        None
                    }
                },
                None => None,
            };
            assert(due is Some <==> all.contains(key));
            assert(due matches Some(expired_key) ==> expired_key@ == key);
            let ghost earlier = done;
            if let Some(expired_key) = due {
                let name = expired_key.as_str().to_owned();
                insert_key(&mut keys, expired_key);
                let record = PeerRecord { visible: None, last_transition_at: now };
                self.records.insert(name, record);
                proof {
                    done = done.insert(key);
                    assert(self@ =~= before.insert(key, absent_record(now)));
                    assert(self@ =~= expired(base, done, now));
                    assert(visible_keys(self@) =~= visible_keys(before).remove(key));
                }
                self.visible_count = self.visible_count - 1;
            }
            proof {
                assert forall|k: Seq<char>| #[trigger]
                    done.contains(k) <==> all.contains(k) && exists|j: int|
                        0 <= j < i + 1 && entries[j] == k by {
                    if k == key {
                        assert(entries[i as int] == k);
                    } else {
                        assert(done.contains(k) <==> earlier.contains(k));
                    }
                }
            }
            i = i + 1;
        }
        proof {
            self.records.lemma_entries();
            assert(done =~= all) by {
                assert forall|k: Seq<char>| all.contains(k) implies #[trigger] done.contains(k) by {
                    assert(base.dom().contains(k));
                    assert(self@.dom().contains(k));
                    let j = choose|j: int| 0 <= j < entries.len() && entries[j] == k;
                    assert(entries[j] == k);
                }
            }
        }
        self.prune_tombstones(now);
        expiry_transitions(keys)
    }
}

/// Reports the expiry of keys in their order.
fn expiry_transitions(keys: Vec<TransientDiscoveryKey>) -> (r: Vec<DiscoveredPeerTransition>)
    ensures
        r@.len() == keys@.len(),
        forall|i: int|
            0 <= i < r@.len() ==> (#[trigger] r@[i])@ == TransitionModel::Removed(
                keys@[i]@,
                DiscoveredPeerRemovalReason::Expired,
            ),
        r@.map_values(|t: DiscoveredPeerTransition| transition_key(t@)->0) == key_views(keys@),
{
    let mut r: Vec<DiscoveredPeerTransition> = Vec::new();
    let mut i: usize = 0;
    while i < keys.len()
        invariant
            i <= keys.len(),
            r@.len() == i,
            forall|j: int|
                0 <= j < i ==> (#[trigger] r@[j])@ == TransitionModel::Removed(
                    keys@[j]@,
                    DiscoveredPeerRemovalReason::Expired,
                ),
        decreases keys.len() - i,
    {
        r.push(
            DiscoveredPeerTransition::Removed {
                key: keys[i].clone(),
                reason: DiscoveredPeerRemovalReason::Expired,
            },
        );
        i = i + 1;
    }
    assert(r@.map_values(|t: DiscoveredPeerTransition| transition_key(t@)->0) =~= key_views(keys@));
    r
}

impl Default for DiscoveredPeerState {
    fn default() -> (r: Self)
        ensures
            r.wf(),
            is_state(r@),
            r@ == Map::<Seq<char>, RecordModel>::empty(),
    {
        DiscoveredPeerState::new()
    }
}

/// The keys of advertisements.
spec fn key_views(keys: Seq<TransientDiscoveryKey>) -> Seq<Seq<char>> {
    keys.map_values(|key: TransientDiscoveryKey| key@)
}

/// Adds a key to an ascending list.
fn insert_key(keys: &mut Vec<TransientDiscoveryKey>, key: TransientDiscoveryKey)
    requires
        text::texts_ascend(key_views(old(keys)@)),
        !key_views(old(keys)@).contains(key@),
    ensures
        text::texts_ascend(key_views(final(keys)@)),
        forall|t: Seq<char>| #[trigger]
            key_views(final(keys)@).contains(t) <==> key_views(old(keys)@).contains(t) || t == key@,
{
    let ghost before = key_views(keys@);
    let mut k: usize = 0;
    while k < keys.len() && text_precedes(keys[k].as_str(), key.as_str())
        invariant
            k <= keys.len(),
            before == key_views(keys@),
            forall|i: int| 0 <= i < k ==> text::text_less(#[trigger] before[i], key@),
        decreases keys.len() - k,
    {
        assert(before[k as int] == keys@[k as int]@);
        k = k + 1;
    }
    proof {
        if k < keys.len() {
            assert(before[k as int] == keys@[k as int]@);
            assert(before.contains(before[k as int]));
            text::lemma_text_order(before[k as int], key@);
        }
        text::lemma_text_order_is_strict();
        ordered::lemma_insert(before, k as int, key@, text::text_order());
    }
    let ghost at = key@;
    keys.insert(k, key);
    assert(key_views(keys@) =~= before.insert(k as int, at));
}

/// The key that a transition concerns.
pub open spec fn transition_key(transition: TransitionModel) -> Option<Seq<char>> {
    match transition {
        TransitionModel::Appeared(key) => Some(key),
        TransitionModel::Refreshed(key) => Some(key),
        TransitionModel::Updated(key) => Some(key),
        TransitionModel::Removed(key, _) => Some(key),
        TransitionModel::Noop(key, _) => Some(key),
        TransitionModel::Rejected(_) => None,
    }
}

/// The removal of an advertisement by expiry.
pub open spec fn is_expiry(transition: TransitionModel) -> bool {
    transition matches TransitionModel::Removed(_, DiscoveredPeerRemovalReason::Expired)
}

/// The transitions of expiry: one for each expired key, in ascending order of keys.
pub open spec fn is_expiry_report(
    transitions: Seq<DiscoveredPeerTransition>,
    keys: Set<Seq<char>>,
) -> bool {
    &&& forall|i: int|
        0 <= i < transitions.len() ==> is_expiry((#[trigger] transitions[i])@)
    &&& text::is_text_listing(
        transitions.map_values(|t: DiscoveredPeerTransition| transition_key(t@)->0),
        keys,
    )
}

/// The peers in a list.
pub open spec fn listed_peers(peers: Seq<&DiscoveredPeer>) -> Seq<browser::PeerModel> {
    peers.map_values(|peer: &DiscoveredPeer| peer@)
}

/// The order by age is transitive.
proof fn lemma_newer_transitive(
    records: Map<Seq<char>, RecordModel>,
    a: Seq<char>,
    b: Seq<char>,
    c: Seq<char>,
)
    requires
        newer(records, a, b),
        newer(records, b, c),
    ensures
        newer(records, a, c),
{
    if text::text_less(b, a) && text::text_less(c, b) {
        text::lemma_lex_less_transitive(text::codes(c), text::codes(b), text::codes(a));
    }
}

/// No tombstone is newer than one that is newer than it, nor than itself.
proof fn lemma_newer_asymmetric(
    records: Map<Seq<char>, RecordModel>,
    a: Seq<char>,
    b: Seq<char>,
)
    ensures
        !(newer(records, a, b) && newer(records, b, a)),
        !newer(records, a, a),
{
    text::lemma_text_order(a, b);
}

/// Pruning keeps every visible advertisement as it is, adds nothing, and leaves
/// nothing more to prune.
pub proof fn pruning_keeps_visible_peers(records: Map<Seq<char>, RecordModel>, now: Duration)
    requires
        records.dom().finite(),
    ensures
        visible_keys(pruned(records, now)) == visible_keys(records),
        forall|k: Seq<char>| #[trigger]
            pruned(records, now).dom().contains(k) ==> records.dom().contains(k) && pruned(
                records,
                now,
            )[k] == records[k],
        pruned(pruned(records, now), now) == pruned(records, now),
{
    let once = pruned(records, now);
    let base = unelapsed(records, now);
    assert(visible_keys(once) =~= visible_keys(records));
    assert(unelapsed(once, now) =~= once);
    assert forall|k: Seq<char>| once.dom().contains(k) && once[k].visible is None implies #[trigger] newer_tombstones(
        once,
        k,
    ).len() < MAX_RETAINED_TOMBSTONES by {
        let wide = newer_tombstones(base, k);
        assert(wide.subset_of(records.dom()));
        vstd::set_lib::lemma_set_subset_finite(records.dom(), wide);
        assert(newer_tombstones(once, k).subset_of(wide));
        vstd::set_lib::lemma_len_subset(newer_tombstones(once, k), wide);
    }
    assert(newest(once) =~= once);
}

/// An input that an earlier removal or expiry outdates leaves the advertisement absent.
pub proof fn late_observation_cannot_restore(
    records: Map<Seq<char>, RecordModel>,
    peer: browser::PeerModel,
    at: Duration,
)
    requires
        tombstones(pruned(records, at)).contains(peer.key),
        at.nanos <= pruned(records, at)[peer.key].last_transition_at.nanos,
    ensures
        observe_transition(pruned(records, at), peer, at) == TransitionModel::Noop(
            peer.key,
            DiscoveredPeerNoopReason::Stale,
        ),
        observed(pruned(records, at), peer, at) == pruned(records, at),
{
}

/// What an explicit removal does, and what it does to later observations. A removal is
/// stale exactly where something later is retained of the advertisement, and then
/// nothing changes. It takes a visible advertisement away, and only that one. Otherwise
/// the advertisement was absent already, and none becomes visible or leaves. Once the
/// removal took effect, observing the advertisement as of that time or before is stale
/// and changes nothing. No other advertisement is touched.
pub proof fn removal_outdates_observations(
    records: Map<Seq<char>, RecordModel>,
    key: Seq<char>,
    at: Duration,
    peer: browser::PeerModel,
    observed_at: Duration,
    other: Seq<char>,
)
    requires
        records.dom().finite(),
        peer.key == key,
        observed_at.nanos <= at.nanos,
        other != key,
    ensures
        ({
            let transition = remove_transition(records, key, at);
            let after = removed(records, key, at);
            let stale = TransitionModel::Noop(key, DiscoveredPeerNoopReason::Stale);
            let absent = TransitionModel::Noop(key, DiscoveredPeerNoopReason::AlreadyAbsent);
            let gone = TransitionModel::Removed(key, DiscoveredPeerRemovalReason::Explicit);
            let outdated = records.dom().contains(key) && at.nanos
                < records[key].last_transition_at.nanos;
            let visible = visible_keys(records).contains(key);
            &&& transition == stale <==> outdated
            &&& transition == gone <==> visible && !outdated
            &&& transition == absent <==> !visible && !outdated
            &&& outdated ==> after == records
            &&& visible && !outdated ==> visible_keys(after) == visible_keys(records).remove(key)
                && visible_keys(after).len() == visible_keys(records).len() - 1
            &&& !visible ==> visible_keys(after) == visible_keys(records)
            &&& !outdated ==> {
                &&& tombstones(after).contains(key)
                &&& after[key] == absent_record(at)
                &&& observe_transition(after, peer, observed_at) == stale
                &&& observed(after, peer, observed_at) == after
            }
            &&& after.dom().contains(other) == records.dom().contains(other)
            &&& records.dom().contains(other) ==> after[other] == records[other]
        }),
{
    let after = removed(records, key, at);
    let before = visible_keys(records);
    assert(before.subset_of(records.dom()));
    vstd::set_lib::lemma_set_subset_finite(records.dom(), before);
    let outdated = records.dom().contains(key) && at.nanos
        < records[key].last_transition_at.nanos;
    if !outdated {
        assert(visible_keys(after) =~= before.remove(key));
    }
    if !before.contains(key) {
        assert(visible_keys(after) =~= before);
    }
}

/// The same of a whole state: after a removal that took effect, and as long as its
/// tombstone is retained, no observation of the advertisement as of that time or before
/// has any effect.
pub proof fn retained_removal_outdates_observations(
    records: Map<Seq<char>, RecordModel>,
    at: Duration,
    peer: browser::PeerModel,
    observed_at: Duration,
)
    requires
        records.dom().finite(),
        observed_at.nanos <= at.nanos,
        apply_transition(records, browser::BrowserEventModel::Removed(peer.key), at)
            != TransitionModel::Noop(peer.key, DiscoveredPeerNoopReason::Stale),
        tombstones(applied(records, browser::BrowserEventModel::Removed(peer.key), at)).contains(
            peer.key,
        ),
    ensures
        ({
            let after = applied(records, browser::BrowserEventModel::Removed(peer.key), at);
            let stale = TransitionModel::Noop(peer.key, DiscoveredPeerNoopReason::Stale);
            let added = browser::BrowserEventModel::Added(peer);
            let updated = browser::BrowserEventModel::Updated(peer);
            let refreshed = browser::BrowserEventModel::Refreshed(peer);
            &&& !visible_keys(after).contains(peer.key)
            &&& after[peer.key] == absent_record(at)
            &&& apply_transition(after, added, observed_at) == stale
            &&& apply_transition(after, updated, observed_at) == stale
            &&& apply_transition(after, refreshed, observed_at) == stale
            &&& applied(after, added, observed_at) == after
            &&& applied(after, updated, observed_at) == after
            &&& applied(after, refreshed, observed_at) == after
        }),
{
    let base = pruned(records, at);
    let gone = removed(base, peer.key, at);
    let after = pruned(gone, at);
    assert(base.dom().subset_of(records.dom()));
    vstd::set_lib::lemma_set_subset_finite(records.dom(), base.dom());
    assert(gone.dom() =~= base.dom().insert(peer.key));
    pruning_keeps_visible_peers(gone, at);
    assert(after.dom().contains(peer.key));
    assert(pruned(after, at) == after);
    assert forall|k: Seq<char>| #[trigger] after.dom().contains(k) && after[k].visible is None implies at.nanos
        <= after[k].last_transition_at.nanos + TOMBSTONE_RETENTION_NANOS by {
        assert(gone[k] == after[k]);
        assert(unelapsed(gone, at).dom().contains(k));
    }
    assert(unelapsed(after, at) =~= after);
    assert(unelapsed(after, observed_at) =~= after);
    assert(pruned(after, observed_at) == after);
}

/// An input older than the last change of a visible advertisement changes nothing of it.
pub proof fn stale_input_keeps_visible_peer(
    records: Map<Seq<char>, RecordModel>,
    event: browser::BrowserEventModel,
    at: Duration,
    key: Seq<char>,
)
    requires
        records.dom().finite(),
        visible_keys(records).contains(key),
        at.nanos < records[key].last_transition_at.nanos,
    ensures
        visible_keys(applied(records, event, at)).contains(key),
        applied(records, event, at)[key] == records[key],
{
    pruning_keeps_visible_peers(records, at);
    assert(visible_keys(pruned(records, at)).contains(key));
    if let browser::BrowserEventModel::Removed(gone) = event {
        let base = pruned(records, at);
        let after = removed(base, gone, at);
        assert(after[key] == records[key]);
        assert(base.dom().subset_of(records.dom()));
        vstd::set_lib::lemma_set_subset_finite(records.dom(), base.dom());
        pruning_keeps_visible_peers(after, at);
        assert(visible_keys(after).contains(key));
    }
}

/// A rejected observation neither creates, nor mutates, nor refreshes anything.
pub proof fn rejected_input_changes_nothing(
    records: Map<Seq<char>, RecordModel>,
    error: browser::BrowserErrorModel,
    at: Duration,
)
    ensures
        applied(records, browser::BrowserEventModel::Error(error), at) == records,
        apply_transition(records, browser::BrowserEventModel::Error(error), at)
            == TransitionModel::Rejected(error),
{
}

/// An input changes no other visible advertisement than its own, and makes no other
/// one visible.
pub proof fn transitions_are_isolated(
    records: Map<Seq<char>, RecordModel>,
    event: browser::BrowserEventModel,
    at: Duration,
    other: Seq<char>,
)
    requires
        records.dom().finite(),
        transition_key(apply_transition(records, event, at)) != Some(other),
    ensures
        visible_keys(applied(records, event, at)).contains(other) == visible_keys(
            records,
        ).contains(other),
        visible_keys(records).contains(other) ==> applied(records, event, at)[other]
            == records[other],
{
    pruning_keeps_visible_peers(records, at);
    let base = pruned(records, at);
    assert(visible_keys(base).contains(other) == visible_keys(records).contains(other));
    if let browser::BrowserEventModel::Removed(gone) = event {
        let after = removed(base, gone, at);
        assert(base.dom().subset_of(records.dom()));
        vstd::set_lib::lemma_set_subset_finite(records.dom(), base.dom());
        pruning_keeps_visible_peers(after, at);
        assert(visible_keys(after).contains(other) == visible_keys(base).contains(other));
    }
}

/// After expiry every visible advertisement is younger than the liveness window, so
/// expiring again at once finds nothing.
pub proof fn expiry_is_idempotent(
    records: Map<Seq<char>, RecordModel>,
    now: Duration,
    stale_after: Duration,
)
    requires
        records.dom().finite(),
    ensures
        ({
            let base = pruned(records, now);
            let after = pruned(expired(base, expired_keys(base, now, stale_after), now), now);
            &&& expired_keys(pruned(after, now), now, stale_after) == Set::<Seq<char>>::empty()
            &&& forall|k: Seq<char>| #[trigger]
                visible_keys(after).contains(k) ==> after[k].visible->0.last_observed_at.nanos
                    + stale_after.nanos > now.nanos
        }),
{
    let base = pruned(records, now);
    let keys = expired_keys(base, now, stale_after);
    let gone = expired(base, keys, now);
    let after = pruned(gone, now);
    assert(base.dom().subset_of(records.dom()));
    vstd::set_lib::lemma_set_subset_finite(records.dom(), base.dom());
    assert(gone.dom() =~= base.dom());
    pruning_keeps_visible_peers(gone, now);
    assert forall|k: Seq<char>| #[trigger] visible_keys(after).contains(k) implies after[k].visible->0.last_observed_at.nanos
        + stale_after.nanos > now.nanos by {
        assert(visible_keys(gone).contains(k));
        assert(after.dom().contains(k));
        assert(visible_keys(base).contains(k));
        assert(!keys.contains(k));
    }
    assert(pruned(after, now) == after);
    assert(expired_keys(after, now, stale_after) =~= Set::<Seq<char>>::empty());
}

/// A live observation makes its advertisement visible with just that snapshot.
pub proof fn live_observation_is_visible(
    records: Map<Seq<char>, RecordModel>,
    peer: browser::PeerModel,
    at: Duration,
)
    requires
        !(observe_transition(pruned(records, at), peer, at) is Noop),
    ensures
        visible_keys(observed(pruned(records, at), peer, at)).contains(peer.key),
        observed(pruned(records, at), peer, at)[peer.key] == observed_record(peer, at),
{
}

/// What an observation does. It is without effect exactly where something strictly later
/// is retained of its advertisement, or a tombstone of the same time. Everywhere else it
/// is an appearance if the advertisement was not visible, a refresh if its visible
/// snapshot equals the observed peer in every field, and an update otherwise; and the
/// observed peer is then what is visible, as of the observation.
pub proof fn observation_replaces_the_snapshot(
    records: Map<Seq<char>, RecordModel>,
    peer: browser::PeerModel,
    at: Duration,
)
    ensures
        ({
            let key = peer.key;
            let retained = records.dom().contains(key);
            let last = records[key].last_transition_at.nanos;
            let visible = retained && records[key].visible is Some;
            let snapshot = records[key].visible->0.peer;
            let outdated = retained && (at.nanos < last || !visible && at.nanos == last);
            let transition = observe_transition(records, peer, at);
            let after = observed(records, peer, at);
            &&& transition == TransitionModel::Noop(key, DiscoveredPeerNoopReason::Stale)
                <==> outdated
            &&& transition == TransitionModel::Appeared(key) <==> !outdated && !visible
            &&& transition == TransitionModel::Refreshed(key) <==> !outdated && visible && snapshot
                == peer
            &&& transition == TransitionModel::Updated(key) <==> !outdated && visible && snapshot
                != peer
            &&& outdated ==> after == records
            &&& !outdated ==> {
                &&& after.dom() == records.dom().insert(key)
                &&& after[key].visible == Some(VisibleModel { peer, last_observed_at: at })
                &&& after[key].last_transition_at == at
                &&& forall|k: Seq<char>|
                    k != key && #[trigger] records.dom().contains(k) ==> after[k] == records[k]
            }
        }),
{
    let after = observed(records, peer, at);
    if !(observe_transition(records, peer, at) is Noop) {
        assert(after.dom() =~= records.dom().insert(peer.key));
    }
}

/// The same of a whole state and of each kind of observation: what the state does with
/// one depends on the observed peer and its time alone, not on whether it was reported
/// as new, changed or repeated. An advertisement that is visible is kept as it is by an
/// older observation, and shows the observed peer after any other one.
pub proof fn observed_peer_is_what_is_visible(
    records: Map<Seq<char>, RecordModel>,
    event: browser::BrowserEventModel,
    peer: browser::PeerModel,
    at: Duration,
)
    requires
        records.dom().finite(),
        event == browser::BrowserEventModel::Added(peer) || event
            == browser::BrowserEventModel::Updated(peer) || event
            == browser::BrowserEventModel::Refreshed(peer),
    ensures
        ({
            let key = peer.key;
            let transition = apply_transition(records, event, at);
            let after = applied(records, event, at);
            let last = records[key].last_transition_at.nanos;
            &&& visible_keys(records).contains(key) ==> {
                &&& at.nanos < last ==> transition == TransitionModel::Noop(
                    key,
                    DiscoveredPeerNoopReason::Stale,
                ) && after[key] == records[key]
                &&& at.nanos >= last && records[key].visible->0.peer == peer ==> transition
                    == TransitionModel::Refreshed(key)
                &&& at.nanos >= last && records[key].visible->0.peer != peer ==> transition
                    == TransitionModel::Updated(key)
                &&& visible_keys(after).contains(key)
                &&& at.nanos >= last ==> after[key].visible == Some(
                    VisibleModel { peer, last_observed_at: at },
                )
            }
            &&& !records.dom().contains(key) ==> {
                &&& transition == TransitionModel::Appeared(key)
                &&& visible_keys(after).contains(key)
                &&& after[key].visible == Some(VisibleModel { peer, last_observed_at: at })
            }
            &&& tombstones(records).contains(key) && at.nanos > last ==> {
                &&& transition == TransitionModel::Appeared(key)
                &&& visible_keys(after).contains(key)
                &&& after[key].visible == Some(VisibleModel { peer, last_observed_at: at })
            }
            &&& is_state(records) && tombstones(records).contains(key) && at.nanos <= last ==> {
                &&& transition == TransitionModel::Noop(key, DiscoveredPeerNoopReason::Stale)
                &&& tombstones(after).contains(key)
                &&& after[key] == records[key]
            }
        }),
{
    let base = pruned(records, at);
    pruning_keeps_visible_peers(records, at);
    observation_replaces_the_snapshot(base, peer, at);
    assert(visible_keys(base).contains(peer.key) == visible_keys(records).contains(peer.key));
    if is_state(records) {
        pruning_a_state_drops_only_elapsed_tombstones(records, at, peer.key);
    }
}

/// No state holds more than 256 tombstones, and pruning one drops just the tombstones
/// that are older than 300 seconds: what is left of a tombstone is as it was.
pub proof fn pruning_a_state_drops_only_elapsed_tombstones(
    records: Map<Seq<char>, RecordModel>,
    now: Duration,
    key: Seq<char>,
)
    requires
        is_state(records),
    ensures
        tombstones(records).len() <= 256,
        pruned(records, now).dom().contains(key) <==> records.dom().contains(key) && (
        records[key].visible is Some || now.nanos <= records[key].last_transition_at.nanos
            + 300_000_000_000),
        pruned(records, now).dom().contains(key) ==> pruned(records, now)[key] == records[key],
{
    lemma_few_tombstones_are_kept(records, now, key);
}

/// At most 256 tombstones in all means that none is dropped for their number.
proof fn lemma_few_tombstones_are_kept(
    records: Map<Seq<char>, RecordModel>,
    now: Duration,
    key: Seq<char>,
)
    requires
        records.dom().finite(),
        tombstones(unelapsed(records, now)).len() <= 256 || tombstones(records).len() <= 256,
    ensures
        pruned(records, now).dom().contains(key) <==> records.dom().contains(key) && (
        records[key].visible is Some || now.nanos <= records[key].last_transition_at.nanos
            + 300_000_000_000),
        pruned(records, now).dom().contains(key) ==> pruned(records, now)[key] == records[key],
{
    let base = unelapsed(records, now);
    let all = tombstones(base);
    assert(tombstones(records).subset_of(records.dom()));
    vstd::set_lib::lemma_set_subset_finite(records.dom(), tombstones(records));
    assert(all.subset_of(tombstones(records)));
    vstd::set_lib::lemma_set_subset_finite(tombstones(records), all);
    vstd::set_lib::lemma_len_subset(all, tombstones(records));
    if all.contains(key) {
        let above = newer_tombstones(base, key);
        lemma_newer_asymmetric(base, key, key);
        assert(above.subset_of(all.remove(key)));
        vstd::set_lib::lemma_len_subset(above, all.remove(key));
    }
}

/// Pruning keeps the newest tombstones: one that is dropped before 300 seconds are over
/// is older than each that is kept, or of the same time under a lesser key; and none is
/// dropped then while there are at most 256.
pub proof fn pruning_keeps_the_newest_tombstones(
    records: Map<Seq<char>, RecordModel>,
    now: Duration,
    dropped: Seq<char>,
    kept: Seq<char>,
)
    requires
        records.dom().finite(),
        tombstones(records).contains(dropped),
        now.nanos <= records[dropped].last_transition_at.nanos + 300_000_000_000,
        !pruned(records, now).dom().contains(dropped),
        tombstones(pruned(records, now)).contains(kept),
    ensures
        records[dropped].last_transition_at.nanos < records[kept].last_transition_at.nanos || (
        records[dropped].last_transition_at.nanos == records[kept].last_transition_at.nanos
            && text::text_less(dropped, kept)),
        tombstones(records).len() > 256,
{
    let base = unelapsed(records, now);
    let above_kept = newer_tombstones(base, kept);
    let above_dropped = newer_tombstones(base, dropped);
    if tombstones(records).len() <= 256 {
        lemma_few_tombstones_are_kept(records, now, dropped);
    }
    text::lemma_text_order(dropped, kept);
    assert(base.dom().contains(dropped));
    assert(tombstones(base).contains(dropped));
    assert(tombstones(base).contains(kept));
    if newer(base, dropped, kept) {
        assert(above_kept.subset_of(records.dom()));
        vstd::set_lib::lemma_set_subset_finite(records.dom(), above_kept);
        assert forall|k: Seq<char>| #[trigger] above_dropped.contains(k) implies above_kept.contains(
            k,
        ) by {
            lemma_newer_transitive(base, k, dropped, kept);
        }
        vstd::set_lib::lemma_len_subset(above_dropped, above_kept);
    }
}

/// A removal lasts for the observations up to its time and no longer: one that is later
/// makes the advertisement appear again.
pub proof fn later_observation_restores(
    records: Map<Seq<char>, RecordModel>,
    peer: browser::PeerModel,
    at: Duration,
    observed_at: Duration,
)
    requires
        !records.dom().contains(peer.key) || records[peer.key].last_transition_at.nanos <= at.nanos,
    ensures
        ({
            let gone = removed(records, peer.key, at);
            &&& observed_at.nanos > at.nanos ==> observe_transition(gone, peer, observed_at)
                == TransitionModel::Appeared(peer.key)
            &&& observed_at.nanos <= at.nanos ==> observe_transition(gone, peer, observed_at)
                == TransitionModel::Noop(peer.key, DiscoveredPeerNoopReason::Stale)
            &&& !visible_keys(gone).contains(peer.key)
        }),
{
}

/// What an explicit removal does to a whole state: a visible advertisement that did not
/// change after it is removed, and no other one; of one that is not visible the removal
/// reports that it was absent already. The removal is remembered at its time, unless
/// there are newer tombstones instead.
#[verifier::spinoff_prover]
#[verifier::rlimit(40)]
pub proof fn removal_takes_the_peer_away(
    records: Map<Seq<char>, RecordModel>,
    key: Seq<char>,
    at: Duration,
)
    requires
        records.dom().finite(),
    ensures
        ({
            let event = browser::BrowserEventModel::Removed(key);
            let transition = apply_transition(records, event, at);
            let after = applied(records, event, at);
            let last = records[key].last_transition_at.nanos;
            let visible = visible_keys(records).contains(key);
            &&& visible && at.nanos >= last ==> transition == TransitionModel::Removed(
                key,
                DiscoveredPeerRemovalReason::Explicit,
            ) && visible_keys(after) == visible_keys(records).remove(key)
            &&& visible && at.nanos < last ==> transition == TransitionModel::Noop(
                key,
                DiscoveredPeerNoopReason::Stale,
            ) && visible_keys(after) == visible_keys(records) && after[key] == records[key]
            &&& !records.dom().contains(key) || !visible && at.nanos >= last ==> transition
                == TransitionModel::Noop(key, DiscoveredPeerNoopReason::AlreadyAbsent)
            &&& !visible ==> visible_keys(after) == visible_keys(records)
            &&& (!records.dom().contains(key) || at.nanos >= last) && (forall|k: Seq<char>|
                tombstones(records).contains(k) ==> (
                #[trigger] records[k]).last_transition_at.nanos < at.nanos) ==> {
                &&& tombstones(after).contains(key)
                &&& after[key].last_transition_at == at
            }
        }),
{
    let base = pruned(records, at);
    let gone = removed(base, key, at);
    let after = pruned(gone, at);
    pruning_keeps_visible_peers(records, at);
    assert(base.dom().subset_of(records.dom()));
    vstd::set_lib::lemma_set_subset_finite(records.dom(), base.dom());
    assert(gone.dom().subset_of(base.dom().insert(key)));
    vstd::set_lib::lemma_set_subset_finite(base.dom().insert(key), gone.dom());
    pruning_keeps_visible_peers(gone, at);
    assert(visible_keys(base).contains(key) == visible_keys(records).contains(key));
    if visible_keys(records).contains(key) {
        assert(base[key] == records[key]);
    }
    if visible_keys(records).contains(key) && at.nanos >= records[key].last_transition_at.nanos {
        assert(visible_keys(gone) =~= visible_keys(records).remove(key));
    } else {
        assert(visible_keys(gone) =~= visible_keys(records));
    }
    if visible_keys(records).contains(key) && at.nanos < records[key].last_transition_at.nanos {
        assert(visible_keys(after).contains(key));
        assert(after.dom().contains(key));
    }
    let fresh = forall|k: Seq<char>|
        tombstones(records).contains(k) ==> (#[trigger] records[k]).last_transition_at.nanos
            < at.nanos;
    if (!records.dom().contains(key) || at.nanos >= records[key].last_transition_at.nanos)
        && fresh {
        let kept = unelapsed(gone, at);
        assert(gone[key] == absent_record(at));
        assert(kept.dom().contains(key));
        assert forall|k: Seq<char>| !(#[trigger] newer_tombstones(kept, key).contains(k)) by {
            if tombstones(kept).contains(k) && k != key {
                assert(base.dom().contains(k));
                assert(records[k] == base[k]);
                assert(tombstones(records).contains(k));
                assert(records[k].last_transition_at.nanos < at.nanos);
            }
            lemma_newer_asymmetric(kept, key, key);
        }
        assert(newer_tombstones(kept, key) =~= Set::<Seq<char>>::empty());
        assert(after.dom().contains(key));
    }
}

/// Expiry takes away exactly the visible advertisements that were not observed for the
/// given silence or longer; every other one stays visible as it was, and none appears.
pub proof fn expiry_takes_exactly_the_silent(
    records: Map<Seq<char>, RecordModel>,
    now: Duration,
    stale_after: Duration,
    key: Seq<char>,
)
    requires
        records.dom().finite(),
    ensures
        ({
            let base = pruned(records, now);
            let keys = expired_keys(base, now, stale_after);
            let after = pruned(expired(base, keys, now), now);
            let visible = records.dom().contains(key) && records[key].visible is Some;
            let since = records[key].visible->0.last_observed_at.nanos;
            &&& keys.contains(key) <==> visible && now.nanos >= since + stale_after.nanos
            &&& visible_keys(after).contains(key) <==> visible && now.nanos < since
                + stale_after.nanos
            &&& visible_keys(after).contains(key) ==> after[key] == records[key]
            &&& keys.contains(key) && after.dom().contains(key) ==> after[key] == (RecordModel {
                visible: None,
                last_transition_at: now,
            })
        }),
{
    let base = pruned(records, now);
    let keys = expired_keys(base, now, stale_after);
    let gone = expired(base, keys, now);
    pruning_keeps_visible_peers(records, now);
    assert(base.dom().subset_of(records.dom()));
    vstd::set_lib::lemma_set_subset_finite(records.dom(), base.dom());
    assert(gone.dom() =~= base.dom());
    pruning_keeps_visible_peers(gone, now);
    assert(visible_keys(base).contains(key) == visible_keys(records).contains(key));
    assert(visible_keys(pruned(gone, now)).contains(key) == visible_keys(gone).contains(key));
    if visible_keys(records).contains(key) {
        assert(base.dom().contains(key));
        assert(base[key] == records[key]);
    }
}

/// An expiry report has one expiry for each key, in strictly ascending order of keys,
/// and nothing else.
pub proof fn expiry_report_lists_each_key_once(
    transitions: Seq<DiscoveredPeerTransition>,
    keys: Set<Seq<char>>,
)
    requires
        is_expiry_report(transitions, keys),
    ensures
        forall|i: int|
            0 <= i < transitions.len() ==> ((#[trigger] transitions[i])@ matches TransitionModel::Removed(
                k,
                reason,
            ) && keys.contains(k) && reason == DiscoveredPeerRemovalReason::Expired),
        forall|k: Seq<char>| #[trigger]
            keys.contains(k) ==> exists|i: int|
                0 <= i < transitions.len() && (#[trigger] transitions[i])@
                    == TransitionModel::Removed(k, DiscoveredPeerRemovalReason::Expired),
        forall|i: int, j: int|
            0 <= i < j < transitions.len() ==> text::text_less(
                (#[trigger] transitions[i])@->Removed_0,
                (#[trigger] transitions[j])@->Removed_0,
            ),
{
    let listed = transitions.map_values(|t: DiscoveredPeerTransition| transition_key(t@)->0);
    assert forall|i: int| 0 <= i < transitions.len() implies ((
    #[trigger] transitions[i])@ matches TransitionModel::Removed(k, reason) && keys.contains(k)
        && reason == DiscoveredPeerRemovalReason::Expired) by {
        assert(is_expiry(transitions[i]@));
        assert(listed[i] == transitions[i]@->Removed_0);
        assert(listed.contains(listed[i]));
        assert(keys.contains(listed[i]));
    }
    assert forall|k: Seq<char>| #[trigger] keys.contains(k) implies exists|i: int|
        0 <= i < transitions.len() && (#[trigger] transitions[i])@ == TransitionModel::Removed(
            k,
            DiscoveredPeerRemovalReason::Expired,
        ) by {
        assert(listed.contains(k));
        let i = choose|i: int| 0 <= i < listed.len() && listed[i] == k;
        assert(is_expiry(transitions[i]@));
        assert(transitions[i]@ == TransitionModel::Removed(
            k,
            DiscoveredPeerRemovalReason::Expired,
        ));
    }
    let less = text::text_order();
    assert forall|i: int, j: int| 0 <= i < j < transitions.len() implies text::text_less(
        (#[trigger] transitions[i])@->Removed_0,
        (#[trigger] transitions[j])@->Removed_0,
    ) by {
        assert(is_expiry(transitions[i]@));
        assert(is_expiry(transitions[j]@));
        assert(less(listed[i], listed[j]));
    }
}

/// Every input but a rejected one leaves no tombstone that is older
/// than 300 seconds by then; and nothing that was retained is lost before, as long as
/// there are at most 256 tombstones.
pub proof fn elapsed_tombstones_are_dropped(
    records: Map<Seq<char>, RecordModel>,
    event: browser::BrowserEventModel,
    at: Duration,
    key: Seq<char>,
)
    requires
        is_state(records),
        !(event is Error),
    ensures
        ({
            let after = applied(records, event, at);
            &&& tombstones(after).contains(key) ==> at.nanos
                <= after[key].last_transition_at.nanos + 300_000_000_000
            &&& !(event is Removed) && tombstones(records).contains(key) && at.nanos
                <= records[key].last_transition_at.nanos + 300_000_000_000 ==> after.dom().contains(
                key,
            )
        }),
{
    pruning_a_state_drops_only_elapsed_tombstones(records, at, key);
    let base = pruned(records, at);
    if let browser::BrowserEventModel::Removed(gone) = event {
        let after = pruned(removed(base, gone, at), at);
        assert(after.dom().contains(key) ==> unelapsed(removed(base, gone, at), at).dom().contains(
            key,
        ));
    }
}

/// Whether an observation was reported as new, changed or repeated makes no difference to
/// what the state becomes, nor to what it reports.
pub proof fn kind_of_observation_is_irrelevant(
    records: Map<Seq<char>, RecordModel>,
    peer: browser::PeerModel,
    at: Duration,
)
    ensures
        applied(records, browser::BrowserEventModel::Added(peer), at) == applied(
            records,
            browser::BrowserEventModel::Updated(peer),
            at,
        ),
        applied(records, browser::BrowserEventModel::Added(peer), at) == applied(
            records,
            browser::BrowserEventModel::Refreshed(peer),
            at,
        ),
        apply_transition(records, browser::BrowserEventModel::Added(peer), at) == apply_transition(
            records,
            browser::BrowserEventModel::Updated(peer),
            at,
        ),
        apply_transition(records, browser::BrowserEventModel::Added(peer), at) == apply_transition(
            records,
            browser::BrowserEventModel::Refreshed(peer),
            at,
        ),
{
}

/// Visible advertisements and tombstones are what is retained, and nothing is both.
pub proof fn retained_is_visible_or_tombstone(
    records: Map<Seq<char>, RecordModel>,
    key: Seq<char>,
)
    ensures
        visible_keys(records).contains(key) <==> records.dom().contains(key)
            && records[key].visible is Some,
        tombstones(records).contains(key) <==> records.dom().contains(key)
            && records[key].visible is None,
{
}

} // verus!
