//! Routers: the per-route state machine of a portal or a proxy.
//!
//! A router has at most three edges (outward, inward when proxying, and bridge
//! when merged), each with a primary link and at most one decaying link, and two
//! parcel queues (inbound from the outward side, outbound toward it) with
//! sequence numbers and optional final lengths.

use std::collections::BTreeMap;
use std::collections::VecDeque;
use vstd::prelude::*;

#[allow(unused_imports)]
use crate::bytes::next_number;
use crate::ipcz::link_memory::{
    status_reset_waiting, status_try_lock, status_unlocked, status_with_side_stable,
    RouterLinkStatus,
};
use crate::ipcz::messages::FragmentDescriptor;

verus! {

broadcast use vstd::std_specs::btree::group_btree_axioms;

/// A link's role along a route.
#[derive(Debug, Clone, Copy, PartialEq, Eq, Structural)]
pub enum LinkKind {
    /// The link connecting one side of the route to the other; the only link at
    /// which decay can be initiated by a router.
    Central,
    /// A link extending the route toward the far portal.
    PeripheralOutward,
    /// A link extending the route toward the local portal.
    PeripheralInward,
    /// A link between two terminal routers of two different routes that were
    /// merged.
    Bridge,
}

impl LinkKind {
    /// Whether messages arriving on this link come from the far side.
    pub open spec fn spec_is_outward(self) -> bool {
        self is Central || self is PeripheralOutward
    }

    /// Whether messages arriving on this link come from the far side.
    pub fn is_outward(self) -> (r: bool)
        ensures
            r == self.spec_is_outward(),
    {
        match self {
            LinkKind::Central => true,
            LinkKind::PeripheralOutward => true,
            _ => false,
        }
    }

    /// Whether this is a central link.
    pub fn is_central(self) -> (r: bool)
        ensures
            r == (self is Central),
    {
        match self {
            LinkKind::Central => true,
            _ => false,
        }
    }

    /// Whether this is a bridge link.
    pub fn is_bridge(self) -> (r: bool)
        ensures
            r == (self is Bridge),
    {
        match self {
            LinkKind::Bridge => true,
            _ => false,
        }
    }
}

/// Which side of a link a router occupies.
#[derive(Debug, Clone, Copy, PartialEq, Eq, Structural)]
pub enum LinkSide {
    /// Side A.
    A,
    /// Side B.
    B,
}

impl LinkSide {
    /// The opposite side.
    pub open spec fn spec_opposite(self) -> LinkSide {
        match self {
            LinkSide::A => LinkSide::B,
            LinkSide::B => LinkSide::A,
        }
    }

    /// The opposite side.
    pub fn opposite(self) -> (r: LinkSide)
        ensures
            r == self.spec_opposite(),
    {
        match self {
            LinkSide::A => LinkSide::B,
            LinkSide::B => LinkSide::A,
        }
    }

    /// Whether this is side A.
    pub fn is_a(self) -> (r: bool)
        ensures
            r == (self is A),
    {
        match self {
            LinkSide::A => true,
            LinkSide::B => false,
        }
    }
}

/// The state shared by the two routers at the ends of a local link.
#[derive(Debug, Clone, Copy, PartialEq, Eq, Structural)]
pub struct LocalLinkState {
    /// The status bits.
    pub status: u32,
    /// The allowed bypass request source (low 64 bits of a node name).
    pub allowed_bypass_source: u64,
}

impl LocalLinkState {
    /// A fresh state. Local central links are born stable; bridge links are
    /// born unstable.
    pub fn new(initial_stable: bool) -> (r: LocalLinkState)
        ensures
            r.status == if initial_stable {
                RouterLinkStatus::STABLE
            } else {
                RouterLinkStatus::UNSTABLE
            },
            r.allowed_bypass_source == 0,
    {
        LocalLinkState {
            status: if initial_stable {
                RouterLinkStatus::STABLE
            } else {
                RouterLinkStatus::UNSTABLE
            },
            allowed_bypass_source: 0,
        }
    }

    /// Lock the link when both sides are stable and neither has the lock; set
    /// the waiting bit when the other side is still unstable.
    pub fn try_lock(&mut self, side_a: bool) -> (r: bool)
        ensures
            (final(self).status, r) == crate::ipcz::link_memory::lock_attempt(
                old(self).status,
                side_a,
            ),
            final(self).allowed_bypass_source == old(self).allowed_bypass_source,
    {
        let (status, locked): (u32, bool) = status_try_lock(self.status, side_a);
        self.status = status;
        locked
    }

    /// Set the stable bit of a side.
    pub fn set_side_stable(&mut self, side_a: bool)
        ensures
            final(self).status == old(self).status | crate::ipcz::link_memory::stable_bit(side_a),
            final(self).allowed_bypass_source == old(self).allowed_bypass_source,
    {
        self.status = status_with_side_stable(self.status, side_a);
    }

    /// Clear the lock bit of a side.
    pub fn unlock(&mut self, side_a: bool)
        ensures
            final(self).status == old(self).status & !crate::ipcz::link_memory::lock_bit(side_a),
            final(self).allowed_bypass_source == old(self).allowed_bypass_source,
    {
        self.status = status_unlocked(self.status, side_a);
    }

    /// Clear the waiting bit of a side where the link is stable and unlocked
    /// and the bit is set.
    pub fn reset_waiting_bit(&mut self, side_a: bool) -> (r: bool)
        ensures
            (final(self).status, r) == crate::ipcz::link_memory::waiting_reset(
                old(self).status,
                side_a,
            ),
            final(self).allowed_bypass_source == old(self).allowed_bypass_source,
    {
        let (status, reset): (u32, bool) = status_reset_waiting(self.status, side_a);
        self.status = status;
        reset
    }
}

/// A single link on an edge: identified by its sublink on a node link, or by
/// its local peer router for local links.
#[derive(Debug, Clone, Copy, PartialEq, Eq)]
pub struct Link {
    /// The node link this link belongs to (0 is the broker link, 1 the direct
    /// peer link). Local links carry 0.
    pub link_id: u64,
    /// The sublink id on the node link (meaningless for local links).
    pub sublink: u64,
    /// The link's role.
    pub kind: LinkKind,
    /// This router's side of the link.
    pub side: LinkSide,
    /// The link state fragment (central links only).
    pub link_state: Option<FragmentDescriptor>,
    /// The local peer router, for local links.
    pub local_peer: Option<u64>,
    /// The index of the state shared with the local peer, for local links.
    pub local_state: Option<usize>,
}

/// The remote link on a node link.
pub open spec fn remote_link(
    link_id: u64,
    sublink: u64,
    kind: LinkKind,
    side: LinkSide,
    link_state: Option<FragmentDescriptor>,
) -> Link {
    Link { link_id, sublink, kind, side, link_state, local_peer: None, local_state: None }
}

/// The link to the local router `peer` whose shared state has index `state`.
pub open spec fn local_link(kind: LinkKind, side: LinkSide, peer: u64, state: usize) -> Link {
    Link {
        link_id: 0,
        sublink: 0,
        kind,
        side,
        link_state: None,
        local_peer: Some(peer),
        local_state: Some(state),
    }
}

impl Link {
    /// Whether this link connects to a local peer router.
    pub fn is_local(&self) -> (r: bool)
        ensures
            r == self.local_peer is Some,
    {
        self.local_peer.is_some()
    }

    /// A remote (sublink-based) link on the given node link.
    pub fn remote(
        link_id: u64,
        sublink: u64,
        kind: LinkKind,
        side: LinkSide,
        link_state: Option<FragmentDescriptor>,
    ) -> (r: Link)
        ensures
            r == remote_link(link_id, sublink, kind, side, link_state),
    {
        Link { link_id, sublink, kind, side, link_state, local_peer: None, local_state: None }
    }

    /// The two ends of a local link between the routers `rid_a` and `rid_b`,
    /// with a shared state of their own that is added to `states`. The first
    /// end, at `rid_a`, takes `side_for_first`, the second the opposite side.
    pub fn local_pair(
        states: &mut Vec<LocalLinkState>,
        kind: LinkKind,
        side_for_first: LinkSide,
        rid_a: u64,
        rid_b: u64,
        initial_stable: bool,
    ) -> (r: (Link, Link))
        ensures
            r.0 == local_link(kind, side_for_first, rid_b, old(states)@.len() as usize),
            r.1 == local_link(
                kind,
                side_for_first.spec_opposite(),
                rid_a,
                old(states)@.len() as usize,
            ),
            old(states)@.len() <= usize::MAX,
            final(states)@ == old(states)@.push(
                LocalLinkState {
                    status: if initial_stable {
                        RouterLinkStatus::STABLE
                    } else {
                        RouterLinkStatus::UNSTABLE
                    },
                    allowed_bypass_source: 0,
                },
            ),
    {
        let state: usize = states.len();
        states.push(LocalLinkState::new(initial_stable));
        let first = Link {
            link_id: 0,
            sublink: 0,
            kind,
            side: side_for_first,
            link_state: None,
            local_peer: Some(rid_b),
            local_state: Some(state),
        };
        let second = Link {
            link_id: 0,
            sublink: 0,
            kind,
            side: side_for_first.opposite(),
            link_state: None,
            local_peer: Some(rid_a),
            local_state: Some(state),
        };
        (first, second)
    }

    /// Whether this link belongs to the outward direction.
    pub fn is_outward(&self) -> (r: bool)
        ensures
            r == self.kind.spec_is_outward(),
    {
        self.kind.is_outward()
    }
}

/// A decaying link: a former primary link being phased out, restricted to a
/// bounded range of parcel sequence numbers.
#[derive(Debug, Clone, Copy, PartialEq, Eq)]
pub struct DecayingLink {
    /// The decaying link (`None`: decay deferred until a primary is adopted).
    pub link: Option<Link>,
    /// The length of the parcel sequence after which this edge must stop
    /// transmitting on the decaying link.
    pub outgoing_length: Option<u64>,
    /// The length of the parcel sequence after which this edge can stop
    /// expecting to receive parcels on the decaying link.
    pub incoming_length: Option<u64>,
}

/// One side of a router, with at most one primary and one decaying link.
#[derive(Debug, Clone, Copy, PartialEq, Eq)]
pub struct Edge {
    /// The primary link.
    pub primary: Option<Link>,
    /// The decaying link (or a deferred-decay marker).
    pub decaying: Option<DecayingLink>,
}

impl Default for Edge {
    fn default() -> (r: Edge)
        ensures
            r == (Edge { primary: None, decaying: None }),
    {
        Edge { primary: None, decaying: None }
    }
}

impl Edge {
    /// The decaying link, if any.
    pub open spec fn spec_decaying_link(self) -> Option<Link> {
        match self.decaying {
            Some(d) => d.link,
            None => None,
        }
    }

    /// Whether the edge is marked for deferred decay.
    pub open spec fn spec_is_decay_deferred(self) -> bool {
        match self.decaying {
            Some(d) => d.link is None,
            None => false,
        }
    }

    /// Whether a parcel of sequence number `n` goes to the decaying link.
    pub open spec fn spec_on_decaying(self, n: u64) -> bool {
        match self.decaying {
            Some(d) => d.link is Some && match d.outgoing_length {
                Some(len) => n < len,
                None => true,
            },
            None => false,
        }
    }

    /// The link that a parcel of sequence number `n` goes to.
    pub open spec fn spec_link_for(self, n: u64) -> Option<Link> {
        if self.spec_on_decaying(n) {
            self.spec_decaying_link()
        } else {
            self.primary
        }
    }

    /// The edge with a new primary link; where its decay was deferred, the new
    /// link decays at once.
    pub open spec fn spec_with_primary(self, link: Link) -> Edge {
        match self.decaying {
            Some(d) => if d.link is None {
                Edge { decaying: Some(DecayingLink { link: Some(link), ..d }), ..self }
            } else {
                Edge { primary: Some(link), ..self }
            },
            None => Edge { primary: Some(link), ..self },
        }
    }

    /// The edge whose primary link begins to decay.
    pub open spec fn spec_begun_decay(self) -> Edge {
        Edge {
            primary: None,
            decaying: Some(
                DecayingLink { link: self.primary, outgoing_length: None, incoming_length: None },
            ),
        }
    }

    /// The edge with the final length of the sequence sent on the decaying
    /// link.
    pub open spec fn spec_with_length_to(self, length: u64) -> Edge {
        match self.decaying {
            Some(d) => Edge {
                decaying: Some(DecayingLink { outgoing_length: Some(length), ..d }),
                ..self
            },
            None => self,
        }
    }

    /// The edge with the final length of the sequence received on the decaying
    /// link.
    pub open spec fn spec_with_length_from(self, length: u64) -> Edge {
        match self.decaying {
            Some(d) => Edge {
                decaying: Some(DecayingLink { incoming_length: Some(length), ..d }),
                ..self
            },
            None => self,
        }
    }

    /// Whether the decay is over once `sent` and `received` are reached: both
    /// lengths are known and met.
    pub open spec fn spec_decay_over(self, sent: u64, received: u64) -> bool {
        match self.decaying {
            Some(d) => d.link is Some && match (d.outgoing_length, d.incoming_length) {
                (Some(out), Some(inc)) => sent >= out && received >= inc,
                _ => false,
            },
            None => false,
        }
    }

    /// The local peer of the primary link.
    pub open spec fn spec_local_peer(self) -> Option<u64> {
        match self.primary {
            Some(l) => l.local_peer,
            None => None,
        }
    }

    /// The local peer of the decaying link.
    pub open spec fn spec_decaying_local_peer(self) -> Option<u64> {
        match self.spec_decaying_link() {
            Some(l) => l.local_peer,
            None => None,
        }
    }

    /// Whether the edge has no decaying link and is not set to decay its next
    /// primary link.
    pub fn is_stable(&self) -> (r: bool)
        ensures
            r == self.decaying is None,
    {
        self.decaying.is_none()
    }

    /// Whether the edge is marked for deferred decay (a decaying slot with no
    /// link yet).
    pub fn is_decay_deferred(&self) -> (r: bool)
        ensures
            r == self.spec_is_decay_deferred(),
    {
        match self.decaying {
            Some(d) => d.link.is_none(),
            None => false,
        }
    }

    /// The decaying link, if any.
    pub fn decaying_link(&self) -> (r: Option<Link>)
        ensures
            r == self.spec_decaying_link(),
    {
        match self.decaying {
            Some(d) => d.link,
            None => None,
        }
    }

    /// Set the primary link; if the edge was marked for deferred decay, the new
    /// link immediately begins to decay.
    pub fn set_primary_link(&mut self, link: Link)
        ensures
            *final(self) == old(self).spec_with_primary(link),
    {
        match self.decaying {
            Some(d) => {
                if d.link.is_none() {
                    self.decaying =
                    Some(
                        DecayingLink {
                            link: Some(link),
                            outgoing_length: d.outgoing_length,
                            incoming_length: d.incoming_length,
                        },
                    );
                } else {
                    self.primary = Some(link);
                }
            },
            None => {
                self.primary = Some(link);
            },
        }
    }

    /// Release and return the primary link.
    pub fn release_primary_link(&mut self) -> (r: Option<Link>)
        ensures
            r == old(self).primary,
            *final(self) == (Edge { primary: None, ..*old(self) }),
    {
        let link = self.primary;
        self.primary = None;
        link
    }

    /// Release and return the decaying link, resetting the decaying slot.
    pub fn release_decaying_link(&mut self) -> (r: Option<Link>)
        ensures
            r == old(self).spec_decaying_link(),
            *final(self) == (Edge { decaying: None, ..*old(self) }),
    {
        let link = self.decaying_link();
        self.decaying = None;
        link
    }

    /// Set the current primary link to begin decay; or, with no primary, mark
    /// the edge for deferred decay. Fails if a decay is under way.
    pub fn begin_primary_link_decay(&mut self) -> (r: bool)
        ensures
            r == old(self).decaying is None,
            *final(self) == if r {
                old(self).spec_begun_decay()
            } else {
                *old(self)
            },
    {
        if self.decaying.is_some() {
            return false;
        }
        let link = self.primary;
        self.primary = None;
        self.decaying =
        Some(DecayingLink { link, outgoing_length: None, incoming_length: None });
        true
    }

    /// Whether a parcel with the given sequence number should be transmitted on
    /// the decaying link.
    pub fn should_transmit_on_decaying_link(&self, n: u64) -> (r: bool)
        ensures
            r == self.spec_on_decaying(n),
    {
        match self.decaying {
            Some(d) => d.link.is_some() && match d.outgoing_length {
                Some(len) => n < len,
                None => true,
            },
            None => false,
        }
    }

    fn link_for(&self, n: u64) -> (r: Option<Link>)
        ensures
            r == self.spec_link_for(n),
    {
        if self.should_transmit_on_decaying_link(n) {
            self.decaying_link()
        } else {
            self.primary
        }
    }

    /// Drop the decaying link once `length_sent` and `length_received` have
    /// both been reached.
    pub fn maybe_finish_decay(&mut self, length_sent: u64, length_received: u64) -> (r: bool)
        ensures
            r == old(self).spec_decay_over(length_sent, length_received),
            *final(self) == if r {
                Edge { decaying: None, ..*old(self) }
            } else {
                *old(self)
            },
    {
        match self.decaying {
            None => false,
            Some(d) => {
                let over = d.link.is_some() && match d.outgoing_length {
                    Some(out) => match d.incoming_length {
                        Some(inc) => length_sent >= out && length_received >= inc,
                        None => false,
                    },
                    None => false,
                };
                if over {
                    self.decaying = None;
                }
                over
            },
        }
    }

    /// Set the final length of the sequence transmitted on the decaying link.
    pub fn set_length_to_decaying_link(&mut self, length: u64)
        ensures
            *final(self) == old(self).spec_with_length_to(length),
    {
        match self.decaying {
            Some(d) => {
                self.decaying =
                Some(
                    DecayingLink {
                        link: d.link,
                        outgoing_length: Some(length),
                        incoming_length: d.incoming_length,
                    },
                );
            },
            None => {},
        }
    }

    /// The final length of the sequence transmitted on the decaying link, if
    /// set.
    pub open spec fn spec_length_to(self) -> Option<u64> {
        match self.decaying {
            Some(d) => d.outgoing_length,
            None => None,
        }
    }

    /// The final length of the sequence received on the decaying link, if set.
    pub open spec fn spec_length_from(self) -> Option<u64> {
        match self.decaying {
            Some(d) => d.incoming_length,
            None => None,
        }
    }

    /// The final length of the sequence transmitted on the decaying link, if
    /// set.
    pub fn length_to_decaying_link(&self) -> (r: Option<u64>)
        ensures
            r == self.spec_length_to(),
    {
        match self.decaying {
            Some(d) => d.outgoing_length,
            None => None,
        }
    }

    /// Set the final length of the sequence received on the decaying link.
    pub fn set_length_from_decaying_link(&mut self, length: u64)
        ensures
            *final(self) == old(self).spec_with_length_from(length),
    {
        match self.decaying {
            Some(d) => {
                self.decaying =
                Some(
                    DecayingLink {
                        link: d.link,
                        outgoing_length: d.outgoing_length,
                        incoming_length: Some(length),
                    },
                );
            },
            None => {},
        }
    }

    /// The final length of the sequence received on the decaying link, if set.
    pub fn length_from_decaying_link(&self) -> (r: Option<u64>)
        ensures
            r == self.spec_length_from(),
    {
        match self.decaying {
            Some(d) => d.incoming_length,
            None => None,
        }
    }

    /// The local peer of the primary link, if it is a local link.
    pub fn get_local_peer(&self) -> (r: Option<u64>)
        ensures
            r == self.spec_local_peer(),
    {
        match self.primary {
            Some(l) => l.local_peer,
            None => None,
        }
    }

    /// The local peer of the decaying link, if it is a local link.
    pub fn get_decaying_local_peer(&self) -> (r: Option<u64>)
        ensures
            r == self.spec_decaying_local_peer(),
    {
        match self.decaying_link() {
            Some(l) => l.local_peer,
            None => None,
        }
    }
}

/// An object attached to a parcel.
#[derive(Debug, Clone, Copy, PartialEq, Eq, Structural)]
pub enum Object {
    /// A file descriptor (from a boxed driver object).
    Fd(i32),
    /// A router (portal). Inbound: the deserialized router; outbound: the
    /// router to serialize.
    Router(u64),
}

/// A parcel in flight on a route.
#[derive(Debug, PartialEq, Eq)]
pub struct Parcel {
    /// The parcel's sequence number on its route.
    pub sequence_number: u64,
    /// The application payload. When `fragment` is set the payload lives in
    /// the shared-memory fragment and this copy is not transmitted.
    pub data: Vec<u8>,
    /// Attached objects (handles).
    pub objects: Vec<Object>,
    /// The shared-memory fragment holding the payload, if it was allocated
    /// from the link memory.
    pub fragment: Option<FragmentDescriptor>,
}

/// What a parcel holds.
#[verifier::ext_equal]
pub struct ParcelView {
    /// The parcel's sequence number on its route.
    pub sequence_number: u64,
    /// The application payload.
    pub data: Seq<u8>,
    /// Attached objects.
    pub objects: Seq<Object>,
    /// The shared-memory fragment holding the payload.
    pub fragment: Option<FragmentDescriptor>,
}

impl View for Parcel {
    type V = ParcelView;

    open spec fn view(&self) -> ParcelView {
        ParcelView {
            sequence_number: self.sequence_number,
            data: self.data@,
            objects: self.objects@,
            fragment: self.fragment,
        }
    }
}

/// A sequenced queue with out-of-order buffering and an optional final length.
#[derive(Debug, PartialEq, Eq)]
pub struct ParcelQueue {
    /// The next sequence number to emit (outbound) or deliver (inbound).
    pub current: u64,
    /// The final sequence length (set when the peer end closes).
    pub final_length: Option<u64>,
    /// Out-of-order arrivals keyed by sequence number.
    pub buffer: BTreeMap<u64, Parcel>,
}

/// What a parcel queue holds.
#[verifier::ext_equal]
pub struct QueueView {
    /// The next sequence number to emit or deliver.
    pub current: u64,
    /// The final sequence length.
    pub final_length: Option<u64>,
    /// The waiting parcels, by sequence number.
    pub parcels: Map<u64, ParcelView>,
}

impl View for ParcelQueue {
    type V = QueueView;

    open spec fn view(&self) -> QueueView {
        QueueView {
            current: self.current,
            final_length: self.final_length,
            parcels: self.buffer@.map_values(|p: Parcel| p@),
        }
    }
}

impl QueueView {
    /// A queue that starts at the given sequence number and holds nothing.
    pub open spec fn starting_at(n: u64) -> QueueView {
        QueueView { current: n, final_length: None, parcels: Map::empty() }
    }

    /// The queue with one more parcel.
    pub open spec fn pushed(self, p: ParcelView) -> QueueView {
        QueueView { parcels: self.parcels.insert(p.sequence_number, p), ..self }
    }

    /// The queue after the push of a parcel, which is dropped when stale.
    pub open spec fn after_push(self, p: ParcelView) -> QueueView {
        if p.sequence_number < self.current {
            self
        } else {
            self.pushed(p)
        }
    }

    /// The first number from `n` on that no queued parcel has.
    pub open spec fn free_from(self, n: u64) -> Option<u64>
        decreases u64::MAX - n,
    {
        if !self.parcels.contains_key(n) {
            Some(n)
        } else if n == u64::MAX {
            None
        } else {
            self.free_from((n + 1) as u64)
        }
    }

    /// The number that a parcel without one takes: the first from the current
    /// one on that no queued parcel has.
    pub open spec fn next_free(self) -> Option<u64> {
        self.free_from(self.current)
    }

    /// Whether the next element in sequence is there.
    pub open spec fn has_next(self) -> bool {
        self.parcels.contains_key(self.current)
    }

    /// The queue without its next element.
    pub open spec fn popped(self) -> QueueView {
        QueueView {
            current: next_number(self.current),
            parcels: self.parcels.remove(self.current),
            ..self
        }
    }

    /// Whether the final length is reached.
    pub open spec fn fully_consumed(self) -> bool {
        match self.final_length {
            Some(len) => self.current >= len,
            None => false,
        }
    }

    /// The queue after an attempt to set the final length.
    pub open spec fn with_final_length(self, n: u64) -> QueueView {
        if n < self.current {
            self
        } else {
            QueueView { final_length: Some(n), ..self }
        }
    }
}

impl Default for ParcelQueue {
    fn default() -> (r: ParcelQueue)
        ensures
            r@ == QueueView::starting_at(0),
    {
        ParcelQueue::new()
    }
}

impl ParcelQueue {
    /// A fresh queue starting at sequence 0.
    pub fn new() -> (r: ParcelQueue)
        ensures
            r@ == QueueView::starting_at(0),
    {
        let r = ParcelQueue { current: 0, final_length: None, buffer: BTreeMap::new() };
        assert(r@.parcels =~= Map::empty());
        r
    }

    /// Reset the next sequence number; nothing of the old sequence stays.
    pub fn reset_sequence(&mut self, n: u64)
        ensures
            final(self)@ == QueueView::starting_at(n),
    {
        self.current = n;
        self.final_length = None;
        self.buffer.clear();
        assert(self@.parcels =~= Map::empty());
    }

    /// The next sequence number to emit or deliver.
    pub fn current_sequence_number(&self) -> (r: u64)
        ensures
            r == self@.current,
    {
        self.current
    }

    /// The number of contiguous elements received.
    pub fn get_current_sequence_length(&self) -> (r: u64)
        ensures
            r == self@.current,
    {
        self.current
    }

    /// The final sequence length, if set.
    pub fn final_sequence_length(&self) -> (r: Option<u64>)
        ensures
            r == self@.final_length,
    {
        self.final_length
    }

    /// Push a parcel at its sequence number. Returns false, and drops it, if
    /// the parcel is stale (below the current sequence).
    pub fn push(&mut self, parcel: Parcel) -> (r: bool)
        ensures
            r == (parcel.sequence_number >= old(self)@.current),
            final(self)@ == old(self)@.after_push(parcel@),
    {
        if parcel.sequence_number < self.current {
            return false;
        }
        let ghost before = self.buffer@;
        let ghost p = parcel;
        self.buffer.insert(parcel.sequence_number, parcel);
        assert(before.insert(p.sequence_number, p).map_values(|q: Parcel| q@)
            =~= before.map_values(|q: Parcel| q@).insert(p.sequence_number, p@));
        true
    }

    /// Pop the next parcel in sequence order, advancing the current sequence
    /// (modulo 2^64).
    pub fn pop(&mut self) -> (r: Option<Parcel>)
        ensures
            r is Some == old(self)@.has_next(),
            match r {
                Some(p) => p@ == old(self)@.parcels[old(self)@.current] && final(self)@
                    == old(self)@.popped(),
                None => final(self)@ == old(self)@,
            },
    {
        let ghost before = self.buffer@;
        let current: u64 = self.current;
        match self.buffer.remove(&current) {
            Some(parcel) => {
                self.current = if current == u64::MAX {
                    0
                } else {
                    current + 1
                };
                assert(before.remove(current).map_values(|q: Parcel| q@) =~= before.map_values(
                    |q: Parcel| q@,
                ).remove(current));
                Some(parcel)
            },
            None => {
                assert(self.buffer@ =~= before);
                None
            },
        }
    }

    /// Whether the next element in sequence is available.
    pub fn has_next_element(&self) -> (r: bool)
        ensures
            r == self@.has_next(),
    {
        self.buffer.contains_key(&self.current)
    }

    /// Set the final sequence length. Returns false if it is below the
    /// current sequence.
    pub fn set_final_sequence_length(&mut self, n: u64) -> (r: bool)
        ensures
            r == (n >= old(self)@.current),
            final(self)@ == old(self)@.with_final_length(n),
    {
        if n < self.current {
            return false;
        }
        self.final_length = Some(n);
        true
    }

    /// Whether the sequence is fully consumed (final length reached).
    pub fn is_sequence_fully_consumed(&self) -> (r: bool)
        ensures
            r == self@.fully_consumed(),
    {
        match self.final_length {
            Some(len) => self.current >= len,
            None => false,
        }
    }

    /// Whether more elements are still expected.
    pub fn expects_more_elements(&self) -> (r: bool)
        ensures
            r == !self@.fully_consumed(),
    {
        match self.final_length {
            Some(len) => self.current < len,
            None => true,
        }
    }

    /// Whether the queue holds no pending elements and nothing is in flight.
    pub fn is_empty(&self) -> (r: bool)
        ensures
            r == (self@.parcels.dom() =~= Set::<u64>::empty()),
    {
        assert(self.buffer@.dom() =~= self@.parcels.dom());
        self.buffer.is_empty()
    }

    /// The number that a parcel without one takes; `None` where every number
    /// from the current one on is queued.
    pub fn next_free(&self) -> (r: Option<u64>)
        ensures
            r == self@.next_free(),
    {
        let mut n: u64 = self.current;
        loop
            invariant
                self@.next_free() == self@.free_from(n),
            decreases u64::MAX - n,
        {
            assert(self.buffer@.dom() =~= self@.parcels.dom());
            if !self.buffer.contains_key(&n) {
                return Some(n);
            }
            if n == u64::MAX {
                return None;
            }
            n = n + 1;
        }
    }
}

/// What the number that `free_from` gives is: it is not queued, and all before
/// it are.
pub proof fn lemma_free_from(q: QueueView, n: u64)
    ensures
        match q.free_from(n) {
            Some(m) => {
                &&& n <= m
                &&& !q.parcels.contains_key(m)
                &&& forall|k: u64| n <= k < m ==> q.parcels.contains_key(k)
            },
            None => forall|k: u64| n <= k ==> q.parcels.contains_key(k),
        },
    decreases u64::MAX - n,
{
    if q.parcels.contains_key(n) && n != u64::MAX {
        lemma_free_from(q, (n + 1) as u64);
    }
}

/// A parcel that comes without a number takes the place of no other: all that
/// was queued stays as it was.
pub proof fn law_numbered_parcel_replaces_none(q: QueueView, p: ParcelView, k: u64)
    requires
        q.next_free() == Some(p.sequence_number),
        q.parcels.contains_key(k),
    ensures
        k != p.sequence_number,
        p.sequence_number >= q.current,
        q.after_push(p).parcels.contains_key(k),
        q.after_push(p).parcels[k] == q.parcels[k],
        q.after_push(p).parcels[p.sequence_number] == p,
{
    lemma_free_from(q, q.current);
}

/// Two parcels that come without a number into a queue that holds nothing come
/// out one after the other, under the current number and the one after it.
pub proof fn law_numbered_parcels_come_in_order(q: QueueView, p1: ParcelView, p2: ParcelView)
    requires
        q.parcels.dom() =~= Set::<u64>::empty(),
        q.current < u64::MAX,
        q.next_free() == Some(p1.sequence_number),
        q.after_push(p1).next_free() == Some(p2.sequence_number),
    ensures
        ({
            let both = q.after_push(p1).after_push(p2);
            &&& p1.sequence_number == q.current
            &&& p2.sequence_number == q.current + 1
            &&& both.has_next() && both.parcels[both.current] == p1
            &&& both.popped().has_next() && both.popped().parcels[both.popped().current] == p2
            &&& both.popped().popped().parcels.dom() =~= Set::<u64>::empty()
        }),
{
    lemma_free_from(q, q.current);
    let one = q.after_push(p1);
    assert(!q.parcels.contains_key(q.current));
    assert(one.free_from(one.current) == one.free_from((one.current + 1) as u64));
    assert(!one.parcels.contains_key((one.current + 1) as u64));
    assert forall|k: u64| one.after_push(p2).popped().popped().parcels.contains_key(k) implies false by {
        assert(!q.parcels.contains_key(k));
    }
}

/// A parcel with the link it is to be transmitted on.
pub open spec fn routed_view(x: (Link, Parcel)) -> (Link, ParcelView) {
    (x.0, x.1@)
}

/// The view of a list of parcels with their links.
pub open spec fn routed_views(s: Seq<(Link, Parcel)>) -> Seq<(Link, ParcelView)> {
    s.map_values(|x: (Link, Parcel)| routed_view(x))
}

/// The parcels of `q` that can go out over `e`, in sequence order, each with
/// its link; and what stays in the queue. The list ends before the first
/// sequence number that has no parcel or whose parcel has no link.
pub open spec fn collected(q: QueueView, e: Edge) -> (Seq<(Link, ParcelView)>, QueueView)
    decreases q.parcels.dom().len(),
{
    match e.spec_link_for(q.current) {
        Some(link) => if q.has_next() && q.parcels.dom().finite() {
            let (rest, left) = collected(q.popped(), e);
            (seq![(link, q.parcels[q.current])] + rest, left)
        } else {
            (Seq::empty(), q)
        },
        None => (Seq::empty(), q),
    }
}

/// Collect the parcels of `queue` that can go out over `edge`.
fn collect(queue: &mut ParcelQueue, edge: Edge) -> (out: Vec<(Link, Parcel)>)
    ensures
        (routed_views(out@), final(queue)@) == collected(old(queue)@, edge),
{
    let mut out: Vec<(Link, Parcel)> = Vec::new();
    let ghost want = collected(queue@, edge);
    proof {
        assert(routed_views(out@) =~= Seq::empty());
        assert(Seq::<(Link, ParcelView)>::empty() + want.0 =~= want.0);
    }
    while queue.has_next_element()
        invariant
            want.0 == routed_views(out@) + collected(queue@, edge).0,
            want.1 == collected(queue@, edge).1,
        ensures
            want.0 == routed_views(out@),
            want.1 == queue@,
        decreases queue.buffer@.dom().len(),
    {
        let link = match edge.link_for(queue.current_sequence_number()) {
            Some(link) => link,
            None => {
                break;
            },
        };
        let ghost before = queue@;
        let ghost out0 = out@;
        proof {
            assert(queue.buffer@.dom() =~= before.parcels.dom());
        }
        match queue.pop() {
            Some(parcel) => {
                proof {
                    assert(queue.buffer@.dom() =~= queue@.parcels.dom());
                    assert(queue.buffer@.dom() =~= before.parcels.dom().remove(before.current));
                }
                out.push((link, parcel));
                proof {
                    let one = seq![(link, before.parcels[before.current])];
                    assert(routed_views(out@) =~= routed_views(out0) + one);
                    assert((routed_views(out0) + one) + collected(queue@, edge).0
                        =~= routed_views(out0) + (one + collected(queue@, edge).0));
                }
            },
            None => {
                break;
            },
        }
    }
    out
}

/// The user-facing endpoint of a terminal router, with its delivered messages.
#[derive(Debug, PartialEq, Eq)]
pub struct Portal {
    /// Delivered messages: payload plus extracted objects.
    pub messages: VecDeque<(Vec<u8>, Vec<Object>)>,
}

impl View for Portal {
    type V = Seq<(Seq<u8>, Seq<Object>)>;

    open spec fn view(&self) -> Seq<(Seq<u8>, Seq<Object>)> {
        self.messages@.map_values(|m: (Vec<u8>, Vec<Object>)| (m.0@, m.1@))
    }
}

impl Default for Portal {
    fn default() -> (r: Portal)
        ensures
            r@ == Seq::<(Seq<u8>, Seq<Object>)>::empty(),
    {
        let r = Portal { messages: VecDeque::new() };
        assert(r@ =~= Seq::empty());
        r
    }
}

impl Portal {
    /// Deliver a message.
    pub fn deliver(&mut self, data: Vec<u8>, objects: Vec<Object>)
        ensures
            final(self)@ == old(self)@.push((data@, objects@)),
    {
        let ghost before = self.messages@;
        let ghost m = (data, objects);
        self.messages.push_back((data, objects));
        assert(self@ =~= old(self)@.push((m.0@, m.1@)));
    }
}

/// The per-route state machine for one portal (or proxy) on a link.
#[derive(Debug, PartialEq, Eq)]
pub struct Router {
    /// The portal this router fronts (`None` for proxies).
    pub portal: Option<Portal>,
    /// The outward edge, toward the far portal.
    pub outward: Edge,
    /// The inward edge, toward the local portal's new location (proxies only).
    pub inward: Option<Edge>,
    /// The bridge edge to the other route's router (merged routers only).
    pub bridge: Option<Edge>,
    /// Parcels received from the outward side: delivered (terminal) or
    /// forwarded inward (proxy) or over the bridge (merged routers).
    pub inbound: ParcelQueue,
    /// Parcels to transmit outward: from the portal (terminal) or the inward
    /// side (proxy) or the bridge (merged routers).
    pub outbound: ParcelQueue,
    /// Whether the far end of the route is closed.
    pub peer_closed: bool,
    /// Whether this router was unexpectedly disconnected.
    pub disconnected: bool,
}

/// What a router holds.
#[verifier::ext_equal]
pub struct RouterView {
    /// The messages delivered to the portal, if the router fronts one.
    pub portal: Option<Seq<(Seq<u8>, Seq<Object>)>>,
    /// The outward edge.
    pub outward: Edge,
    /// The inward edge.
    pub inward: Option<Edge>,
    /// The bridge edge.
    pub bridge: Option<Edge>,
    /// Parcels received from the outward side.
    pub inbound: QueueView,
    /// Parcels to transmit outward.
    pub outbound: QueueView,
    /// Whether the far end of the route is closed.
    pub peer_closed: bool,
    /// Whether this router was unexpectedly disconnected.
    pub disconnected: bool,
}

impl View for Router {
    type V = RouterView;

    open spec fn view(&self) -> RouterView {
        RouterView {
            portal: match self.portal {
                Some(p) => Some(p@),
                None => None,
            },
            outward: self.outward,
            inward: self.inward,
            bridge: self.bridge,
            inbound: self.inbound@,
            outbound: self.outbound@,
            peer_closed: self.peer_closed,
            disconnected: self.disconnected,
        }
    }
}

/// A terminal router that has seen no parcel, with the given outward edge.
pub open spec fn fresh_router(outward: Edge) -> RouterView {
    RouterView {
        portal: Some(Seq::empty()),
        outward,
        inward: None,
        bridge: None,
        inbound: QueueView::starting_at(0),
        outbound: QueueView::starting_at(0),
        peer_closed: false,
        disconnected: false,
    }
}

impl RouterView {
    /// The bridge edge's link: the primary, or else the decaying one.
    pub open spec fn spec_bridge_link(self) -> Option<Link> {
        match self.bridge {
            Some(b) => if b.primary is Some {
                b.primary
            } else {
                b.spec_decaying_link()
            },
            None => None,
        }
    }

    /// Whether the bridge's decay is over.
    pub open spec fn bridge_decay_over(self) -> bool {
        match self.bridge {
            Some(b) => b.spec_decay_over(self.inbound.current, self.outbound.current),
            None => false,
        }
    }

    /// Whether the outward edge's decay is over.
    pub open spec fn outward_decay_over(self) -> bool {
        self.outward.spec_decay_over(self.outbound.current, self.inbound.current)
    }

    /// Whether the inward edge's decay is over.
    pub open spec fn inward_decay_over(self) -> bool {
        match self.inward {
            Some(e) => e.spec_decay_over(self.inbound.current, self.outbound.current),
            None => false,
        }
    }

    /// The router without the decaying links whose decay is over.
    pub open spec fn decays_finished(self) -> RouterView {
        RouterView {
            outward: if self.outward_decay_over() {
                Edge { decaying: None, ..self.outward }
            } else {
                self.outward
            },
            inward: match self.inward {
                Some(e) => Some(
                    if self.inward_decay_over() {
                        Edge { decaying: None, ..e }
                    } else {
                        e
                    },
                ),
                None => None,
            },
            ..self
        }
    }

    /// Whether the outward primary link is a central one.
    pub open spec fn central(self) -> bool {
        match self.outward.primary {
            Some(l) => l.kind is Central,
            None => false,
        }
    }

    /// The parcel as `push_outbound` queues it: an unsequenced parcel (one
    /// with the largest number) takes the next sequence number that is not
    /// queued, if there is one.
    pub open spec fn sequenced(self, p: ParcelView) -> Option<ParcelView> {
        if p.sequence_number == u64::MAX {
            match self.outbound.next_free() {
                Some(n) => Some(ParcelView { sequence_number: n, ..p }),
                None => None,
            }
        } else {
            Some(p)
        }
    }
}

impl Router {
    /// A new terminal router with the given outward link.
    pub fn new_terminal(outward: Link) -> (r: Router)
        ensures
            r@ == fresh_router(Edge { primary: Some(outward), decaying: None }),
    {
        Router {
            portal: Some(Portal::default()),
            outward: Edge { primary: Some(outward), decaying: None },
            inward: None,
            bridge: None,
            inbound: ParcelQueue::new(),
            outbound: ParcelQueue::new(),
            peer_closed: false,
            disconnected: false,
        }
    }

    /// A bare router with no links.
    pub fn bare() -> (r: Router)
        ensures
            r@ == fresh_router(Edge { primary: None, decaying: None }),
    {
        Router {
            portal: Some(Portal::default()),
            outward: Edge::default(),
            inward: None,
            bridge: None,
            inbound: ParcelQueue::new(),
            outbound: ParcelQueue::new(),
            peer_closed: false,
            disconnected: false,
        }
    }

    /// Push an outbound parcel from the portal (the largest sequence number
    /// stands for the next one) or from the inward side (already sequenced).
    /// Returns false, and drops it, if its number has passed, or if it is to
    /// get one and none is left.
    pub fn push_outbound(&mut self, parcel: Parcel) -> (r: bool)
        ensures
            match old(self)@.sequenced(parcel@) {
                Some(p) => {
                    &&& r == (p.sequence_number >= old(self)@.outbound.current)
                    &&& final(self)@ == (RouterView {
                        outbound: old(self)@.outbound.after_push(p),
                        ..old(self)@
                    })
                    &&& parcel.sequence_number == u64::MAX ==> {
                        &&& r
                        &&& !old(self)@.outbound.parcels.contains_key(p.sequence_number)
                    }
                },
                None => !r && final(self)@ == old(self)@,
            },
    {
        let mut parcel = parcel;
        if parcel.sequence_number == u64::MAX {
            proof {
                lemma_free_from(self.outbound@, self.outbound@.current);
            }
            match self.outbound.next_free() {
                Some(n) => {
                    parcel.sequence_number = n;
                },
                None => {
                    return false;
                },
            }
        }
        self.outbound.push(parcel)
    }

    /// Accept an inbound parcel (from the outward side).
    pub fn accept_inbound(&mut self, parcel: Parcel) -> (r: bool)
        ensures
            r == (parcel.sequence_number >= old(self)@.inbound.current),
            final(self)@ == (RouterView {
                inbound: old(self)@.inbound.after_push(parcel@),
                ..old(self)@
            }),
    {
        self.inbound.push(parcel)
    }

    /// Accept an outbound parcel (from the inward side).
    pub fn accept_outbound(&mut self, parcel: Parcel) -> (r: bool)
        ensures
            r == (parcel.sequence_number >= old(self)@.outbound.current),
            final(self)@ == (RouterView {
                outbound: old(self)@.outbound.after_push(parcel@),
                ..old(self)@
            }),
    {
        self.outbound.push(parcel)
    }

    /// Collect parcels ready to transmit on the outward edge, choosing the
    /// decaying or the primary link by sequence number. Stops at the first
    /// parcel whose link is unavailable.
    pub fn collect_outbound(&mut self) -> (out: Vec<(Link, Parcel)>)
        ensures
            routed_views(out@) == collected(old(self)@.outbound, old(self)@.outward).0,
            final(self)@ == (RouterView {
                outbound: collected(old(self)@.outbound, old(self)@.outward).1,
                ..old(self)@
            }),
    {
        collect(&mut self.outbound, self.outward)
    }

    /// Collect parcels ready to forward inward (proxy), over the inward
    /// edge's decaying or primary link.
    pub fn collect_inbound(&mut self) -> (out: Vec<(Link, Parcel)>)
        ensures
            match old(self)@.inward {
                Some(e) => routed_views(out@) == collected(old(self)@.inbound, e).0 && final(self)@
                    == (RouterView {
                    inbound: collected(old(self)@.inbound, e).1,
                    ..old(self)@
                }),
                None => out@.len() == 0 && final(self)@ == old(self)@,
            },
    {
        match self.inward {
            Some(inward) => collect(&mut self.inbound, inward),
            None => Vec::new(),
        }
    }

    /// Collect parcels ready to forward over the bridge edge (merged routers).
    pub fn collect_bridge(&mut self) -> (out: Vec<(Link, Parcel)>)
        ensures
            match old(self)@.bridge {
                Some(e) => routed_views(out@) == collected(old(self)@.inbound, e).0 && final(self)@
                    == (RouterView {
                    inbound: collected(old(self)@.inbound, e).1,
                    ..old(self)@
                }),
                None => out@.len() == 0 && final(self)@ == old(self)@,
            },
    {
        match self.bridge {
            Some(bridge) => collect(&mut self.inbound, bridge),
            None => Vec::new(),
        }
    }

    /// The bridge edge's link (primary, or decaying when the primary is
    /// gone). Bridges hold at most one link at a time.
    #[must_use]
    pub fn bridge_link(&self) -> (r: Option<Link>)
        ensures
            r == self@.spec_bridge_link(),
    {
        match self.bridge {
            Some(b) => if b.primary.is_some() {
                b.primary
            } else {
                b.decaying_link()
            },
            None => None,
        }
    }

    /// Whether the bridge edge is stable (no decaying link).
    #[must_use]
    pub fn bridge_stable(&self) -> (r: bool)
        ensures
            r == match self@.bridge {
                Some(b) => b.decaying is None,
                None => false,
            },
    {
        match self.bridge {
            Some(b) => b.is_stable(),
            None => false,
        }
    }

    /// Attempt to finish the bridge decay; drops the bridge when its sequence
    /// bounds are met. Returns whether the bridge was dropped.
    #[must_use]
    pub fn finish_bridge_decay(&mut self) -> (r: bool)
        ensures
            r == old(self)@.bridge_decay_over(),
            final(self)@ == if r {
                RouterView { bridge: None, ..old(self)@ }
            } else {
                old(self)@
            },
    {
        let inbound_len: u64 = self.inbound.current_sequence_number();
        let outbound_len: u64 = self.outbound.current_sequence_number();
        let done = match self.bridge {
            Some(b) => {
                let mut b = b;
                b.maybe_finish_decay(inbound_len, outbound_len)
            },
            None => false,
        };
        if done {
            self.bridge = None;
        }
        done
    }

    /// Whether this router is on a central link.
    pub fn on_central_link(&self) -> (r: bool)
        ensures
            r == self@.central(),
    {
        match self.outward.primary {
            Some(l) => l.kind.is_central(),
            None => false,
        }
    }

    /// The current outbound sequence length.
    pub fn outbound_length(&self) -> (r: u64)
        ensures
            r == self@.outbound.current,
    {
        self.outbound.current_sequence_number()
    }

    /// The current inbound sequence length (contiguous parcels received).
    pub fn inbound_length(&self) -> (r: u64)
        ensures
            r == self@.inbound.current,
    {
        self.inbound.get_current_sequence_length()
    }

    /// Finish the outward and inward decays if their sequence bounds are met.
    /// Returns, for the outward and then the inward edge, the released
    /// decaying link and whether the decay finished.
    pub fn finish_decays(&mut self) -> (r: (Option<Link>, bool, Option<Link>, bool))
        ensures
            r.1 == old(self)@.outward_decay_over(),
            r.0 == if r.1 {
                old(self)@.outward.spec_decaying_link()
            } else {
                None::<Link>
            },
            r.3 == old(self)@.inward_decay_over(),
            r.2 == if r.3 {
                old(self)@.inward.unwrap().spec_decaying_link()
            } else {
                None::<Link>
            },
            final(self)@ == old(self)@.decays_finished(),
    {
        let outbound_len: u64 = self.outbound_length();
        let inbound_len: u64 = self.inbound_length();
        let out_link = self.outward.decaying_link();
        let out = self.outward.maybe_finish_decay(outbound_len, inbound_len);
        let (in_link, inc) = match self.inward {
            Some(e) => {
                let mut e = e;
                let link = e.decaying_link();
                let inc = e.maybe_finish_decay(inbound_len, outbound_len);
                self.inward = Some(e);
                (link, inc)
            },
            None => (None, false),
        };
        (
            if out {
                out_link
            } else {
                None
            },
            out,
            if inc {
                in_link
            } else {
                None
            },
            inc,
        )
    }

    /// Whether the outward edge has a decaying link.
    #[must_use]
    pub fn outward_has_decaying(&self) -> (r: bool)
        ensures
            r == self@.outward.decaying is Some,
    {
        self.outward.decaying.is_some()
    }

    /// Whether the inward edge has a decaying link.
    #[must_use]
    pub fn inward_has_decaying(&self) -> (r: bool)
        ensures
            r == match self@.inward {
                Some(e) => e.decaying is Some,
                None => false,
            },
    {
        match self.inward {
            Some(e) => e.decaying.is_some(),
            None => false,
        }
    }
}

/// The parcels at the front of `q`, in sequence order up to the first number
/// that has none; and what stays in the queue.
pub open spec fn drained(q: QueueView) -> (Seq<ParcelView>, QueueView)
    decreases q.parcels.dom().len(),
{
    if q.has_next() && q.parcels.dom().finite() {
        let (rest, left) = drained(q.popped());
        (seq![q.parcels[q.current]] + rest, left)
    } else {
        (Seq::empty(), q)
    }
}

/// What a portal gets of parcels.
pub open spec fn messages_of(parcels: Seq<ParcelView>) -> Seq<(Seq<u8>, Seq<Object>)> {
    parcels.map_values(|p: ParcelView| (p.data, p.objects))
}

impl RouterView {
    /// The router after its portal took the parcels that have come in; a proxy
    /// keeps them.
    pub open spec fn portal_filled(self) -> RouterView {
        match self.portal {
            Some(messages) => if self.inward is None {
                RouterView {
                    portal: Some(messages + messages_of(drained(self.inbound).0)),
                    inbound: drained(self.inbound).1,
                    ..self
                }
            } else {
                self
            },
            None => self,
        }
    }
}

impl Router {
    /// Give the parcels that have come in to the portal of a terminal router.
    pub fn fill_portal(&mut self)
        ensures
            final(self)@ == old(self)@.portal_filled(),
    {
        if self.inward.is_some() {
            return ;
        }
        let ghost before = self@;
        let ghost want = drained(self@.inbound);
        match self.portal.take() {
            None => {},
            Some(portal) => {
                let mut portal: Portal = portal;
                let ghost start = portal@;
                proof {
                    assert(messages_of(want.0) =~= Seq::empty() + messages_of(want.0));
                    assert(start + Seq::empty() =~= start);
                }
                loop
                    invariant
                        portal@ + messages_of(drained(self.inbound@).0) == start + messages_of(
                            want.0,
                        ),
                        drained(self.inbound@).1 == want.1,
                        self@ == (RouterView { portal: None, inbound: self@.inbound, ..before }),
                    ensures
                        portal@ == start + messages_of(want.0),
                        self.inbound@ == want.1,
                    decreases self.inbound.buffer@.dom().len(),
                {
                    let ghost q = self.inbound@;
                    proof {
                        assert(self.inbound.buffer@.dom() =~= q.parcels.dom());
                    }
                    match self.inbound.pop() {
                        Some(parcel) => {
                            let ghost p = parcel@;
                            let ghost sofar = portal@;
                            proof {
                                assert(self.inbound.buffer@.dom() =~= self.inbound@.parcels.dom());
                                assert(self.inbound.buffer@.dom() =~= q.parcels.dom().remove(
                                    q.current,
                                ));
                                let rest = drained(self.inbound@).0;
                                assert(messages_of(seq![p] + rest) =~= seq![(p.data, p.objects)]
                                    + messages_of(rest));
                                assert(sofar.push((p.data, p.objects)) + messages_of(rest)
                                    =~= sofar + (seq![(p.data, p.objects)] + messages_of(rest)));
                            }
                            portal.deliver(parcel.data, parcel.objects);
                        },
                        None => {
                            proof {
                                assert(portal@ + messages_of(Seq::empty()) =~= portal@);
                            }
                            break;
                        },
                    }
                }
                self.portal = Some(portal);
            },
        }
    }
}

/// Whether `x` is what the queue `q` sends for its `i`-th parcel over `e`.
pub open spec fn sent_in_sequence(q: QueueView, e: Edge, i: int, x: (Link, ParcelView)) -> bool {
    let n = (q.current + i) as u64;
    &&& q.parcels.contains_key(n)
    &&& x.1 == q.parcels[n]
    &&& e.spec_link_for(n) == Some(x.0)
}

/// What is collected is in sequence: the parcels carry the sequence numbers
/// from the queue's current one on, each parcel is the one that the queue held
/// for its number and goes to the link that its number calls for, and the queue
/// goes on right after the last of them.
pub proof fn law_collected_in_sequence(q: QueueView, e: Edge)
    requires
        q.parcels.dom().finite(),
        q.current + collected(q, e).0.len() <= u64::MAX,
    ensures
        collected(q, e).1.current == q.current + collected(q, e).0.len(),
        forall|i: int|
            0 <= i < collected(q, e).0.len() ==> sent_in_sequence(
                q,
                e,
                i,
                #[trigger] collected(q, e).0[i],
            ),
    decreases q.parcels.dom().len(),
{
    let all = collected(q, e).0;
    if e.spec_link_for(q.current) is Some && q.has_next() {
        let rest = collected(q.popped(), e).0;
        assert(q.popped().parcels.dom() =~= q.parcels.dom().remove(q.current));
        assert(all.len() == rest.len() + 1);
        assert(q.current < u64::MAX);
        law_collected_in_sequence(q.popped(), e);
        assert forall|i: int| 0 <= i < all.len() implies sent_in_sequence(
            q,
            e,
            i,
            #[trigger] all[i],
        ) by {
            if i > 0 {
                assert(all[i] == rest[i - 1]);
                assert(sent_in_sequence(q.popped(), e, i - 1, rest[i - 1]));
                assert(q.popped().current + (i - 1) == q.current + i);
            }
        }
    } else {
        assert(all.len() == 0);
    }
}

/// Collecting leaves nothing behind that could go: what stays in the queue
/// has no next parcel, or no link for it.
pub proof fn law_collected_leaves_nothing_ready(q: QueueView, e: Edge)
    requires
        q.parcels.dom().finite(),
    ensures
        ({
            let left = collected(q, e).1;
            !left.has_next() || e.spec_link_for(left.current) is None
        }),
    decreases q.parcels.dom().len(),
{
    if e.spec_link_for(q.current) is Some && q.has_next() {
        assert(q.popped().parcels.dom() =~= q.parcels.dom().remove(q.current));
        law_collected_leaves_nothing_ready(q.popped(), e);
    }
}

/// An edge whose decay was deferred decays the first link it adopts: parcels
/// of every number go to it until a length is set.
pub proof fn law_deferred_decay(e: Edge, link: Link, n: u64)
    requires
        e.primary is None,
        e.decaying is None,
    ensures
        e.spec_begun_decay().spec_is_decay_deferred(),
        e.spec_begun_decay().spec_with_primary(link).spec_decaying_link() == Some(link),
        e.spec_begun_decay().spec_with_primary(link).spec_link_for(n) == Some(link),
{
}

/// While a link decays, the numbers below the set length go to it and the
/// others to the primary link.
pub proof fn law_decay_splits_by_length(e: Edge, old_link: Link, new_link: Link, len: u64, n: u64)
    requires
        e.primary == Some(old_link),
        e.decaying is None,
    ensures
        ({
            let f = e.spec_begun_decay().spec_with_primary(new_link).spec_with_length_to(len);
            f.spec_link_for(n) == if n < len {
                Some(old_link)
            } else {
                Some(new_link)
            }
        }),
{
}

} // verus!
