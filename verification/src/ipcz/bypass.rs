//! Bypass: how the proxies and bridges of a route are taken out of it.

use vstd::prelude::*;

use crate::ipcz::link_memory::ROUTER_LINK_STATE_SIZE;
#[allow(unused_imports)]
use crate::ipcz::link_memory::resolve;
use crate::ipcz::messages::{BypassPeerWithLink, FragmentDescriptor, NodeName};
use crate::ipcz::node::{
    InboundParcel, LinkMessage, RoutingAcceptor, RoutingError, Task, LINK_ID_BROKER,
    LINK_ID_DIRECT, MSG_ID_BYPASS_PEER,
};
#[allow(unused_imports)]
use crate::ipcz::node::{
    fate, inbound_views, lemma_insert_same, lemma_reinsert, Fault, InboundView, LinkMessageView,
    NodeStep, NodeView, TaskView,
};
use crate::ipcz::router::{Edge, Link, LinkKind, LinkSide, Router};
#[allow(unused_imports)]
use crate::ipcz::router::{local_link, remote_link, LocalLinkState, RouterView};
use crate::ipcz::routing::DecayOrder;

verus! {

broadcast use {lemma_reinsert, lemma_insert_same};

/// The order to let an edge decay, with the errors that it may meet.
pub open spec fn order(
    rid: u64,
    bridge: bool,
    to: Option<u64>,
    from: Option<u64>,
    missing: &'static str,
    no_bridge: &'static str,
    refused: &'static str,
) -> DecayOrder {
    DecayOrder { rid, bridge, optional: false, to, from, missing, no_bridge, refused }
}

/// The orders by which a bridge between two remote routes decays.
pub open spec fn remote_orders(first: u64, second: u64) -> Seq<DecayOrder> {
    let outward = |rid: u64|
        DecayOrder {
            optional: true,
            ..order(rid, false, None, None, "", "", "failed to decay outward edge")
        };
    let bridge = |rid: u64|
        DecayOrder {
            optional: true,
            ..order(rid, true, None, None, "", "", "failed to decay bridge edge")
        };
    seq![outward(first), bridge(first), outward(second), bridge(second)]
}

/// The orders by which a bridge decays whose router `rid` has the local peer
/// `local`, which has sent `n` parcels; `other` is the router at the other end
/// of the bridge.
pub open spec fn half_local_orders(rid: u64, other: u64, local: u64, n: u64) -> Seq<DecayOrder> {
    seq![
        order(
            local,
            false,
            Some(n),
            None,
            "local peer missing",
            "",
            "failed to decay local peer's outward edge",
        ),
        order(
            other,
            false,
            Some(n),
            None,
            "bridge peer missing",
            "",
            "failed to decay bridge peer's outward edge",
        ),
        order(
            rid,
            true,
            Some(n),
            None,
            "bridge router missing",
            "bridge missing",
            "failed to decay this bridge edge",
        ),
        order(
            rid,
            false,
            None,
            Some(n),
            "bridge router missing",
            "",
            "failed to decay this outward edge",
        ),
        order(
            other,
            true,
            None,
            Some(n),
            "bridge peer missing",
            "bridge peer missing bridge",
            "failed to decay bridge peer's bridge edge",
        ),
    ]
}

/// The orders by which a bridge decays that lies between two local peers: `a`
/// is the peer of `first` and has sent `n` parcels, `b` that of `second` and
/// has sent `m`.
pub open spec fn local_orders(first: u64, second: u64, a: u64, b: u64, n: u64, m: u64) -> Seq<
    DecayOrder,
> {
    seq![
        order(
            a,
            false,
            Some(n),
            Some(m),
            "bridge peer missing",
            "",
            "failed to decay first peer edge",
        ),
        order(
            b,
            false,
            Some(m),
            Some(n),
            "bridge peer missing",
            "",
            "failed to decay second peer edge",
        ),
        order(
            first,
            false,
            Some(m),
            Some(n),
            "bridge router missing",
            "",
            "failed to decay this outward edge",
        ),
        order(
            second,
            false,
            Some(n),
            Some(m),
            "bridge peer missing",
            "",
            "failed to decay bridge peer edge",
        ),
        order(
            first,
            true,
            Some(n),
            Some(m),
            "bridge router missing",
            "bridge missing",
            "failed to decay this bridge edge",
        ),
        order(
            second,
            true,
            Some(m),
            Some(n),
            "bridge peer missing",
            "bridge peer missing bridge",
            "failed to decay bridge peer's bridge edge",
        ),
    ]
}

impl NodeView {
    /// The number of parcels that a router has sent.
    pub open spec fn sent_by(self, rid: u64) -> u64 {
        if self.routers.contains_key(rid) {
            self.routers[rid].outbound.current
        } else {
            0
        }
    }

    /// The outward link of a router.
    pub open spec fn outward_of(self, rid: u64) -> Option<Link> {
        if self.routers.contains_key(rid) {
            self.routers[rid].outward.primary
        } else {
            None
        }
    }

    /// The low half of the name of the node behind a link; zero for a local
    /// link.
    pub open spec fn source_of(self, link: Link) -> u64 {
        if link.local_peer is Some {
            0
        } else {
            self.broker_name.low
        }
    }

    /// The router at the other end of a router's bridge, where the bridge is
    /// there and stable.
    pub open spec fn bridge_peer_of(self, rid: u64) -> Option<u64> {
        if self.routers.contains_key(rid) {
            match self.routers[rid].bridge {
                Some(e) => if e.decaying is None {
                    e.spec_local_peer()
                } else {
                    None
                },
                None => None,
            }
        } else {
            None
        }
    }

    /// The state after the bridge of a router is to be collapsed: both outward
    /// links are locked for it, or nothing happens.
    pub open spec fn bridge_bypass(self, rid: u64) -> NodeStep {
        match self.bridge_peer_of(rid) {
            None => (self, Ok(())),
            Some(second) => match (self.outward_of(rid), self.outward_of(second)) {
                (Some(first_link), Some(second_link)) => {
                    let (s1, r1) = self.bypass_lock_tried(
                        first_link,
                        self.source_of(second_link),
                    );
                    match r1 {
                        Err(e) => (s1, Err(e)),
                        Ok(false) => (s1, Ok(())),
                        Ok(true) => {
                            let (s2, r2) = s1.bypass_lock_tried(
                                second_link,
                                self.source_of(first_link),
                            );
                            match r2 {
                                Err(e) => (s2, Err(e)),
                                Ok(false) => s2.unlocked(first_link),
                                Ok(true) => s2.bridge_bypassed(rid, second, first_link, second_link),
                            }
                        },
                    }
                },
                _ => (self, Ok(())),
            },
        }
    }

    /// The state after the bridge between two routers is collapsed whose
    /// outward links are locked.
    pub open spec fn bridge_bypassed(
        self,
        first: u64,
        second: u64,
        first_link: Link,
        second_link: Link,
    ) -> NodeStep {
        match (first_link.local_peer, second_link.local_peer) {
            (None, None) => {
                let (s, r) = self.decays_ordered(remote_orders(first, second));
                if r is Err {
                    (s, r)
                } else {
                    (
                        s.with_message(
                            LinkMessageView::BypassPeer(
                                first_link.sublink,
                                self.broker_name,
                                second_link.sublink,
                            ),
                        ),
                        Ok(()),
                    )
                }
            },
            (Some(_), None) => self.half_local_bypass(first),
            (None, Some(_)) => self.half_local_bypass(second),
            (Some(a), Some(b)) => self.local_bypass(first, second, a, b),
        }
    }

    /// The state after a bridge is collapsed where the router `rid` has a local
    /// peer and the other one a remote one. Without a free link state that has
    /// to wait for more capacity.
    pub open spec fn half_local_bypass(self, rid: u64) -> NodeStep {
        let (s, r) = self.state_allocated(LINK_ID_BROKER);
        match r {
            Err(e) => (s, Err(e)),
            Ok(None) => s.capacity_requested(ROUTER_LINK_STATE_SIZE as u32),
            Ok(Some(d)) => s.bypass_from_local_peer(rid, d),
        }
    }

    /// The state after the local peer of a bridge router is linked to the
    /// remote peer of the other bridge router, with the link state `d`.
    pub open spec fn bypass_from_local_peer(self, rid: u64, d: FragmentDescriptor) -> NodeStep {
        match (
            self.bridge_peer_of(rid),
            if self.routers.contains_key(rid) {
                self.routers[rid].outward.spec_local_peer()
            } else {
                None
            },
        ) {
            (Some(other), Some(local)) => if !self.routers.contains_key(other) {
                (self, Err(Fault::BadParcel("bridge peer missing"@)))
            } else {
                match self.routers[other].outward.primary {
                    None => (self, Err(Fault::BadParcel("bridge peer has no outward link"@))),
                    Some(link) => if link.local_peer is Some {
                        (self, Err(Fault::BadParcel("bridge peer outward link is local"@)))
                    } else if d.spec_is_null() {
                        (self, Err(Fault::BadParcel("null link state for bridge bypass"@)))
                    } else {
                        self.bypass_with_new_link(rid, other, local, link.sublink, d)
                    },
                }
            },
            _ => (self, Ok(())),
        }
    }

    /// The state after the local peer of a bridge router is linked to the
    /// remote node on a new sublink.
    pub open spec fn bypass_with_new_link(
        self,
        rid: u64,
        other: u64,
        local: u64,
        remote_sublink: u64,
        d: FragmentDescriptor,
    ) -> NodeStep {
        let n = self.sent_by(local);
        let (s1, r1) = self.sublinks_allocated(LINK_ID_BROKER, 1);
        match r1 {
            Err(e) => (s1, Err(e)),
            Ok(sublink) => {
                let (s2, r2) = s1.decays_ordered(half_local_orders(rid, other, local, n));
                let s3 = s2.with_message(
                    LinkMessageView::BypassPeerWithLink(remote_sublink, sublink, d, n),
                );
                let (s4, r4) = s3.outward_link_set(
                    local,
                    remote_link(0, sublink, LinkKind::Central, LinkSide::A, Some(d)),
                );
                if r2 is Err {
                    (s2, r2)
                } else if r4 is Err {
                    (s4, r4)
                } else {
                    let s5 = NodeView {
                        owners: s4.owners.insert((LINK_ID_BROKER, sublink), local),
                        ..s4
                    };
                    (
                        s5.then_task(TaskView::Flush(local, false)).then_task(
                            TaskView::Flush(other, false),
                        ).then_task(TaskView::Flush(rid, false)),
                        Ok(()),
                    )
                }
            },
        }
    }

    /// The state after a bridge between two local peers is collapsed: the peers
    /// are linked to each other.
    pub open spec fn local_bypass(self, first: u64, second: u64, a: u64, b: u64) -> NodeStep {
        let n = self.sent_by(a);
        let m = self.sent_by(b);
        let (s1, r1) = self.decays_ordered(local_orders(first, second, a, b, n, m));
        if r1 is Err {
            (s1, r1)
        } else {
            let state = s1.local_states.len() as usize;
            let s2 = NodeView {
                local_states: s1.local_states.push(
                    LocalLinkState { status: 3, allowed_bypass_source: 0 },
                ),
                ..s1
            };
            let s3 = s2.primary_set(a, local_link(LinkKind::Central, LinkSide::A, b, state));
            let s4 = s3.primary_set(b, local_link(LinkKind::Central, LinkSide::B, a, state));
            (
                s4.then_task(TaskView::Flush(b, false)).then_task(
                    TaskView::Flush(a, false),
                ).then_task(TaskView::Flush(second, false)).then_task(TaskView::Flush(first, false)),
                Ok(()),
            )
        }
    }

    /// The state with a new outward link at a router.
    pub open spec fn primary_set(self, rid: u64, link: Link) -> NodeView {
        let r = self.routers[rid];
        self.with_router(rid, RouterView { outward: r.outward.spec_with_primary(link), ..r })
    }
}

impl RoutingAcceptor {
    fn outward_link_of(&self, rid: u64) -> (r: Option<Link>)
        ensures
            r == self@.outward_of(rid),
    {
        match self.routers.get(rid) {
            Some(r) => r.outward.primary,
            None => None,
        }
    }

    fn bridge_peer(&self, rid: u64) -> (r: Option<u64>)
        ensures
            r == self@.bridge_peer_of(rid),
    {
        match self.routers.get(rid) {
            Some(r) => match r.bridge {
                Some(e) => if e.is_stable() {
                    e.get_local_peer()
                } else {
                    None
                },
                None => None,
            },
            None => None,
        }
    }

    fn length_sent_by(&self, rid: u64) -> (r: u64)
        ensures
            r == self@.sent_by(rid),
    {
        match self.routers.get(rid) {
            Some(r) => r.outbound_length(),
            None => 0,
        }
    }

    fn source_behind(&self, link: &Link) -> (r: u64)
        ensures
            r == self@.source_of(*link),
    {
        if link.is_local() {
            0
        } else {
            self.broker_name.low
        }
    }

    /// Collapse the bridge of a router, where its outward links are stable.
    pub fn maybe_start_bridge_bypass(&mut self, rid: u64) -> (r: Result<(), RoutingError>)
        requires
            old(self).wf(),
        ensures
            final(self).wf(),
            (final(self)@, fate(r)) == old(self)@.bridge_bypass(rid),
    {
        let second: u64 = match self.bridge_peer(rid) {
            Some(p) => p,
            None => {
                return Ok(());
            },
        };
        let first_link = match self.outward_link_of(rid) {
            Some(l) => l,
            None => {
                return Ok(());
            },
        };
        let second_link = match self.outward_link_of(second) {
            Some(l) => l,
            None => {
                return Ok(());
            },
        };
        let first_node: u64 = self.source_behind(&first_link);
        let second_node: u64 = self.source_behind(&second_link);
        match self.try_lock_link_for_bypass(&first_link, second_node) {
            Err(e) => {
                return Err(e);
            },
            Ok(locked) => {
                if !locked {
                    return Ok(());
                }
            },
        }
        match self.try_lock_link_for_bypass(&second_link, first_node) {
            Err(e) => {
                return Err(e);
            },
            Ok(locked) => {
                if !locked {
                    return self.unlock_link_for_bypass(&first_link);
                }
            },
        }
        self.bypass_bridge(rid, second, &first_link, &second_link)
    }

    fn bypass_bridge(&mut self, first: u64, second: u64, first_link: &Link, second_link: &Link)
        -> (r: Result<(), RoutingError>)
        requires
            old(self).wf(),
        ensures
            final(self).wf(),
            (final(self)@, fate(r)) == old(self)@.bridge_bypassed(
                first,
                second,
                *first_link,
                *second_link,
            ),
    {
        match first_link.local_peer {
            None => match second_link.local_peer {
                None => {
                    let broker = self.broker_name;
                    let orders = orders_between_remote_peers(first, second);
                    match self.follow_decay_orders(&orders) {
                        Ok(_) => {},
                        Err(e) => {
                            return Err(e);
                        },
                    }
                    self.send(
                        LinkMessage::BypassPeer {
                            sublink: first_link.sublink,
                            target_node: broker,
                            target_sublink: second_link.sublink,
                        },
                    );
                    Ok(())
                },
                Some(_) => self.start_half_local_bypass(second),
            },
            Some(a) => match second_link.local_peer {
                None => self.start_half_local_bypass(first),
                Some(b) => self.start_local_bypass(first, second, a, b),
            },
        }
    }

    fn start_half_local_bypass(&mut self, rid: u64) -> (r: Result<(), RoutingError>)
        requires
            old(self).wf(),
        ensures
            final(self).wf(),
            (final(self)@, fate(r)) == old(self)@.half_local_bypass(rid),
    {
        match self.allocate_link_state(LINK_ID_BROKER) {
            Err(e) => Err(e),
            Ok(None) => self.request_block_capacity(ROUTER_LINK_STATE_SIZE as u32),
            Ok(Some(d)) => self.start_bridge_bypass_from_local_peer(rid, d),
        }
    }
}

fn orders_between_remote_peers(first: u64, second: u64) -> (v: Vec<DecayOrder>)
    ensures
        v@ == remote_orders(first, second),
{
    let mut v: Vec<DecayOrder> = Vec::new();
    v.push(
        DecayOrder {
            rid: first,
            bridge: false,
            optional: true,
            to: None,
            from: None,
            missing: "",
            no_bridge: "",
            refused: "failed to decay outward edge",
        },
    );
    v.push(
        DecayOrder {
            rid: first,
            bridge: true,
            optional: true,
            to: None,
            from: None,
            missing: "",
            no_bridge: "",
            refused: "failed to decay bridge edge",
        },
    );
    v.push(
        DecayOrder {
            rid: second,
            bridge: false,
            optional: true,
            to: None,
            from: None,
            missing: "",
            no_bridge: "",
            refused: "failed to decay outward edge",
        },
    );
    v.push(
        DecayOrder {
            rid: second,
            bridge: true,
            optional: true,
            to: None,
            from: None,
            missing: "",
            no_bridge: "",
            refused: "failed to decay bridge edge",
        },
    );
    assert(v@ =~= remote_orders(first, second));
    v
}

fn orders_from_local_peer(rid: u64, other: u64, local: u64, n: u64) -> (v: Vec<DecayOrder>)
    ensures
        v@ == half_local_orders(rid, other, local, n),
{
    let mut v: Vec<DecayOrder> = Vec::new();
    v.push(
        DecayOrder {
            rid: local,
            bridge: false,
            optional: false,
            to: Some(n),
            from: None,
            missing: "local peer missing",
            no_bridge: "",
            refused: "failed to decay local peer's outward edge",
        },
    );
    v.push(
        DecayOrder {
            rid: other,
            bridge: false,
            optional: false,
            to: Some(n),
            from: None,
            missing: "bridge peer missing",
            no_bridge: "",
            refused: "failed to decay bridge peer's outward edge",
        },
    );
    v.push(
        DecayOrder {
            rid: rid,
            bridge: true,
            optional: false,
            to: Some(n),
            from: None,
            missing: "bridge router missing",
            no_bridge: "bridge missing",
            refused: "failed to decay this bridge edge",
        },
    );
    v.push(
        DecayOrder {
            rid: rid,
            bridge: false,
            optional: false,
            to: None,
            from: Some(n),
            missing: "bridge router missing",
            no_bridge: "",
            refused: "failed to decay this outward edge",
        },
    );
    v.push(
        DecayOrder {
            rid: other,
            bridge: true,
            optional: false,
            to: None,
            from: Some(n),
            missing: "bridge peer missing",
            no_bridge: "bridge peer missing bridge",
            refused: "failed to decay bridge peer's bridge edge",
        },
    );
    assert(v@ =~= half_local_orders(rid, other, local, n));
    v
}

fn orders_between_local_peers(first: u64, second: u64, a: u64, b: u64, n: u64, m: u64) -> (v: Vec<
    DecayOrder,
>)
    ensures
        v@ == local_orders(first, second, a, b, n, m),
{
    let mut v: Vec<DecayOrder> = Vec::new();
    v.push(
        DecayOrder {
            rid: a,
            bridge: false,
            optional: false,
            to: Some(n),
            from: Some(m),
            missing: "bridge peer missing",
            no_bridge: "",
            refused: "failed to decay first peer edge",
        },
    );
    v.push(
        DecayOrder {
            rid: b,
            bridge: false,
            optional: false,
            to: Some(m),
            from: Some(n),
            missing: "bridge peer missing",
            no_bridge: "",
            refused: "failed to decay second peer edge",
        },
    );
    v.push(
        DecayOrder {
            rid: first,
            bridge: false,
            optional: false,
            to: Some(m),
            from: Some(n),
            missing: "bridge router missing",
            no_bridge: "",
            refused: "failed to decay this outward edge",
        },
    );
    v.push(
        DecayOrder {
            rid: second,
            bridge: false,
            optional: false,
            to: Some(n),
            from: Some(m),
            missing: "bridge peer missing",
            no_bridge: "",
            refused: "failed to decay bridge peer edge",
        },
    );
    v.push(
        DecayOrder {
            rid: first,
            bridge: true,
            optional: false,
            to: Some(n),
            from: Some(m),
            missing: "bridge router missing",
            no_bridge: "bridge missing",
            refused: "failed to decay this bridge edge",
        },
    );
    v.push(
        DecayOrder {
            rid: second,
            bridge: true,
            optional: false,
            to: Some(m),
            from: Some(n),
            missing: "bridge peer missing",
            no_bridge: "bridge peer missing bridge",
            refused: "failed to decay bridge peer's bridge edge",
        },
    );
    assert(v@ =~= local_orders(first, second, a, b, n, m));
    v
}

impl RoutingAcceptor {
    /// The bridge router whose outward peer is local links that peer to the
    /// remote peer of the other bridge router.
    pub fn start_bridge_bypass_from_local_peer(&mut self, rid: u64, link_state: FragmentDescriptor)
        -> (r: Result<(), RoutingError>)
        requires
            old(self).wf(),
        ensures
            final(self).wf(),
            (final(self)@, fate(r)) == old(self)@.bypass_from_local_peer(rid, link_state),
    {
        let other: u64 = match self.bridge_peer(rid) {
            Some(p) => p,
            None => {
                return Ok(());
            },
        };
        let local: u64 = match self.routers.get(rid) {
            Some(r) => match r.outward.get_local_peer() {
                Some(p) => p,
                None => {
                    return Ok(());
                },
            },
            None => {
                return Ok(());
            },
        };
        let link = match self.routers.get(other) {
            None => {
                return Err(RoutingError::BadParcel("bridge peer missing"));
            },
            Some(r) => match r.outward.primary {
                None => {
                    return Err(RoutingError::BadParcel("bridge peer has no outward link"));
                },
                Some(l) => l,
            },
        };
        if link.is_local() {
            return Err(RoutingError::BadParcel("bridge peer outward link is local"));
        }
        if link_state.is_null() {
            return Err(RoutingError::BadParcel("null link state for bridge bypass"));
        }
        self.link_local_peer(rid, other, local, link.sublink, link_state)
    }

    fn link_local_peer(
        &mut self,
        rid: u64,
        other: u64,
        local: u64,
        remote_sublink: u64,
        link_state: FragmentDescriptor,
    ) -> (r: Result<(), RoutingError>)
        requires
            old(self).wf(),
        ensures
            final(self).wf(),
            (final(self)@, fate(r)) == old(self)@.bypass_with_new_link(
                rid,
                other,
                local,
                remote_sublink,
                link_state,
            ),
    {
        let n: u64 = self.length_sent_by(local);
        let sublink: u64 = match self.allocate_sublinks(LINK_ID_BROKER, 1) {
            Ok(x) => x,
            Err(e) => {
                return Err(e);
            },
        };
        let orders = orders_from_local_peer(rid, other, local, n);
        match self.follow_decay_orders(&orders) {
            Ok(_) => {},
            Err(e) => {
                return Err(e);
            },
        }
        self.send(
            LinkMessage::BypassPeerWithLink {
                sublink: remote_sublink,
                new_sublink: sublink,
                link_state,
                sequence_length: n,
            },
        );
        let link = Link::remote(0, sublink, LinkKind::Central, LinkSide::A, Some(link_state));
        match self.set_outward_link(local, &link) {
            Ok(_) => {},
            Err(e) => {
                return Err(e);
            },
        }
        self.owners.insert(LINK_ID_BROKER, sublink, local);
        self.push_task(Task::Flush { rid: local, force: false });
        self.push_task(Task::Flush { rid: other, force: false });
        self.push_task(Task::Flush { rid, force: false });
        Ok(())
    }

    fn start_local_bypass(&mut self, first: u64, second: u64, a: u64, b: u64) -> (r: Result<
        (),
        RoutingError,
    >)
        requires
            old(self).wf(),
        ensures
            final(self).wf(),
            (final(self)@, fate(r)) == old(self)@.local_bypass(first, second, a, b),
    {
        let n: u64 = self.length_sent_by(a);
        let m: u64 = self.length_sent_by(b);
        let orders = orders_between_local_peers(first, second, a, b, n, m);
        match self.follow_decay_orders(&orders) {
            Ok(_) => {},
            Err(e) => {
                return Err(e);
            },
        }
        proof {
            lemma_orders_keep_routers(old(self)@, orders@, a);
            lemma_orders_keep_routers(old(self)@, orders@, b);
            lemma_ordered_router_is_there(old(self)@, orders@, 0);
            lemma_ordered_router_is_there(old(self)@, orders@, 1);
        }
        let (link_a, link_b) = Link::local_pair(
            &mut self.local_states,
            LinkKind::Central,
            LinkSide::A,
            a,
            b,
            true,
        );
        self.adopt_primary(a, link_a);
        self.adopt_primary(b, link_b);
        self.push_task(Task::Flush { rid: b, force: false });
        self.push_task(Task::Flush { rid: a, force: false });
        self.push_task(Task::Flush { rid: second, force: false });
        self.push_task(Task::Flush { rid: first, force: false });
        Ok(())
    }

    fn adopt_primary(&mut self, rid: u64, link: Link)
        requires
            old(self).wf(),
            old(self)@.routers.contains_key(rid),
        ensures
            final(self).wf(),
            final(self)@ == old(self)@.primary_set(rid, link),
    {
        match self.routers.take(rid) {
            Some(router) => {
                let mut router: Router = router;
                router.outward.set_primary_link(link);
                self.routers.put(rid, router);
            },
            None => {},
        }
    }
}

/// Orders to decay take no router away and add none.
proof fn lemma_orders_keep_routers(s: NodeView, orders: Seq<DecayOrder>, rid: u64)
    ensures
        s.decays_ordered(orders).0.routers.contains_key(rid) == s.routers.contains_key(rid),
    decreases orders.len(),
{
    if orders.len() > 0 {
        let (t, r) = s.decay_ordered(orders[0]);
        if r is Ok {
            lemma_orders_keep_routers(t, orders.skip(1), rid);
        }
    }
}

/// Where all orders are followed, the routers of those that are not optional
/// are there.
proof fn lemma_ordered_router_is_there(s: NodeView, orders: Seq<DecayOrder>, i: int)
    requires
        s.decays_ordered(orders).1 is Ok,
        0 <= i < orders.len(),
        !orders[i].optional,
    ensures
        s.routers.contains_key(orders[i].rid),
    decreases orders.len(),
{
    let (t, r) = s.decay_ordered(orders[0]);
    if i > 0 {
        lemma_ordered_router_is_there(t, orders.skip(1), i - 1);
        assert(orders.skip(1)[i - 1] == orders[i]);
    }
}

/// A length that a decaying link of a router has.
#[derive(Clone, Copy, PartialEq, Eq, Structural)]
pub enum LengthSlot {
    /// What goes to the decaying outward link.
    OutwardTo,
    /// What comes from the decaying outward link.
    OutwardFrom,
    /// What comes from the decaying inward link.
    InwardFrom,
    /// What goes to the decaying bridge link.
    BridgeTo,
    /// What comes from the decaying bridge link.
    BridgeFrom,
}

impl RouterView {
    /// The router with a length of a decaying link set.
    pub open spec fn with_length(self, slot: LengthSlot, n: u64) -> RouterView {
        match slot {
            LengthSlot::OutwardTo => RouterView {
                outward: self.outward.spec_with_length_to(n),
                ..self
            },
            LengthSlot::OutwardFrom => RouterView {
                outward: self.outward.spec_with_length_from(n),
                ..self
            },
            LengthSlot::InwardFrom => match self.inward {
                Some(e) => RouterView { inward: Some(e.spec_with_length_from(n)), ..self },
                None => self,
            },
            LengthSlot::BridgeTo => match self.bridge {
                Some(e) => RouterView { bridge: Some(e.spec_with_length_to(n)), ..self },
                None => self,
            },
            LengthSlot::BridgeFrom => match self.bridge {
                Some(e) => RouterView { bridge: Some(e.spec_with_length_from(n)), ..self },
                None => self,
            },
        }
    }
}

/// Whether a length is not set at an edge that is there.
pub open spec fn no_length_to(e: Option<Edge>) -> bool {
    e matches Some(x) ==> x.spec_length_to() is None
}

/// Whether a length is not set at an edge that is there.
pub open spec fn no_length_from(e: Option<Edge>) -> bool {
    e matches Some(x) ==> x.spec_length_from() is None
}

/// The acceptance of parcels, the first of them next.
pub open spec fn acceptances(queue: Seq<InboundView>, link_id: u64) -> Seq<TaskView> {
    Seq::new(queue.len(), |i: int| TaskView::Accept(queue[queue.len() - 1 - i], link_id))
}

impl NodeView {
    /// The state with a length of a decaying link of a router set.
    pub open spec fn length_set(self, rid: u64, slot: LengthSlot, n: u64) -> NodeView {
        if self.routers.contains_key(rid) {
            self.with_router(rid, self.routers[rid].with_length(slot, n))
        } else {
            self
        }
    }

    /// Whether `rid` and its local peer are the proxy and the router that a
    /// stop of proxying to a local peer is about.
    pub open spec fn valid_proxy(self, rid: u64, peer: u64) -> bool {
        let r = self.routers[rid];
        let q = self.routers[peer];
        &&& r.outward.spec_decaying_link() matches Some(ours)
        &&& q.outward.spec_decaying_link() matches Some(theirs)
        &&& ours.local_peer == Some(peer)
        &&& theirs.local_peer == Some(rid)
        &&& r.inward is Some
        &&& q.outward.spec_length_from() is None
        &&& r.outward.spec_length_to() is None
        &&& no_length_from(r.inward)
    }

    /// Whether `rid`, its bridge peer and the local peer of that are the
    /// routers that a stop of proxying over a bridge is about.
    pub open spec fn valid_bridge_proxy(self, rid: u64, bridge_peer: u64, peer: u64) -> bool {
        let r = self.routers[rid];
        let b = self.routers[bridge_peer];
        let q = self.routers[peer];
        &&& r.outward.decaying is Some
        &&& q.outward.decaying is Some
        &&& b.outward.decaying is Some
        &&& q.outward.spec_length_from() is None
        &&& r.outward.spec_length_from() is None
        &&& no_length_to(r.bridge)
        &&& b.outward.spec_length_to() is None
        &&& no_length_from(b.bridge)
    }

    /// The state after the peer bypassed a proxy whose other end is here, and
    /// says how many parcels it sent to the proxy.
    pub open spec fn local_proxying_stopped(self, rid: u64, n: u64) -> NodeStep {
        if !self.routers.contains_key(rid) {
            (self, Err(Fault::BadParcel("stop proxying for unknown router"@)))
        } else {
            let r = self.routers[rid];
            let bridge_peer = match r.bridge {
                Some(e) => e.spec_decaying_local_peer(),
                None => None,
            };
            let local_peer = if r.bridge is Some {
                None
            } else {
                r.outward.spec_decaying_local_peer()
            };
            match (local_peer, bridge_peer) {
                (Some(peer), _) => self.plain_proxying_stopped(rid, peer, n),
                (None, Some(b)) => self.bridge_proxying_stopped(rid, b, n),
                (None, None) => if r.disconnected {
                    (self, Ok(()))
                } else {
                    (self, Err(Fault::BadParcel("no local peer for StopProxyingToLocalPeer"@)))
                },
            }
        }
    }

    /// The state after the proxy `rid` between the peer and a local router is
    /// stopped.
    pub open spec fn plain_proxying_stopped(self, rid: u64, peer: u64, n: u64) -> NodeStep {
        if !self.routers.contains_key(peer) || self.routers[peer].outward.spec_decaying_link()
            is None {
            (self, Ok(()))
        } else if !self.valid_proxy(rid, peer) {
            (self, Err(Fault::BadParcel("invalid proxy"@)))
        } else {
            let s = self.length_set(peer, LengthSlot::OutwardFrom, n).length_set(
                rid,
                LengthSlot::OutwardTo,
                n,
            ).length_set(rid, LengthSlot::InwardFrom, n);
            (
                s.then_task(TaskView::Flush(peer, false)).then_task(TaskView::Flush(rid, false)),
                Ok(()),
            )
        }
    }

    /// The state after the bridge between `rid` and its bridge peer, which has
    /// a local router at its other end, is stopped.
    pub open spec fn bridge_proxying_stopped(self, rid: u64, bridge_peer: u64, n: u64) -> NodeStep {
        if !self.routers.contains_key(bridge_peer) {
            (self, Err(Fault::BadParcel("bridge peer missing"@)))
        } else if self.routers[bridge_peer].outward.decaying is None {
            (self, Err(Fault::BadParcel("invalid bridge peer"@)))
        } else {
            match self.routers[bridge_peer].outward.spec_decaying_local_peer() {
                None => (self, Err(Fault::BadParcel("bridge peer has no decaying local peer"@))),
                Some(peer) => if !self.routers.contains_key(peer) {
                    (self, Ok(()))
                } else if !self.valid_bridge_proxy(rid, bridge_peer, peer) {
                    (self, Err(Fault::BadParcel("invalid bridge proxy"@)))
                } else {
                    let s = self.length_set(peer, LengthSlot::OutwardFrom, n).length_set(
                        rid,
                        LengthSlot::OutwardFrom,
                        n,
                    ).length_set(rid, LengthSlot::BridgeTo, n).length_set(
                        bridge_peer,
                        LengthSlot::OutwardTo,
                        n,
                    ).length_set(bridge_peer, LengthSlot::BridgeFrom, n);
                    (
                        s.then_task(TaskView::Flush(bridge_peer, false)).then_task(
                            TaskView::Flush(peer, false),
                        ).then_task(TaskView::Flush(rid, false)),
                        Ok(()),
                    )
                },
            }
        }
    }

    /// The state after a router adopts the new link that its peer offers: the
    /// old link decays, the peer is told to stop proxying on it, and parcels
    /// that were kept for the new sublink are accepted.
    pub open spec fn bypass_accepted(self, b: BypassPeerWithLink, link_id: u64) -> NodeStep {
        let d = b.new_link_state_fragment;
        let key = (link_id, b.sublink);
        if d.spec_is_null() {
            (self, Err(Fault::BadParcel("bypass with null link state"@)))
        } else {
            match self.memory_of(LINK_ID_BROKER) {
                Err(e) => (self, Err(e)),
                Ok(m) => match resolve(m, d) {
                    Err(e) => (self, Err(Fault::Memory(e))),
                    Ok(_) => if !self.owners.contains_key(key) {
                        (self, Ok(()))
                    } else {
                        self.link_replaced(self.owners[key], b, link_id)
                    },
                },
            }
        }
    }

    /// The state after the router `rid` adopts the new link that its peer
    /// offers.
    pub open spec fn link_replaced(self, rid: u64, b: BypassPeerWithLink, link_id: u64) -> NodeStep {
        if !self.routers.contains_key(rid) {
            (self, Err(Fault::BadParcel("bypass for unknown router"@)))
        } else {
            let r = self.routers[rid];
            match r.outward.primary {
                None => (self, Ok(())),
                Some(link) => if r.disconnected {
                    (self, Ok(()))
                } else if link.local_peer is Some {
                    (self, Err(Fault::BadParcel("unexpected bypass at a local link"@)))
                } else if r.outward.decaying is Some {
                    (self, Err(Fault::BadParcel("failure to decay link"@)))
                } else {
                    let n = r.outbound.current;
                    let new_link = remote_link(
                        link_id,
                        b.new_sublink,
                        LinkKind::Central,
                        LinkSide::B,
                        Some(b.new_link_state_fragment),
                    );
                    let outward = r.outward.spec_begun_decay().spec_with_length_to(
                        n,
                    ).spec_with_length_from(b.inbound_sequence_length).spec_with_primary(new_link);
                    let key = (link_id, b.new_sublink);
                    let s = NodeView {
                        owners: self.owners.insert(key, rid),
                        ..self.with_router(rid, RouterView { outward, ..r })
                    }.with_message(LinkMessageView::StopProxyingToLocalPeer(link.sublink, n));
                    (s.then_task(TaskView::Flush(rid, false)).early_accepted(key), Ok(()))
                },
            }
        }
    }

    /// The state after the parcels that were kept for a sublink are to be
    /// accepted next.
    pub open spec fn early_accepted(self, key: (u64, u64)) -> NodeView {
        if self.early.contains_key(key) {
            NodeView {
                early: self.early.remove(key),
                tasks: self.tasks + acceptances(self.early[key], key.0),
                ..self
            }
        } else {
            self
        }
    }

    /// The link to a node.
    pub open spec fn link_to(self, name: NodeName) -> Result<u64, Fault> {
        if name == self.broker_name {
            Ok(LINK_ID_BROKER)
        } else if self.referrer_name.spec_is_valid() && name == self.referrer_name {
            Ok(LINK_ID_DIRECT)
        } else {
            Err(
                Fault::Unsupported(
                    MSG_ID_BYPASS_PEER,
                    "EstablishLink (unknown node) not exercised by a sealed court"@,
                ),
            )
        }
    }

    /// The name of the node at the other end of a link.
    pub open spec fn name_behind(self, link_id: u64) -> Result<NodeName, Fault> {
        if link_id == LINK_ID_DIRECT {
            if self.direct_memory is None {
                Err(Fault::Unexpected("direct link not established"@))
            } else {
                Ok(self.direct_name)
            }
        } else {
            Ok(self.broker_name)
        }
    }

    /// The state after a router that was sent through a proxy bypasses it: the
    /// proxy's other end is on the node `name`, at `sublink`.
    pub open spec fn peer_bypassed(self, rid: u64, requestor: u64, name: NodeName, sublink: u64)
        -> NodeStep {
        if !self.routers.contains_key(rid) {
            (self, Err(Fault::BadParcel("bypass for unknown router"@)))
        } else {
            match self.routers[rid].outward.primary {
                None => (self, Ok(())),
                Some(link) => if link.link_id != requestor {
                    (self, Err(Fault::BadParcel("rejecting BypassPeer from a non-outward peer"@)))
                } else if name == self.local_name {
                    (
                        self,
                        Err(
                            Fault::Unsupported(
                                MSG_ID_BYPASS_PEER,
                                "BypassPeerWithNewLocalLink not exercised by a sealed court"@,
                            ),
                        ),
                    )
                } else {
                    match self.link_to(name) {
                        Err(e) => (self, Err(e)),
                        Ok(target) => match self.name_behind(requestor) {
                            Err(e) => (self, Err(e)),
                            Ok(proxy) => self.new_remote_link(rid, proxy, sublink, target),
                        },
                    }
                },
            }
        }
    }

    /// The state after a router that was behind a proxy on the node `proxy` is
    /// linked to the proxy's other end directly.
    pub open spec fn new_remote_link(self, rid: u64, proxy: NodeName, sublink: u64, target: u64)
        -> NodeStep {
        let (s1, r1) = self.state_allocated(target);
        match r1 {
            Err(e) => (s1, Err(e)),
            Ok(None) => (s1, Ok(())),
            Ok(Some(d)) => {
                let (s2, r2) = s1.sublinks_allocated(target, 1);
                match r2 {
                    Err(e) => (s2, Err(e)),
                    Ok(new_sublink) => s2.remote_link_taken(
                        rid,
                        proxy,
                        sublink,
                        target,
                        d,
                        new_sublink,
                    ),
                }
            },
        }
    }

    /// The state after a router takes a new central link to a node, in place of
    /// the link to a proxy, which decays.
    pub open spec fn remote_link_taken(
        self,
        rid: u64,
        proxy: NodeName,
        sublink: u64,
        target: u64,
        d: FragmentDescriptor,
        new_sublink: u64,
    ) -> NodeStep {
        if !self.routers.contains_key(rid) {
            (self, Err(Fault::BadParcel("bypass for unknown router"@)))
        } else {
            let r = self.routers[rid];
            let n = r.outbound.current;
            if r.disconnected {
                (self, Ok(()))
            } else if r.outward.decaying is Some {
                (self, Err(Fault::BadParcel("failed to decay the outward link"@)))
            } else {
                let outward = r.outward.spec_begun_decay().spec_with_length_to(n);
                let s1 = self.with_router(rid, RouterView { outward, ..r });
                let (s2, r2) = s1.with_message_on(
                    target,
                    LinkMessageView::AcceptBypassLink(proxy, sublink, n, new_sublink, d),
                );
                let (s3, r3) = s2.outward_link_set(
                    rid,
                    remote_link(target, new_sublink, LinkKind::Central, LinkSide::A, Some(d)),
                );
                if r2 is Err {
                    (s2, r2)
                } else if r3 is Err {
                    (s3, r3)
                } else {
                    (s3.then_task(TaskView::Flush(rid, true)), Ok(()))
                }
            }
        }
    }
}

impl RoutingAcceptor {
    fn set_length(&mut self, rid: u64, slot: LengthSlot, n: u64)
        requires
            old(self).wf(),
        ensures
            final(self).wf(),
            final(self)@ == old(self)@.length_set(rid, slot, n),
    {
        let mut router: Router = match self.routers.take(rid) {
            Some(r) => r,
            None => {
                return ;
            },
        };
        match slot {
            LengthSlot::OutwardTo => {
                router.outward.set_length_to_decaying_link(n);
            },
            LengthSlot::OutwardFrom => {
                router.outward.set_length_from_decaying_link(n);
            },
            LengthSlot::InwardFrom => match router.inward {
                Some(e) => {
                    let mut e: Edge = e;
                    e.set_length_from_decaying_link(n);
                    router.inward = Some(e);
                },
                None => {},
            },
            LengthSlot::BridgeTo => match router.bridge {
                Some(e) => {
                    let mut e: Edge = e;
                    e.set_length_to_decaying_link(n);
                    router.bridge = Some(e);
                },
                None => {},
            },
            LengthSlot::BridgeFrom => match router.bridge {
                Some(e) => {
                    let mut e: Edge = e;
                    e.set_length_from_decaying_link(n);
                    router.bridge = Some(e);
                },
                None => {},
            },
        }
        self.routers.put(rid, router);
    }

    /// The peer bypassed a proxy whose other end is here.
    pub fn router_stop_proxying_to_local_peer(&mut self, rid: u64, n: u64) -> (r: Result<
        (),
        RoutingError,
    >)
        requires
            old(self).wf(),
        ensures
            final(self).wf(),
            (final(self)@, fate(r)) == old(self)@.local_proxying_stopped(rid, n),
    {
        let (bridge, outward, disconnected): (Option<Edge>, Edge, bool) = match self.routers.get(
            rid,
        ) {
            Some(r) => (r.bridge, r.outward, r.disconnected),
            None => {
                return Err(RoutingError::BadParcel("stop proxying for unknown router"));
            },
        };
        match bridge {
            Some(e) => match e.get_decaying_local_peer() {
                Some(b) => {
                    return self.stop_bridge_proxying(rid, b, n);
                },
                None => {},
            },
            None => match outward.get_decaying_local_peer() {
                Some(peer) => {
                    return self.stop_plain_proxying(rid, peer, n);
                },
                None => {},
            },
        }
        if disconnected {
            Ok(())
        } else {
            Err(RoutingError::BadParcel("no local peer for StopProxyingToLocalPeer"))
        }
    }

    fn stop_plain_proxying(&mut self, rid: u64, peer: u64, n: u64) -> (r: Result<(), RoutingError>)
        requires
            old(self).wf(),
            old(self)@.routers.contains_key(rid),
            old(self)@.routers[rid].outward.spec_decaying_link() is Some,
        ensures
            final(self).wf(),
            (final(self)@, fate(r)) == old(self)@.plain_proxying_stopped(rid, peer, n),
    {
        let valid = match self.routers.get(rid) {
            None => false,
            Some(this) => match self.routers.get(peer) {
                None => {
                    return Ok(());
                },
                Some(other) => match other.outward.decaying_link() {
                    None => {
                        return Ok(());
                    },
                    Some(theirs) => match this.outward.decaying_link() {
                        None => false,
                        Some(ours) => is_peer(ours.local_peer, peer) && is_peer(
                            theirs.local_peer,
                            rid,
                        ) && this.inward.is_some()
                            && other.outward.length_from_decaying_link().is_none()
                            && this.outward.length_to_decaying_link().is_none() && lacks_length_from(
                            this.inward,
                        ),
                    },
                },
            },
        };
        if !valid {
            return Err(RoutingError::BadParcel("invalid proxy"));
        }
        self.set_length(peer, LengthSlot::OutwardFrom, n);
        self.set_length(rid, LengthSlot::OutwardTo, n);
        self.set_length(rid, LengthSlot::InwardFrom, n);
        self.push_task(Task::Flush { rid: peer, force: false });
        self.push_task(Task::Flush { rid, force: false });
        Ok(())
    }

    fn stop_bridge_proxying(&mut self, rid: u64, bridge_peer: u64, n: u64) -> (r: Result<
        (),
        RoutingError,
    >)
        requires
            old(self).wf(),
            old(self)@.routers.contains_key(rid),
        ensures
            final(self).wf(),
            (final(self)@, fate(r)) == old(self)@.bridge_proxying_stopped(rid, bridge_peer, n),
    {
        let peer: u64 = match self.routers.get(bridge_peer) {
            None => {
                return Err(RoutingError::BadParcel("bridge peer missing"));
            },
            Some(b) => {
                if b.outward.is_stable() {
                    return Err(RoutingError::BadParcel("invalid bridge peer"));
                }
                match b.outward.get_decaying_local_peer() {
                    Some(p) => p,
                    None => {
                        return Err(
                            RoutingError::BadParcel("bridge peer has no decaying local peer"),
                        );
                    },
                }
            },
        };
        let valid = match self.routers.get(peer) {
            None => {
                return Ok(());
            },
            Some(other) => match self.routers.get(rid) {
                None => false,
                Some(this) => match self.routers.get(bridge_peer) {
                    None => false,
                    Some(b) => !this.outward.is_stable() && !other.outward.is_stable()
                        && !b.outward.is_stable()
                        && other.outward.length_from_decaying_link().is_none()
                        && this.outward.length_from_decaying_link().is_none() && lacks_length_to(
                        this.bridge,
                    ) && b.outward.length_to_decaying_link().is_none() && lacks_length_from(
                        b.bridge,
                    ),
                },
            },
        };
        if !valid {
            return Err(RoutingError::BadParcel("invalid bridge proxy"));
        }
        self.set_length(peer, LengthSlot::OutwardFrom, n);
        self.set_length(rid, LengthSlot::OutwardFrom, n);
        self.set_length(rid, LengthSlot::BridgeTo, n);
        self.set_length(bridge_peer, LengthSlot::OutwardTo, n);
        self.set_length(bridge_peer, LengthSlot::BridgeFrom, n);
        self.push_task(Task::Flush { rid: bridge_peer, force: false });
        self.push_task(Task::Flush { rid: peer, force: false });
        self.push_task(Task::Flush { rid, force: false });
        Ok(())
    }

    /// Put the acceptance of parcels on the list of work, the first of them
    /// next.
    pub(crate) fn push_acceptances(&mut self, queue: Vec<InboundParcel>, link_id: u64)
        requires
            old(self).wf(),
        ensures
            final(self).wf(),
            final(self)@ == (NodeView {
                tasks: old(self)@.tasks + acceptances(inbound_views(queue@), link_id),
                ..old(self)@
            }),
    {
        let ghost all = inbound_views(queue@);
        let ghost before = self@;
        let mut rest: Vec<InboundParcel> = queue;
        assert(acceptances(all, link_id).take(0) =~= Seq::empty());
        assert(before.tasks + Seq::empty() =~= before.tasks);
        loop
            invariant
                self.wf(),
                rest@.len() <= all.len(),
                inbound_views(rest@) == all.take(rest@.len() as int),
                self@ == (NodeView {
                    tasks: before.tasks + acceptances(all, link_id).take(all.len() - rest@.len()),
                    ..before
                }),
            ensures
                rest@.len() == 0,
            decreases rest@.len(),
        {
            let ghost n = rest@.len();
            let ghost seen = inbound_views(rest@);
            match rest.pop() {
                Some(parcel) => {
                    proof {
                        assert(inbound_views(rest@) =~= all.take(n - 1));
                        assert(seen[n - 1] == all[n - 1]);
                        let done = acceptances(all, link_id).take(all.len() - n);
                        let more = acceptances(all, link_id).take(all.len() - (n - 1));
                        assert(more =~= done.push(TaskView::Accept(parcel@, link_id)));
                        assert((before.tasks + done).push(TaskView::Accept(parcel@, link_id))
                            =~= before.tasks + more);
                    }
                    self.push_task(Task::Accept { parcel, link_id });
                },
                None => {
                    break;
                },
            }
        }
        assert(acceptances(all, link_id).take(all.len() as int) =~= acceptances(all, link_id));
    }

    /// Accept the parcels that were kept for a sublink next.
    pub(crate) fn take_early(&mut self, link_id: u64, sublink: u64)
        requires
            old(self).wf(),
        ensures
            final(self).wf(),
            final(self)@ == old(self)@.early_accepted((link_id, sublink)),
    {
        let ghost before = self@;
        let ghost key = (link_id, sublink);
        match self.early_parcels.remove(link_id, sublink) {
            Some(queue) => {
                assert(before.early[key] == inbound_views(queue@));
                assert(self@.early =~= before.early.remove(key));
                self.push_acceptances(queue, link_id);
            },
            None => {
                assert(self@.early =~= before.early);
            },
        }
    }

    /// Adopt the new link that the peer of a router offers.
    pub fn on_bypass_peer_with_link(&mut self, b: BypassPeerWithLink, link_id: u64) -> (r: Result<
        (),
        RoutingError,
    >)
        requires
            old(self).wf(),
        ensures
            final(self).wf(),
            (final(self)@, fate(r)) == old(self)@.bypass_accepted(b, link_id),
    {
        if b.new_link_state_fragment.is_null() {
            return Err(RoutingError::BadParcel("bypass with null link state"));
        }
        match &self.link_memory {
            None => {
                return Err(RoutingError::Unexpected("link memory not established"));
            },
            Some(m) => match m.fragment(b.new_link_state_fragment) {
                Ok(_) => {},
                Err(e) => {
                    return Err(RoutingError::Memory(e));
                },
            },
        }
        let rid: u64 = match self.owners.get(link_id, b.sublink) {
            Some(rid) => *rid,
            None => {
                return Ok(());
            },
        };
        self.replace_link(rid, b, link_id)
    }

    fn replace_link(&mut self, rid: u64, b: BypassPeerWithLink, link_id: u64) -> (r: Result<
        (),
        RoutingError,
    >)
        requires
            old(self).wf(),
        ensures
            final(self).wf(),
            (final(self)@, fate(r)) == old(self)@.link_replaced(rid, b, link_id),
    {
        let (outward, disconnected, n): (Edge, bool, u64) = match self.routers.get(rid) {
            Some(r) => (r.outward, r.disconnected, r.outbound_length()),
            None => {
                return Err(RoutingError::BadParcel("bypass for unknown router"));
            },
        };
        let link = match outward.primary {
            Some(l) => l,
            None => {
                return Ok(());
            },
        };
        if disconnected {
            return Ok(());
        }
        if link.is_local() {
            return Err(RoutingError::BadParcel("unexpected bypass at a local link"));
        }
        let mut outward: Edge = outward;
        if !outward.begin_primary_link_decay() {
            return Err(RoutingError::BadParcel("failure to decay link"));
        }
        outward.set_length_to_decaying_link(n);
        outward.set_length_from_decaying_link(b.inbound_sequence_length);
        outward.set_primary_link(
            Link::remote(
                link_id,
                b.new_sublink,
                LinkKind::Central,
                LinkSide::B,
                Some(b.new_link_state_fragment),
            ),
        );
        match self.routers.take(rid) {
            Some(router) => {
                let mut router: Router = router;
                router.outward = outward;
                self.routers.put(rid, router);
            },
            None => {},
        }
        self.owners.insert(link_id, b.new_sublink, rid);
        self.send(
            LinkMessage::StopProxyingToLocalPeer { sublink: link.sublink, sequence_length: n },
        );
        self.push_task(Task::Flush { rid, force: false });
        self.take_early(link_id, b.new_sublink);
        Ok(())
    }

    /// The id of the link to a node.
    pub fn link_id_for_node(&self, name: NodeName) -> (r: Result<u64, RoutingError>)
        ensures
            fate(r) == self@.link_to(name),
    {
        if name == self.broker_name {
            return Ok(LINK_ID_BROKER);
        }
        if self.referrer_name.is_valid() && name == self.referrer_name {
            return Ok(LINK_ID_DIRECT);
        }
        Err(
            RoutingError::Unsupported(
                MSG_ID_BYPASS_PEER,
                "EstablishLink (unknown node) not exercised by a sealed court",
            ),
        )
    }

    fn remote_name_for(&self, link_id: u64) -> (r: Result<NodeName, RoutingError>)
        ensures
            fate(r) == self@.name_behind(link_id),
    {
        if link_id == LINK_ID_DIRECT {
            if self.direct_memory.is_none() {
                return Err(RoutingError::Unexpected("direct link not established"));
            }
            return Ok(self.direct_name);
        }
        Ok(self.broker_name)
    }

    /// Bypass the proxy that a router was sent through.
    pub fn router_bypass_peer(&mut self, rid: u64, requestor: u64, name: NodeName, sublink: u64)
        -> (r: Result<(), RoutingError>)
        requires
            old(self).wf(),
        ensures
            final(self).wf(),
            (final(self)@, fate(r)) == old(self)@.peer_bypassed(rid, requestor, name, sublink),
    {
        match self.routers.get(rid) {
            None => {
                return Err(RoutingError::BadParcel("bypass for unknown router"));
            },
            Some(r) => match r.outward.primary {
                None => {
                    return Ok(());
                },
                Some(link) => {
                    if link.link_id != requestor {
                        return Err(
                            RoutingError::BadParcel("rejecting BypassPeer from a non-outward peer"),
                        );
                    }
                },
            },
        }
        if name == self.local_name {
            return Err(
                RoutingError::Unsupported(
                    MSG_ID_BYPASS_PEER,
                    "BypassPeerWithNewLocalLink not exercised by a sealed court",
                ),
            );
        }
        let target: u64 = match self.link_id_for_node(name) {
            Ok(l) => l,
            Err(e) => {
                return Err(e);
            },
        };
        let proxy = match self.remote_name_for(requestor) {
            Ok(n) => n,
            Err(e) => {
                return Err(e);
            },
        };
        self.bypass_peer_with_new_remote_link(rid, proxy, sublink, target)
    }

    /// Link a router that was behind a proxy to the proxy's other end.
    pub fn bypass_peer_with_new_remote_link(
        &mut self,
        rid: u64,
        proxy: NodeName,
        sublink: u64,
        target: u64,
    ) -> (r: Result<(), RoutingError>)
        requires
            old(self).wf(),
        ensures
            final(self).wf(),
            (final(self)@, fate(r)) == old(self)@.new_remote_link(rid, proxy, sublink, target),
    {
        let d = match self.allocate_link_state(target) {
            Err(e) => {
                return Err(e);
            },
            Ok(None) => {
                return Ok(());
            },
            Ok(Some(d)) => d,
        };
        let new_sublink: u64 = match self.allocate_sublinks(target, 1) {
            Ok(x) => x,
            Err(e) => {
                return Err(e);
            },
        };
        self.take_remote_link(rid, proxy, sublink, target, d, new_sublink)
    }

    fn take_remote_link(
        &mut self,
        rid: u64,
        proxy: NodeName,
        sublink: u64,
        target: u64,
        d: FragmentDescriptor,
        new_sublink: u64,
    ) -> (r: Result<(), RoutingError>)
        requires
            old(self).wf(),
        ensures
            final(self).wf(),
            (final(self)@, fate(r)) == old(self)@.remote_link_taken(
                rid,
                proxy,
                sublink,
                target,
                d,
                new_sublink,
            ),
    {
        let mut router: Router = match self.routers.take(rid) {
            Some(r) => r,
            None => {
                return Err(RoutingError::BadParcel("bypass for unknown router"));
            },
        };
        let n: u64 = router.outbound_length();
        if router.disconnected {
            self.routers.put(rid, router);
            return Ok(());
        }
        if !router.outward.begin_primary_link_decay() {
            self.routers.put(rid, router);
            return Err(RoutingError::BadParcel("failed to decay the outward link"));
        }
        router.outward.set_length_to_decaying_link(n);
        self.routers.put(rid, router);
        match self.send_on(
            target,
            LinkMessage::AcceptBypassLink {
                current_peer_node: proxy,
                current_peer_sublink: sublink,
                sequence_length: n,
                new_sublink,
                link_state: d,
            },
        ) {
            Ok(_) => {},
            Err(e) => {
                return Err(e);
            },
        }
        let link = Link::remote(target, new_sublink, LinkKind::Central, LinkSide::A, Some(d));
        match self.set_outward_link(rid, &link) {
            Ok(_) => {},
            Err(e) => {
                return Err(e);
            },
        }
        self.push_task(Task::Flush { rid, force: true });
        Ok(())
    }
}

fn is_peer(o: Option<u64>, rid: u64) -> (r: bool)
    ensures
        r == (o == Some(rid)),
{
    match o {
        Some(x) => x == rid,
        None => false,
    }
}

fn lacks_length_to(e: Option<Edge>) -> (r: bool)
    ensures
        r == no_length_to(e),
{
    match e {
        Some(x) => x.length_to_decaying_link().is_none(),
        None => true,
    }
}

fn lacks_length_from(e: Option<Edge>) -> (r: bool)
    ensures
        r == no_length_from(e),
{
    match e {
        Some(x) => x.length_from_decaying_link().is_none(),
        None => true,
    }
}

} // verus!
