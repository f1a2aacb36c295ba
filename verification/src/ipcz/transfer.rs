//! Transfer: parcels on their way out and in, and the routers that go with
//! them.

use vstd::prelude::*;

#[allow(unused_imports)]
use crate::bytes::next_number;
use crate::bytes::following;
use crate::ipcz::link_memory::{LinkMemory, ROUTER_LINK_STATE_SIZE};
#[allow(unused_imports)]
use crate::ipcz::link_memory::{
    parcel_allocation, resolve_at_least, stable_bit, status_of, with_status,
};
use crate::ipcz::messages::{FragmentDescriptor, MSG_ID_ACCEPT_PARCEL};
use crate::ipcz::node::{
    LinkMessage, RouterDescriptor, RoutingAcceptor, RoutingError, Task, LINK_ID_BROKER,
};
#[allow(unused_imports)]
use crate::ipcz::node::{
    blank_descriptor, fate, lemma_insert_same, lemma_reinsert, Fault, LinkMessageView, NodeStep,
    NodeView, TaskView,
};
use crate::ipcz::router::{Edge, Link, LinkKind, LinkSide, Object, Parcel, Router};
#[allow(unused_imports)]
use crate::ipcz::router::{
    fresh_router, lemma_free_from, local_link, remote_link, LocalLinkState, ParcelView, RouterView,
};

verus! {

broadcast use {lemma_reinsert, lemma_insert_same};

/// An edge without links.
pub open spec fn bare_edge() -> Edge {
    Edge { primary: None, decaying: None }
}

/// The edge after its primary link is to decay, where none decays yet.
pub open spec fn maybe_decayed(e: Edge) -> Edge {
    if e.decaying is None {
        e.spec_begun_decay()
    } else {
        e
    }
}

impl NodeView {
    /// The state after a router is described so that it can move to another
    /// node, while this one stays behind as a proxy; and the description.
    #[verifier::opaque]
    pub open spec fn serialized(self, rid: u64, link_id: u64) -> (
        NodeView,
        Result<RouterDescriptor, Fault>,
    ) {
        if !self.routers.contains_key(rid) {
            (self, Err(Fault::BadParcel("serialize for unknown router"@)))
        } else if self.routers[rid].inward is Some {
            (self, Err(Fault::BadParcel("serializing a proxy"@)))
        } else {
            match self.routers[rid].outward.primary {
                None => (
                    self,
                    Err(Fault::BadParcel("serialize for router with no outward link"@)),
                ),
                Some(primary) => {
                    let (s1, r1) = self.bypass_lock_tried(primary, self.broker_name.low);
                    match (r1, primary.local_peer) {
                        (Err(e), _) => (s1, Err(e)),
                        (Ok(true), Some(peer)) => {
                            let (s2, r2) = s1.split_from_local_peer(rid, peer, link_id);
                            match r2 {
                                Err(e) => (s2, Err(e)),
                                Ok(Some(d)) => (s2, Ok(d)),
                                Ok(None) => {
                                    let (s3, r3) = s2.unlocked(primary);
                                    match r3 {
                                        Err(e) => (s3, Err(e)),
                                        Ok(_) => s3.serialized_as_proxy(rid, link_id, true),
                                    }
                                },
                            }
                        },
                        (Ok(locked), _) => s1.serialized_as_proxy(rid, link_id, locked),
                    }
                },
            }
        }
    }

    /// The state after a router is set up as a proxy for one that is to move to
    /// another node. Where its outward link is locked and remote, the new
    /// router is told how to bypass the proxy.
    pub open spec fn serialized_as_proxy(self, rid: u64, link_id: u64, locked: bool) -> (
        NodeView,
        Result<RouterDescriptor, Fault>,
    ) {
        let (s1, r1) = self.sublinks_allocated(LINK_ID_BROKER, 1);
        match r1 {
            Err(e) => (s1, Err(e)),
            Ok(sublink) => if !s1.routers.contains_key(rid) {
                (s1, Err(Fault::BadParcel("serialize for unknown router"@)))
            } else {
                let r = s1.routers[rid];
                let d = RouterDescriptor {
                    new_sublink: sublink,
                    next_outgoing_sequence_number: r.outbound.current,
                    next_incoming_sequence_number: r.inbound.current,
                    ..blank_descriptor()
                };
                let closed = match r.inbound.final_length {
                    Some(n) => n,
                    None => 0,
                };
                let owned = NodeView { owners: s1.owners.insert((link_id, sublink), rid), ..s1 };
                if r.peer_closed {
                    let inward = bare_edge().spec_begun_decay().spec_with_length_to(
                        closed,
                    ).spec_with_length_from(r.outbound.current);
                    (
                        owned.with_router(rid, RouterView { inward: Some(inward), ..r }),
                        Ok(
                            RouterDescriptor {
                                peer_closed: true,
                                closed_peer_sequence_length: closed,
                                ..d
                            },
                        ),
                    )
                } else if !locked {
                    (
                        owned.with_router(rid, RouterView { inward: Some(bare_edge()), ..r }),
                        Ok(d),
                    )
                } else {
                    match r.outward.primary {
                        None => (
                            s1.with_router(rid, RouterView { inward: Some(bare_edge()), ..r }),
                            Err(Fault::BadParcel("no outward primary"@)),
                        ),
                        Some(link) => if link.local_peer is Some {
                            (
                                owned.with_router(
                                    rid,
                                    RouterView { inward: Some(bare_edge()), ..r },
                                ),
                                Ok(d),
                            )
                        } else {
                            (
                                owned.with_router(
                                    rid,
                                    RouterView {
                                        inward: Some(bare_edge().spec_begun_decay()),
                                        outward: maybe_decayed(r.outward),
                                        ..r
                                    },
                                ),
                                Ok(
                                    RouterDescriptor {
                                        proxy_peer_node_name: s1.broker_name,
                                        proxy_peer_sublink: link.sublink,
                                        ..d
                                    },
                                ),
                            )
                        },
                    }
                }
            },
        }
    }

    /// The state after a router is parted from its local peer, so that a new
    /// central link joins the peer to the node that the router moves to and a
    /// decaying link carries the rest; and the description of the moving
    /// router. `None` where no link state is free: more capacity is then asked
    /// for.
    pub open spec fn split_from_local_peer(self, rid: u64, peer: u64, link_id: u64) -> (
        NodeView,
        Result<Option<RouterDescriptor>, Fault>,
    ) {
        let (s1, r1) = self.state_allocated(LINK_ID_BROKER);
        match r1 {
            Err(e) => (s1, Err(e)),
            Ok(None) => {
                let (s2, r2) = s1.capacity_requested(ROUTER_LINK_STATE_SIZE as u32);
                (
                    s2,
                    match r2 {
                        Err(e) => Err(e),
                        Ok(_) => Ok(None),
                    },
                )
            },
            Ok(Some(state)) => if !s1.routers.contains_key(peer) {
                (s1, Err(Fault::BadParcel("serialize with unknown local peer"@)))
            } else if s1.routers[peer].outward.primary is None {
                (s1, Err(Fault::BadParcel("local peer has no outward link"@)))
            } else {
                let q = s1.routers[peer];
                let n = q.outbound.current;
                let s2 = s1.with_router(
                    peer,
                    RouterView { outward: Edge { primary: None, ..q.outward }, ..q },
                );
                let (s3, r3) = s2.sublinks_allocated(LINK_ID_BROKER, 2);
                match r3 {
                    Err(e) => (s3, Err(e)),
                    Ok(sublink) => {
                        let (s4, r4) = s3.split_off(rid, peer, link_id, state, n, sublink);
                        (
                            s4,
                            match r4 {
                                Err(e) => Err(e),
                                Ok(d) => Ok(Some(d)),
                            },
                        )
                    },
                }
            },
        }
    }

    /// The state after the sublinks of a split are given to their routers, and
    /// the inward edge of the router that stays behind is set to decay.
    pub open spec fn split_off(
        self,
        rid: u64,
        peer: u64,
        link_id: u64,
        state: FragmentDescriptor,
        n: u64,
        sublink: u64,
    ) -> (NodeView, Result<RouterDescriptor, Fault>) {
        let decaying = next_number(sublink);
        let s = NodeView {
            owners: self.owners.insert((link_id, sublink), peer).insert((link_id, decaying), rid),
            ..self
        };
        if !s.routers.contains_key(rid) {
            (s, Err(Fault::BadParcel("serialize for unknown router"@)))
        } else {
            let r = s.routers[rid];
            let inward = bare_edge().spec_begun_decay().spec_with_length_to(
                n,
            ).spec_with_length_from(r.outbound.current);
            (
                s.with_router(rid, RouterView { inward: Some(inward), ..r }),
                Ok(
                    RouterDescriptor {
                        new_sublink: sublink,
                        new_link_state_fragment: state,
                        new_decaying_sublink: decaying,
                        next_outgoing_sequence_number: r.outbound.current,
                        next_incoming_sequence_number: r.inbound.current,
                        decaying_incoming_sequence_length: n,
                        peer_closed: r.inbound.final_length is Some,
                        closed_peer_sequence_length: match r.inbound.final_length {
                            Some(len) => len,
                            None => 0,
                        },
                        proxy_already_bypassed: true,
                        ..blank_descriptor()
                    },
                ),
            )
        }
    }

    /// The state after a router that was sent to another node adopts its new
    /// links.
    pub open spec fn proxying_begun(self, rid: u64, d: RouterDescriptor, link_id: u64) -> NodeStep {
        if !self.routers.contains_key(rid) {
            (self, Err(Fault::BadParcel("begin_proxying for unknown router"@)))
        } else if d.proxy_already_bypassed {
            self.split_proxying_begun(rid, d, link_id)
        } else {
            self.plain_proxying_begun(rid, d, link_id)
        }
    }

    /// The state after a router that was split from its local peer adopts the
    /// decaying link, and the peer the central one.
    pub open spec fn split_proxying_begun(self, rid: u64, d: RouterDescriptor, link_id: u64)
        -> NodeStep {
        let r = self.routers[rid];
        let s1 = self.with_router(
            rid,
            RouterView { outward: Edge { primary: None, ..r.outward }, ..r },
        );
        match r.outward.spec_local_peer() {
            None => (
                s1,
                Err(Fault::BadParcel("with-local-peer transfer without a local peer"@)),
            ),
            Some(peer) => if !r.disconnected && r.inward is None {
                (
                    s1,
                    Err(
                        Fault::BadParcel("no inward edge after with-local-peer serialization"@),
                    ),
                )
            } else {
                let link = remote_link(
                    link_id,
                    d.new_decaying_sublink,
                    LinkKind::PeripheralInward,
                    LinkSide::A,
                    None,
                );
                let q = s1.routers[rid];
                let s2 = if r.disconnected {
                    s1
                } else {
                    s1.with_router(
                        rid,
                        RouterView {
                            inward: Some(q.inward->Some_0.spec_with_primary(link)),
                            ..q
                        },
                    )
                };
                let (s3, r3) = s2.outward_link_set(
                    peer,
                    remote_link(
                        link_id,
                        d.new_sublink,
                        LinkKind::Central,
                        LinkSide::A,
                        Some(d.new_link_state_fragment),
                    ),
                );
                if r3 is Err {
                    (s3, r3)
                } else {
                    (
                        s3.then_task(TaskView::Flush(peer, true)).then_task(
                            TaskView::Flush(rid, true),
                        ),
                        Ok(()),
                    )
                }
            },
        }
    }

    /// The state after a proxy adopts the link to the router that moved on.
    pub open spec fn plain_proxying_begun(self, rid: u64, d: RouterDescriptor, link_id: u64)
        -> NodeStep {
        let r = self.routers[rid];
        match r.inward {
            None => (self, Err(Fault::BadParcel("begin_proxying on a terminal router"@))),
            Some(e) => {
                let alive = r.outbound.final_length is None && !r.disconnected;
                let link = remote_link(
                    link_id,
                    d.new_sublink,
                    LinkKind::PeripheralInward,
                    LinkSide::A,
                    None,
                );
                let inward = if alive {
                    e.spec_with_primary(link)
                } else {
                    e
                };
                let s1 = self.with_router(rid, RouterView { inward: Some(inward), ..r });
                let (s2, r2) = match r.outward.primary {
                    Some(l) => if r.outward.decaying is None && inward.decaying is None {
                        s1.state_marked_stable(l.link_state)
                    } else {
                        (s1, Ok(()))
                    },
                    None => (s1, Ok(())),
                };
                if r2 is Err {
                    (s2, r2)
                } else if alive {
                    (s2.then_task(TaskView::Flush(rid, false)), Ok(()))
                } else {
                    (s2, Ok(()))
                }
            },
        }
    }

    /// The state after side A is marked stable in a link state, if there is
    /// one.
    pub open spec fn state_marked_stable(self, state: Option<FragmentDescriptor>) -> NodeStep {
        match state {
            None => (self, Ok(())),
            Some(d) => match self.memory_of(LINK_ID_BROKER) {
                Err(e) => (self, Err(e)),
                Ok(m) => match resolve_at_least(m, d, 8) {
                    Err(e) => (self, Err(Fault::Memory(e))),
                    Ok(_) => (
                        self.with_memory(
                            LINK_ID_BROKER,
                            with_status(m, d, status_of(m, d) | stable_bit(true)),
                        ),
                        Ok(()),
                    ),
                },
            },
        }
    }
}

impl RoutingAcceptor {
    /// Describe a router so that it can move to another node; this one stays
    /// behind as a proxy.
    pub fn serialize_router(&mut self, rid: u64, link_id: u64) -> (r: Result<
        RouterDescriptor,
        RoutingError,
    >)
        requires
            old(self).wf(),
        ensures
            final(self).wf(),
            (final(self)@, fate(r)) == old(self)@.serialized(rid, link_id),
    {
        reveal(NodeView::serialized);
        let primary = match self.routers.get(rid) {
            None => {
                return Err(RoutingError::BadParcel("serialize for unknown router"));
            },
            Some(r) => {
                if r.inward.is_some() {
                    return Err(RoutingError::BadParcel("serializing a proxy"));
                }
                match r.outward.primary {
                    Some(l) => l,
                    None => {
                        return Err(
                            RoutingError::BadParcel("serialize for router with no outward link"),
                        );
                    },
                }
            },
        };
        let source: u64 = self.broker_name.low;
        let locked = match self.try_lock_link_for_bypass(&primary, source) {
            Ok(l) => l,
            Err(e) => {
                return Err(e);
            },
        };
        match primary.local_peer {
            Some(peer) => {
                if locked {
                    match self.serialize_router_with_local_peer(rid, peer, link_id) {
                        Err(e) => {
                            return Err(e);
                        },
                        Ok(Some(d)) => {
                            return Ok(d);
                        },
                        Ok(None) => {},
                    }
                    match self.unlock_link_for_bypass(&primary) {
                        Ok(_) => {},
                        Err(e) => {
                            return Err(e);
                        },
                    }
                }
            },
            None => {},
        }
        self.serialize_as_proxy(rid, link_id, locked)
    }

    fn serialize_as_proxy(&mut self, rid: u64, link_id: u64, locked: bool) -> (r: Result<
        RouterDescriptor,
        RoutingError,
    >)
        requires
            old(self).wf(),
        ensures
            final(self).wf(),
            (final(self)@, fate(r)) == old(self)@.serialized_as_proxy(rid, link_id, locked),
    {
        let sublink: u64 = match self.allocate_sublinks(LINK_ID_BROKER, 1) {
            Ok(x) => x,
            Err(e) => {
                return Err(e);
            },
        };
        let mut router: Router = match self.routers.take(rid) {
            Some(r) => r,
            None => {
                return Err(RoutingError::BadParcel("serialize for unknown router"));
            },
        };
        let mut d = RouterDescriptor::default();
        d.new_sublink = sublink;
        d.next_outgoing_sequence_number = router.outbound.current_sequence_number();
        d.next_incoming_sequence_number = router.inbound.current_sequence_number();
        let mut inward: Edge = Edge::default();
        let ghost before = router@;
        if router.peer_closed {
            let closed: u64 = match router.inbound.final_sequence_length() {
                Some(n) => n,
                None => 0,
            };
            d.peer_closed = true;
            d.closed_peer_sequence_length = closed;
            let _ = inward.begin_primary_link_decay();
            inward.set_length_to_decaying_link(closed);
            inward.set_length_from_decaying_link(router.outbound.current_sequence_number());
        } else if locked {
            match router.outward.primary {
                None => {
                    router.inward = Some(inward);
                    self.routers.put(rid, router);
                    return Err(RoutingError::BadParcel("no outward primary"));
                },
                Some(link) => {
                    if !link.is_local() {
                        d.proxy_peer_node_name = self.broker_name;
                        d.proxy_peer_sublink = link.sublink;
                        let _ = inward.begin_primary_link_decay();
                        let _ = router.outward.begin_primary_link_decay();
                    }
                },
            }
        }
        router.inward = Some(inward);
        self.routers.put(rid, router);
        self.owners.insert(link_id, sublink, rid);
        Ok(d)
    }

    /// Part a router that is to move to another node from its local peer.
    pub fn serialize_router_with_local_peer(&mut self, rid: u64, peer: u64, link_id: u64) -> (r:
        Result<Option<RouterDescriptor>, RoutingError>)
        requires
            old(self).wf(),
        ensures
            final(self).wf(),
            (final(self)@, fate(r)) == old(self)@.split_from_local_peer(rid, peer, link_id),
    {
        let state = match self.allocate_link_state(LINK_ID_BROKER) {
            Err(e) => {
                return Err(e);
            },
            Ok(None) => {
                return match self.request_block_capacity(ROUTER_LINK_STATE_SIZE as u32) {
                    Ok(_) => Ok(None),
                    Err(e) => Err(e),
                };
            },
            Ok(Some(d)) => d,
        };
        let mut router: Router = match self.routers.take(peer) {
            Some(r) => r,
            None => {
                return Err(RoutingError::BadParcel("serialize with unknown local peer"));
            },
        };
        if router.outward.primary.is_none() {
            self.routers.put(peer, router);
            return Err(RoutingError::BadParcel("local peer has no outward link"));
        }
        let n: u64 = router.outbound.current_sequence_number();
        let _ = router.outward.release_primary_link();
        self.routers.put(peer, router);
        let sublink: u64 = match self.allocate_sublinks(LINK_ID_BROKER, 2) {
            Ok(x) => x,
            Err(e) => {
                return Err(e);
            },
        };
        match self.split_from_peer(rid, peer, link_id, state, n, sublink) {
            Ok(d) => Ok(Some(d)),
            Err(e) => Err(e),
        }
    }

    fn split_from_peer(
        &mut self,
        rid: u64,
        peer: u64,
        link_id: u64,
        state: FragmentDescriptor,
        n: u64,
        sublink: u64,
    ) -> (r: Result<RouterDescriptor, RoutingError>)
        requires
            old(self).wf(),
        ensures
            final(self).wf(),
            (final(self)@, fate(r)) == old(self)@.split_off(
                rid,
                peer,
                link_id,
                state,
                n,
                sublink,
            ),
    {
        let decaying: u64 = following(sublink);
        self.owners.insert(link_id, sublink, peer);
        self.owners.insert(link_id, decaying, rid);
        let mut router: Router = match self.routers.take(rid) {
            Some(r) => r,
            None => {
                return Err(RoutingError::BadParcel("serialize for unknown router"));
            },
        };
        let mut d = RouterDescriptor::default();
        d.new_sublink = sublink;
        d.new_link_state_fragment = state;
        d.new_decaying_sublink = decaying;
        d.proxy_already_bypassed = true;
        d.next_outgoing_sequence_number = router.outbound.current_sequence_number();
        d.next_incoming_sequence_number = router.inbound.current_sequence_number();
        d.decaying_incoming_sequence_length = n;
        match router.inbound.final_sequence_length() {
            Some(len) => {
                d.peer_closed = true;
                d.closed_peer_sequence_length = len;
            },
            None => {},
        }
        let mut inward: Edge = Edge::default();
        let _ = inward.begin_primary_link_decay();
        inward.set_length_to_decaying_link(n);
        inward.set_length_from_decaying_link(d.next_outgoing_sequence_number);
        router.inward = Some(inward);
        self.routers.put(rid, router);
        Ok(d)
    }

    /// Adopt the links of a router that was sent to another node.
    pub fn begin_proxying(&mut self, rid: u64, d: &RouterDescriptor, link_id: u64) -> (r: Result<
        (),
        RoutingError,
    >)
        requires
            old(self).wf(),
        ensures
            final(self).wf(),
            (final(self)@, fate(r)) == old(self)@.proxying_begun(rid, *d, link_id),
    {
        if self.routers.get(rid).is_none() {
            return Err(RoutingError::BadParcel("begin_proxying for unknown router"));
        }
        if d.proxy_already_bypassed {
            self.begin_split_proxying(rid, d, link_id)
        } else {
            self.begin_plain_proxying(rid, d, link_id)
        }
    }

    fn begin_split_proxying(&mut self, rid: u64, d: &RouterDescriptor, link_id: u64) -> (r: Result<
        (),
        RoutingError,
    >)
        requires
            old(self).wf(),
            old(self)@.routers.contains_key(rid),
        ensures
            final(self).wf(),
            (final(self)@, fate(r)) == old(self)@.split_proxying_begun(rid, *d, link_id),
    {
        let mut router: Router = match self.routers.take(rid) {
            Some(r) => r,
            None => {
                return Ok(());
            },
        };
        let released = router.outward.release_primary_link();
        let disconnected = router.disconnected;
        let inward = router.inward;
        self.routers.put(rid, router);
        let peer: u64 = match released {
            Some(l) => match l.local_peer {
                Some(p) => p,
                None => {
                    return Err(
                        RoutingError::BadParcel("with-local-peer transfer without a local peer"),
                    );
                },
            },
            None => {
                return Err(
                    RoutingError::BadParcel("with-local-peer transfer without a local peer"),
                );
            },
        };
        if !disconnected {
            let mut e: Edge = match inward {
                Some(e) => e,
                None => {
                    return Err(
                        RoutingError::BadParcel(
                            "no inward edge after with-local-peer serialization",
                        ),
                    );
                },
            };
            e.set_primary_link(
                Link::remote(
                    link_id,
                    d.new_decaying_sublink,
                    LinkKind::PeripheralInward,
                    LinkSide::A,
                    None,
                ),
            );
            match self.routers.take(rid) {
                Some(router) => {
                    let mut router: Router = router;
                    router.inward = Some(e);
                    self.routers.put(rid, router);
                },
                None => {},
            }
        }
        let link = Link::remote(
            link_id,
            d.new_sublink,
            LinkKind::Central,
            LinkSide::A,
            Some(d.new_link_state_fragment),
        );
        match self.set_outward_link(peer, &link) {
            Ok(_) => {},
            Err(e) => {
                return Err(e);
            },
        }
        self.push_task(Task::Flush { rid: peer, force: true });
        self.push_task(Task::Flush { rid, force: true });
        Ok(())
    }

    fn begin_plain_proxying(&mut self, rid: u64, d: &RouterDescriptor, link_id: u64) -> (r: Result<
        (),
        RoutingError,
    >)
        requires
            old(self).wf(),
            old(self)@.routers.contains_key(rid),
        ensures
            final(self).wf(),
            (final(self)@, fate(r)) == old(self)@.plain_proxying_begun(rid, *d, link_id),
    {
        let mut router: Router = match self.routers.take(rid) {
            Some(r) => r,
            None => {
                return Ok(());
            },
        };
        let mut inward: Edge = match router.inward {
            Some(e) => e,
            None => {
                self.routers.put(rid, router);
                return Err(RoutingError::BadParcel("begin_proxying on a terminal router"));
            },
        };
        let alive = router.outbound.final_sequence_length().is_none() && !router.disconnected;
        if alive {
            inward.set_primary_link(
                Link::remote(
                    link_id,
                    d.new_sublink,
                    LinkKind::PeripheralInward,
                    LinkSide::A,
                    None,
                ),
            );
        }
        router.inward = Some(inward);
        let state = match router.outward.primary {
            Some(l) => if router.outward.is_stable() && inward.is_stable() {
                l.link_state
            } else {
                None
            },
            None => None,
        };
        self.routers.put(rid, router);
        match self.mark_state_stable(state) {
            Ok(_) => {},
            Err(e) => {
                return Err(e);
            },
        }
        if alive {
            self.push_task(Task::Flush { rid, force: false });
        }
        Ok(())
    }

    fn mark_state_stable(&mut self, state: Option<FragmentDescriptor>) -> (r: Result<
        (),
        RoutingError,
    >)
        requires
            old(self).wf(),
        ensures
            final(self).wf(),
            (final(self)@, fate(r)) == old(self)@.state_marked_stable(state),
    {
        let d = match state {
            Some(d) => d,
            None => {
                return Ok(());
            },
        };
        let mut m: LinkMemory = match self.take_memory(LINK_ID_BROKER) {
            Ok(m) => m,
            Err(e) => {
                return Err(e);
            },
        };
        let r = m.set_side_stable(d, true);
        self.put_memory(LINK_ID_BROKER, m);
        match r {
            Ok(_) => Ok(()),
            Err(e) => {
                assert(self@ =~= old(self)@);
                Err(RoutingError::Memory(e))
            },
        }
    }
}

/// The adoption of links by routers that were sent to another node, the first
/// of them next.
pub open spec fn proxy_starts(list: Seq<(u64, RouterDescriptor)>, link_id: u64) -> Seq<TaskView> {
    Seq::new(
        list.len(),
        |i: int|
            TaskView::BeginProxying(
                list[list.len() - 1 - i].0,
                list[list.len() - 1 - i].1,
                link_id,
            ),
    )
}

/// The descriptions of routers that go with a parcel.
pub open spec fn descriptors_of(list: Seq<(u64, RouterDescriptor)>) -> Seq<RouterDescriptor> {
    list.map_values(|x: (u64, RouterDescriptor)| x.1)
}

impl NodeView {
    /// The state after the routers among the objects of a parcel are described,
    /// and their descriptions.
    pub open spec fn objects_serialized(self, objects: Seq<Object>, link_id: u64) -> (
        NodeView,
        Result<Seq<(u64, RouterDescriptor)>, Fault>,
    )
        decreases objects.len(),
    {
        if objects.len() == 0 {
            (self, Ok(Seq::empty()))
        } else {
            let (s, r) = self.objects_serialized(objects.drop_last(), link_id);
            match r {
                Err(e) => (s, Err(e)),
                Ok(list) => match objects.last() {
                    Object::Fd(_) => (
                        s,
                        Err(
                            Fault::Unsupported(
                                MSG_ID_ACCEPT_PARCEL,
                                "fd transmission not exercised by the routing court"@,
                            ),
                        ),
                    ),
                    Object::Router(rid) => {
                        let (t, q) = s.serialized(rid, link_id);
                        match q {
                            Err(e) => (t, Err(e)),
                            Ok(d) => (t, Ok(list.push((rid, d)))),
                        }
                    },
                },
            }
        }
    }

    /// The state after a parcel is sent on a link: a local peer takes it at
    /// once, another node gets a message.
    pub open spec fn transmitted(self, link: Link, p: ParcelView) -> NodeStep {
        match link.local_peer {
            Some(peer) => self.delivered_to_peer(peer, link.kind, p),
            None => {
                let (s, r) = self.objects_serialized(p.objects, link.link_id);
                match r {
                    Err(e) => (s, Err(e)),
                    Ok(list) => {
                        let t = s.with_message(
                            LinkMessageView::Parcel(
                                link.sublink,
                                p.sequence_number,
                                p.fragment,
                                p.data,
                                descriptors_of(list),
                            ),
                        );
                        (
                            NodeView { tasks: t.tasks + proxy_starts(list, link.link_id), ..t },
                            Ok(()),
                        )
                    },
                }
            },
        }
    }

    /// The state after a parcel reaches the router at the other end of a local
    /// link: over a central link it comes in, over a bridge it goes out.
    pub open spec fn delivered_to_peer(self, peer: u64, kind: LinkKind, p: ParcelView) -> NodeStep {
        if !(kind is Central) && !(kind is Bridge) {
            (self, Err(Fault::BadParcel("peripheral local link"@)))
        } else if !self.routers.contains_key(peer) {
            (self, Err(Fault::BadParcel("local delivery sequence gap"@)))
        } else {
            let r = self.routers[peer];
            let queue = if kind is Central {
                r.inbound
            } else {
                r.outbound
            };
            if p.sequence_number < queue.current {
                (self, Err(Fault::BadParcel("local delivery sequence gap"@)))
            } else {
                let q = if kind is Central {
                    RouterView { inbound: queue.pushed(p), ..r }
                } else {
                    RouterView { outbound: queue.pushed(p), ..r }
                };
                (self.with_router(peer, q).then_task(TaskView::Flush(peer, false)), Ok(()))
            }
        }
    }

    /// The state after data for a parcel is put where a remote peer can read
    /// it, and the fragment; `None` where it has to go inline.
    pub open spec fn data_placed(self, data: Seq<u8>) -> (
        NodeView,
        Result<Option<FragmentDescriptor>, Fault>,
    ) {
        match self.memory_of(LINK_ID_BROKER) {
            Err(e) => (self, Err(e)),
            Ok(m) => match parcel_allocation(m, data) {
                None => (self, Ok(None)),
                Some((d, n)) => (self.with_memory(LINK_ID_BROKER, n), Ok(Some(d))),
            },
        }
    }

    /// The state after a message is put into a portal, and the fragment that
    /// its data is in, if any. Data for another node goes through the link
    /// memory where there is room. The message takes the next number that no
    /// queued parcel has.
    pub open spec fn message_put(self, rid: u64, data: Seq<u8>, objects: Seq<Object>) -> (
        NodeView,
        Result<Option<FragmentDescriptor>, Fault>,
    ) {
        if !self.routers.contains_key(rid) {
            (self, Err(Fault::BadParcel("put for unknown router"@)))
        } else {
            let r = self.routers[rid];
            let remote = r.outward.primary matches Some(l) && l.local_peer is None;
            let (s, f) = if data.len() > 0 && remote {
                self.data_placed(data)
            } else {
                (self, Ok(None))
            };
            match f {
                Err(e) => (s, Err(e)),
                Ok(fragment) => match r.outbound.next_free() {
                    None => (s, Err(Fault::BadParcel("outbound sequence regression"@))),
                    Some(sequence_number) => {
                        let p = ParcelView { sequence_number, data, objects, fragment };
                        let queued = RouterView { outbound: r.outbound.pushed(p), ..r };
                        (
                            s.with_router(rid, queued).then_task(TaskView::Flush(rid, false)),
                            Ok(fragment),
                        )
                    },
                },
            }
        }
    }

    /// The state after a pair of portals is opened that are linked to each
    /// other.
    pub open spec fn portals_opened(self) -> NodeView {
        let a = self.next_rid;
        let b = next_number(a);
        let state = self.local_states.len() as usize;
        NodeView {
            next_rid: next_number(b),
            local_states: self.local_states.push(
                LocalLinkState { status: 3, allowed_bypass_source: 0 },
            ),
            routers: self.routers.insert(
                a,
                fresh_router(
                    Edge {
                        primary: Some(local_link(LinkKind::Central, LinkSide::A, b, state)),
                        decaying: None,
                    },
                ),
            ).insert(
                b,
                fresh_router(
                    Edge {
                        primary: Some(local_link(LinkKind::Central, LinkSide::B, a, state)),
                        decaying: None,
                    },
                ),
            ),
            ..self
        }
    }
}

impl RoutingAcceptor {
    fn serialize_objects(&mut self, objects: &Vec<Object>, link_id: u64) -> (r: Result<
        Vec<(u64, RouterDescriptor)>,
        RoutingError,
    >)
        requires
            old(self).wf(),
        ensures
            final(self).wf(),
            ({
                let (s, want) = old(self)@.objects_serialized(objects@, link_id);
                &&& final(self)@ == s
                &&& match r {
                    Ok(list) => want == Ok::<Seq<(u64, RouterDescriptor)>, Fault>(list@),
                    Err(e) => want == Err::<Seq<(u64, RouterDescriptor)>, Fault>(e@),
                }
            }),
    {
        let mut list: Vec<(u64, RouterDescriptor)> = Vec::new();
        let mut i: usize = 0;
        let ghost start = self@;
        while i < objects.len()
            invariant
                i <= objects.len(),
                self.wf(),
                start == old(self)@,
                start.objects_serialized(objects@.take(i as int), link_id) == (
                    self@,
                    Ok::<Seq<(u64, RouterDescriptor)>, Fault>(list@),
                ),
            decreases objects.len() - i,
        {
            proof {
                assert(objects@.take(i + 1).drop_last() =~= objects@.take(i as int));
                lemma_serialization_fails(start, objects@, i + 1, link_id);
            }
            match objects[i] {
                Object::Fd(_) => {
                    return Err(
                        RoutingError::Unsupported(
                            MSG_ID_ACCEPT_PARCEL,
                            "fd transmission not exercised by the routing court",
                        ),
                    );
                },
                Object::Router(rid) => match self.serialize_router(rid, link_id) {
                    Ok(d) => {
                        list.push((rid, d));
                    },
                    Err(e) => {
                        return Err(e);
                    },
                },
            }
            i = i + 1;
        }
        assert(objects@.take(objects@.len() as int) =~= objects@);
        Ok(list)
    }

    fn push_proxy_starts(&mut self, list: &Vec<(u64, RouterDescriptor)>, link_id: u64)
        requires
            old(self).wf(),
        ensures
            final(self).wf(),
            final(self)@ == (NodeView {
                tasks: old(self)@.tasks + proxy_starts(list@, link_id),
                ..old(self)@
            }),
    {
        let ghost before = self@;
        let ghost all = proxy_starts(list@, link_id);
        let mut i: usize = list.len();
        assert(before.tasks + all.take(0) =~= before.tasks);
        while i > 0
            invariant
                i <= list@.len(),
                all == proxy_starts(list@, link_id),
                self.wf(),
                self@ == (NodeView {
                    tasks: before.tasks + all.take(list@.len() - i),
                    ..before
                }),
            decreases i,
        {
            i = i - 1;
            let (rid, descriptor) = list[i];
            self.push_task(Task::BeginProxying { rid, descriptor, link_id });
            assert(all.take(list@.len() - i) =~= all.take(list@.len() - i - 1).push(
                TaskView::BeginProxying(rid, descriptor, link_id),
            ));
            assert((before.tasks + all.take(list@.len() - i - 1)).push(
                TaskView::BeginProxying(rid, descriptor, link_id),
            ) =~= before.tasks + all.take(list@.len() - i));
        }
        assert(all.take(list@.len() as int) =~= all);
    }

    /// Send a parcel on a link.
    pub fn transmit_parcel(&mut self, link: &Link, parcel: Parcel) -> (r: Result<(), RoutingError>)
        requires
            old(self).wf(),
        ensures
            final(self).wf(),
            (final(self)@, fate(r)) == old(self)@.transmitted(*link, parcel@),
    {
        match link.local_peer {
            Some(peer) => self.deliver_to_peer(peer, link.kind, parcel),
            None => {
                let list = match self.serialize_objects(&parcel.objects, link.link_id) {
                    Ok(l) => l,
                    Err(e) => {
                        return Err(e);
                    },
                };
                let routers = copy_descriptors(&list);
                self.send(
                    LinkMessage::Parcel {
                        sublink: link.sublink,
                        sequence_number: parcel.sequence_number,
                        fragment: parcel.fragment,
                        data: parcel.data,
                        routers,
                    },
                );
                self.push_proxy_starts(&list, link.link_id);
                Ok(())
            },
        }
    }

    fn deliver_to_peer(&mut self, peer: u64, kind: LinkKind, parcel: Parcel) -> (r: Result<
        (),
        RoutingError,
    >)
        requires
            old(self).wf(),
        ensures
            final(self).wf(),
            (final(self)@, fate(r)) == old(self)@.delivered_to_peer(peer, kind, parcel@),
    {
        if !kind.is_central() && !kind.is_bridge() {
            return Err(RoutingError::BadParcel("peripheral local link"));
        }
        let mut router: Router = match self.routers.take(peer) {
            Some(r) => r,
            None => {
                return Err(RoutingError::BadParcel("local delivery sequence gap"));
            },
        };
        let ghost before = router@;
        let accepted = if kind.is_central() {
            router.accept_inbound(parcel)
        } else {
            router.accept_outbound(parcel)
        };
        let ghost after = router@;
        self.routers.put(peer, router);
        if !accepted {
            assert(after =~= before);
            return Err(RoutingError::BadParcel("local delivery sequence gap"));
        }
        self.push_task(Task::Flush { rid: peer, force: false });
        Ok(())
    }

    fn write_parcel_fragment_or_inline(&mut self, data: &[u8]) -> (r: Result<
        Option<FragmentDescriptor>,
        RoutingError,
    >)
        requires
            old(self).wf(),
        ensures
            final(self).wf(),
            (final(self)@, fate(r)) == old(self)@.data_placed(data@),
    {
        let mut m: LinkMemory = match self.take_memory(LINK_ID_BROKER) {
            Ok(m) => m,
            Err(e) => {
                return Err(e);
            },
        };
        let r = m.write_parcel_fragment(data);
        self.put_memory(LINK_ID_BROKER, m);
        assert(self@ =~= old(self)@.data_placed(data@).0);
        match r {
            Ok(d) => Ok(Some(d)),
            Err(_) => Ok(None),
        }
    }

    /// Put a message into a portal. Returns the fragment that its data is in,
    /// if any.
    pub fn put(&mut self, rid: u64, data: Vec<u8>, objects: Vec<Object>) -> (r: Result<
        Option<FragmentDescriptor>,
        RoutingError,
    >)
        requires
            old(self).wf(),
        ensures
            final(self).wf(),
            (final(self)@, fate(r)) == old(self)@.message_put(rid, data@, objects@),
    {
        let (number, remote): (Option<u64>, bool) = match self.routers.get(rid) {
            None => {
                return Err(RoutingError::BadParcel("put for unknown router"));
            },
            Some(r) => (
                r.outbound.next_free(),
                match r.outward.primary {
                    Some(l) => !l.is_local(),
                    None => false,
                },
            ),
        };
        let fragment = if data.len() > 0 && remote {
            match self.write_parcel_fragment_or_inline(data.as_slice()) {
                Ok(f) => f,
                Err(e) => {
                    return Err(e);
                },
            }
        } else {
            None
        };
        let number: u64 = match number {
            Some(n) => n,
            None => {
                return Err(RoutingError::BadParcel("outbound sequence regression"));
            },
        };
        match self.routers.take(rid) {
            Some(router) => {
                let mut router: Router = router;
                proof {
                    lemma_free_from(router@.outbound, router@.outbound.current);
                }
                let _ = router.push_outbound(
                    Parcel { sequence_number: number, data, objects, fragment },
                );
                self.routers.put(rid, router);
            },
            None => {},
        }
        self.push_task(Task::Flush { rid, force: false });
        Ok(fragment)
    }

    /// Open a pair of portals that are linked to each other. Returns their
    /// routers.
    pub fn open_portals(&mut self) -> (r: (u64, u64))
        requires
            old(self).wf(),
        ensures
            final(self).wf(),
            r == (old(self)@.next_rid, next_number(old(self)@.next_rid)),
            final(self)@ == old(self)@.portals_opened(),
    {
        let a: u64 = self.next_rid;
        let b: u64 = following(a);
        self.next_rid = following(b);
        let (link_a, link_b) = Link::local_pair(
            &mut self.local_states,
            LinkKind::Central,
            LinkSide::A,
            a,
            b,
            true,
        );
        self.routers.put(a, Router::new_terminal(link_a));
        self.routers.put(b, Router::new_terminal(link_b));
        (a, b)
    }
}

/// Where a first part of the objects cannot be described, all of them cannot.
proof fn lemma_serialization_fails(s: NodeView, objects: Seq<Object>, n: int, link_id: u64)
    requires
        0 <= n <= objects.len(),
    ensures
        s.objects_serialized(objects.take(n), link_id).1 is Err ==> s.objects_serialized(
            objects,
            link_id,
        ) == s.objects_serialized(objects.take(n), link_id),
    decreases objects.len() - n,
{
    if n < objects.len() {
        lemma_serialization_fails(s, objects, n + 1, link_id);
        assert(objects.take(n + 1).drop_last() =~= objects.take(n));
    } else {
        assert(objects.take(n) =~= objects);
    }
}

fn copy_descriptors(list: &Vec<(u64, RouterDescriptor)>) -> (v: Vec<RouterDescriptor>)
    ensures
        v@ == descriptors_of(list@),
{
    let mut v: Vec<RouterDescriptor> = Vec::new();
    let mut i: usize = 0;
    while i < list.len()
        invariant
            i <= list.len(),
            v@ == descriptors_of(list@).take(i as int),
        decreases list.len() - i,
    {
        v.push(list[i].1);
        assert(descriptors_of(list@).take(i + 1) =~= descriptors_of(list@).take(i as int).push(
            list@[i as int].1,
        ));
        i = i + 1;
    }
    assert(v@ =~= descriptors_of(list@));
    v
}

} // verus!
