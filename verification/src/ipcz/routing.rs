//! Routing: what a node does with the messages, parcels and routers of its
//! links.
//!
//! Every operation is a step on the state of the node. What a step leads to at
//! other routers is put on the node's list of work, the next piece last, and
//! [`RoutingAcceptor::settle`] does the work until none is left; the first
//! error ends it.

use vstd::prelude::*;

use crate::ipcz::link_memory::{LinkMemory, LinkMemoryError};
#[allow(unused_imports)]
use crate::ipcz::link_memory::{
    allocation, block_of, fresh_link_state, freed, initial_link_state, lock_attempt, lock_bit,
    next_ref, next_sublink, previous_ref, refs_of, resolve_at_least, stable_bit, status_of, stored,
    waiting_reset, with_counter, with_status, Allocation,
};
use crate::ipcz::messages::FragmentDescriptor;
use crate::ipcz::node::{
    LinkMessage, PendingMemoryRequest, RoutingAcceptor, RoutingError, Task, LINK_ID_BROKER,
};
#[allow(unused_imports)]
use crate::ipcz::pair_map::without_value;
#[allow(unused_imports)]
use crate::ipcz::node::{
    fate, lemma_insert_same, lemma_reinsert, Fault, LinkMessageView, NodeStep, NodeView, TaskView,
};
use crate::ipcz::router::{Edge, Link, LinkKind, Parcel, Router};
#[allow(unused_imports)]
use crate::ipcz::router::{collected, routed_views, LocalLinkState, ParcelView, RouterView};

verus! {

broadcast use {vstd::std_specs::hash::group_hash_axioms, lemma_reinsert, lemma_insert_same};

impl NodeView {
    /// The state that a local link shares with its other end.
    pub open spec fn local_of(self, link: Link) -> Option<LocalLinkState> {
        match link.local_state {
            Some(i) => if i < self.local_states.len() {
                Some(self.local_states[i as int])
            } else {
                None
            },
            None => None,
        }
    }

    /// The state with that of a local link set.
    pub open spec fn with_local(self, link: Link, st: LocalLinkState) -> NodeView {
        NodeView {
            local_states: self.local_states.update(link.local_state->Some_0 as int, st),
            ..self
        }
    }

    /// The state with this side of a local link marked stable.
    pub open spec fn local_marked(self, link: Link) -> NodeView {
        match self.local_of(link) {
            Some(st) => self.with_local(
                link,
                LocalLinkState { status: st.status | stable_bit(link.side is A), ..st },
            ),
            None => self,
        }
    }

    /// The state after this side of a link is marked stable.
    pub open spec fn marked_stable(self, link: Link) -> NodeStep {
        match link.link_state {
            Some(d) => match self.memory_of(LINK_ID_BROKER) {
                Err(e) => (self, Err(e)),
                Ok(m) => match resolve_at_least(m, d, 8) {
                    Err(e) => (self, Err(Fault::Memory(e))),
                    Ok(_) => (
                        self.with_memory(
                            LINK_ID_BROKER,
                            with_status(m, d, status_of(m, d) | stable_bit(link.side is A)),
                        ).local_marked(link),
                        Ok(()),
                    ),
                },
            },
            None => (self.local_marked(link), Ok(())),
        }
    }

    /// The state after this side tries to lock a link so that it can close it.
    pub open spec fn lock_tried(self, link: Link) -> (NodeView, Result<bool, Fault>) {
        match link.link_state {
            Some(d) => match self.memory_of(LINK_ID_BROKER) {
                Err(e) => (self, Err(e)),
                Ok(m) => match resolve_at_least(m, d, 8) {
                    Err(e) => (self, Err(Fault::Memory(e))),
                    Ok(_) => {
                        let (status, locked) = lock_attempt(status_of(m, d), link.side is A);
                        (self.with_memory(LINK_ID_BROKER, with_status(m, d, status)), Ok(locked))
                    },
                },
            },
            None => match self.local_of(link) {
                Some(st) => {
                    let (status, locked) = lock_attempt(st.status, link.side is A);
                    (self.with_local(link, LocalLinkState { status, ..st }), Ok(locked))
                },
                None => (self, Ok(false)),
            },
        }
    }

    /// The state after this side tries to lock a link for a bypass: where it
    /// gets the lock, the node that may ask for the bypass is written down.
    pub open spec fn bypass_lock_tried(self, link: Link, source: u64) -> (
        NodeView,
        Result<bool, Fault>,
    ) {
        let (s, r) = self.lock_tried(link);
        match r {
            Ok(true) => match link.link_state {
                Some(d) => {
                    let m = s.memory->Some_0;
                    match resolve_at_least(m, d, 16) {
                        Err(e) => (s, Err(Fault::Memory(e))),
                        Ok(_) => (
                            s.with_memory(
                                LINK_ID_BROKER,
                                stored(m, d, 8, crate::bytes::bytes64(source)),
                            ),
                            Ok(true),
                        ),
                    }
                },
                None => {
                    let st = s.local_of(link)->Some_0;
                    (
                        s.with_local(link, LocalLinkState { allowed_bypass_source: source, ..st }),
                        Ok(true),
                    )
                },
            },
            _ => (s, r),
        }
    }

    /// The state after this side gives the lock on a link back.
    pub open spec fn unlocked(self, link: Link) -> NodeStep {
        let local = |s: NodeView|
            match s.local_of(link) {
                Some(st) => s.with_local(
                    link,
                    LocalLinkState { status: st.status & !lock_bit(link.side is A), ..st },
                ),
                None => s,
            };
        match link.link_state {
            Some(d) => match self.memory_of(LINK_ID_BROKER) {
                Err(e) => (self, Err(e)),
                Ok(m) => match resolve_at_least(m, d, 8) {
                    Err(e) => (self, Err(Fault::Memory(e))),
                    Ok(_) => (
                        local(
                            self.with_memory(
                                LINK_ID_BROKER,
                                with_status(m, d, status_of(m, d) & !lock_bit(link.side is A)),
                            ),
                        ),
                        Ok(()),
                    ),
                },
            },
            None => (local(self), Ok(())),
        }
    }

    /// The state after the other side of a link is woken, if it waits: by a
    /// message, or by a flush of the local peer.
    pub open spec fn other_side_woken(self, link: Link) -> NodeStep {
        match link.link_state {
            Some(d) => match self.memory_of(LINK_ID_BROKER) {
                Err(e) => (self, Err(e)),
                Ok(m) => match resolve_at_least(m, d, 8) {
                    Err(e) => (self, Err(Fault::Memory(e))),
                    Ok(_) => {
                        let (status, reset) = waiting_reset(status_of(m, d), !(link.side is A));
                        let s = self.with_memory(LINK_ID_BROKER, with_status(m, d, status));
                        (
                            if reset {
                                s.with_message(LinkMessageView::FlushRouter(link.sublink))
                            } else {
                                s
                            },
                            Ok(()),
                        )
                    },
                },
            },
            None => match self.local_of(link) {
                Some(st) => {
                    let (status, reset) = waiting_reset(st.status, !(link.side is A));
                    let s = self.with_local(link, LocalLinkState { status, ..st });
                    (
                        if reset && link.local_peer is Some {
                            s.then_task(TaskView::Flush(link.local_peer->Some_0, true))
                        } else {
                            s
                        },
                        Ok(()),
                    )
                },
                None => (self, Ok(())),
            },
        }
    }

    /// The state after a link lets go of its link state; the last reference
    /// frees the block. The states of the initial portals are never counted.
    pub open spec fn state_released(self, link: Link) -> NodeStep {
        match link.link_state {
            None => (self, Ok(())),
            Some(d) => if initial_link_state(d) {
                (self, Ok(()))
            } else {
                match self.memory_of(link.link_id) {
                    Err(e) => (self, Err(e)),
                    Ok(m) => match resolve_at_least(m, d, 4) {
                        Err(e) => (self, Err(Fault::Memory(e))),
                        Ok(_) => {
                            let refs = refs_of(m, d);
                            let n = stored(m, d, 0, crate::bytes::bytes32(previous_ref(refs)));
                            if refs != 1 {
                                (self.with_memory(link.link_id, n), Ok(()))
                            } else {
                                match block_of(n, d, 0) {
                                    None => (
                                        self.with_memory(link.link_id, n),
                                        Err(Fault::BadParcel("failed to free link state block"@)),
                                    ),
                                    Some((region, i)) => (
                                        self.with_memory(link.link_id, freed(n, region, i)),
                                        Ok(()),
                                    ),
                                }
                            }
                        },
                    },
                }
            },
        }
    }

    /// The state after the end of a route is told to the other end of a
    /// released link.
    pub open spec fn closure_delivered(self, link: Link, length: u64) -> NodeStep {
        match link.local_peer {
            Some(peer) => self.closed_locally(peer, link.kind, length),
            None => (
                self.with_message(LinkMessageView::RouteClosed(link.sublink, length)),
                Ok(()),
            ),
        }
    }

    /// The state after a router learns over a local link of a kind that the far
    /// end is closed: an outward link ends what comes in, the other kinds what
    /// goes out, and a bridge is gone.
    pub open spec fn closed_locally(self, rid: u64, kind: LinkKind, length: u64) -> NodeStep {
        if !self.routers.contains_key(rid) {
            (self, Err(Fault::BadParcel("route closed for unknown router"@)))
        } else {
            let r = self.routers[rid];
            let refused = Err::<(), Fault>(Fault::BadParcel("closure sequence regression"@));
            if kind.spec_is_outward() {
                if length < r.inbound.current {
                    (self, refused)
                } else {
                    let q = RouterView {
                        inbound: r.inbound.with_final_length(length),
                        peer_closed: r.peer_closed || (r.inward is None && r.bridge is None),
                        ..r
                    };
                    (self.with_router(rid, q).then_task(TaskView::Flush(rid, false)), Ok(()))
                }
            } else if length < r.outbound.current {
                (self, refused)
            } else {
                let q = RouterView {
                    outbound: r.outbound.with_final_length(length),
                    bridge: if kind is Bridge {
                        None
                    } else {
                        r.bridge
                    },
                    ..r
                };
                (self.with_router(rid, q).then_task(TaskView::Flush(rid, false)), Ok(()))
            }
        }
    }

    /// The state after a router adopts an outward link. A central link at a
    /// router without decaying links is marked stable; a disconnected router
    /// drops the link.
    pub open spec fn outward_link_set(self, rid: u64, link: Link) -> NodeStep {
        if !self.routers.contains_key(rid) {
            (self, Err(Fault::BadParcel("set outward link for unknown router"@)))
        } else {
            let r = self.routers[rid];
            let mark = link.kind is Central && r.outward.decaying is None && (r.inward matches Some(
                e,
            ) ==> e.decaying is None);
            let (s, res) = if mark {
                self.marked_stable(link)
            } else {
                (self, Ok(()))
            };
            if res is Err {
                (s, res)
            } else if r.disconnected {
                (s, Ok(()))
            } else {
                (
                    s.with_router(
                        rid,
                        RouterView { outward: r.outward.spec_with_primary(link), ..r },
                    ),
                    Ok(()),
                )
            }
        }
    }
}

impl RoutingAcceptor {
    fn local_state(&self, link: &Link) -> (r: Option<LocalLinkState>)
        ensures
            r == self@.local_of(*link),
    {
        match link.local_state {
            Some(i) => if i < self.local_states.len() {
                Some(self.local_states[i])
            } else {
                None
            },
            None => None,
        }
    }

    fn set_local_state(&mut self, link: &Link, st: LocalLinkState)
        requires
            old(self).wf(),
            old(self)@.local_of(*link) is Some,
        ensures
            final(self).wf(),
            final(self)@ == old(self)@.with_local(*link, st),
    {
        match link.local_state {
            Some(i) => {
                self.local_states.set(i, st);
            },
            None => {},
        }
    }

    /// Mark this side of a link stable.
    pub fn mark_side_stable_on_link(&mut self, link: &Link) -> (r: Result<(), RoutingError>)
        requires
            old(self).wf(),
        ensures
            final(self).wf(),
            (final(self)@, fate(r)) == old(self)@.marked_stable(*link),
    {
        match link.link_state {
            Some(d) => {
                let mut m: LinkMemory = match self.take_memory(LINK_ID_BROKER) {
                    Ok(m) => m,
                    Err(e) => {
                        return Err(e);
                    },
                };
                let r = m.set_side_stable(d, link.side.is_a());
                self.put_memory(LINK_ID_BROKER, m);
                match r {
                    Ok(_) => {},
                    Err(e) => {
                        assert(self@ =~= old(self)@);
                        return Err(RoutingError::Memory(e));
                    },
                }
            },
            None => {},
        }
        match self.local_state(link) {
            Some(st) => {
                let mut st: LocalLinkState = st;
                st.set_side_stable(link.side.is_a());
                self.set_local_state(link, st);
            },
            None => {},
        }
        Ok(())
    }

    /// Try to lock a link so that it can be closed.
    pub fn try_lock_link_for_closure(&mut self, link: &Link) -> (r: Result<bool, RoutingError>)
        requires
            old(self).wf(),
        ensures
            final(self).wf(),
            (final(self)@, fate(r)) == old(self)@.lock_tried(*link),
    {
        match link.link_state {
            Some(d) => {
                let mut m: LinkMemory = match self.take_memory(LINK_ID_BROKER) {
                    Ok(m) => m,
                    Err(e) => {
                        return Err(e);
                    },
                };
                let r = m.try_lock_link_state(d, link.side.is_a());
                self.put_memory(LINK_ID_BROKER, m);
                match r {
                    Ok(locked) => Ok(locked),
                    Err(e) => {
                        assert(self@ =~= old(self)@);
                        Err(RoutingError::Memory(e))
                    },
                }
            },
            None => match self.local_state(link) {
                Some(st) => {
                    let mut st: LocalLinkState = st;
                    let locked = st.try_lock(link.side.is_a());
                    self.set_local_state(link, st);
                    Ok(locked)
                },
                None => Ok(false),
            },
        }
    }

    /// Try to lock a link for a bypass, and write down the node that may ask
    /// for it.
    pub fn try_lock_link_for_bypass(&mut self, link: &Link, source: u64) -> (r: Result<
        bool,
        RoutingError,
    >)
        requires
            old(self).wf(),
        ensures
            final(self).wf(),
            (final(self)@, fate(r)) == old(self)@.bypass_lock_tried(*link, source),
    {
        match self.try_lock_link_for_closure(link) {
            Ok(true) => {},
            other => {
                return other;
            },
        }
        let ghost locked = self@;
        match link.link_state {
            Some(d) => {
                let mut m: LinkMemory = match self.take_memory(LINK_ID_BROKER) {
                    Ok(m) => m,
                    Err(e) => {
                        return Err(e);
                    },
                };
                let r = m.write_allowed_bypass_source(d, source);
                self.put_memory(LINK_ID_BROKER, m);
                match r {
                    Ok(_) => Ok(true),
                    Err(e) => {
                        assert(self@ =~= locked);
                        Err(RoutingError::Memory(e))
                    },
                }
            },
            None => {
                match self.local_state(link) {
                    Some(st) => {
                        let mut st: LocalLinkState = st;
                        st.allowed_bypass_source = source;
                        self.set_local_state(link, st);
                    },
                    None => {},
                }
                Ok(true)
            },
        }
    }

    /// Give back the lock on a link that was locked for a bypass.
    pub fn unlock_link_for_bypass(&mut self, link: &Link) -> (r: Result<(), RoutingError>)
        requires
            old(self).wf(),
        ensures
            final(self).wf(),
            (final(self)@, fate(r)) == old(self)@.unlocked(*link),
    {
        match link.link_state {
            Some(d) => {
                let mut m: LinkMemory = match self.take_memory(LINK_ID_BROKER) {
                    Ok(m) => m,
                    Err(e) => {
                        return Err(e);
                    },
                };
                let r = m.unlock_link_state(d, link.side.is_a());
                self.put_memory(LINK_ID_BROKER, m);
                match r {
                    Ok(_) => {},
                    Err(e) => {
                        assert(self@ =~= old(self)@);
                        return Err(RoutingError::Memory(e));
                    },
                }
            },
            None => {},
        }
        match self.local_state(link) {
            Some(st) => {
                let mut st: LocalLinkState = st;
                st.unlock(link.side.is_a());
                self.set_local_state(link, st);
            },
            None => {},
        }
        Ok(())
    }

    /// Wake the other side of a link if it waits.
    pub fn flush_other_side_if_waiting(&mut self, link: &Link) -> (r: Result<(), RoutingError>)
        requires
            old(self).wf(),
        ensures
            final(self).wf(),
            (final(self)@, fate(r)) == old(self)@.other_side_woken(*link),
    {
        match link.link_state {
            Some(d) => {
                let mut m: LinkMemory = match self.take_memory(LINK_ID_BROKER) {
                    Ok(m) => m,
                    Err(e) => {
                        return Err(e);
                    },
                };
                let r = m.reset_waiting_bit(d, !link.side.is_a());
                self.put_memory(LINK_ID_BROKER, m);
                match r {
                    Ok(reset) => {
                        if reset {
                            self.send(LinkMessage::FlushRouter { sublink: link.sublink });
                        }
                    },
                    Err(e) => {
                        assert(self@ =~= old(self)@);
                        return Err(RoutingError::Memory(e));
                    },
                }
            },
            None => match self.local_state(link) {
                Some(st) => {
                    let mut st: LocalLinkState = st;
                    let reset = st.reset_waiting_bit(!link.side.is_a());
                    self.set_local_state(link, st);
                    match link.local_peer {
                        Some(peer) => {
                            if reset {
                                self.push_task(Task::Flush { rid: peer, force: true });
                            }
                        },
                        None => {},
                    }
                },
                None => {},
            },
        }
        Ok(())
    }

    /// Let go of the link state of a link.
    pub fn release_link_state(&mut self, link: &Link) -> (r: Result<(), RoutingError>)
        requires
            old(self).wf(),
        ensures
            final(self).wf(),
            (final(self)@, fate(r)) == old(self)@.state_released(*link),
    {
        let d = match link.link_state {
            Some(d) => d,
            None => {
                return Ok(());
            },
        };
        if LinkMemory::is_initial_link_state(d) {
            return Ok(());
        }
        let mut m: LinkMemory = match self.take_memory(link.link_id) {
            Ok(m) => m,
            Err(e) => {
                return Err(e);
            },
        };
        let r = match m.release_link_state_ref(d) {
            Err(e) => Err(RoutingError::Memory(e)),
            Ok(last) => if last && !m.free_block(d) {
                Err(RoutingError::BadParcel("failed to free link state block"))
            } else {
                Ok(())
            },
        };
        self.put_memory(link.link_id, m);
        assert(self@ =~= old(self)@.state_released(*link).0);
        r
    }

    /// Tell the other end of a released link that the route is closed.
    pub fn deliver_route_closed(&mut self, link: &Link, length: u64) -> (r: Result<
        (),
        RoutingError,
    >)
        requires
            old(self).wf(),
        ensures
            final(self).wf(),
            (final(self)@, fate(r)) == old(self)@.closure_delivered(*link, length),
    {
        match link.local_peer {
            Some(peer) => self.router_route_closed_local(peer, link.kind, length),
            None => {
                self.send(
                    LinkMessage::RouteClosed { sublink: link.sublink, sequence_length: length },
                );
                Ok(())
            },
        }
    }

    /// The far end closed, as a router learns over a local link.
    pub fn router_route_closed_local(&mut self, rid: u64, kind: LinkKind, length: u64) -> (r:
        Result<(), RoutingError>)
        requires
            old(self).wf(),
        ensures
            final(self).wf(),
            (final(self)@, fate(r)) == old(self)@.closed_locally(rid, kind, length),
    {
        let mut router: Router = match self.routers.take(rid) {
            Some(r) => r,
            None => {
                return Err(RoutingError::BadParcel("route closed for unknown router"));
            },
        };
        let ghost before = router@;
        let accepted = if kind.is_outward() {
            let ok = router.inbound.set_final_sequence_length(length);
            if ok && router.inward.is_none() && router.bridge.is_none() {
                router.peer_closed = true;
            }
            ok
        } else {
            let ok = router.outbound.set_final_sequence_length(length);
            if ok && kind.is_bridge() {
                router.bridge = None;
            }
            ok
        };
        let ghost after = router@;
        self.routers.put(rid, router);
        if !accepted {
            assert(after =~= before);
            return Err(RoutingError::BadParcel("closure sequence regression"));
        }
        self.push_task(Task::Flush { rid, force: false });
        Ok(())
    }

    /// Adopt an outward link at a router.
    pub fn set_outward_link(&mut self, rid: u64, link: &Link) -> (r: Result<(), RoutingError>)
        requires
            old(self).wf(),
        ensures
            final(self).wf(),
            (final(self)@, fate(r)) == old(self)@.outward_link_set(rid, *link),
    {
        let mark = match self.routers.get(rid) {
            None => {
                return Err(RoutingError::BadParcel("set outward link for unknown router"));
            },
            Some(router) => link.kind.is_central() && router.outward.is_stable()
                && match router.inward {
                Some(e) => e.is_stable(),
                None => true,
            },
        };
        if mark {
            match self.mark_side_stable_on_link(link) {
                Ok(_) => {},
                Err(e) => {
                    return Err(e);
                },
            }
        }
        match self.routers.take(rid) {
            Some(router) => {
                let mut router: Router = router;
                if !router.disconnected {
                    router.outward.set_primary_link(*link);
                }
                self.routers.put(rid, router);
            },
            None => {},
        }
        Ok(())
    }
}

/// The link that is there, if any, as a list.
pub open spec fn link_list(o: Option<Link>) -> Seq<Link> {
    match o {
        Some(l) => seq![l],
        None => Seq::empty(),
    }
}

/// The links of an edge.
pub open spec fn edge_links(e: Edge) -> Seq<Link> {
    link_list(e.primary) + link_list(e.spec_decaying_link())
}

/// The outward and inward links of a router.
pub open spec fn links_of(r: RouterView) -> Seq<Link> {
    edge_links(r.outward) + match r.inward {
        Some(e) => edge_links(e),
        None => Seq::empty(),
    }
}

/// The owners without the sublinks of links.
pub open spec fn owners_without(m: Map<(u64, u64), u64>, links: Seq<Link>) -> Map<(u64, u64), u64>
    decreases links.len(),
{
    if links.len() == 0 {
        m
    } else {
        owners_without(m, links.drop_last()).remove((links.last().link_id, links.last().sublink))
    }
}

/// The transmission of parcels on their links, the first of them next.
pub open spec fn transmissions(list: Seq<(Link, ParcelView)>) -> Seq<TaskView> {
    Seq::new(
        list.len(),
        |i: int| TaskView::Transmit(list[list.len() - 1 - i].0, list[list.len() - 1 - i].1),
    )
}

impl RouterView {
    /// What a router can send: outward first, then inward or over its bridge;
    /// and the router without it.
    pub open spec fn sendable(self) -> (Seq<(Link, ParcelView)>, RouterView) {
        let (out, outbound) = collected(self.outbound, self.outward);
        let (inc, inbound) = match self.inward {
            Some(e) => collected(self.inbound, e),
            None => match self.bridge {
                Some(e) => collected(self.inbound, e),
                None => (Seq::empty(), self.inbound),
            },
        };
        (out + inc, RouterView { outbound, inbound, ..self })
    }

    /// Whether a proxy has no outward link left.
    pub open spec fn is_spent(self) -> bool {
        self.inward is Some && self.outward.primary is None && self.outward.decaying is None
    }
}

/// What a flush finds about the end of a route.
pub struct ClosureFindings {
    /// The router after it let go of links that nothing more comes over.
    pub router: RouterView,
    /// The central link that is to be locked and closed, with the length.
    pub to_lock: Option<(Link, u64)>,
    /// The link that the closure is forwarded over, with the length.
    pub to_forward: Option<(Link, u64)>,
    /// Whether the outward link was let go of.
    pub dead_outward: bool,
}

/// What a flush finds about the end of the route of `r`: what was sent out in
/// full on a central link is closed there; an outward link over which nothing
/// more can come is let go of; and what came in to its end is closed inward or
/// over the bridge.
pub open spec fn closure_findings(r: RouterView, on_central: bool) -> ClosureFindings {
    let sent_all = on_central && r.outbound.fully_consumed();
    let release = !sent_all && r.inbound.fully_consumed() && r.outward.primary is Some;
    let q = if release {
        RouterView { outward: Edge { primary: None, ..r.outward }, ..r }
    } else {
        r
    };
    let length = r.inbound.final_length->Some_0;
    let (router, to_forward) = if !r.inbound.fully_consumed() {
        (q, None)
    } else {
        match q.inward {
            Some(e) => match e.primary {
                Some(link) => (
                    RouterView { inward: Some(Edge { primary: None, ..e }), ..q },
                    Some((link, length)),
                ),
                None => (q, None),
            },
            None => match q.spec_bridge_link() {
                Some(link) => (RouterView { bridge: None, ..q }, Some((link, length))),
                None => (q, None),
            },
        }
    };
    ClosureFindings {
        router,
        to_lock: if sent_all && r.outward.primary is Some {
            Some((r.outward.primary->Some_0, r.outbound.final_length->Some_0))
        } else {
            None
        },
        to_forward,
        dead_outward: release,
    }
}

impl NodeView {
    /// The state after links let go of their link states, whatever that meets.
    pub open spec fn states_let_go(self, links: Seq<Link>) -> NodeView
        decreases links.len(),
    {
        if links.len() == 0 {
            self
        } else {
            self.states_let_go(links.drop_last()).state_released(links.last()).0
        }
    }

    /// The state without a router: its sublinks have no owner any more, and its
    /// link states are let go of.
    pub open spec fn router_removed(self, rid: u64) -> NodeView {
        if !self.routers.contains_key(rid) {
            self
        } else {
            let links = links_of(self.routers[rid]);
            let s = NodeView {
                owners: without_value(owners_without(self.owners, links), rid),
                ..self
            };
            let t = s.states_let_go(links);
            NodeView { routers: t.routers.remove(rid), ..t }
        }
    }

    /// The state after the first part of a flush: what the router can send is
    /// on its way, and the rest of the flush follows.
    pub open spec fn flush_started(self, rid: u64, force: bool) -> NodeStep {
        if !self.routers.contains_key(rid) {
            (self, Err(Fault::BadParcel("flush for unknown router"@)))
        } else {
            let r = self.routers[rid];
            let rest = TaskView::FinishFlush(
                rid,
                force,
                r.central(),
                r.outward.decaying is Some,
                r.inward matches Some(e) && e.decaying is Some,
            );
            (
                NodeView {
                    tasks: self.tasks.push(rest) + transmissions(r.sendable().0),
                    ..self.with_router(rid, r.sendable().1)
                },
                Ok(()),
            )
        }
    }

    /// The state after the decays of a router that are over are finished, and
    /// whether those of the outward and the inward edge were.
    #[verifier::opaque]
    pub open spec fn decays_ended(self, rid: u64) -> NodeStep {
        let r0 = self.routers[rid];
        let r1 = if r0.bridge_decay_over() {
            RouterView { bridge: None, ..r0 }
        } else {
            r0
        };
        let s = self.with_router(rid, r1.decays_finished());
        let (t, res) = if r1.outward_decay_over() {
            s.opt_released(r1.outward.spec_decaying_link())
        } else {
            (s, Ok(()))
        };
        if res is Err || !r1.inward_decay_over() {
            (t, res)
        } else {
            t.opt_released(r1.inward->Some_0.spec_decaying_link())
        }
    }

    /// The state after a link, if there is one, lets go of its link state.
    pub open spec fn opt_released(self, link: Option<Link>) -> NodeStep {
        match link {
            Some(l) => self.state_released(l),
            None => (self, Ok(())),
        }
    }

    /// The state after the end of a route is looked for at a router; the link
    /// that the closure of the route goes to, the link that it is forwarded
    /// over, and whether the outward link is gone.
    #[verifier::opaque]
    pub open spec fn closures_found(self, rid: u64, on_central: bool) -> (
        NodeView,
        Result<(Option<(Link, u64)>, Option<(Link, u64)>, bool), Fault>,
    ) {
        let f = closure_findings(self.routers[rid], on_central);
        let s = self.with_router(rid, f.router);
        match f.to_lock {
            None => (s, Ok((None, f.to_forward, f.dead_outward))),
            Some((link, length)) => {
                let (t, res) = s.lock_tried(link);
                match res {
                    Err(e) => (t, Err(e)),
                    Ok(locked) => if locked {
                        let r = t.routers[rid];
                        (
                            t.with_router(
                                rid,
                                RouterView { outward: Edge { primary: None, ..r.outward }, ..r },
                            ),
                            Ok((Some((link, length)), f.to_forward, true)),
                        )
                    } else {
                        (t, Ok((None, f.to_forward, f.dead_outward)))
                    },
                }
            },
        }
    }

    /// The state with the pieces of work that end a flush: a bridge bypass, the
    /// closures, and the waking of the other side, in this order.
    pub open spec fn with_flush_tail(
        self,
        rid: u64,
        bridge: bool,
        route_closed: Option<(Link, u64)>,
        forward_closed: Option<(Link, u64)>,
        wake: bool,
    ) -> NodeView {
        let a = if wake {
            self.tasks.push(TaskView::WakePeer(rid))
        } else {
            self.tasks
        };
        let b = match forward_closed {
            Some((link, length)) => a.push(TaskView::DeliverClosed(link, length)),
            None => a,
        };
        let c = match route_closed {
            Some((link, length)) => b.push(TaskView::DeliverClosed(link, length)),
            None => b,
        };
        NodeView {
            tasks: if bridge {
                c.push(TaskView::BridgeBypass(rid))
            } else {
                c
            },
            ..self
        }
    }

    /// The state after the rest of a flush, with what held when it started:
    /// decays that are over are finished and the portal takes what has come in.
    /// A proxy without outward link is then gone.
    pub open spec fn flush_finished(
        self,
        rid: u64,
        force: bool,
        on_central: bool,
        outward_decaying: bool,
        inward_decaying: bool,
    ) -> NodeStep {
        if !self.routers.contains_key(rid) {
            (self, Err(Fault::BadParcel("flush for unknown router"@)))
        } else {
            let r0 = self.routers[rid];
            let (s1, res1) = self.decays_ended(rid);
            let r1 = s1.routers[rid].portal_filled();
            let s2 = s1.with_router(rid, r1);
            if res1 is Err {
                (s1, res1)
            } else if r1.is_spent() {
                (s2.router_removed(rid), Ok(()))
            } else {
                s2.flush_settled(
                    rid,
                    force,
                    on_central,
                    r0.outward_decay_over(),
                    r0.inward_decay_over(),
                    outward_decaying && !r0.outward_decay_over(),
                    inward_decaying && !r0.inward_decay_over(),
                )
            }
        }
    }

    /// The state at the end of a flush: a link whose last decay is over is
    /// marked stable, closures are found, and what follows is put on the list
    /// of work. `out_over` and `in_over` say which decays are over now,
    /// `out_left` and `in_left` which go on.
    pub open spec fn flush_settled(
        self,
        rid: u64,
        force: bool,
        on_central: bool,
        out_over: bool,
        in_over: bool,
        out_left: bool,
        in_left: bool,
    ) -> NodeStep {
        let r = self.routers[rid];
        let mark = on_central && (out_over || in_over) && r.outward.primary is Some && !out_left
            && (r.inward is Some ==> !in_left);
        let (s3, res3) = if mark {
            self.marked_stable(r.outward.primary->Some_0)
        } else {
            (self, Ok(()))
        };
        let (s4, res4) = s3.closures_found(rid, on_central);
        if res3 is Err {
            (s3, res3)
        } else {
            match res4 {
                Err(e) => (s4, Err(e)),
                Ok((route_closed, forward_closed, dead_outward)) => {
                    let q = s4.routers[rid];
                    let bridge = q.bridge is Some && q.outward.primary is Some && !out_left
                        && q.inward is None && !in_left;
                    let wake = !dead_outward && on_central && (mark || force);
                    (s4.with_flush_tail(rid, bridge, route_closed, forward_closed, wake), Ok(()))
                },
            }
        }
    }

    /// The state after the other side of a router's outward link is woken.
    pub open spec fn peer_woken(self, rid: u64) -> NodeStep {
        if self.routers.contains_key(rid) && self.routers[rid].outward.primary is Some {
            self.other_side_woken(self.routers[rid].outward.primary->Some_0)
        } else {
            (self, Ok(()))
        }
    }
}

fn push_opt(v: &mut Vec<Link>, o: Option<Link>)
    ensures
        final(v)@ == old(v)@ + link_list(o),
{
    match o {
        Some(l) => {
            v.push(l);
        },
        None => {},
    }
    assert(v@ =~= old(v)@ + link_list(o));
}

fn collect_links(r: &Router) -> (v: Vec<Link>)
    ensures
        v@ == links_of(r@),
{
    let mut v: Vec<Link> = Vec::new();
    push_opt(&mut v, r.outward.primary);
    push_opt(&mut v, r.outward.decaying_link());
    match r.inward {
        Some(e) => {
            push_opt(&mut v, e.primary);
            push_opt(&mut v, e.decaying_link());
        },
        None => {},
    }
    assert(v@ =~= links_of(r@));
    v
}

impl RoutingAcceptor {
    /// Remove a router and all its sublinks.
    pub fn remove_router(&mut self, rid: u64)
        requires
            old(self).wf(),
        ensures
            final(self).wf(),
            final(self)@ == old(self)@.router_removed(rid),
    {
        let links: Vec<Link> = match self.routers.get(rid) {
            Some(r) => collect_links(r),
            None => {
                return ;
            },
        };
        let ghost before = self@;
        let mut i: usize = 0;
        while i < links.len()
            invariant
                i <= links.len(),
                self.wf(),
                self@ == (NodeView {
                    owners: owners_without(before.owners, links@.take(i as int)),
                    ..before
                }),
            decreases links.len() - i,
        {
            assert(links@.take(i + 1).drop_last() =~= links@.take(i as int));
            self.owners.remove(links[i].link_id, links[i].sublink);
            i = i + 1;
        }
        assert(links@.take(links@.len() as int) =~= links@);
        self.owners.remove_value(rid);
        let ghost mid = self@;
        let mut j: usize = 0;
        assert(links@.take(0) =~= Seq::empty());
        while j < links.len()
            invariant
                j <= links.len(),
                self.wf(),
                self@ == mid.states_let_go(links@.take(j as int)),
            decreases links.len() - j,
        {
            assert(links@.take(j + 1).drop_last() =~= links@.take(j as int));
            let _ = self.release_link_state(&links[j]);
            j = j + 1;
        }
        assert(links@.take(links@.len() as int) =~= links@);
        let ghost late = self@;
        let _ = self.routers.take(rid);
        assert(self@.routers =~= late.routers.remove(rid));
    }

    pub(crate) fn push_transmissions(&mut self, list: Vec<(Link, Parcel)>)
        requires
            old(self).wf(),
        ensures
            final(self).wf(),
            final(self)@ == (NodeView {
                tasks: old(self)@.tasks + transmissions(routed_views(list@)),
                ..old(self)@
            }),
    {
        let ghost all = routed_views(list@);
        let ghost before = self@;
        let mut rest: Vec<(Link, Parcel)> = list;
        assert(transmissions(all).take(0) =~= Seq::empty());
        assert(before.tasks + Seq::empty() =~= before.tasks);
        loop
            invariant
                self.wf(),
                rest@.len() <= all.len(),
                routed_views(rest@) == all.take(rest@.len() as int),
                self@ == (NodeView {
                    tasks: before.tasks + transmissions(all).take(all.len() - rest@.len()),
                    ..before
                }),
            ensures
                rest@.len() == 0,
            decreases rest@.len(),
        {
            let ghost n = rest@.len();
            let ghost seen = routed_views(rest@);
            match rest.pop() {
                Some((link, parcel)) => {
                    proof {
                        assert(routed_views(rest@) =~= all.take(n - 1));
                        assert(seen[n - 1] == all[n - 1]);
                        let done = transmissions(all).take(all.len() - n);
                        let more = transmissions(all).take(all.len() - (n - 1));
                        assert(more =~= done.push(TaskView::Transmit(link, parcel@)));
                        assert((before.tasks + done).push(TaskView::Transmit(link, parcel@))
                            =~= before.tasks + more);
                    }
                    self.push_task(Task::Transmit { link, parcel });
                },
                None => {
                    break;
                },
            }
        }
        assert(transmissions(all).take(all.len() as int) =~= transmissions(all));
    }

    /// Start to flush a router.
    pub fn router_flush(&mut self, rid: u64, force: bool) -> (r: Result<(), RoutingError>)
        requires
            old(self).wf(),
        ensures
            final(self).wf(),
            (final(self)@, fate(r)) == old(self)@.flush_started(rid, force),
    {
        let ghost before = self@;
        let mut router: Router = match self.routers.take(rid) {
            Some(r) => r,
            None => {
                return Err(RoutingError::BadParcel("flush for unknown router"));
            },
        };
        let ghost r0 = router@;
        let on_central = router.on_central_link();
        let outward_decaying = router.outward_has_decaying();
        let inward_decaying = router.inward_has_decaying();
        let mut list: Vec<(Link, Parcel)> = router.collect_outbound();
        let mut inbound: Vec<(Link, Parcel)> = if router.inward.is_some() {
            router.collect_inbound()
        } else if router.bridge.is_some() {
            router.collect_bridge()
        } else {
            Vec::new()
        };
        proof {
            assert(routed_views(list@ + inbound@) =~= routed_views(list@) + routed_views(inbound@));
            if router.inward is None && router.bridge is None {
                assert(routed_views(inbound@) =~= Seq::empty());
            }
            assert(router@ =~= r0.sendable().1);
        }
        list.append(&mut inbound);
        self.routers.put(rid, router);
        self.push_task(
            Task::FinishFlush { rid, force, on_central, outward_decaying, inward_decaying },
        );
        self.push_transmissions(list);
        Ok(())
    }

    fn finish_router_decays(&mut self, rid: u64) -> (r: Result<(), RoutingError>)
        requires
            old(self).wf(),
            old(self)@.routers.contains_key(rid),
        ensures
            final(self).wf(),
            (final(self)@, fate(r)) == old(self)@.decays_ended(rid),
            final(self)@.routers.contains_key(rid),
    {
        reveal(NodeView::decays_ended);
        let mut router: Router = match self.routers.take(rid) {
            Some(r) => r,
            None => {
                return Ok(());
            },
        };
        let _ = router.finish_bridge_decay();
        let (out_link, _out, in_link, _inc) = router.finish_decays();
        self.routers.put(rid, router);
        match out_link {
            Some(link) => match self.release_link_state(&link) {
                Ok(_) => {},
                Err(e) => {
                    return Err(e);
                },
            },
            None => {},
        }
        match in_link {
            Some(link) => self.release_link_state(&link),
            None => Ok(()),
        }
    }

    fn find_closures(&mut self, rid: u64, on_central: bool) -> (r: Result<
        (Option<(Link, u64)>, Option<(Link, u64)>, bool),
        RoutingError,
    >)
        requires
            old(self).wf(),
            old(self)@.routers.contains_key(rid),
        ensures
            final(self).wf(),
            (final(self)@, fate(r)) == old(self)@.closures_found(rid, on_central),
            final(self)@.routers.contains_key(rid),
    {
        reveal(NodeView::closures_found);
        let mut router: Router = match self.routers.take(rid) {
            Some(r) => r,
            None => {
                return Ok((None, None, false));
            },
        };
        let ghost r0 = router@;
        let mut to_lock: Option<(Link, u64)> = None;
        let mut to_forward: Option<(Link, u64)> = None;
        let mut dead_outward: bool = false;
        if on_central && router.outbound.is_sequence_fully_consumed() {
            match router.outward.primary {
                Some(link) => match router.outbound.final_sequence_length() {
                    Some(length) => {
                        to_lock = Some((link, length));
                    },
                    None => {},
                },
                None => {},
            }
        } else if router.inbound.is_sequence_fully_consumed() {
            if router.outward.primary.is_some() {
                let _ = router.outward.release_primary_link();
                dead_outward = true;
            }
        }
        if router.inbound.is_sequence_fully_consumed() {
            match router.inbound.final_sequence_length() {
                Some(length) => {
                    match router.inward {
                        Some(e) => {
                            let mut e: Edge = e;
                            match e.release_primary_link() {
                                Some(link) => {
                                    to_forward = Some((link, length));
                                },
                                None => {},
                            }
                            router.inward = Some(e);
                        },
                        None => match router.bridge_link() {
                            Some(link) => {
                                router.bridge = None;
                                to_forward = Some((link, length));
                            },
                            None => {},
                        },
                    }
                },
                None => {},
            }
        }
        proof {
            let f = closure_findings(r0, on_central);
            assert(router@ =~= f.router);
            assert(to_lock == f.to_lock);
            assert(to_forward == f.to_forward);
            assert(dead_outward == f.dead_outward);
        }
        self.routers.put(rid, router);
        match to_lock {
            None => Ok((None, to_forward, dead_outward)),
            Some((link, length)) => match self.try_lock_link_for_closure(&link) {
                Err(e) => Err(e),
                Ok(locked) => {
                    if !locked {
                        return Ok((None, to_forward, dead_outward));
                    }
                    match self.routers.take(rid) {
                        Some(router) => {
                            let mut router: Router = router;
                            let _ = router.outward.release_primary_link();
                            self.routers.put(rid, router);
                        },
                        None => {},
                    }
                    Ok((Some((link, length)), to_forward, true))
                },
            },
        }
    }

    fn push_flush_tail(
        &mut self,
        rid: u64,
        bridge: bool,
        route_closed: Option<(Link, u64)>,
        forward_closed: Option<(Link, u64)>,
        wake: bool,
    )
        requires
            old(self).wf(),
        ensures
            final(self).wf(),
            final(self)@ == old(self)@.with_flush_tail(
                rid,
                bridge,
                route_closed,
                forward_closed,
                wake,
            ),
    {
        if wake {
            self.push_task(Task::WakePeer { rid });
        }
        match forward_closed {
            Some((link, length)) => {
                self.push_task(Task::DeliverClosed { link, length });
            },
            None => {},
        }
        match route_closed {
            Some((link, length)) => {
                self.push_task(Task::DeliverClosed { link, length });
            },
            None => {},
        }
        if bridge {
            self.push_task(Task::BridgeBypass { rid });
        }
    }

    pub(crate) fn wake_peer(&mut self, rid: u64) -> (r: Result<(), RoutingError>)
        requires
            old(self).wf(),
        ensures
            final(self).wf(),
            (final(self)@, fate(r)) == old(self)@.peer_woken(rid),
    {
        let link = match self.routers.get(rid) {
            Some(r) => r.outward.primary,
            None => None,
        };
        match link {
            Some(l) => self.flush_other_side_if_waiting(&l),
            None => Ok(()),
        }
    }
}

impl RoutingAcceptor {
    /// The rest of a flush: finish decays, deliver to the portal, find closures
    /// and say what follows.
    pub fn finish_flush(
        &mut self,
        rid: u64,
        force: bool,
        on_central: bool,
        outward_decaying: bool,
        inward_decaying: bool,
    ) -> (r: Result<(), RoutingError>)
        requires
            old(self).wf(),
        ensures
            final(self).wf(),
            (final(self)@, fate(r)) == old(self)@.flush_finished(
                rid,
                force,
                on_central,
                outward_decaying,
                inward_decaying,
            ),
    {
        let (out_over, in_over): (bool, bool) = match self.routers.get(rid) {
            None => {
                return Err(RoutingError::BadParcel("flush for unknown router"));
            },
            Some(router) => {
                let mut edge: Edge = router.outward;
                let sent: u64 = router.outbound_length();
                let received: u64 = router.inbound_length();
                let out_over = edge.maybe_finish_decay(sent, received);
                let in_over = match router.inward {
                    Some(e) => {
                        let mut e: Edge = e;
                        e.maybe_finish_decay(received, sent)
                    },
                    None => false,
                };
                (out_over, in_over)
            },
        };
        match self.finish_router_decays(rid) {
            Ok(_) => {},
            Err(e) => {
                return Err(e);
            },
        }
        let mut router: Router = match self.routers.take(rid) {
            Some(r) => r,
            None => {
                return Ok(());
            },
        };
        router.fill_portal();
        let spent = router.inward.is_some() && router.outward.primary.is_none()
            && router.outward.decaying.is_none();
        self.routers.put(rid, router);
        if spent {
            self.remove_router(rid);
            return Ok(());
        }
        self.settle_flush(
            rid,
            force,
            on_central,
            out_over,
            in_over,
            outward_decaying && !out_over,
            inward_decaying && !in_over,
        )
    }

    fn settle_flush(
        &mut self,
        rid: u64,
        force: bool,
        on_central: bool,
        out_over: bool,
        in_over: bool,
        out_left: bool,
        in_left: bool,
    ) -> (r: Result<(), RoutingError>)
        requires
            old(self).wf(),
            old(self)@.routers.contains_key(rid),
        ensures
            final(self).wf(),
            (final(self)@, fate(r)) == old(self)@.flush_settled(
                rid,
                force,
                on_central,
                out_over,
                in_over,
                out_left,
                in_left,
            ),
    {
        let (primary, proxy): (Option<Link>, bool) = match self.routers.get(rid) {
            Some(r) => (r.outward.primary, r.inward.is_some()),
            None => (None, false),
        };
        let mut marked = false;
        match primary {
            Some(link) => {
                if on_central && (out_over || in_over) && !out_left && !(proxy && in_left) {
                    match self.mark_side_stable_on_link(&link) {
                        Ok(_) => {},
                        Err(e) => {
                            return Err(e);
                        },
                    }
                    marked = true;
                }
            },
            None => {},
        }
        let (route_closed, forward_closed, dead_outward) = match self.find_closures(
            rid,
            on_central,
        ) {
            Ok(x) => x,
            Err(e) => {
                return Err(e);
            },
        };
        let bridge = match self.routers.get(rid) {
            Some(r) => r.bridge.is_some() && r.outward.primary.is_some() && !out_left
                && r.inward.is_none() && !in_left,
            None => false,
        };
        let wake = !dead_outward && on_central && (marked || force);
        self.push_flush_tail(rid, bridge, route_closed, forward_closed, wake);
        Ok(())
    }
}

impl NodeView {
    /// The state after a terminal router's route is closed here.
    pub open spec fn closed_here(self, rid: u64) -> NodeStep {
        if !self.routers.contains_key(rid) {
            (self, Err(Fault::BadParcel("close for unknown router"@)))
        } else {
            let r = self.routers[rid];
            if r.inward is Some {
                (self, Err(Fault::BadParcel("closing a proxy"@)))
            } else {
                (
                    self.with_router(
                        rid,
                        RouterView {
                            outbound: r.outbound.with_final_length(r.outbound.current),
                            ..r
                        },
                    ).then_task(TaskView::Flush(rid, false)),
                    Ok(()),
                )
            }
        }
    }

    /// The state after the far end closed, as a message on a sublink says. On
    /// the outward side that ends what comes in, otherwise what goes out.
    pub open spec fn closed_remotely(self, rid: u64, sublink: u64, length: u64) -> NodeStep {
        if !self.routers.contains_key(rid) {
            (self, Err(Fault::BadParcel("route closed for unknown router"@)))
        } else {
            let r = self.routers[rid];
            let refused = Err::<(), Fault>(Fault::BadParcel("closure sequence regression"@));
            let outward = (r.outward.primary matches Some(l) && l.sublink == sublink) || (
            r.outward.spec_decaying_link() matches Some(l) && l.sublink == sublink);
            if outward {
                if length < r.inbound.current {
                    (self, refused)
                } else {
                    (
                        self.with_router(
                            rid,
                            RouterView {
                                inbound: r.inbound.with_final_length(length),
                                peer_closed: true,
                                ..r
                            },
                        ).then_task(TaskView::Flush(rid, false)),
                        Ok(()),
                    )
                }
            } else if length < r.outbound.current {
                (self, refused)
            } else {
                (
                    self.with_router(
                        rid,
                        RouterView { outbound: r.outbound.with_final_length(length), ..r },
                    ).then_task(TaskView::Flush(rid, false)),
                    Ok(()),
                )
            }
        }
    }

    /// The state after a node on the route was lost: the router lets go of its
    /// links and is gone.
    pub open spec fn disconnected(self, rid: u64) -> NodeStep {
        if !self.routers.contains_key(rid) {
            (self, Err(Fault::BadParcel("disconnect for unknown router"@)))
        } else {
            let none = Edge { primary: None, decaying: None };
            let r = self.routers[rid];
            let gone = RouterView {
                disconnected: true,
                outward: none,
                inward: if r.inward is Some {
                    Some(none)
                } else {
                    None
                },
                bridge: if r.inward is None && r.bridge is Some {
                    Some(none)
                } else {
                    r.bridge
                },
                peer_closed: true,
                inbound: r.inbound.with_final_length(r.inbound.current),
                ..r
            };
            (self.with_router(rid, gone).router_removed(rid), Ok(()))
        }
    }

    /// The state after a proxy learns the final lengths of what it forwards.
    pub open spec fn proxying_stopped(self, rid: u64, inbound: u64, outbound: u64) -> NodeStep {
        if !self.routers.contains_key(rid) {
            (self, Err(Fault::BadParcel("stop proxying for unknown router"@)))
        } else {
            let r = self.routers[rid];
            if r.outward.decaying is None {
                (self, Err(Fault::BadParcel("StopProxying on a non-proxy"@)))
            } else {
                match r.inward {
                    None => (self, Err(Fault::BadParcel("StopProxying on a terminal router"@))),
                    Some(e) => if e.decaying is None {
                        (self, Err(Fault::BadParcel("StopProxying with stable inward edge"@)))
                    } else if e.spec_length_to() is Some || e.spec_length_from() is Some
                        || r.outward.spec_length_to() is Some || r.outward.spec_length_from()
                        is Some {
                        (self, Err(Fault::BadParcel("StopProxying with set lengths"@)))
                    } else {
                        (
                            self.with_router(
                                rid,
                                RouterView {
                                    inward: Some(
                                        e.spec_with_length_to(inbound).spec_with_length_from(
                                            outbound,
                                        ),
                                    ),
                                    outward: r.outward.spec_with_length_to(
                                        outbound,
                                    ).spec_with_length_from(inbound),
                                    ..r
                                },
                            ).then_task(TaskView::Flush(rid, false)),
                            Ok(()),
                        )
                    },
                }
            }
        }
    }
}

impl RoutingAcceptor {
    /// Close a terminal router's route here.
    pub fn close_route(&mut self, rid: u64) -> (r: Result<(), RoutingError>)
        requires
            old(self).wf(),
        ensures
            final(self).wf(),
            (final(self)@, fate(r)) == old(self)@.closed_here(rid),
    {
        let mut router: Router = match self.routers.take(rid) {
            Some(r) => r,
            None => {
                return Err(RoutingError::BadParcel("close for unknown router"));
            },
        };
        if router.inward.is_some() {
            self.routers.put(rid, router);
            return Err(RoutingError::BadParcel("closing a proxy"));
        }
        let current: u64 = router.outbound.current_sequence_number();
        let _ = router.outbound.set_final_sequence_length(current);
        self.routers.put(rid, router);
        self.push_task(Task::Flush { rid, force: false });
        Ok(())
    }

    /// The far end closed, as a message on a sublink says.
    pub fn router_route_closed(&mut self, rid: u64, sublink: u64, length: u64) -> (r: Result<
        (),
        RoutingError,
    >)
        requires
            old(self).wf(),
        ensures
            final(self).wf(),
            (final(self)@, fate(r)) == old(self)@.closed_remotely(rid, sublink, length),
    {
        let mut router: Router = match self.routers.take(rid) {
            Some(r) => r,
            None => {
                return Err(RoutingError::BadParcel("route closed for unknown router"));
            },
        };
        let ghost before = router@;
        let outward = on_sublink(router.outward.primary, sublink) || on_sublink(
            router.outward.decaying_link(),
            sublink,
        );
        let accepted = if outward {
            let ok = router.inbound.set_final_sequence_length(length);
            if ok {
                router.peer_closed = true;
            }
            ok
        } else {
            router.outbound.set_final_sequence_length(length)
        };
        let ghost after = router@;
        self.routers.put(rid, router);
        if !accepted {
            assert(after =~= before);
            return Err(RoutingError::BadParcel("closure sequence regression"));
        }
        self.push_task(Task::Flush { rid, force: false });
        Ok(())
    }

    /// A node on the route was lost.
    pub fn router_disconnected(&mut self, rid: u64) -> (r: Result<(), RoutingError>)
        requires
            old(self).wf(),
        ensures
            final(self).wf(),
            (final(self)@, fate(r)) == old(self)@.disconnected(rid),
    {
        let mut router: Router = match self.routers.take(rid) {
            Some(r) => r,
            None => {
                return Err(RoutingError::BadParcel("disconnect for unknown router"));
            },
        };
        router.disconnected = true;
        let _ = router.outward.release_primary_link();
        let _ = router.outward.release_decaying_link();
        match router.inward {
            Some(_) => {
                router.inward = Some(Edge::default());
            },
            None => match router.bridge {
                Some(_) => {
                    router.bridge = Some(Edge::default());
                },
                None => {},
            },
        }
        router.peer_closed = true;
        let current: u64 = router.inbound.current_sequence_number();
        let _ = router.inbound.set_final_sequence_length(current);
        self.routers.put(rid, router);
        self.remove_router(rid);
        Ok(())
    }

    /// A proxy learns the final lengths of what it forwards.
    pub fn router_stop_proxying(&mut self, rid: u64, inbound: u64, outbound: u64) -> (r: Result<
        (),
        RoutingError,
    >)
        requires
            old(self).wf(),
        ensures
            final(self).wf(),
            (final(self)@, fate(r)) == old(self)@.proxying_stopped(rid, inbound, outbound),
    {
        let (outward, inward): (Edge, Option<Edge>) = match self.routers.get(rid) {
            Some(r) => (r.outward, r.inward),
            None => {
                return Err(RoutingError::BadParcel("stop proxying for unknown router"));
            },
        };
        if outward.is_stable() {
            return Err(RoutingError::BadParcel("StopProxying on a non-proxy"));
        }
        let mut inward: Edge = match inward {
            Some(e) => e,
            None => {
                return Err(RoutingError::BadParcel("StopProxying on a terminal router"));
            },
        };
        if inward.is_stable() {
            return Err(RoutingError::BadParcel("StopProxying with stable inward edge"));
        }
        if inward.length_to_decaying_link().is_some()
            || inward.length_from_decaying_link().is_some()
            || outward.length_to_decaying_link().is_some()
            || outward.length_from_decaying_link().is_some() {
            return Err(RoutingError::BadParcel("StopProxying with set lengths"));
        }
        inward.set_length_to_decaying_link(inbound);
        inward.set_length_from_decaying_link(outbound);
        let mut outward: Edge = outward;
        outward.set_length_to_decaying_link(outbound);
        outward.set_length_from_decaying_link(inbound);
        match self.routers.take(rid) {
            Some(router) => {
                let mut router: Router = router;
                router.inward = Some(inward);
                router.outward = outward;
                self.routers.put(rid, router);
            },
            None => {},
        }
        self.push_task(Task::Flush { rid, force: false });
        Ok(())
    }
}

pub(crate) fn on_sublink(link: Option<Link>, sublink: u64) -> (r: bool)
    ensures
        r == (link matches Some(l) && l.sublink == sublink),
{
    match link {
        Some(l) => l.sublink == sublink,
        None => false,
    }
}

/// The order to let the primary link of an edge decay.
#[derive(Clone, Copy)]
pub struct DecayOrder {
    /// The router.
    pub rid: u64,
    /// Whether the bridge edge is meant rather than the outward edge.
    pub bridge: bool,
    /// Whether a router or a bridge that is not there is passed over.
    pub optional: bool,
    /// The length of what goes to the decaying link, where it is known.
    pub to: Option<u64>,
    /// The length of what comes from the decaying link, where it is known.
    pub from: Option<u64>,
    /// The error where the router is not there.
    pub missing: &'static str,
    /// The error where the bridge is not there.
    pub no_bridge: &'static str,
    /// The error where a link of the edge decays already.
    pub refused: &'static str,
}

/// The edge whose primary link begins to decay, with the lengths that an order
/// gives.
pub open spec fn decayed_edge(e: Edge, o: DecayOrder) -> Edge {
    let a = e.spec_begun_decay();
    let b = match o.to {
        Some(n) => a.spec_with_length_to(n),
        None => a,
    };
    match o.from {
        Some(n) => b.spec_with_length_from(n),
        None => b,
    }
}

/// The size of the buffer that gives capacity for blocks of a size: room for 8
/// of them, in whole pages of 64 KiB.
pub open spec fn capacity_size(block_size: u32) -> int {
    let pages = (block_size * 8 + 65535) / 65536;
    65536 * if pages < 1 {
        1
    } else {
        pages
    }
}

impl NodeView {
    /// The state after an order to decay is followed.
    pub open spec fn decay_ordered(self, o: DecayOrder) -> NodeStep {
        if !self.routers.contains_key(o.rid) {
            if o.optional {
                (self, Ok(()))
            } else {
                (self, Err(Fault::BadParcel(o.missing@)))
            }
        } else {
            let r = self.routers[o.rid];
            if !o.bridge {
                if r.outward.decaying is Some {
                    (self, Err(Fault::BadParcel(o.refused@)))
                } else {
                    (
                        self.with_router(
                            o.rid,
                            RouterView { outward: decayed_edge(r.outward, o), ..r },
                        ),
                        Ok(()),
                    )
                }
            } else {
                match r.bridge {
                    None => if o.optional {
                        (self, Ok(()))
                    } else {
                        (self, Err(Fault::BadParcel(o.no_bridge@)))
                    },
                    Some(e) => if e.decaying is Some {
                        (self, Err(Fault::BadParcel(o.refused@)))
                    } else {
                        (
                            self.with_router(
                                o.rid,
                                RouterView { bridge: Some(decayed_edge(e, o)), ..r },
                            ),
                            Ok(()),
                        )
                    },
                }
            }
        }
    }

    /// The state after orders to decay are followed, up to the first that
    /// fails.
    pub open spec fn decays_ordered(self, orders: Seq<DecayOrder>) -> NodeStep
        decreases orders.len(),
    {
        if orders.len() == 0 {
            (self, Ok(()))
        } else {
            let (s, r) = self.decay_ordered(orders[0]);
            if r is Err {
                (s, r)
            } else {
                s.decays_ordered(orders.skip(1))
            }
        }
    }

    /// The state after capacity for blocks of a size is asked for: the broker
    /// is asked once, until it has answered.
    pub open spec fn capacity_requested(self, block_size: u32) -> NodeStep {
        if self.capacity_pending.contains(block_size) {
            (self, Ok(()))
        } else {
            let s = NodeView {
                capacity_pending: self.capacity_pending.insert(block_size),
                ..self
            };
            let size = capacity_size(block_size);
            if size > u32::MAX {
                (s, Err(Fault::BadParcel("block buffer request exceeds u32 size"@)))
            } else {
                let t = NodeView {
                    requests: s.requests.push(
                        PendingMemoryRequest { buffer_size: size as u32, block_size },
                    ),
                    ..s
                };
                (t.with_message(LinkMessageView::RequestMemory(size as u32)), Ok(()))
            }
        }
    }

    /// The state after a link state is taken from the memory of a link, with
    /// one reference for each end; `None` where no block is free.
    pub open spec fn state_allocated(self, link_id: u64) -> (
        NodeView,
        Result<Option<FragmentDescriptor>, Fault>,
    ) {
        match self.memory_of(link_id) {
            Err(e) => (self, Err(e)),
            Ok(m) => match allocation(m, 0) {
                Allocation::Exhausted => (self, Ok(None)),
                Allocation::Broken => (self, Err(Fault::Memory(LinkMemoryError::OutOfBounds))),
                Allocation::Block(d, n) => {
                    let a = stored(n, d, 0, fresh_link_state());
                    match resolve_at_least(a, d, 4) {
                        Err(e) => (self.with_memory(link_id, a), Err(Fault::Memory(e))),
                        Ok(_) => (
                            self.with_memory(
                                link_id,
                                stored(a, d, 0, crate::bytes::bytes32(next_ref(refs_of(a, d)))),
                            ),
                            Ok(Some(d)),
                        ),
                    }
                },
            },
        }
    }

    /// The state after sublinks are allocated on a link, and the first of them.
    pub open spec fn sublinks_allocated(self, link_id: u64, count: u64) -> (
        NodeView,
        Result<u64, Fault>,
    ) {
        match self.memory_of(link_id) {
            Err(e) => (self, Err(e)),
            Ok(m) => {
                let first = next_sublink(m);
                (
                    self.with_memory(
                        link_id,
                        with_counter(m, 8, crate::bytes::wrapped64(first, count)),
                    ),
                    Ok(first),
                )
            },
        }
    }
}

impl RoutingAcceptor {
    fn follow_decay_order(&mut self, o: &DecayOrder) -> (r: Result<(), RoutingError>)
        requires
            old(self).wf(),
        ensures
            final(self).wf(),
            (final(self)@, fate(r)) == old(self)@.decay_ordered(*o),
    {
        let mut router: Router = match self.routers.take(o.rid) {
            Some(r) => r,
            None => {
                return if o.optional {
                    Ok(())
                } else {
                    Err(RoutingError::BadParcel(o.missing))
                };
            },
        };
        let ghost before = router@;
        let mut edge: Edge = if o.bridge {
            match router.bridge {
                Some(e) => e,
                None => {
                    self.routers.put(o.rid, router);
                    return if o.optional {
                        Ok(())
                    } else {
                        Err(RoutingError::BadParcel(o.no_bridge))
                    };
                },
            }
        } else {
            router.outward
        };
        if !edge.begin_primary_link_decay() {
            self.routers.put(o.rid, router);
            return Err(RoutingError::BadParcel(o.refused));
        }
        match o.to {
            Some(n) => {
                edge.set_length_to_decaying_link(n);
            },
            None => {},
        }
        match o.from {
            Some(n) => {
                edge.set_length_from_decaying_link(n);
            },
            None => {},
        }
        if o.bridge {
            router.bridge = Some(edge);
        } else {
            router.outward = edge;
        }
        self.routers.put(o.rid, router);
        Ok(())
    }

    pub(crate) fn follow_decay_orders(&mut self, orders: &Vec<DecayOrder>) -> (r: Result<
        (),
        RoutingError,
    >)
        requires
            old(self).wf(),
        ensures
            final(self).wf(),
            (final(self)@, fate(r)) == old(self)@.decays_ordered(orders@),
    {
        let mut i: usize = 0;
        assert(orders@.skip(0) =~= orders@);
        while i < orders.len()
            invariant
                i <= orders.len(),
                self.wf(),
                self@.decays_ordered(orders@.skip(i as int)) == old(self)@.decays_ordered(orders@),
            decreases orders.len() - i,
        {
            assert(orders@.skip(i as int).skip(1) =~= orders@.skip(i + 1));
            match self.follow_decay_order(&orders[i]) {
                Ok(_) => {},
                Err(e) => {
                    return Err(e);
                },
            }
            i = i + 1;
        }
        Ok(())
    }

    /// Ask for capacity for blocks of a size, unless that is under way.
    pub fn request_block_capacity(&mut self, block_size: u32) -> (r: Result<(), RoutingError>)
        requires
            old(self).wf(),
        ensures
            final(self).wf(),
            (final(self)@, fate(r)) == old(self)@.capacity_requested(block_size),
    {
        if self.capacity_pending.contains(&block_size) {
            return Ok(());
        }
        self.capacity_pending.insert(block_size);
        let pages: u64 = (block_size as u64 * 8 + 65535) / 65536;
        let size: u64 = 65536 * if pages < 1 {
            1
        } else {
            pages
        };
        if size > 0xffff_ffff {
            return Err(RoutingError::BadParcel("block buffer request exceeds u32 size"));
        }
        self.pending_memory_requests.push(
            PendingMemoryRequest { buffer_size: size as u32, block_size },
        );
        self.send(LinkMessage::RequestMemory { size: size as u32 });
        Ok(())
    }

    pub(crate) fn allocate_link_state(&mut self, link_id: u64) -> (r: Result<
        Option<FragmentDescriptor>,
        RoutingError,
    >)
        requires
            old(self).wf(),
        ensures
            final(self).wf(),
            (final(self)@, fate(r)) == old(self)@.state_allocated(link_id),
    {
        let mut m: LinkMemory = match self.take_memory(link_id) {
            Ok(m) => m,
            Err(e) => {
                return Err(e);
            },
        };
        let r: Result<Option<FragmentDescriptor>, RoutingError> = match m.try_allocate_link_state() {
            Err(e) => Err(RoutingError::Memory(e)),
            Ok(None) => Ok(None),
            Ok(Some(d)) => match m.add_link_state_ref(d) {
                Ok(_) => Ok(Some(d)),
                Err(e) => Err(RoutingError::Memory(e)),
            },
        };
        self.put_memory(link_id, m);
        assert(self@ =~= old(self)@.state_allocated(link_id).0);
        r
    }

    pub(crate) fn allocate_sublinks(&mut self, link_id: u64, count: u64) -> (r: Result<
        u64,
        RoutingError,
    >)
        requires
            old(self).wf(),
        ensures
            final(self).wf(),
            (final(self)@, fate(r)) == old(self)@.sublinks_allocated(link_id, count),
    {
        let mut m: LinkMemory = match self.take_memory(link_id) {
            Ok(m) => m,
            Err(e) => {
                return Err(e);
            },
        };
        let first: u64 = m.allocate_sublink_ids(count);
        self.put_memory(link_id, m);
        Ok(first)
    }
}

} // verus!
