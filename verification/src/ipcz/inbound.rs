//! Inbound: parcels and messages from other nodes, and the routers that they
//! bring.

use vstd::prelude::*;
use vstd::slice::slice_to_vec;

use crate::ipcz::link_memory::LinkMemoryError;
#[allow(unused_imports)]
use crate::ipcz::link_memory::{parcel_in, resolve};
use crate::ipcz::messages::MSG_ID_ACCEPT_PARCEL;
use crate::ipcz::node::{
    InboundParcel, RouterDescriptor, RoutingAcceptor, RoutingError, Task,
    HANDLE_BOXED_DRIVER_OBJECT, HANDLE_BOXED_SUBPARCEL, HANDLE_PORTAL,
    HANDLE_RELAYED_BOXED_DRIVER_OBJECT, LINK_ID_BROKER, LINK_ID_DIRECT, ROUTER_DESCRIPTOR_SIZE,
};
#[allow(unused_imports)]
use crate::ipcz::node::{
    fate, lemma_insert_same, lemma_reinsert, Fault, InboundView, NodeStep, NodeView, TaskView,
};
use crate::ipcz::router::{Edge, Link, LinkKind, LinkSide, Object, Parcel, Router};
#[allow(unused_imports)]
use crate::ipcz::router::{fresh_router, remote_link, ParcelView, QueueView, RouterView};


verus! {

broadcast use {vstd::std_specs::hash::group_hash_axioms, lemma_reinsert, lemma_insert_same};

/// The sublink of the bootstrap pipe (initial portal 1).
pub const BOOTSTRAP_SUBLINK: u64 = 1;

/// The decaying sublink that a description gives, where the proxy is bypassed
/// already.
pub open spec fn decaying_sublink(d: RouterDescriptor) -> Option<u64> {
    if d.proxy_already_bypassed {
        Some(d.new_decaying_sublink)
    } else {
        None
    }
}

/// Whether the sublinks of a description are in order: they are two, and none
/// is that of the bootstrap pipe.
pub open spec fn valid_sublinks(d: RouterDescriptor) -> bool {
    &&& d.new_sublink != BOOTSTRAP_SUBLINK
    &&& decaying_sublink(d) != Some(d.new_sublink)
    &&& decaying_sublink(d) != Some(BOOTSTRAP_SUBLINK)
}

/// The outward edge of a router that a description describes.
pub open spec fn described_edge(d: RouterDescriptor, link_id: u64) -> Edge {
    let bare = Edge { primary: None, decaying: None };
    match decaying_sublink(d) {
        Some(decaying) => bare.spec_with_primary(
            remote_link(link_id, decaying, LinkKind::PeripheralOutward, LinkSide::B, None),
        ).spec_begun_decay().spec_with_length_to(
            d.next_outgoing_sequence_number,
        ).spec_with_length_from(
            if d.decaying_incoming_sequence_length > 0 {
                d.decaying_incoming_sequence_length
            } else {
                d.next_incoming_sequence_number
            },
        ).spec_with_primary(
            remote_link(
                link_id,
                d.new_sublink,
                LinkKind::Central,
                LinkSide::B,
                Some(d.new_link_state_fragment),
            ),
        ),
        None => bare.spec_with_primary(
            remote_link(link_id, d.new_sublink, LinkKind::PeripheralOutward, LinkSide::B, None),
        ),
    }
}

/// The router that a description describes.
pub open spec fn described_router(d: RouterDescriptor, link_id: u64) -> RouterView {
    let inbound = QueueView::starting_at(d.next_incoming_sequence_number);
    RouterView {
        outbound: QueueView::starting_at(d.next_outgoing_sequence_number),
        inbound: if d.peer_closed {
            inbound.with_final_length(d.closed_peer_sequence_length)
        } else {
            inbound
        },
        peer_closed: d.peer_closed,
        ..fresh_router(described_edge(d, link_id))
    }
}

impl NodeView {
    /// Whether the link state of a description is as it should be: a central
    /// link has one that is there, another link has none.
    pub open spec fn link_state_checked(self, d: RouterDescriptor, link_id: u64) -> Result<
        (),
        Fault,
    > {
        let f = d.new_link_state_fragment;
        if !d.proxy_already_bypassed {
            if f.spec_is_null() {
                Ok(())
            } else {
                Err(Fault::BadParcel("peripheral link with link state"@))
            }
        } else if f.spec_is_null() {
            Err(Fault::BadParcel("central link without link state"@))
        } else {
            match self.memory_of(link_id) {
                Err(e) => Err(e),
                Ok(m) => match resolve(m, f) {
                    Err(e) => Err(Fault::Memory(e)),
                    Ok(_) => Ok(()),
                },
            }
        }
    }

    /// The state after a router that a parcel describes is set up: parcels that
    /// were kept for its sublinks are accepted next, then its proxy is bypassed
    /// where that is asked for, then it is flushed.
    pub open spec fn deserialized(self, d: RouterDescriptor, link_id: u64) -> NodeStep {
        if !valid_sublinks(d) {
            (self, Err(Fault::BadParcel("invalid sublink ids in descriptor"@)))
        } else {
            match self.link_state_checked(d, link_id) {
                Err(e) => (self, Err(e)),
                Ok(_) => if d.peer_closed && d.closed_peer_sequence_length
                    < d.next_incoming_sequence_number {
                    (self, Err(Fault::BadParcel("invalid closed peer sequence length"@)))
                } else {
                    let owners = self.owners.insert((link_id, d.new_sublink), d.new_sublink);
                    let s1 = NodeView {
                        owners: match decaying_sublink(d) {
                            Some(x) => owners.insert((link_id, x), d.new_sublink),
                            None => owners,
                        },
                        ..self.with_router(d.new_sublink, described_router(d, link_id))
                    };
                    let s2 = s1.then_task(TaskView::Flush(d.new_sublink, false));
                    let s3 = if d.proxy_peer_node_name.spec_is_valid() {
                        s2.then_task(
                            TaskView::BypassPeer(
                                d.new_sublink,
                                link_id,
                                d.proxy_peer_node_name,
                                d.proxy_peer_sublink,
                            ),
                        )
                    } else {
                        s2
                    };
                    let s4 = match decaying_sublink(d) {
                        Some(x) => s3.early_accepted((link_id, x)),
                        None => s3,
                    };
                    (s4.early_accepted((link_id, d.new_sublink)), Ok(()))
                },
            }
        }
    }
}

fn build_described_edge(d: &RouterDescriptor, link_id: u64) -> (e: Edge)
    ensures
        e == described_edge(*d, link_id),
{
    let mut e: Edge = Edge::default();
    if d.proxy_already_bypassed {
        e.set_primary_link(
            Link::remote(
                link_id,
                d.new_decaying_sublink,
                LinkKind::PeripheralOutward,
                LinkSide::B,
                None,
            ),
        );
        let _ = e.begin_primary_link_decay();
        e.set_length_to_decaying_link(d.next_outgoing_sequence_number);
        e.set_length_from_decaying_link(
            if d.decaying_incoming_sequence_length > 0 {
                d.decaying_incoming_sequence_length
            } else {
                d.next_incoming_sequence_number
            },
        );
        e.set_primary_link(
            Link::remote(
                link_id,
                d.new_sublink,
                LinkKind::Central,
                LinkSide::B,
                Some(d.new_link_state_fragment),
            ),
        );
    } else {
        e.set_primary_link(
            Link::remote(
                link_id,
                d.new_sublink,
                LinkKind::PeripheralOutward,
                LinkSide::B,
                None,
            ),
        );
    }
    e
}

impl RoutingAcceptor {
    fn check_link_state(&self, d: &RouterDescriptor, link_id: u64) -> (r: Result<(), RoutingError>)
        ensures
            fate(r) == self@.link_state_checked(*d, link_id),
    {
        if !d.proxy_already_bypassed {
            return if d.new_link_state_fragment.is_null() {
                Ok(())
            } else {
                Err(RoutingError::BadParcel("peripheral link with link state"))
            };
        }
        if d.new_link_state_fragment.is_null() {
            return Err(RoutingError::BadParcel("central link without link state"));
        }
        let found = if link_id == LINK_ID_DIRECT {
            match &self.direct_memory {
                Some(m) => match m.fragment(d.new_link_state_fragment) {
                    Ok(_) => Ok(()),
                    Err(e) => Err(RoutingError::Memory(e)),
                },
                None => Err(RoutingError::Unexpected("direct link not established")),
            }
        } else {
            match &self.link_memory {
                Some(m) => match m.fragment(d.new_link_state_fragment) {
                    Ok(_) => Ok(()),
                    Err(e) => Err(RoutingError::Memory(e)),
                },
                None => Err(RoutingError::Unexpected("link memory not established")),
            }
        };
        found
    }

    /// Set up a router that a parcel describes.
    pub fn router_deserialize(&mut self, d: &RouterDescriptor, link_id: u64) -> (r: Result<
        (),
        RoutingError,
    >)
        requires
            old(self).wf(),
        ensures
            final(self).wf(),
            (final(self)@, fate(r)) == old(self)@.deserialized(*d, link_id),
    {
        if d.new_sublink == BOOTSTRAP_SUBLINK || (d.proxy_already_bypassed && (
        d.new_decaying_sublink == d.new_sublink || d.new_decaying_sublink == BOOTSTRAP_SUBLINK)) {
            return Err(RoutingError::BadParcel("invalid sublink ids in descriptor"));
        }
        match self.check_link_state(d, link_id) {
            Ok(_) => {},
            Err(e) => {
                return Err(e);
            },
        }
        let mut router: Router = Router::bare();
        router.outbound.reset_sequence(d.next_outgoing_sequence_number);
        router.inbound.reset_sequence(d.next_incoming_sequence_number);
        if d.peer_closed {
            router.peer_closed = true;
            if !router.inbound.set_final_sequence_length(d.closed_peer_sequence_length) {
                return Err(RoutingError::BadParcel("invalid closed peer sequence length"));
            }
        }
        router.outward = build_described_edge(d, link_id);
        assert(router@ =~= described_router(*d, link_id));
        self.routers.put(d.new_sublink, router);
        self.owners.insert(link_id, d.new_sublink, d.new_sublink);
        if d.proxy_already_bypassed {
            self.owners.insert(link_id, d.new_decaying_sublink, d.new_sublink);
        }
        self.push_task(Task::Flush { rid: d.new_sublink, force: false });
        if d.proxy_peer_node_name.is_valid() {
            self.push_task(
                Task::BypassPeer {
                    rid: d.new_sublink,
                    requestor_link_id: link_id,
                    target_node: d.proxy_peer_node_name,
                    target_sublink: d.proxy_peer_sublink,
                },
            );
        }
        if d.proxy_already_bypassed {
            self.take_early(link_id, d.new_decaying_sublink);
        }
        self.take_early(link_id, d.new_sublink);
        Ok(())
    }
}

/// What came of a parcel that was accepted: its data and the routers that came
/// with it.
#[derive(Debug, PartialEq, Eq)]
pub struct ProcessedParcel {
    /// The application payload.
    pub payload: Vec<u8>,
    /// The identities of the routers, in handle order.
    pub identities: Vec<u64>,
}

/// What came of a parcel that was accepted.
#[verifier::ext_equal]
pub struct ProcessedView {
    /// The application payload.
    pub payload: Seq<u8>,
    /// The identities of the routers.
    pub identities: Seq<u64>,
}

impl View for ProcessedParcel {
    type V = ProcessedView;

    open spec fn view(&self) -> ProcessedView {
        ProcessedView { payload: self.payload@, identities: self.identities@ }
    }
}

/// A result with what came of a parcel, and its error as a [`Fault`].
pub open spec fn processed(r: Result<ProcessedParcel, RoutingError>) -> Result<
    ProcessedView,
    Fault,
> {
    match r {
        Ok(p) => Ok(p@),
        Err(e) => Err(e@),
    }
}

/// The number of portals among handle types.
pub open spec fn portals_in(types: Seq<u32>) -> nat
    decreases types.len(),
{
    if types.len() == 0 {
        0
    } else {
        portals_in(types.drop_last()) + if types.last() == HANDLE_PORTAL {
            1nat
        } else {
            0
        }
    }
}

/// The identities of routers by their descriptions.
pub open spec fn identities_of(routers: Seq<RouterDescriptor>) -> Seq<u64> {
    routers.map_values(|d: RouterDescriptor| d.new_sublink)
}

/// The setting up of routers, the first of them next.
pub open spec fn deserializations(routers: Seq<RouterDescriptor>, link_id: u64) -> Seq<TaskView> {
    Seq::new(
        routers.len(),
        |i: int| TaskView::Deserialize(routers[routers.len() - 1 - i], link_id),
    )
}

/// The objects that the handle types of a parcel stand for, and whether some
/// are left for a second message. `ids` are the routers that came with the
/// parcel, `boxed` says whether driver objects did.
pub open spec fn objects_named(types: Seq<u32>, ids: Seq<u64>, boxed: bool) -> Result<
    (Seq<Object>, bool),
    Fault,
>
    decreases types.len(),
{
    if types.len() == 0 {
        Ok((Seq::empty(), false))
    } else {
        match objects_named(types.drop_last(), ids, boxed) {
            Err(e) => Err(e),
            Ok((objects, split)) => {
                let t = types.last();
                if t == HANDLE_PORTAL {
                    if objects.len() >= ids.len() {
                        Err(Fault::BadParcel("missing router descriptor"@))
                    } else {
                        Ok((objects.push(Object::Router(ids[objects.len() as int])), split))
                    }
                } else if t == HANDLE_BOXED_DRIVER_OBJECT {
                    if boxed {
                        Err(
                            Fault::Unsupported(
                                MSG_ID_ACCEPT_PARCEL,
                                "driver objects not exercised by the routing court"@,
                            ),
                        )
                    } else {
                        Err(Fault::BadParcel("missing driver object"@))
                    }
                } else if t == HANDLE_RELAYED_BOXED_DRIVER_OBJECT {
                    Ok((objects, true))
                } else if t == HANDLE_BOXED_SUBPARCEL {
                    Err(
                        Fault::Unsupported(
                            MSG_ID_ACCEPT_PARCEL,
                            "boxed subparcels not exercised by the routing court"@,
                        ),
                    )
                } else {
                    Err(Fault::BadParcel("unknown handle type"@))
                }
            },
        }
    }
}

/// Whether a link is the one at a sublink.
pub open spec fn is_at(link: Option<Link>, link_id: u64, sublink: u64) -> bool {
    link matches Some(l) && l.link_id == link_id && l.sublink == sublink
}

/// Whether an edge has a link at a sublink.
pub open spec fn has_link_at(e: Edge, link_id: u64, sublink: u64) -> bool {
    is_at(e.primary, link_id, sublink) || is_at(e.spec_decaying_link(), link_id, sublink)
}

impl NodeView {
    /// The state after the first part of the acceptance of a parcel, and its
    /// data and routers. The routers are set up next, then the parcel is routed.
    /// A parcel whose data is in a buffer that is not there yet waits for it.
    pub open spec fn parcel_accepted(self, p: InboundView, link_id: u64) -> (
        NodeView,
        Result<ProcessedView, Fault>,
    ) {
        let a = p.parcel;
        if a.num_subparcels == 0 || a.subparcel_index >= a.num_subparcels || a.num_subparcels
            > 16 {
            (self, Err(Fault::BadParcel("invalid subparcel bounds"@)))
        } else if a.num_subparcels > 1 {
            (
                self,
                Err(
                    Fault::Unsupported(
                        MSG_ID_ACCEPT_PARCEL,
                        "multi-subparcel parcels not exercised by the routing court"@,
                    ),
                ),
            )
        } else if a.parcel_fragment.spec_is_null() {
            self.parcel_opened(p, a.parcel_data, link_id)
        } else {
            match self.memory_of(LINK_ID_BROKER) {
                Err(e) => (self, Err(e)),
                Ok(m) => match parcel_in(m, a.parcel_fragment) {
                    Err(LinkMemoryError::UnknownBuffer) => (
                        self.with_waiting(a.parcel_fragment.buffer_id, p),
                        Ok(ProcessedView { payload: Seq::empty(), identities: Seq::empty() }),
                    ),
                    Err(e) => (self, Err(Fault::Memory(e))),
                    Ok(data) => self.parcel_opened(p, data, link_id),
                },
            }
        }
    }

    /// The state after a parcel whose data is there is looked into.
    pub open spec fn parcel_opened(self, p: InboundView, data: Seq<u8>, link_id: u64) -> (
        NodeView,
        Result<ProcessedView, Fault>,
    ) {
        if p.parcel.new_routers.len() != ROUTER_DESCRIPTOR_SIZE * p.routers.len() {
            (self, Err(Fault::BadParcel("malformed new_routers array"@)))
        } else if p.routers.len() != portals_in(p.parcel.handle_types) {
            (self, Err(Fault::BadParcel("portal count mismatch"@)))
        } else {
            (
                NodeView {
                    tasks: self.tasks.push(TaskView::Route(p, data, link_id)) + deserializations(
                        p.routers,
                        link_id,
                    ),
                    ..self
                },
                Ok(ProcessedView { payload: data, identities: identities_of(p.routers) }),
            )
        }
    }

    /// The state after a parcel whose routers are set up is routed.
    pub open spec fn parcel_routed(self, p: InboundView, data: Seq<u8>, link_id: u64) -> NodeStep {
        let a = p.parcel;
        let key = (link_id, a.sublink);
        match objects_named(
            a.handle_types,
            identities_of(p.routers),
            a.driver_objects.len() > 0,
        ) {
            Err(e) => (self, Err(e)),
            Ok((objects, split)) => if a.driver_objects.len() > 0 {
                (self, Err(Fault::BadParcel("unclaimed driver objects"@)))
            } else if split {
                (
                    self,
                    Err(
                        Fault::Unsupported(
                            MSG_ID_ACCEPT_PARCEL,
                            "split parcels not exercised by the routing court"@,
                        ),
                    ),
                )
            } else if !self.owners.contains_key(key) {
                (self.with_early(key, p), Ok(()))
            } else {
                self.parcel_queued(
                    self.owners[key],
                    link_id,
                    a.sublink,
                    ParcelView {
                        sequence_number: a.sequence_number,
                        data,
                        objects,
                        fragment: None,
                    },
                )
            },
        }
    }

    /// The state after a parcel is queued at its router: on the outward side it
    /// comes in, on the inward side it goes out.
    pub open spec fn parcel_queued(self, rid: u64, link_id: u64, sublink: u64, p: ParcelView)
        -> NodeStep {
        if !self.routers.contains_key(rid) {
            (self, Err(Fault::BadParcel("parcel for unknown router"@)))
        } else {
            let r = self.routers[rid];
            let outward = has_link_at(r.outward, link_id, sublink);
            let inward = r.inward matches Some(e) && has_link_at(e, link_id, sublink);
            let queue = if outward {
                r.inbound
            } else {
                r.outbound
            };
            if !outward && !inward {
                (self, Err(Fault::BadParcel("parcel for unbound sublink"@)))
            } else if p.sequence_number < queue.current {
                (self, Err(Fault::BadParcel("route sequence gap or duplicate"@)))
            } else {
                let q = if outward {
                    RouterView { inbound: queue.pushed(p), ..r }
                } else {
                    RouterView { outbound: queue.pushed(p), ..r }
                };
                (self.with_router(rid, q).then_task(TaskView::Flush(rid, false)), Ok(()))
            }
        }
    }
}

fn count_portals(types: &Vec<u32>) -> (r: usize)
    ensures
        r == portals_in(types@),
{
    let mut n: usize = 0;
    let mut i: usize = 0;
    while i < types.len()
        invariant
            i <= types.len(),
            n <= i,
            n == portals_in(types@.take(i as int)),
        decreases types.len() - i,
    {
        assert(types@.take(i + 1).drop_last() =~= types@.take(i as int));
        if types[i] == HANDLE_PORTAL {
            n = n + 1;
        }
        i = i + 1;
    }
    assert(types@.take(types@.len() as int) =~= types@);
    n
}

fn collect_identities(routers: &Vec<RouterDescriptor>) -> (v: Vec<u64>)
    ensures
        v@ == identities_of(routers@),
{
    let mut v: Vec<u64> = Vec::new();
    let mut i: usize = 0;
    while i < routers.len()
        invariant
            i <= routers.len(),
            v@ == identities_of(routers@).take(i as int),
        decreases routers.len() - i,
    {
        v.push(routers[i].new_sublink);
        assert(identities_of(routers@).take(i + 1) =~= identities_of(routers@).take(i as int).push(
            routers@[i as int].new_sublink,
        ));
        i = i + 1;
    }
    assert(v@ =~= identities_of(routers@));
    v
}

/// Where a first part of the handle types is refused, all of them are.
proof fn lemma_naming_fails(types: Seq<u32>, n: int, ids: Seq<u64>, boxed: bool)
    requires
        0 <= n <= types.len(),
    ensures
        objects_named(types.take(n), ids, boxed) is Err ==> objects_named(types, ids, boxed)
            == objects_named(types.take(n), ids, boxed),
    decreases types.len() - n,
{
    if n < types.len() {
        lemma_naming_fails(types, n + 1, ids, boxed);
        assert(types.take(n + 1).drop_last() =~= types.take(n));
    } else {
        assert(types.take(n) =~= types);
    }
}

fn name_objects(types: &Vec<u32>, ids: &Vec<u64>, boxed: bool) -> (r: Result<
    (Vec<Object>, bool),
    RoutingError,
>)
    ensures
        match r {
            Ok((objects, split)) => objects_named(types@, ids@, boxed) == Ok::<
                (Seq<Object>, bool),
                Fault,
            >((objects@, split)),
            Err(e) => objects_named(types@, ids@, boxed) == Err::<(Seq<Object>, bool), Fault>(e@),
        },
{
    let mut objects: Vec<Object> = Vec::new();
    let mut split: bool = false;
    let mut i: usize = 0;
    while i < types.len()
        invariant
            i <= types.len(),
            objects_named(types@.take(i as int), ids@, boxed) == Ok::<(Seq<Object>, bool), Fault>(
                (objects@, split),
            ),
        decreases types.len() - i,
    {
        proof {
            assert(types@.take(i + 1).drop_last() =~= types@.take(i as int));
            lemma_naming_fails(types@, i + 1, ids@, boxed);
        }
        let t: u32 = types[i];
        if t == HANDLE_PORTAL {
            if objects.len() >= ids.len() {
                return Err(RoutingError::BadParcel("missing router descriptor"));
            }
            let rid: u64 = ids[objects.len()];
            objects.push(Object::Router(rid));
        } else if t == HANDLE_BOXED_DRIVER_OBJECT {
            return if boxed {
                Err(
                    RoutingError::Unsupported(
                        MSG_ID_ACCEPT_PARCEL,
                        "driver objects not exercised by the routing court",
                    ),
                )
            } else {
                Err(RoutingError::BadParcel("missing driver object"))
            };
        } else if t == HANDLE_RELAYED_BOXED_DRIVER_OBJECT {
            split = true;
        } else if t == HANDLE_BOXED_SUBPARCEL {
            return Err(
                RoutingError::Unsupported(
                    MSG_ID_ACCEPT_PARCEL,
                    "boxed subparcels not exercised by the routing court",
                ),
            );
        } else {
            return Err(RoutingError::BadParcel("unknown handle type"));
        }
        i = i + 1;
    }
    assert(types@.take(types@.len() as int) =~= types@);
    Ok((objects, split))
}

fn link_at(link: Option<Link>, link_id: u64, sublink: u64) -> (r: bool)
    ensures
        r == is_at(link, link_id, sublink),
{
    match link {
        Some(l) => l.link_id == link_id && l.sublink == sublink,
        None => false,
    }
}

fn edge_at(e: &Edge, link_id: u64, sublink: u64) -> (r: bool)
    ensures
        r == has_link_at(*e, link_id, sublink),
{
    link_at(e.primary, link_id, sublink) || link_at(e.decaying_link(), link_id, sublink)
}

impl RoutingAcceptor {
    fn push_deserializations(&mut self, routers: &Vec<RouterDescriptor>, link_id: u64)
        requires
            old(self).wf(),
        ensures
            final(self).wf(),
            final(self)@ == (NodeView {
                tasks: old(self)@.tasks + deserializations(routers@, link_id),
                ..old(self)@
            }),
    {
        let ghost before = self@;
        let ghost all = deserializations(routers@, link_id);
        let mut i: usize = routers.len();
        assert(before.tasks + all.take(0) =~= before.tasks);
        while i > 0
            invariant
                i <= routers@.len(),
                all == deserializations(routers@, link_id),
                self.wf(),
                self@ == (NodeView {
                    tasks: before.tasks + all.take(routers@.len() - i),
                    ..before
                }),
            decreases i,
        {
            i = i - 1;
            let descriptor = routers[i];
            self.push_task(Task::Deserialize { descriptor, link_id });
            assert(all.take(routers@.len() - i) =~= all.take(routers@.len() - i - 1).push(
                TaskView::Deserialize(descriptor, link_id),
            ));
            assert((before.tasks + all.take(routers@.len() - i - 1)).push(
                TaskView::Deserialize(descriptor, link_id),
            ) =~= before.tasks + all.take(routers@.len() - i));
        }
        assert(all.take(routers@.len() as int) =~= all);
    }

    /// Accept a parcel that came in on a link. Returns its data and the routers
    /// that come with it.
    pub fn process_accept_parcel(&mut self, p: InboundParcel, link_id: u64) -> (r: Result<
        ProcessedParcel,
        RoutingError,
    >)
        requires
            old(self).wf(),
        ensures
            final(self).wf(),
            (final(self)@, processed(r)) == old(self)@.parcel_accepted(p@, link_id),
    {
        if p.parcel.num_subparcels == 0 || p.parcel.subparcel_index >= p.parcel.num_subparcels
            || p.parcel.num_subparcels > 16 {
            return Err(RoutingError::BadParcel("invalid subparcel bounds"));
        }
        if p.parcel.num_subparcels > 1 {
            return Err(
                RoutingError::Unsupported(
                    MSG_ID_ACCEPT_PARCEL,
                    "multi-subparcel parcels not exercised by the routing court",
                ),
            );
        }
        if p.parcel.parcel_fragment.is_null() {
            let data = slice_to_vec(p.parcel.parcel_data.as_slice());
            return self.open_parcel(p, data, link_id);
        }
        let read = match &self.link_memory {
            None => {
                return Err(RoutingError::Unexpected("link memory not established"));
            },
            Some(m) => m.read_parcel_fragment(p.parcel.parcel_fragment),
        };
        match read {
            Ok(data) => self.open_parcel(p, data, link_id),
            Err(LinkMemoryError::UnknownBuffer) => {
                let id: u64 = p.parcel.parcel_fragment.buffer_id;
                self.keep_waiting(id, p);
                let r = ProcessedParcel { payload: Vec::new(), identities: Vec::new() };
                assert(r@ =~= ProcessedView { payload: Seq::empty(), identities: Seq::empty() });
                Ok(r)
            },
            Err(e) => Err(RoutingError::Memory(e)),
        }
    }

    fn open_parcel(&mut self, p: InboundParcel, data: Vec<u8>, link_id: u64) -> (r: Result<
        ProcessedParcel,
        RoutingError,
    >)
        requires
            old(self).wf(),
        ensures
            final(self).wf(),
            (final(self)@, processed(r)) == old(self)@.parcel_opened(p@, data@, link_id),
    {
        let n: usize = p.routers.len();
        let have: usize = p.parcel.new_routers.len();
        if have % ROUTER_DESCRIPTOR_SIZE != 0 || have / ROUTER_DESCRIPTOR_SIZE != n {
            return Err(RoutingError::BadParcel("malformed new_routers array"));
        }
        if n != count_portals(&p.parcel.handle_types) {
            return Err(RoutingError::BadParcel("portal count mismatch"));
        }
        let identities = collect_identities(&p.routers);
        let payload = slice_to_vec(data.as_slice());
        let routers = copy_routers(&p.routers);
        self.push_task(Task::Route { parcel: p, payload: data, link_id });
        self.push_deserializations(&routers, link_id);
        Ok(ProcessedParcel { payload, identities })
    }

    /// Route a parcel whose routers are set up.
    pub fn route_parcel(&mut self, p: InboundParcel, data: Vec<u8>, link_id: u64) -> (r: Result<
        (),
        RoutingError,
    >)
        requires
            old(self).wf(),
        ensures
            final(self).wf(),
            (final(self)@, fate(r)) == old(self)@.parcel_routed(p@, data@, link_id),
    {
        let ids = collect_identities(&p.routers);
        let boxed = p.parcel.driver_objects.len() > 0;
        let (objects, split) = match name_objects(&p.parcel.handle_types, &ids, boxed) {
            Ok(x) => x,
            Err(e) => {
                return Err(e);
            },
        };
        if boxed {
            return Err(RoutingError::BadParcel("unclaimed driver objects"));
        }
        if split {
            return Err(
                RoutingError::Unsupported(
                    MSG_ID_ACCEPT_PARCEL,
                    "split parcels not exercised by the routing court",
                ),
            );
        }
        let sublink: u64 = p.parcel.sublink;
        let rid: u64 = match self.owners.get(link_id, sublink) {
            Some(rid) => *rid,
            None => {
                self.keep_early(link_id, sublink, p);
                return Ok(());
            },
        };
        let parcel = Parcel {
            sequence_number: p.parcel.sequence_number,
            data,
            objects,
            fragment: None,
        };
        self.queue_parcel(rid, link_id, sublink, parcel)
    }

    fn queue_parcel(&mut self, rid: u64, link_id: u64, sublink: u64, parcel: Parcel) -> (r: Result<
        (),
        RoutingError,
    >)
        requires
            old(self).wf(),
        ensures
            final(self).wf(),
            (final(self)@, fate(r)) == old(self)@.parcel_queued(rid, link_id, sublink, parcel@),
    {
        let mut router: Router = match self.routers.take(rid) {
            Some(r) => r,
            None => {
                return Err(RoutingError::BadParcel("parcel for unknown router"));
            },
        };
        let outward = edge_at(&router.outward, link_id, sublink);
        let inward = match &router.inward {
            Some(e) => edge_at(e, link_id, sublink),
            None => false,
        };
        if !outward && !inward {
            self.routers.put(rid, router);
            return Err(RoutingError::BadParcel("parcel for unbound sublink"));
        }
        let ghost before = router@;
        let accepted = if outward {
            router.accept_inbound(parcel)
        } else {
            router.accept_outbound(parcel)
        };
        let ghost after = router@;
        self.routers.put(rid, router);
        if !accepted {
            assert(after =~= before);
            return Err(RoutingError::BadParcel("route sequence gap or duplicate"));
        }
        self.push_task(Task::Flush { rid, force: false });
        Ok(())
    }
}

fn copy_routers(routers: &Vec<RouterDescriptor>) -> (v: Vec<RouterDescriptor>)
    ensures
        v@ == routers@,
{
    let mut v: Vec<RouterDescriptor> = Vec::new();
    let mut i: usize = 0;
    while i < routers.len()
        invariant
            i <= routers.len(),
            v@ == routers@.take(i as int),
        decreases routers.len() - i,
    {
        v.push(routers[i]);
        assert(routers@.take(i + 1) =~= routers@.take(i as int).push(routers@[i as int]));
        i = i + 1;
    }
    assert(v@ =~= routers@);
    v
}

} // verus!
