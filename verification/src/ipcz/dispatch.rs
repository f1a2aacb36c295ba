//! Dispatch: what a routing node does with a message, how it joins its broker,
//! and how the work that this leads to is done.

use vstd::prelude::*;

#[allow(unused_imports)]
use crate::bytes::next_number;
use crate::bytes::following;
use crate::ipcz::link_memory::{
    LinkMemory, MAX_INITIAL_PORTALS, PRIMARY_BUFFER_SIZE, ROUTER_LINK_STATE_SIZE,
};
#[allow(unused_imports)]
use crate::ipcz::link_memory::{
    primary_region, resolve_at_least, stable_bit, status_of, with_buffer, with_counter,
    with_free_blocks, with_status, LinkMemoryView, PRIMARY_BUFFER_ID,
};
use crate::ipcz::messages::{
    decode_message, AddBlockBuffer, ConnectFromBrokerToNonBroker, DecodedMessage,
    FragmentDescriptor, MSG_ID_ACCEPT_PARCEL, MSG_ID_REQUEST_MEMORY,
};
#[allow(unused_imports)]
use crate::ipcz::messages::{decoded, DecodedView};
use crate::ipcz::inbound::BOOTSTRAP_SUBLINK;
use crate::ipcz::node::{
    InboundParcel, LinkMessage, NumberedMessage, PendingMemoryRequest, RouterDescriptor,
    RoutingAcceptor, RoutingError, Task, LINK_ID_BROKER,
};
#[allow(unused_imports)]
use crate::ipcz::node::{
    fate, inbound_views, lemma_insert_same, lemma_reinsert, Fault, InboundView, LinkMessageView,
    NodeStep, NodeView, NumberedView, TaskView,
};
use crate::ipcz::router::{Edge, Link, LinkKind, LinkSide, Router};
#[allow(unused_imports)]
use crate::ipcz::router::{fresh_router, local_link, remote_link, LocalLinkState, RouterView};

#[allow(unused_imports)]
use crate::ipcz::acceptor::initial_state;
#[allow(unused_imports)]
use crate::ipcz::bypass::acceptances;

verus! {

broadcast use {vstd::std_specs::hash::group_hash_axioms, lemma_reinsert, lemma_insert_same};

/// The number of initial portals that the node assumes.
pub const ACCEPTOR_INITIAL_PORTALS: u32 = 8;

/// A message from another node.
pub enum NodeMessage {
    /// A decoded message, with the routers that it describes where it is a
    /// parcel.
    Decoded(DecodedMessage, Vec<RouterDescriptor>),
    /// A proxy is told the final lengths of what it forwards.
    StopProxying {
        /// The sublink.
        sublink: u64,
        /// The length of what comes in.
        inbound_sequence_length: u64,
        /// The length of what goes out.
        outbound_sequence_length: u64,
    },
}

/// What a message from another node holds.
pub enum NodeMessageView {
    /// A decoded message, with the routers that it describes.
    Decoded(DecodedView, Seq<RouterDescriptor>),
    /// A proxy is told the final lengths: sublink, in, out.
    StopProxying(u64, u64, u64),
}

impl View for NodeMessage {
    type V = NodeMessageView;

    open spec fn view(&self) -> NodeMessageView {
        match *self {
            NodeMessage::Decoded(m, routers) => NodeMessageView::Decoded(m@, routers@),
            NodeMessage::StopProxying {
                sublink,
                inbound_sequence_length,
                outbound_sequence_length,
            } => NodeMessageView::StopProxying(
                sublink,
                inbound_sequence_length,
                outbound_sequence_length,
            ),
        }
    }
}

/// Why a message type is refused.
pub open spec fn refusal(id: u8) -> Seq<char> {
    if id == 2 || id == 10 {
        "native broker role not exercised by a sealed court"@
    } else if id == 3 {
        "referred-node connect not exercised by a sealed court"@
    } else if id == 4 || id == 5 {
        "referral acceptance not exercised by a sealed court"@
    } else if id == 6 {
        "referral rejection not exercised by a sealed court"@
    } else if id == 7 {
        "broker-to-broker connect not exercised by a sealed court"@
    } else if id == 11 {
        "introduction not exercised by a sealed court"@
    } else if id == 12 {
        "introduction rejection not exercised by a sealed court"@
    } else if id == 13 {
        "indirect introduction not exercised by a sealed court"@
    } else if id == 30 {
        "inbound BypassPeer not exercised by the routing court"@
    } else if id == 31 {
        "inbound AcceptBypassLink not exercised by the routing court"@
    } else if id == 33 {
        "inbound ProxyWillStop not exercised by the routing court"@
    } else {
        "message type not decoded by the interop layer"@
    }
}

fn refusal_text(id: u8) -> (r: &'static str)
    ensures
        r@ == refusal(id),
{
    match id {
        2 => "native broker role not exercised by a sealed court",
        3 => "referred-node connect not exercised by a sealed court",
        4 => "referral acceptance not exercised by a sealed court",
        5 => "referral acceptance not exercised by a sealed court",
        6 => "referral rejection not exercised by a sealed court",
        7 => "broker-to-broker connect not exercised by a sealed court",
        10 => "native broker role not exercised by a sealed court",
        11 => "introduction not exercised by a sealed court",
        12 => "introduction rejection not exercised by a sealed court",
        13 => "indirect introduction not exercised by a sealed court",
        30 => "inbound BypassPeer not exercised by the routing court",
        31 => "inbound AcceptBypassLink not exercised by the routing court",
        33 => "inbound ProxyWillStop not exercised by the routing court",
        _ => "message type not decoded by the interop layer",
    }
}

/// The first request for a buffer of a size, from index `i` on.
pub open spec fn first_request(requests: Seq<PendingMemoryRequest>, size: u32, i: int) -> Option<int>
    decreases requests.len() - i,
{
    if i < 0 || i >= requests.len() {
        None
    } else if requests[i].buffer_size == size {
        Some(i)
    } else {
        first_request(requests, size, i + 1)
    }
}

impl NodeView {
    /// The state after a buffer is added to the link memory: parcels that
    /// waited for it are accepted next.
    pub open spec fn buffer_added(self, b: AddBlockBuffer, num_fds: nat, buffer: Seq<u8>)
        -> NodeStep {
        if b.buffer_index >= num_fds {
            (self, Err(Fault::BadParcel("AddBlockBuffer index out of range"@)))
        } else {
            match self.memory_of(LINK_ID_BROKER) {
                Err(e) => (self, Err(e)),
                Ok(m) => {
                    let s = self.with_memory(
                        LINK_ID_BROKER,
                        with_buffer(m, b.buffer_id, buffer, b.block_size),
                    );
                    if s.pending_fragments.contains_key(b.buffer_id) {
                        (
                            NodeView {
                                pending_fragments: s.pending_fragments.remove(b.buffer_id),
                                tasks: s.tasks + acceptances(
                                    s.pending_fragments[b.buffer_id],
                                    LINK_ID_BROKER,
                                ),
                                ..s
                            },
                            Ok(()),
                        )
                    } else {
                        (s, Ok(()))
                    }
                },
            }
        }
    }

    /// The state after the broker provides a buffer that was asked for: it is
    /// shared with the broker under a new id, then its blocks can be used.
    pub open spec fn memory_provided(self, size: u32, fd: i32, buffer: Seq<u8>) -> NodeStep {
        match first_request(self.requests, size, 0) {
            None => (self, Err(Fault::BadParcel("ProvideMemory without a pending request"@))),
            Some(i) => {
                let block_size = self.requests[i].block_size;
                let s1 = NodeView { requests: self.requests.remove(i), ..self };
                match s1.memory_of(LINK_ID_BROKER) {
                    Err(e) => (s1, Err(e)),
                    Ok(m) => {
                        let id = crate::bytes::le64(m.buffers[PRIMARY_BUFFER_ID], 0);
                        let n = with_counter(m, 0, crate::bytes::wrapped64(id, 1));
                        let contents = if buffer.len() >= 64 {
                            with_free_blocks(buffer)
                        } else {
                            buffer
                        };
                        let s2 = s1.with_memory(
                            LINK_ID_BROKER,
                            with_buffer(n, id, contents, block_size),
                        ).with_message(LinkMessageView::AddBlockBuffer(id, block_size, size, fd));
                        (
                            NodeView {
                                capacity_pending: s2.capacity_pending.remove(block_size),
                                ..s2
                            },
                            Ok(()),
                        )
                    },
                }
            },
        }
    }

    /// The state after a message of another node is dispatched. `fds` and
    /// `buffer` are the descriptors that came with it and what the shared
    /// memory among them holds. A message for a sublink that nobody owns is
    /// ignored.
    pub open spec fn dispatched(
        self,
        m: NodeMessageView,
        fds: Seq<i32>,
        buffer: Seq<u8>,
        link_id: u64,
    ) -> NodeStep {
        match m {
            NodeMessageView::StopProxying(sublink, inbound, outbound) =>
                if self.owners.contains_key((link_id, sublink)) {
                    self.proxying_stopped(self.owners[(link_id, sublink)], inbound, outbound)
                } else {
                    (self, Ok(()))
                },
            NodeMessageView::Decoded(d, routers) => match d {
                DecodedView::ConnectFromBrokerToNonBroker(_) => (
                    self,
                    Err(Fault::Unexpected("Connect received after handshake"@)),
                ),
                DecodedView::ConnectFromNonBrokerToBroker(_) => (
                    self,
                    Err(Fault::Unexpected("Connect reply received from broker"@)),
                ),
                DecodedView::AddBlockBuffer(b) => self.buffer_added(b, fds.len(), buffer),
                DecodedView::AcceptParcel(p) => {
                    let (s, r) = self.parcel_accepted(InboundView { parcel: p, routers }, link_id);
                    (
                        s,
                        match r {
                            Ok(_) => Ok(()),
                            Err(e) => Err(e),
                        },
                    )
                },
                DecodedView::AcceptParcelDriverObjects(_) => (
                    self,
                    Err(
                        Fault::Unsupported(
                            MSG_ID_ACCEPT_PARCEL,
                            "split parcels not exercised by the routing court"@,
                        ),
                    ),
                ),
                DecodedView::RouteClosed(x) => if self.owners.contains_key((link_id, x.sublink)) {
                    self.closed_remotely(
                        self.owners[(link_id, x.sublink)],
                        x.sublink,
                        x.sequence_length,
                    )
                } else {
                    (self, Ok(()))
                },
                DecodedView::RouteDisconnected(x) => if self.owners.contains_key(
                    (link_id, x.sublink),
                ) {
                    self.disconnected(self.owners[(link_id, x.sublink)])
                } else {
                    (self, Ok(()))
                },
                DecodedView::BypassPeerWithLink(b) => self.bypass_accepted(b, link_id),
                DecodedView::StopProxyingToLocalPeer(x) => if self.owners.contains_key(
                    (link_id, x.sublink),
                ) {
                    self.local_proxying_stopped(
                        self.owners[(link_id, x.sublink)],
                        x.outbound_sequence_length,
                    )
                } else {
                    (self, Ok(()))
                },
                DecodedView::FlushRouter(x) => if self.owners.contains_key((link_id, x.sublink)) {
                    (
                        self.then_task(TaskView::Flush(self.owners[(link_id, x.sublink)], true)),
                        Ok(()),
                    )
                } else {
                    (self, Ok(()))
                },
                DecodedView::RequestMemory(_) => (
                    self,
                    Err(
                        Fault::Unsupported(
                            MSG_ID_REQUEST_MEMORY,
                            "native broker role not exercised by a sealed court"@,
                        ),
                    ),
                ),
                DecodedView::ProvideMemory(x) => if fds.len() != 1 {
                    (
                        self,
                        Err(
                            Fault::BadParcel("ProvideMemory without exactly one buffer descriptor"@),
                        ),
                    )
                } else {
                    self.memory_provided(x.size, fds[0], buffer)
                },
                DecodedView::Unknown(id) => (self, Err(Fault::Unsupported(id, refusal(id)))),
            },
        }
    }

    /// The state after the next piece of work is done.
    pub open spec fn stepped(self) -> NodeStep {
        let s = NodeView { tasks: self.tasks.drop_last(), ..self };
        match self.tasks.last() {
            TaskView::Flush(rid, force) => s.flush_started(rid, force),
            TaskView::FinishFlush(rid, force, a, b, c) => s.flush_finished(rid, force, a, b, c),
            TaskView::Transmit(link, parcel) => s.transmitted(link, parcel),
            TaskView::DeliverClosed(link, length) => s.closure_delivered(link, length),
            TaskView::WakePeer(rid) => s.peer_woken(rid),
            TaskView::BridgeBypass(rid) => s.bridge_bypass(rid),
            TaskView::BeginProxying(rid, d, link_id) => s.proxying_begun(rid, d, link_id),
            TaskView::Accept(p, link_id) => {
                let (t, r) = s.parcel_accepted(p, link_id);
                (
                    t,
                    match r {
                        Ok(_) => Ok(()),
                        Err(e) => Err(e),
                    },
                )
            },
            TaskView::Deserialize(d, link_id) => s.deserialized(d, link_id),
            TaskView::BypassPeer(rid, requestor, node, sublink) => s.peer_bypassed(
                rid,
                requestor,
                node,
                sublink,
            ),
            TaskView::Route(p, data, link_id) => s.parcel_routed(p, data, link_id),
        }
    }

    /// The state after up to `n` pieces of work are done. The first error ends
    /// the work; what was still to be done is then dropped.
    pub open spec fn settled(self, n: nat) -> NodeStep
        decreases n,
    {
        if n == 0 || self.tasks.len() == 0 {
            (self, Ok(()))
        } else {
            let (s, r) = self.stepped();
            if r is Err {
                (NodeView { tasks: Seq::empty(), ..s }, r)
            } else {
                s.settled((n - 1) as nat)
            }
        }
    }
}

impl RoutingAcceptor {
    fn on_add_block_buffer(&mut self, b: AddBlockBuffer, num_fds: usize, buffer: Vec<u8>) -> (r:
        Result<(), RoutingError>)
        requires
            old(self).wf(),
        ensures
            final(self).wf(),
            (final(self)@, fate(r)) == old(self)@.buffer_added(b, num_fds as nat, buffer@),
    {
        if b.buffer_index as usize >= num_fds {
            return Err(RoutingError::BadParcel("AddBlockBuffer index out of range"));
        }
        let mut m: LinkMemory = match self.take_memory(LINK_ID_BROKER) {
            Ok(m) => m,
            Err(e) => {
                return Err(e);
            },
        };
        m.add_block_buffer(b.buffer_id, buffer, b.block_size);
        self.put_memory(LINK_ID_BROKER, m);
        let ghost mid = self@;
        match self.pending_fragments.remove(&b.buffer_id) {
            Some(queue) => {
                assert(mid.pending_fragments[b.buffer_id] == inbound_views(queue@));
                assert(self@.pending_fragments =~= mid.pending_fragments.remove(b.buffer_id));
                self.push_acceptances(queue, LINK_ID_BROKER);
            },
            None => {
                assert(self@.pending_fragments =~= mid.pending_fragments);
            },
        }
        Ok(())
    }

    fn find_request(&self, size: u32) -> (r: Option<usize>)
        ensures
            match r {
                Some(i) => first_request(self@.requests, size, 0) == Some(i as int) && i
                    < self@.requests.len(),
                None => first_request(self@.requests, size, 0) == None::<int>,
            },
    {
        let mut i: usize = 0;
        while i < self.pending_memory_requests.len()
            invariant
                i <= self.pending_memory_requests.len(),
                first_request(self@.requests, size, 0) == first_request(
                    self@.requests,
                    size,
                    i as int,
                ),
            decreases self.pending_memory_requests.len() - i,
        {
            if self.pending_memory_requests[i].buffer_size == size {
                return Some(i);
            }
            i = i + 1;
        }
        None
    }

    /// Take a buffer that the broker provides.
    pub fn on_provide_memory(&mut self, size: u32, fd: i32, buffer: Vec<u8>) -> (r: Result<
        (),
        RoutingError,
    >)
        requires
            old(self).wf(),
        ensures
            final(self).wf(),
            (final(self)@, fate(r)) == old(self)@.memory_provided(size, fd, buffer@),
    {
        let i: usize = match self.find_request(size) {
            Some(i) => i,
            None => {
                return Err(RoutingError::BadParcel("ProvideMemory without a pending request"));
            },
        };
        let request = self.pending_memory_requests.remove(i);
        let block_size: u32 = request.block_size;
        let mut m: LinkMemory = match self.take_memory(LINK_ID_BROKER) {
            Ok(m) => m,
            Err(e) => {
                return Err(e);
            },
        };
        let id: u64 = m.allocate_new_buffer_id();
        m.register_block_buffer(id, buffer, block_size);
        self.put_memory(LINK_ID_BROKER, m);
        self.send(LinkMessage::AddBlockBuffer { buffer_id: id, block_size, size, fd });
        self.capacity_pending.remove(&block_size);
        Ok(())
    }

    fn owner_of(&self, link_id: u64, sublink: u64) -> (r: Option<u64>)
        requires
            self.wf(),
        ensures
            match r {
                Some(rid) => self@.owners.contains_key((link_id, sublink)) && rid == self@.owners[(
                    link_id,
                    sublink,
                )],
                None => !self@.owners.contains_key((link_id, sublink)),
            },
    {
        match self.owners.get(link_id, sublink) {
            Some(rid) => Some(*rid),
            None => None,
        }
    }

    /// Dispatch one message to the routers. `link_id` is the link that it came
    /// on.
    pub fn dispatch(&mut self, message: NodeMessage, fds: &Vec<i32>, buffer: Vec<u8>, link_id: u64)
        -> (r: Result<(), RoutingError>)
        requires
            old(self).wf(),
        ensures
            final(self).wf(),
            (final(self)@, fate(r)) == old(self)@.dispatched(message@, fds@, buffer@, link_id),
    {
        match message {
            NodeMessage::StopProxying {
                sublink,
                inbound_sequence_length,
                outbound_sequence_length,
            } => match self.owner_of(link_id, sublink) {
                Some(rid) => self.router_stop_proxying(
                    rid,
                    inbound_sequence_length,
                    outbound_sequence_length,
                ),
                None => Ok(()),
            },
            NodeMessage::Decoded(m, routers) => match m {
                DecodedMessage::ConnectFromBrokerToNonBroker(_) => Err(
                    RoutingError::Unexpected("Connect received after handshake"),
                ),
                DecodedMessage::ConnectFromNonBrokerToBroker(_) => Err(
                    RoutingError::Unexpected("Connect reply received from broker"),
                ),
                DecodedMessage::AddBlockBuffer(b) => self.on_add_block_buffer(
                    b,
                    fds.len(),
                    buffer,
                ),
                DecodedMessage::AcceptParcel(p) => match self.process_accept_parcel(
                    InboundParcel { parcel: p, routers },
                    link_id,
                ) {
                    Ok(_) => Ok(()),
                    Err(e) => Err(e),
                },
                DecodedMessage::AcceptParcelDriverObjects(_) => Err(
                    RoutingError::Unsupported(
                        MSG_ID_ACCEPT_PARCEL,
                        "split parcels not exercised by the routing court",
                    ),
                ),
                DecodedMessage::RouteClosed(x) => match self.owner_of(link_id, x.sublink) {
                    Some(rid) => self.router_route_closed(rid, x.sublink, x.sequence_length),
                    None => Ok(()),
                },
                DecodedMessage::RouteDisconnected(x) => match self.owner_of(link_id, x.sublink) {
                    Some(rid) => self.router_disconnected(rid),
                    None => Ok(()),
                },
                DecodedMessage::BypassPeerWithLink(b) => self.on_bypass_peer_with_link(b, link_id),
                DecodedMessage::StopProxyingToLocalPeer(x) => match self.owner_of(
                    link_id,
                    x.sublink,
                ) {
                    Some(rid) => self.router_stop_proxying_to_local_peer(
                        rid,
                        x.outbound_sequence_length,
                    ),
                    None => Ok(()),
                },
                DecodedMessage::FlushRouter(x) => {
                    match self.owner_of(link_id, x.sublink) {
                        Some(rid) => {
                            self.push_task(Task::Flush { rid, force: true });
                        },
                        None => {},
                    }
                    Ok(())
                },
                DecodedMessage::RequestMemory(_) => Err(
                    RoutingError::Unsupported(
                        MSG_ID_REQUEST_MEMORY,
                        "native broker role not exercised by a sealed court",
                    ),
                ),
                DecodedMessage::ProvideMemory(x) => {
                    if fds.len() != 1 {
                        return Err(
                            RoutingError::BadParcel(
                                "ProvideMemory without exactly one buffer descriptor",
                            ),
                        );
                    }
                    self.on_provide_memory(x.size, fds[0], buffer)
                },
                DecodedMessage::Unknown(id) => Err(
                    RoutingError::Unsupported(id, refusal_text(id)),
                ),
            },
        }
    }

    /// Do the next piece of work.
    fn step(&mut self) -> (r: Result<(), RoutingError>)
        requires
            old(self).wf(),
            old(self)@.tasks.len() > 0,
        ensures
            final(self).wf(),
            (final(self)@, fate(r)) == old(self)@.stepped(),
    {
        let ghost before = self@;
        let task = match self.tasks.pop() {
            Some(t) => t,
            None => {
                return Ok(());
            },
        };
        assert(before.tasks.last() == task@);
        assert(self@.tasks =~= before.tasks.drop_last());
        match task {
            Task::Flush { rid, force } => self.router_flush(rid, force),
            Task::FinishFlush { rid, force, on_central, outward_decaying, inward_decaying } =>
                self.finish_flush(rid, force, on_central, outward_decaying, inward_decaying),
            Task::Transmit { link, parcel } => self.transmit_parcel(&link, parcel),
            Task::DeliverClosed { link, length } => self.deliver_route_closed(&link, length),
            Task::WakePeer { rid } => self.wake_peer(rid),
            Task::BridgeBypass { rid } => self.maybe_start_bridge_bypass(rid),
            Task::BeginProxying { rid, descriptor, link_id } => self.begin_proxying(
                rid,
                &descriptor,
                link_id,
            ),
            Task::Accept { parcel, link_id } => match self.process_accept_parcel(parcel, link_id) {
                Ok(_) => Ok(()),
                Err(e) => Err(e),
            },
            Task::Deserialize { descriptor, link_id } => self.router_deserialize(
                &descriptor,
                link_id,
            ),
            Task::BypassPeer { rid, requestor_link_id, target_node, target_sublink } =>
                self.router_bypass_peer(rid, requestor_link_id, target_node, target_sublink),
            Task::Route { parcel, payload, link_id } => self.route_parcel(parcel, payload, link_id),
        }
    }

    /// Do up to `limit` pieces of work, or all that there is.
    pub fn settle(&mut self, limit: u64) -> (r: Result<(), RoutingError>)
        requires
            old(self).wf(),
        ensures
            final(self).wf(),
            (final(self)@, fate(r)) == old(self)@.settled(limit as nat),
    {
        let mut left: u64 = limit;
        while left > 0 && self.tasks.len() > 0
            invariant
                self.wf(),
                self@.settled(left as nat) == old(self)@.settled(limit as nat),
            decreases left,
        {
            match self.step() {
                Ok(_) => {},
                Err(e) => {
                    self.tasks = Vec::new();
                    assert(self@.tasks =~= Seq::empty());
                    return Err(e);
                },
            }
            left = left - 1;
        }
        assert(self@.tasks.len() == self.tasks@.len());
        Ok(())
    }
}

/// The broker's greeting, where it is one, offers no more portals than there
/// may be and comes with one descriptor.
pub open spec fn greeting(payload: Seq<u8>, num_fds: nat) -> Result<
    ConnectFromBrokerToNonBroker,
    Fault,
> {
    match decoded(payload, num_fds) {
        Err(e) => Err(Fault::Wire(e)),
        Ok(DecodedView::ConnectFromBrokerToNonBroker(c)) => if c.num_initial_portals
            > MAX_INITIAL_PORTALS {
            Err(Fault::BadParcel("excessive initial portals"@))
        } else if num_fds != 1 {
            Err(Fault::Unexpected("Connect carries no link memory"@))
        } else {
            Ok(c)
        },
        Ok(_) => Err(Fault::Unexpected("first message was not ConnectFromBrokerToNonBroker"@)),
    }
}

/// Check the broker's greeting.
pub fn check_greeting(payload: &[u8], num_fds: usize) -> (r: Result<
    ConnectFromBrokerToNonBroker,
    RoutingError,
>)
    ensures
        fate(r) == greeting(payload@, num_fds as nat),
        r matches Ok(c) ==> c.num_initial_portals <= MAX_INITIAL_PORTALS,
{
    let c = match decode_message(payload, num_fds) {
        Err(e) => {
            return Err(RoutingError::Wire(e));
        },
        Ok(DecodedMessage::ConnectFromBrokerToNonBroker(c)) => c,
        Ok(_) => {
            return Err(
                RoutingError::Unexpected("first message was not ConnectFromBrokerToNonBroker"),
            );
        },
    };
    if c.num_initial_portals > MAX_INITIAL_PORTALS as u32 {
        return Err(RoutingError::BadParcel("excessive initial portals"));
    }
    if num_fds != 1 {
        return Err(RoutingError::Unexpected("Connect carries no link memory"));
    }
    Ok(c)
}

/// The link memory as it is adopted.
pub open spec fn adopted_memory(contents: Seq<u8>) -> LinkMemoryView {
    LinkMemoryView { buffers: map![PRIMARY_BUFFER_ID => contents], regions: seq![primary_region()] }
}

/// An edge with a link.
pub open spec fn edge_with(link: Link) -> Edge {
    Edge { primary: Some(link), decaying: None }
}

impl NodeView {
    /// The state with the routers of the first `n` initial portals.
    pub open spec fn with_initial_portals(self, n: nat) -> NodeView
        decreases n,
    {
        if n == 0 {
            self
        } else {
            let s = self.with_initial_portals((n - 1) as nat);
            let i = (n - 1) as u64;
            let link = remote_link(
                LINK_ID_BROKER,
                i,
                LinkKind::Central,
                LinkSide::B,
                Some(initial_state(i as int)),
            );
            NodeView {
                owners: s.owners.insert((LINK_ID_BROKER, i), i),
                ..s.with_router(i, fresh_router(edge_with(link)))
            }
        }
    }

    /// The state with the bootstrap pipe merged onto initial portal 1: an
    /// attachment router for the application, a bridge router behind it, and a
    /// bridge from that to the portal's router.
    pub open spec fn with_bootstrap_bridge(self) -> NodeStep {
        let bridge = self.next_rid;
        let attachment = next_number(bridge);
        let k = self.local_states.len();
        let s = NodeView {
            next_rid: next_number(attachment),
            bootstrap_rid: attachment,
            local_states: self.local_states.push(
                LocalLinkState { status: 3, allowed_bypass_source: 0 },
            ).push(LocalLinkState { status: 0, allowed_bypass_source: 0 }),
            ..self
        };
        if !s.routers.contains_key(BOOTSTRAP_SUBLINK) {
            (s, Err(Fault::Unexpected("bootstrap router missing"@)))
        } else {
            let r = s.routers[BOOTSTRAP_SUBLINK];
            let to_bridge = local_link(LinkKind::Bridge, LinkSide::A, bridge, (k + 1) as usize);
            let from_bridge = local_link(
                LinkKind::Bridge,
                LinkSide::B,
                BOOTSTRAP_SUBLINK,
                (k + 1) as usize,
            );
            (
                s.with_router(
                    BOOTSTRAP_SUBLINK,
                    RouterView { bridge: Some(edge_with(to_bridge)), ..r },
                ).with_router(
                    bridge,
                    RouterView {
                        bridge: Some(edge_with(from_bridge)),
                        ..fresh_router(
                            edge_with(
                                local_link(LinkKind::Central, LinkSide::B, attachment, k as usize),
                            ),
                        )
                    },
                ).with_router(
                    attachment,
                    fresh_router(
                        edge_with(local_link(LinkKind::Central, LinkSide::A, bridge, k as usize)),
                    ),
                ),
                Ok(()),
            )
        }
    }

    /// The state after the handshake: the memory is adopted, the reply sent,
    /// the initial portals are there, the shared memory service is asked for on
    /// portal 0, and the bootstrap pipe is merged onto portal 1.
    pub open spec fn connected(self, c: ConnectFromBrokerToNonBroker, contents: Seq<u8>) -> NodeStep {
        let s1 = NodeView {
            memory: Some(adopted_memory(contents)),
            broker_name: c.broker_name,
            local_name: c.receiver_name,
            outbox: self.outbox.push(
                NumberedView {
                    link_id: LINK_ID_BROKER,
                    number: 0,
                    message: LinkMessageView::ConnectReply(ACCEPTOR_INITIAL_PORTALS),
                },
            ),
            ..self
        };
        let s2 = s1.with_initial_portals(c.num_initial_portals as nat);
        let s3 = s2.with_message(LinkMessageView::SharedMemoryClient).with_message(
            LinkMessageView::RouteClosed(0, 1),
        );
        let (s4, r4) = s3.with_bootstrap_bridge();
        if r4 is Err {
            (s4, r4)
        } else {
            (s4.then_task(TaskView::Flush(BOOTSTRAP_SUBLINK, false)), Ok(()))
        }
    }

    /// The state after this side of the first `n` initial links is marked
    /// stable.
    pub open spec fn initial_links_marked(self, n: nat) -> NodeStep
        decreases n,
    {
        if n == 0 {
            (self, Ok(()))
        } else {
            let (s, r) = self.initial_links_marked((n - 1) as nat);
            if r is Err {
                (s, r)
            } else {
                match s.memory_of(LINK_ID_BROKER) {
                    Err(e) => (s, Err(e)),
                    Ok(m) => {
                        let d = initial_state(n - 1);
                        (
                            s.with_memory(
                                LINK_ID_BROKER,
                                with_status(m, d, status_of(m, d) | stable_bit(false)),
                            ),
                            Ok(()),
                        )
                    },
                }
            }
        }
    }

    /// The sublink that the bootstrap pipe is on now.
    pub open spec fn bootstrap_now(self) -> Result<u64, Fault> {
        if self.routers.contains_key(self.bootstrap_rid) {
            match self.routers[self.bootstrap_rid].outward.primary {
                Some(l) => Ok(l.sublink),
                None => Err(Fault::Unexpected("bootstrap router has no primary link"@)),
            }
        } else {
            Err(Fault::Unexpected("bootstrap router has no primary link"@))
        }
    }
}

impl RoutingAcceptor {
    fn add_initial_portals(&mut self, portals: u32)
        requires
            old(self).wf(),
            portals <= MAX_INITIAL_PORTALS,
        ensures
            final(self).wf(),
            final(self)@ == old(self)@.with_initial_portals(portals as nat),
    {
        let mut i: u64 = 0;
        while i < portals as u64
            invariant
                i <= portals <= 12,
                self.wf(),
                self@ == old(self)@.with_initial_portals(i as nat),
            decreases portals - i,
        {
            let state = FragmentDescriptor {
                buffer_id: 0,
                offset: LinkMemory::initial_link_state_offset(i as usize) as u32,
                size: ROUTER_LINK_STATE_SIZE as u32,
            };
            let link = Link::remote(
                LINK_ID_BROKER,
                i,
                LinkKind::Central,
                LinkSide::B,
                Some(state),
            );
            self.owners.insert(LINK_ID_BROKER, i, i);
            self.routers.put(i, Router::new_terminal(link));
            i = i + 1;
        }
    }

    fn setup_bootstrap_bridge(&mut self) -> (r: Result<(), RoutingError>)
        requires
            old(self).wf(),
        ensures
            final(self).wf(),
            (final(self)@, fate(r)) == old(self)@.with_bootstrap_bridge(),
    {
        let bridge: u64 = self.next_rid;
        let attachment: u64 = following(bridge);
        self.next_rid = following(attachment);
        self.bootstrap_rid = attachment;
        let (attach_link, central_link) = Link::local_pair(
            &mut self.local_states,
            LinkKind::Central,
            LinkSide::A,
            attachment,
            bridge,
            true,
        );
        let (to_bridge, from_bridge) = Link::local_pair(
            &mut self.local_states,
            LinkKind::Bridge,
            LinkSide::A,
            BOOTSTRAP_SUBLINK,
            bridge,
            false,
        );
        let mut router: Router = match self.routers.take(BOOTSTRAP_SUBLINK) {
            Some(r) => r,
            None => {
                return Err(RoutingError::Unexpected("bootstrap router missing"));
            },
        };
        router.bridge = Some(Edge { primary: Some(to_bridge), decaying: None });
        self.routers.put(BOOTSTRAP_SUBLINK, router);
        let mut middle: Router = Router::bare();
        middle.outward.set_primary_link(central_link);
        middle.bridge = Some(Edge { primary: Some(from_bridge), decaying: None });
        self.routers.put(bridge, middle);
        let mut end: Router = Router::bare();
        end.outward.set_primary_link(attach_link);
        self.routers.put(attachment, end);
        Ok(())
    }

    /// Complete the handshake once the greeting is in order.
    pub fn connect(&mut self, c: &ConnectFromBrokerToNonBroker, contents: Vec<u8>) -> (r: Result<
        (),
        RoutingError,
    >)
        requires
            old(self).wf(),
            c.num_initial_portals <= MAX_INITIAL_PORTALS,
            contents@.len() == PRIMARY_BUFFER_SIZE,
        ensures
            final(self).wf(),
            (final(self)@, fate(r)) == old(self)@.connected(*c, contents@),
    {
        let memory = LinkMemory::adopt_primary(contents);
        assert(memory@ == adopted_memory(contents@));
        self.link_memory = Some(memory);
        self.broker_name = c.broker_name;
        self.local_name = c.receiver_name;
        let reply = NumberedMessage {
            link_id: LINK_ID_BROKER,
            number: 0,
            message: LinkMessage::ConnectReply { portals: ACCEPTOR_INITIAL_PORTALS },
        };
        self.outbox.push(reply);
        assert(self@.outbox =~= old(self)@.outbox.push(reply@));
        self.add_initial_portals(c.num_initial_portals);
        self.send(LinkMessage::SharedMemoryClient);
        self.send(LinkMessage::RouteClosed { sublink: 0, sequence_length: 1 });
        match self.setup_bootstrap_bridge() {
            Ok(_) => {},
            Err(e) => {
                return Err(e);
            },
        }
        self.push_task(Task::Flush { rid: BOOTSTRAP_SUBLINK, force: false });
        Ok(())
    }

    /// Mark this side of the initial links that the broker uses stable.
    pub fn mark_initial_links_stable(&mut self) -> (r: Result<(), RoutingError>)
        requires
            old(self).wf(),
        ensures
            final(self).wf(),
            (final(self)@, fate(r)) == old(self)@.initial_links_marked(2),
    {
        let mut m: LinkMemory = match self.take_memory(LINK_ID_BROKER) {
            Ok(m) => m,
            Err(e) => {
                proof {
                    reveal_with_fuel(NodeView::initial_links_marked, 3);
                }
                return Err(e);
            },
        };
        let first = FragmentDescriptor {
            buffer_id: 0,
            offset: LinkMemory::initial_link_state_offset(0) as u32,
            size: ROUTER_LINK_STATE_SIZE as u32,
        };
        let second = FragmentDescriptor {
            buffer_id: 0,
            offset: LinkMemory::initial_link_state_offset(1) as u32,
            size: ROUTER_LINK_STATE_SIZE as u32,
        };
        let ghost m0 = m@;
        let _ = m.set_side_stable(first, false);
        assert(resolve_at_least(m0, first, 8) is Ok);
        let ghost m1 = m@;
        let _ = m.set_side_stable(second, false);
        assert(resolve_at_least(m1, second, 8) is Ok);
        self.put_memory(LINK_ID_BROKER, m);
        proof {
            reveal_with_fuel(NodeView::initial_links_marked, 3);
            assert(first == initial_state(0));
            assert(second == initial_state(1));
            assert(self@ =~= old(self)@.initial_links_marked(2).0);
        }
        Ok(())
    }

    /// The sublink that the bootstrap pipe is on now.
    pub fn bootstrap_sublink(&self) -> (r: Result<u64, RoutingError>)
        ensures
            fate(r) == self@.bootstrap_now(),
    {
        match self.routers.get(self.bootstrap_rid) {
            Some(r) => match r.outward.primary {
                Some(l) => Ok(l.sublink),
                None => Err(RoutingError::Unexpected("bootstrap router has no primary link")),
            },
            None => Err(RoutingError::Unexpected("bootstrap router has no primary link")),
        }
    }
}

} // verus!
