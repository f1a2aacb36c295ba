//! The state of a routing node: routers and the sublinks that they own, the
//! memory of its links, the work that is still to be done and the messages that
//! are to be sent.

use std::collections::{HashMap, HashSet};
use vstd::prelude::*;

#[allow(unused_imports)]
use crate::bytes::next_number;
use crate::bytes::following;
#[allow(unused_imports)]
use crate::casefile::events::{event_views, plain_event, EventView};
use crate::casefile::events::{Event, EventKind};
use crate::ipcz::channel::ChannelError;
#[allow(unused_imports)]
use crate::ipcz::link_memory::{memory_ok, LinkMemoryView};
use crate::ipcz::link_memory::{LinkMemory, LinkMemoryError};
#[allow(unused_imports)]
use crate::ipcz::messages::{null_fragment, AcceptParcelView};
use crate::ipcz::messages::{AcceptParcel, FragmentDescriptor, NodeName};
use crate::ipcz::pair_map::PairMap;
#[allow(unused_imports)]
use crate::ipcz::router::{ParcelView, RouterView};
use crate::ipcz::router::{Link, LocalLinkState, Parcel, Router};
use crate::ipcz::wire::WireError;
#[allow(unused_imports)]
use crate::text::decimal;
use crate::text::{joined, labelled};

verus! {

broadcast use vstd::std_specs::hash::group_hash_axioms;

/// The id of the link to the broker.
pub const LINK_ID_BROKER: u64 = 0;

/// The id of the direct link to a peer.
pub const LINK_ID_DIRECT: u64 = 1;

/// The first identity of a router that has no sublink; far above any sublink.
pub const LOCAL_RID_BASE: u64 = 0x1_0000_0000;

/// A handle that is a portal.
pub const HANDLE_PORTAL: u32 = 0;

/// A handle that is a boxed driver object.
pub const HANDLE_BOXED_DRIVER_OBJECT: u32 = 1;

/// A placeholder for a driver object that another message brings.
pub const HANDLE_RELAYED_BOXED_DRIVER_OBJECT: u32 = 2;

/// A handle that is a boxed subparcel.
pub const HANDLE_BOXED_SUBPARCEL: u32 = 3;

/// The id of the message that asks a peer to bypass a node.
pub const MSG_ID_BYPASS_PEER: u8 = 30;

/// The size of a serialized router descriptor.
pub const ROUTER_DESCRIPTOR_SIZE: usize = 96;

/// Errors from the routing node.
#[derive(Debug, Clone, Copy)]
pub enum RoutingError {
    /// A channel-level failure.
    Channel(ChannelError),
    /// A link-memory failure.
    Memory(LinkMemoryError),
    /// A protocol violation or malformed message.
    BadParcel(&'static str),
    /// A wire-format violation in an inbound message.
    Wire(WireError),
    /// An unexpected message at this point of the flow.
    Unexpected(&'static str),
    /// A message type that the node does not implement.
    Unsupported(u8, &'static str),
    /// The operating system refused, with the number that it gave.
    Io(i32),
}

/// What a routing error says.
pub enum Fault {
    /// A channel-level failure.
    Channel(ChannelError),
    /// A link-memory failure.
    Memory(LinkMemoryError),
    /// A protocol violation or malformed message.
    BadParcel(Seq<char>),
    /// A wire-format violation in an inbound message.
    Wire(WireError),
    /// An unexpected message at this point of the flow.
    Unexpected(Seq<char>),
    /// A message type that the node does not implement.
    Unsupported(u8, Seq<char>),
    /// The operating system refused.
    Io(i32),
}

impl View for RoutingError {
    type V = Fault;

    open spec fn view(&self) -> Fault {
        match *self {
            RoutingError::Channel(e) => Fault::Channel(e),
            RoutingError::Memory(e) => Fault::Memory(e),
            RoutingError::BadParcel(s) => Fault::BadParcel(s@),
            RoutingError::Wire(e) => Fault::Wire(e),
            RoutingError::Unexpected(s) => Fault::Unexpected(s@),
            RoutingError::Unsupported(id, s) => Fault::Unsupported(id, s@),
            RoutingError::Io(n) => Fault::Io(n),
        }
    }
}

/// A result with its error as a [`Fault`].
pub open spec fn fate<T>(r: Result<T, RoutingError>) -> Result<T, Fault> {
    match r {
        Ok(v) => Ok(v),
        Err(e) => Err(e@),
    }
}

/// The name of a link-memory error.
pub open spec fn memory_error_name(e: LinkMemoryError) -> Seq<char> {
    match e {
        LinkMemoryError::UnknownBuffer => "UnknownBuffer"@,
        LinkMemoryError::OutOfBounds => "OutOfBounds"@,
        LinkMemoryError::Misaligned => "Misaligned"@,
        LinkMemoryError::NullDescriptor => "NullDescriptor"@,
    }
}

impl RoutingError {
    /// The message of the error; that of an I/O failure is in `io`.
    pub open spec fn spec_text(self, io: Seq<char>) -> Seq<char> {
        match self {
            RoutingError::Channel(e) => "channel: "@ + e.spec_text(io),
            RoutingError::Memory(e) => "link memory: "@ + memory_error_name(e),
            RoutingError::BadParcel(s) => "bad parcel: "@ + s@,
            RoutingError::Wire(e) => "wire: "@ + e.spec_text(),
            RoutingError::Unexpected(s) => "unexpected: "@ + s@,
            RoutingError::Unsupported(id, s) => "unsupported message "@ + decimal(id as nat)
                + ": "@ + s@,
            RoutingError::Io(_) => "io: "@ + io,
        }
    }

    /// The message of the error; that of an I/O failure is in `io`.
    pub fn text(self, io: &str) -> (r: String)
        ensures
            r@ == self.spec_text(io@),
    {
        match self {
            RoutingError::Channel(e) => joined("channel: ", e.text(io).as_str()),
            RoutingError::Memory(e) => {
                let name = match e {
                    LinkMemoryError::UnknownBuffer => "UnknownBuffer",
                    LinkMemoryError::OutOfBounds => "OutOfBounds",
                    LinkMemoryError::Misaligned => "Misaligned",
                    LinkMemoryError::NullDescriptor => "NullDescriptor",
                };
                joined("link memory: ", name)
            },
            RoutingError::BadParcel(s) => joined("bad parcel: ", s),
            RoutingError::Wire(e) => joined("wire: ", e.text().as_str()),
            RoutingError::Unexpected(s) => joined("unexpected: ", s),
            RoutingError::Unsupported(id, s) => {
                let head = labelled("unsupported message ", id as u64);
                let head = joined(head.as_str(), ": ");
                joined(head.as_str(), s)
            },
            RoutingError::Io(_) => joined("io: ", io),
        }
    }
}

/// The description of a router that is to be set up on the receiving node, as a
/// portal is transferred.
#[derive(Debug, Clone, Copy, PartialEq, Eq, Structural)]
pub struct RouterDescriptor {
    /// The sublink of the new router's primary link.
    pub new_sublink: u64,
    /// The link state of the new link, where it is central.
    pub new_link_state_fragment: FragmentDescriptor,
    /// The sublink of the decaying link, where the proxy is bypassed already.
    pub new_decaying_sublink: u64,
    /// The number of the next parcel that the new router sends.
    pub next_outgoing_sequence_number: u64,
    /// The number of the next parcel that the new router receives.
    pub next_incoming_sequence_number: u64,
    /// The length of the sequence received on the decaying link.
    pub decaying_incoming_sequence_length: u64,
    /// Whether the far end is closed.
    pub peer_closed: bool,
    /// The number of parcels that the closed far end sent.
    pub closed_peer_sequence_length: u64,
    /// Whether the proxy that stays behind is bypassed already.
    pub proxy_already_bypassed: bool,
    /// The node of the proxy's outward peer, where the new router is to bypass
    /// the proxy.
    pub proxy_peer_node_name: NodeName,
    /// The sublink of the proxy's outward peer.
    pub proxy_peer_sublink: u64,
}

/// A descriptor that says nothing.
pub open spec fn blank_descriptor() -> RouterDescriptor {
    RouterDescriptor {
        new_sublink: 0,
        new_link_state_fragment: null_fragment(),
        new_decaying_sublink: 0,
        next_outgoing_sequence_number: 0,
        next_incoming_sequence_number: 0,
        decaying_incoming_sequence_length: 0,
        peer_closed: false,
        closed_peer_sequence_length: 0,
        proxy_already_bypassed: false,
        proxy_peer_node_name: NodeName { high: 0, low: 0 },
        proxy_peer_sublink: 0,
    }
}

impl Default for RouterDescriptor {
    fn default() -> (r: RouterDescriptor)
        ensures
            r == blank_descriptor(),
    {
        RouterDescriptor {
            new_sublink: 0,
            new_link_state_fragment: FragmentDescriptor {
                buffer_id: FragmentDescriptor::INVALID_BUFFER_ID,
                offset: 0,
                size: 0,
            },
            new_decaying_sublink: 0,
            next_outgoing_sequence_number: 0,
            next_incoming_sequence_number: 0,
            decaying_incoming_sequence_length: 0,
            peer_closed: false,
            closed_peer_sequence_length: 0,
            proxy_already_bypassed: false,
            proxy_peer_node_name: NodeName { high: 0, low: 0 },
            proxy_peer_sublink: 0,
        }
    }
}

/// A parcel as it came in, with the routers that it describes.
pub struct InboundParcel {
    /// The parcel.
    pub parcel: AcceptParcel,
    /// The routers that its descriptors describe, in order.
    pub routers: Vec<RouterDescriptor>,
}

/// What an inbound parcel holds.
#[verifier::ext_equal]
pub struct InboundView {
    /// The parcel.
    pub parcel: AcceptParcelView,
    /// The routers that its descriptors describe.
    pub routers: Seq<RouterDescriptor>,
}

impl View for InboundParcel {
    type V = InboundView;

    open spec fn view(&self) -> InboundView {
        InboundView { parcel: self.parcel@, routers: self.routers@ }
    }
}

/// What a list of inbound parcels holds.
pub open spec fn inbound_views(v: Seq<InboundParcel>) -> Seq<InboundView> {
    v.map_values(|p: InboundParcel| p@)
}

/// A message to another node.
pub enum LinkMessage {
    /// The reply to the broker's greeting.
    ConnectReply {
        /// The number of initial portals.
        portals: u32,
    },
    /// The request for shared memory service: a transport on portal 0.
    SharedMemoryClient,
    /// A parcel, with a portal handle for each router.
    Parcel {
        /// The sublink.
        sublink: u64,
        /// The number of the parcel on its route.
        sequence_number: u64,
        /// Where the data is, if in a fragment.
        fragment: Option<FragmentDescriptor>,
        /// The data.
        data: Vec<u8>,
        /// The routers that go with the parcel.
        routers: Vec<RouterDescriptor>,
    },
    /// A route is closed.
    RouteClosed {
        /// The sublink.
        sublink: u64,
        /// The number of parcels sent on the route.
        sequence_length: u64,
    },
    /// The peer is to flush a router.
    FlushRouter {
        /// The sublink.
        sublink: u64,
    },
    /// The peer is to bypass this node.
    BypassPeer {
        /// The sublink.
        sublink: u64,
        /// The node to connect to.
        target_node: NodeName,
        /// The sublink there.
        target_sublink: u64,
    },
    /// The peer is to bypass a proxy with a new link.
    BypassPeerWithLink {
        /// The sublink.
        sublink: u64,
        /// The sublink of the new link.
        new_sublink: u64,
        /// The state of the new link.
        link_state: FragmentDescriptor,
        /// The number of parcels sent on the old link.
        sequence_length: u64,
    },
    /// The peer of a proxy is to accept a new link.
    AcceptBypassLink {
        /// The node of the proxy.
        current_peer_node: NodeName,
        /// The sublink of the link to the proxy.
        current_peer_sublink: u64,
        /// The number of parcels sent on the old link.
        sequence_length: u64,
        /// The sublink of the new link.
        new_sublink: u64,
        /// The state of the new link.
        link_state: FragmentDescriptor,
    },
    /// The proxy is to stop.
    StopProxyingToLocalPeer {
        /// The sublink.
        sublink: u64,
        /// The number of parcels sent to the proxy.
        sequence_length: u64,
    },
    /// The broker is asked for memory.
    RequestMemory {
        /// The size.
        size: u32,
    },
    /// A buffer is shared with the peer; its descriptor goes with the message.
    AddBlockBuffer {
        /// The id of the buffer.
        buffer_id: u64,
        /// The size of its blocks.
        block_size: u32,
        /// The size of the buffer.
        size: u32,
        /// The descriptor of the buffer.
        fd: i32,
    },
}

/// What a message to another node holds.
#[verifier::ext_equal]
pub enum LinkMessageView {
    /// The reply to the broker's greeting.
    ConnectReply(u32),
    /// The request for shared memory service.
    SharedMemoryClient,
    /// A parcel: sublink, number, fragment, data and routers.
    Parcel(u64, u64, Option<FragmentDescriptor>, Seq<u8>, Seq<RouterDescriptor>),
    /// A route is closed: sublink and length.
    RouteClosed(u64, u64),
    /// The peer is to flush the router of a sublink.
    FlushRouter(u64),
    /// The peer is to bypass this node: sublink, target node and sublink.
    BypassPeer(u64, NodeName, u64),
    /// The peer is to bypass a proxy: sublink, new sublink, state and length.
    BypassPeerWithLink(u64, u64, FragmentDescriptor, u64),
    /// The peer of a proxy is to accept a link: node, sublink, length, new
    /// sublink and state.
    AcceptBypassLink(NodeName, u64, u64, u64, FragmentDescriptor),
    /// The proxy is to stop: sublink and length.
    StopProxyingToLocalPeer(u64, u64),
    /// The broker is asked for memory of a size.
    RequestMemory(u32),
    /// A buffer is shared: id, block size, size and descriptor.
    AddBlockBuffer(u64, u32, u32, i32),
}

impl View for LinkMessage {
    type V = LinkMessageView;

    open spec fn view(&self) -> LinkMessageView {
        match *self {
            LinkMessage::ConnectReply { portals } => LinkMessageView::ConnectReply(portals),
            LinkMessage::SharedMemoryClient => LinkMessageView::SharedMemoryClient,
            LinkMessage::Parcel { sublink, sequence_number, fragment, data, routers } =>
                LinkMessageView::Parcel(sublink, sequence_number, fragment, data@, routers@),
            LinkMessage::RouteClosed { sublink, sequence_length } => LinkMessageView::RouteClosed(
                sublink,
                sequence_length,
            ),
            LinkMessage::FlushRouter { sublink } => LinkMessageView::FlushRouter(sublink),
            LinkMessage::BypassPeer { sublink, target_node, target_sublink } =>
                LinkMessageView::BypassPeer(sublink, target_node, target_sublink),
            LinkMessage::BypassPeerWithLink { sublink, new_sublink, link_state, sequence_length } =>
                LinkMessageView::BypassPeerWithLink(
                sublink,
                new_sublink,
                link_state,
                sequence_length,
            ),
            LinkMessage::AcceptBypassLink {
                current_peer_node,
                current_peer_sublink,
                sequence_length,
                new_sublink,
                link_state,
            } => LinkMessageView::AcceptBypassLink(
                current_peer_node,
                current_peer_sublink,
                sequence_length,
                new_sublink,
                link_state,
            ),
            LinkMessage::StopProxyingToLocalPeer { sublink, sequence_length } =>
                LinkMessageView::StopProxyingToLocalPeer(sublink, sequence_length),
            LinkMessage::RequestMemory { size } => LinkMessageView::RequestMemory(size),
            LinkMessage::AddBlockBuffer { buffer_id, block_size, size, fd } =>
                LinkMessageView::AddBlockBuffer(buffer_id, block_size, size, fd),
        }
    }
}

/// A message in the outbox.
pub struct NumberedMessage {
    /// The link that it goes to.
    pub link_id: u64,
    /// Its number on the link.
    pub number: u64,
    /// The message.
    pub message: LinkMessage,
}

/// What a message in the outbox holds.
#[verifier::ext_equal]
pub struct NumberedView {
    /// The link that it goes to.
    pub link_id: u64,
    /// Its number on the link.
    pub number: u64,
    /// The message.
    pub message: LinkMessageView,
}

impl View for NumberedMessage {
    type V = NumberedView;

    open spec fn view(&self) -> NumberedView {
        NumberedView { link_id: self.link_id, number: self.number, message: self.message@ }
    }
}

/// A piece of work that is still to be done. Work is taken from the end of the
/// list, so that what a piece of work leads to is done before what came before.
pub enum Task {
    /// Flush a router: collect what it can send.
    Flush {
        /// The router.
        rid: u64,
        /// Whether the peer is to be woken in any case.
        force: bool,
    },
    /// The rest of a flush, once the collected parcels are on their way.
    FinishFlush {
        /// The router.
        rid: u64,
        /// Whether the peer is to be woken in any case.
        force: bool,
        /// Whether the router was on a central link at the start.
        on_central: bool,
        /// Whether the outward edge had a decaying link at the start.
        outward_decaying: bool,
        /// Whether the inward edge had a decaying link at the start.
        inward_decaying: bool,
    },
    /// Send a parcel on a link.
    Transmit {
        /// The link.
        link: Link,
        /// The parcel.
        parcel: Parcel,
    },
    /// Tell the other end of a released link that the route is closed.
    DeliverClosed {
        /// The link.
        link: Link,
        /// The number of parcels sent.
        length: u64,
    },
    /// Wake the other end of a router's link if it waits.
    WakePeer {
        /// The router.
        rid: u64,
    },
    /// Try to collapse the bridge of a router.
    BridgeBypass {
        /// The router.
        rid: u64,
    },
    /// Adopt the links of a router that was sent to another node.
    BeginProxying {
        /// The router.
        rid: u64,
        /// Its description.
        descriptor: RouterDescriptor,
        /// The link that it was sent on.
        link_id: u64,
    },
    /// Accept a parcel that came in.
    Accept {
        /// The parcel.
        parcel: InboundParcel,
        /// The link that it came on.
        link_id: u64,
    },
    /// Set up a router that a parcel describes.
    Deserialize {
        /// Its description.
        descriptor: RouterDescriptor,
        /// The link that it came on.
        link_id: u64,
    },
    /// Bypass the proxy that a router was sent through.
    BypassPeer {
        /// The router.
        rid: u64,
        /// The link to the proxy.
        requestor_link_id: u64,
        /// The node of the proxy's outward peer.
        target_node: NodeName,
        /// The sublink of the proxy's outward peer.
        target_sublink: u64,
    },
    /// Route a parcel whose routers are set up.
    Route {
        /// The parcel.
        parcel: InboundParcel,
        /// Its data.
        payload: Vec<u8>,
        /// The link that it came on.
        link_id: u64,
    },
}

/// What a piece of work is.
#[verifier::ext_equal]
pub enum TaskView {
    /// Flush a router.
    Flush(u64, bool),
    /// The rest of a flush: router, force, and what held at the start.
    FinishFlush(u64, bool, bool, bool, bool),
    /// Send a parcel on a link.
    Transmit(Link, ParcelView),
    /// Tell the other end of a released link that the route is closed.
    DeliverClosed(Link, u64),
    /// Wake the other end of a router's link if it waits.
    WakePeer(u64),
    /// Try to collapse the bridge of a router.
    BridgeBypass(u64),
    /// Adopt the links of a router that was sent to another node.
    BeginProxying(u64, RouterDescriptor, u64),
    /// Accept a parcel that came in.
    Accept(InboundView, u64),
    /// Set up a router that a parcel describes.
    Deserialize(RouterDescriptor, u64),
    /// Bypass the proxy that a router was sent through.
    BypassPeer(u64, u64, NodeName, u64),
    /// Route a parcel whose routers are set up.
    Route(InboundView, Seq<u8>, u64),
}

impl View for Task {
    type V = TaskView;

    open spec fn view(&self) -> TaskView {
        match *self {
            Task::Flush { rid, force } => TaskView::Flush(rid, force),
            Task::FinishFlush { rid, force, on_central, outward_decaying, inward_decaying } =>
                TaskView::FinishFlush(rid, force, on_central, outward_decaying, inward_decaying),
            Task::Transmit { link, parcel } => TaskView::Transmit(link, parcel@),
            Task::DeliverClosed { link, length } => TaskView::DeliverClosed(link, length),
            Task::WakePeer { rid } => TaskView::WakePeer(rid),
            Task::BridgeBypass { rid } => TaskView::BridgeBypass(rid),
            Task::BeginProxying { rid, descriptor, link_id } => TaskView::BeginProxying(
                rid,
                descriptor,
                link_id,
            ),
            Task::Accept { parcel, link_id } => TaskView::Accept(parcel@, link_id),
            Task::Deserialize { descriptor, link_id } => TaskView::Deserialize(descriptor, link_id),
            Task::BypassPeer { rid, requestor_link_id, target_node, target_sublink } =>
                TaskView::BypassPeer(rid, requestor_link_id, target_node, target_sublink),
            Task::Route { parcel, payload, link_id } => TaskView::Route(
                parcel@,
                payload@,
                link_id,
            ),
        }
    }
}

/// A request for memory that a reply is expected to.
#[derive(Debug, Clone, Copy, PartialEq, Eq, Structural)]
pub struct PendingMemoryRequest {
    /// The requested buffer size.
    pub buffer_size: u32,
    /// The block size that the buffer is for.
    pub block_size: u32,
}

/// Routers by identity.
pub struct RouterTable {
    /// The routers.
    pub map: HashMap<u64, Router>,
}

impl View for RouterTable {
    type V = Map<u64, RouterView>;

    open spec fn view(&self) -> Map<u64, RouterView> {
        self.map@.map_values(|r: Router| r@)
    }
}

/// Taking an entry out of a map and putting another in its place.
pub broadcast proof fn lemma_reinsert<K, V>(m: Map<K, V>, k: K, v: V)
    ensures
        #[trigger] m.remove(k).insert(k, v) == m.insert(k, v),
{
    assert(m.remove(k).insert(k, v) =~= m.insert(k, v));
}

/// Putting back what is there.
pub broadcast proof fn lemma_insert_same<K, V>(m: Map<K, V>, k: K)
    requires
        m.contains_key(k),
    ensures
        #[trigger] m.insert(k, m[k]) == m,
{
    assert(m.insert(k, m[k]) =~= m);
}

impl RouterTable {
    /// A table without routers.
    pub fn new() -> (r: RouterTable)
        ensures
            r@ == Map::<u64, RouterView>::empty(),
    {
        let r = RouterTable { map: HashMap::new() };
        assert(r@ =~= Map::<u64, RouterView>::empty());
        r
    }

    /// The router of an identity.
    pub fn get(&self, rid: u64) -> (r: Option<&Router>)
        ensures
            match r {
                Some(x) => self@.contains_key(rid) && x@ == self@[rid],
                None => !self@.contains_key(rid),
            },
    {
        self.map.get(&rid)
    }

    /// Take a router out of the table.
    pub fn take(&mut self, rid: u64) -> (r: Option<Router>)
        ensures
            match r {
                Some(x) => {
                    &&& old(self)@.contains_key(rid)
                    &&& x@ == old(self)@[rid]
                    &&& final(self)@ == old(self)@.remove(rid)
                },
                None => !old(self)@.contains_key(rid) && final(self)@ == old(self)@,
            },
    {
        let r = self.map.remove(&rid);
        assert(self@ =~= old(self)@.remove(rid));
        assert(!old(self)@.contains_key(rid) ==> old(self)@.remove(rid) =~= old(self)@);
        r
    }

    /// Put a router into the table.
    pub fn put(&mut self, rid: u64, router: Router)
        ensures
            final(self)@ == old(self)@.insert(rid, router@),
    {
        let ghost view = router@;
        self.map.insert(rid, router);
        assert(self@ =~= old(self)@.insert(rid, view));
    }
}

/// The routing node.
pub struct RoutingAcceptor {
    /// The memory of the link to the broker (set by the handshake).
    pub link_memory: Option<LinkMemory>,
    /// The memory of the direct link to a peer, once there is one.
    pub direct_memory: Option<LinkMemory>,
    /// The name of the node at the other end of the direct link.
    pub direct_name: NodeName,
    /// The number of the next message on the direct link.
    pub direct_seq: u64,
    /// The number of the next message on the link to the broker.
    pub next_link_seq: u64,
    /// Routers by identity (their first primary sublink, or a local number).
    pub routers: RouterTable,
    /// The identities of routers by link and sublink.
    pub owners: PairMap<u64>,
    /// Parcels for sublinks whose router is not yet there.
    pub early_parcels: PairMap<Vec<InboundParcel>>,
    /// The broker's name.
    pub broker_name: NodeName,
    /// The name of the node that referred this one.
    pub referrer_name: NodeName,
    /// The name of this node.
    pub local_name: NodeName,
    /// The router of the bootstrap pipe.
    pub bootstrap_rid: u64,
    /// The next identity of a router without sublink.
    pub next_rid: u64,
    /// Requests for memory in flight, in order.
    pub pending_memory_requests: Vec<PendingMemoryRequest>,
    /// Block sizes for which capacity is being requested.
    pub capacity_pending: HashSet<u32>,
    /// Parcels whose data is in a buffer that is not there yet, by buffer.
    pub pending_fragments: HashMap<u64, Vec<InboundParcel>>,
    /// The states of the local links.
    pub local_states: Vec<LocalLinkState>,
    /// The events so far.
    pub events: Vec<Event>,
    /// The number of the last event.
    pub event_seq: u64,
    /// The work that is still to be done, the next piece last.
    pub tasks: Vec<Task>,
    /// The messages that are to be sent, in order.
    pub outbox: Vec<NumberedMessage>,
}

/// The state of a routing node.
#[verifier::ext_equal]
pub struct NodeView {
    /// The memory of the link to the broker.
    pub memory: Option<LinkMemoryView>,
    /// The memory of the direct link.
    pub direct_memory: Option<LinkMemoryView>,
    /// The name of the node at the other end of the direct link.
    pub direct_name: NodeName,
    /// The number of the next message on the direct link.
    pub direct_seq: u64,
    /// The number of the next message on the link to the broker.
    pub next_link_seq: u64,
    /// Routers by identity.
    pub routers: Map<u64, RouterView>,
    /// The identities of routers by link and sublink.
    pub owners: Map<(u64, u64), u64>,
    /// Parcels for sublinks whose router is not yet there.
    pub early: Map<(u64, u64), Seq<InboundView>>,
    /// The broker's name.
    pub broker_name: NodeName,
    /// The name of the node that referred this one.
    pub referrer_name: NodeName,
    /// The name of this node.
    pub local_name: NodeName,
    /// The router of the bootstrap pipe.
    pub bootstrap_rid: u64,
    /// The next identity of a router without sublink.
    pub next_rid: u64,
    /// Requests for memory in flight, in order.
    pub requests: Seq<PendingMemoryRequest>,
    /// Block sizes for which capacity is being requested.
    pub capacity_pending: Set<u32>,
    /// Parcels whose data is in a buffer that is not there yet, by buffer.
    pub pending_fragments: Map<u64, Seq<InboundView>>,
    /// The states of the local links.
    pub local_states: Seq<LocalLinkState>,
    /// The events so far.
    pub events: Seq<EventView>,
    /// The number of the last event.
    pub event_seq: u64,
    /// The work that is still to be done, the next piece last.
    pub tasks: Seq<TaskView>,
    /// The messages that are to be sent, in order.
    pub outbox: Seq<NumberedView>,
}

/// The link memory that is there, if any.
pub open spec fn opt_memory(m: Option<LinkMemory>) -> Option<LinkMemoryView> {
    match m {
        Some(m) => Some(m@),
        None => None,
    }
}

impl View for RoutingAcceptor {
    type V = NodeView;

    open spec fn view(&self) -> NodeView {
        NodeView {
            memory: opt_memory(self.link_memory),
            direct_memory: opt_memory(self.direct_memory),
            direct_name: self.direct_name,
            direct_seq: self.direct_seq,
            next_link_seq: self.next_link_seq,
            routers: self.routers@,
            owners: self.owners@,
            early: self.early_parcels@.map_values(|q: Vec<InboundParcel>| inbound_views(q@)),
            broker_name: self.broker_name,
            referrer_name: self.referrer_name,
            local_name: self.local_name,
            bootstrap_rid: self.bootstrap_rid,
            next_rid: self.next_rid,
            requests: self.pending_memory_requests@,
            capacity_pending: self.capacity_pending@,
            pending_fragments: self.pending_fragments@.map_values(
                |q: Vec<InboundParcel>| inbound_views(q@),
            ),
            local_states: self.local_states@,
            events: event_views(self.events@),
            event_seq: self.event_seq,
            tasks: self.tasks@.map_values(|t: Task| t@),
            outbox: self.outbox@.map_values(|m: NumberedMessage| m@),
        }
    }
}

/// A state, and the error that stopped the step that led to it, if one did.
pub type NodeStep = (NodeView, Result<(), Fault>);

impl NodeView {
    /// The state with a router.
    pub open spec fn with_router(self, rid: u64, r: RouterView) -> NodeView {
        NodeView { routers: self.routers.insert(rid, r), ..self }
    }

    /// The state with another piece of work to be done next.
    pub open spec fn then_task(self, t: TaskView) -> NodeView {
        NodeView { tasks: self.tasks.push(t), ..self }
    }

    /// The memory of a link.
    pub open spec fn memory_of(self, link_id: u64) -> Result<LinkMemoryView, Fault> {
        if link_id == LINK_ID_DIRECT {
            match self.direct_memory {
                Some(m) => Ok(m),
                None => Err(Fault::Unexpected("direct link not established"@)),
            }
        } else {
            match self.memory {
                Some(m) => Ok(m),
                None => Err(Fault::Unexpected("link memory not established"@)),
            }
        }
    }

    /// The state with the memory of a link.
    pub open spec fn with_memory(self, link_id: u64, m: LinkMemoryView) -> NodeView {
        if link_id == LINK_ID_DIRECT {
            NodeView { direct_memory: Some(m), ..self }
        } else {
            NodeView { memory: Some(m), ..self }
        }
    }

    /// The state without the memory of a link.
    pub open spec fn without_memory(self, link_id: u64) -> NodeView {
        if link_id == LINK_ID_DIRECT {
            NodeView { direct_memory: None, ..self }
        } else {
            NodeView { memory: None, ..self }
        }
    }

    /// The state with a message to the broker.
    pub open spec fn with_message(self, m: LinkMessageView) -> NodeView {
        NodeView {
            outbox: self.outbox.push(
                NumberedView { link_id: LINK_ID_BROKER, number: self.next_link_seq, message: m },
            ),
            next_link_seq: next_number(self.next_link_seq),
            ..self
        }
    }

    /// The state with a message on a link.
    pub open spec fn with_message_on(self, link_id: u64, m: LinkMessageView) -> NodeStep {
        if link_id == LINK_ID_DIRECT {
            if self.direct_memory is None {
                (self, Err(Fault::Unexpected("direct link not established"@)))
            } else {
                (
                    NodeView {
                        outbox: self.outbox.push(
                            NumberedView { link_id, number: self.direct_seq, message: m },
                        ),
                        direct_seq: next_number(self.direct_seq),
                        ..self
                    },
                    Ok(()),
                )
            }
        } else {
            (self.with_message(m), Ok(()))
        }
    }

    /// The state with one more event.
    pub open spec fn with_event(self, e: EventView) -> NodeView {
        NodeView { events: self.events.push(e), event_seq: e.seq, ..self }
    }

    /// The state with one more event that is nothing but a result.
    pub open spec fn emitted(self, op_id: u64, kind: EventKind, result: Seq<char>) -> NodeView {
        self.with_event(plain_event(next_number(self.event_seq), op_id, kind, result))
    }

    /// The state with a parcel kept for a sublink.
    pub open spec fn with_early(self, key: (u64, u64), p: InboundView) -> NodeView {
        let queue = if self.early.contains_key(key) {
            self.early[key]
        } else {
            Seq::empty()
        };
        NodeView { early: self.early.insert(key, queue.push(p)), ..self }
    }

    /// The state with a parcel kept until a buffer is there.
    pub open spec fn with_waiting(self, buffer_id: u64, p: InboundView) -> NodeView {
        let queue = if self.pending_fragments.contains_key(buffer_id) {
            self.pending_fragments[buffer_id]
        } else {
            Seq::empty()
        };
        NodeView {
            pending_fragments: self.pending_fragments.insert(buffer_id, queue.push(p)),
            ..self
        }
    }
}

/// A node before the handshake.
pub open spec fn fresh_node() -> NodeView {
    NodeView {
        memory: None,
        direct_memory: None,
        direct_name: NodeName { high: 0, low: 0 },
        direct_seq: 0,
        next_link_seq: 0,
        routers: Map::empty(),
        owners: Map::empty(),
        early: Map::empty(),
        broker_name: NodeName { high: 0, low: 0 },
        referrer_name: NodeName { high: 0, low: 0 },
        local_name: NodeName { high: 0, low: 0 },
        bootstrap_rid: 0,
        next_rid: LOCAL_RID_BASE,
        requests: Seq::empty(),
        capacity_pending: Set::empty(),
        pending_fragments: Map::empty(),
        local_states: Seq::empty(),
        events: Seq::empty(),
        event_seq: 0,
        tasks: Seq::empty(),
        outbox: Seq::empty(),
    }
}

impl RoutingAcceptor {
    /// The validity of a node.
    pub open spec fn wf(&self) -> bool {
        &&& self.owners.wf()
        &&& self.early_parcels.wf()
        &&& self@.memory matches Some(m) ==> memory_ok(m)
        &&& self@.direct_memory matches Some(m) ==> memory_ok(m)
    }

    /// A node before the handshake.
    pub fn new() -> (r: RoutingAcceptor)
        ensures
            r.wf(),
            r@ == fresh_node(),
    {
        let r = RoutingAcceptor {
            link_memory: None,
            direct_memory: None,
            direct_name: NodeName { high: 0, low: 0 },
            direct_seq: 0,
            next_link_seq: 0,
            routers: RouterTable::new(),
            owners: PairMap::new(),
            early_parcels: PairMap::new(),
            broker_name: NodeName { high: 0, low: 0 },
            referrer_name: NodeName { high: 0, low: 0 },
            local_name: NodeName { high: 0, low: 0 },
            bootstrap_rid: 0,
            next_rid: LOCAL_RID_BASE,
            pending_memory_requests: Vec::new(),
            capacity_pending: HashSet::new(),
            pending_fragments: HashMap::new(),
            local_states: Vec::new(),
            events: Vec::new(),
            event_seq: 0,
            tasks: Vec::new(),
            outbox: Vec::new(),
        };
        assert(r@.early =~= Map::empty());
        assert(r@.pending_fragments =~= Map::empty());
        assert(r@.events =~= Seq::empty());
        assert(r@.tasks =~= Seq::empty());
        assert(r@.outbox =~= Seq::empty());
        assert(r@.requests =~= Seq::empty());
        assert(r@.local_states =~= Seq::empty());
        r
    }

    /// The events emitted so far.
    pub fn events(&self) -> (r: &[Event])
        ensures
            event_views(r@) == self@.events,
    {
        self.events.as_slice()
    }

    /// Note an event.
    pub(crate) fn note(&mut self, e: Event)
        requires
            old(self).wf(),
        ensures
            final(self).wf(),
            final(self)@ == old(self)@.with_event(e@),
    {
        self.event_seq = e.seq;
        self.events.push(e);
        assert(self@.events =~= old(self)@.events.push(e@));
    }

    /// Note an event that is nothing but a result.
    pub(crate) fn emit(&mut self, op_id: u64, kind: EventKind, result: &str)
        requires
            old(self).wf(),
        ensures
            final(self).wf(),
            final(self)@ == old(self)@.emitted(op_id, kind, result@),
    {
        let e = Event::plain(following(self.event_seq), op_id, kind, result);
        self.note(e);
    }

    /// Add a piece of work, to be done next.
    pub(crate) fn push_task(&mut self, t: Task)
        requires
            old(self).wf(),
        ensures
            final(self).wf(),
            final(self)@ == old(self)@.then_task(t@),
    {
        let ghost view = t@;
        self.tasks.push(t);
        assert(self@.tasks =~= old(self)@.tasks.push(view));
    }

    /// Queue a message to the broker.
    pub(crate) fn send(&mut self, message: LinkMessage)
        requires
            old(self).wf(),
        ensures
            final(self).wf(),
            final(self)@ == old(self)@.with_message(message@),
    {
        let m = NumberedMessage {
            link_id: LINK_ID_BROKER,
            number: self.next_link_seq,
            message,
        };
        let ghost view = m@;
        self.next_link_seq = following(self.next_link_seq);
        self.outbox.push(m);
        assert(self@.outbox =~= old(self)@.outbox.push(view));
    }

    /// Queue a message on a link.
    pub(crate) fn send_on(&mut self, link_id: u64, message: LinkMessage) -> (r: Result<
        (),
        RoutingError,
    >)
        requires
            old(self).wf(),
        ensures
            final(self).wf(),
            (final(self)@, fate(r)) == old(self)@.with_message_on(link_id, message@),
    {
        if link_id == LINK_ID_DIRECT {
            if self.direct_memory.is_none() {
                return Err(RoutingError::Unexpected("direct link not established"));
            }
            let m = NumberedMessage { link_id, number: self.direct_seq, message };
            let ghost view = m@;
            self.direct_seq = following(self.direct_seq);
            self.outbox.push(m);
            assert(self@.outbox =~= old(self)@.outbox.push(view));
            return Ok(());
        }
        self.send(message);
        Ok(())
    }

    /// Take the memory of a link.
    pub(crate) fn take_memory(&mut self, link_id: u64) -> (r: Result<LinkMemory, RoutingError>)
        requires
            old(self).wf(),
        ensures
            final(self).wf(),
            match r {
                Ok(m) => {
                    &&& old(self)@.memory_of(link_id) == Ok::<LinkMemoryView, Fault>(m@)
                    &&& final(self)@ == old(self)@.without_memory(link_id)
                    &&& memory_ok(m@)
                },
                Err(e) => {
                    &&& old(self)@.memory_of(link_id) == Err::<LinkMemoryView, Fault>(e@)
                    &&& final(self)@ == old(self)@
                },
            },
    {
        if link_id == LINK_ID_DIRECT {
            match self.direct_memory.take() {
                Some(m) => Ok(m),
                None => Err(RoutingError::Unexpected("direct link not established")),
            }
        } else {
            match self.link_memory.take() {
                Some(m) => Ok(m),
                None => Err(RoutingError::Unexpected("link memory not established")),
            }
        }
    }

    /// Put the memory of a link back.
    pub(crate) fn put_memory(&mut self, link_id: u64, m: LinkMemory)
        requires
            old(self).wf(),
            memory_ok(m@),
        ensures
            final(self).wf(),
            final(self)@ == old(self)@.with_memory(link_id, m@),
    {
        if link_id == LINK_ID_DIRECT {
            self.direct_memory = Some(m);
        } else {
            self.link_memory = Some(m);
        }
    }

    /// Keep a parcel for a sublink whose router is not there yet.
    pub(crate) fn keep_early(&mut self, link_id: u64, sublink: u64, p: InboundParcel)
        requires
            old(self).wf(),
        ensures
            final(self).wf(),
            final(self)@ == old(self)@.with_early((link_id, sublink), p@),
    {
        let ghost before = self@.early;
        let ghost key = (link_id, sublink);
        let mut queue: Vec<InboundParcel> = match self.early_parcels.remove(link_id, sublink) {
            Some(q) => q,
            None => Vec::new(),
        };
        let ghost views = inbound_views(queue@);
        let ghost view = p@;
        queue.push(p);
        assert(inbound_views(queue@) =~= views.push(view));
        self.early_parcels.insert(link_id, sublink, queue);
        proof {
            if !before.contains_key(key) {
                assert(views =~= Seq::empty());
            }
            assert(self@.early =~= old(self)@.with_early(key, view).early);
        }
    }

    /// Keep a parcel until a buffer is there.
    pub(crate) fn keep_waiting(&mut self, buffer_id: u64, p: InboundParcel)
        requires
            old(self).wf(),
        ensures
            final(self).wf(),
            final(self)@ == old(self)@.with_waiting(buffer_id, p@),
    {
        let ghost before = self@.pending_fragments;
        let mut queue: Vec<InboundParcel> = match self.pending_fragments.remove(&buffer_id) {
            Some(q) => q,
            None => Vec::new(),
        };
        let ghost views = inbound_views(queue@);
        let ghost view = p@;
        queue.push(p);
        assert(inbound_views(queue@) =~= views.push(view));
        self.pending_fragments.insert(buffer_id, queue);
        proof {
            if !before.contains_key(buffer_id) {
                assert(views =~= Seq::empty());
            }
            assert(self@.pending_fragments =~= old(self)@.with_waiting(
                buffer_id,
                view,
            ).pending_fragments);
        }
    }
}

} // verus!
