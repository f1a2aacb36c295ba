//! Node message decoding and encoding: the fixed parameters of the node-link
//! message types decoded from validated payloads, and encoders for the
//! messages that a node emits.
//!
//! All reads are checked against the payload length. Unknown or malformed
//! messages are classified.

use vstd::prelude::*;
use vstd::slice::slice_subrange;
use vstd::slice::slice_to_vec;

use crate::bytes::{get_u16, get_u32, get_u64, push_u32, push_u64};
use crate::ipcz::wire::{parse_message_header, MessageBuilder, MessageHeader, WireError};

verus! {

/// A 128-bit node name (assigned by the broker, unique for each node).
#[derive(Debug, Clone, Copy, PartialEq, Eq, Hash, Structural)]
pub struct NodeName {
    /// High 64 bits.
    pub high: u64,
    /// Low 64 bits.
    pub low: u64,
}

impl NodeName {
    /// Whether the name is other than the all-zero (invalid) name.
    pub open spec fn spec_is_valid(self) -> bool {
        self.high != 0 || self.low != 0
    }

    /// Whether the name is other than the all-zero (invalid) name.
    pub fn is_valid(self) -> (r: bool)
        ensures
            r == self.spec_is_valid(),
    {
        self.high != 0 || self.low != 0
    }

    /// The all-zero (invalid) name.
    pub fn invalid() -> (r: NodeName)
        ensures
            r == (NodeName { high: 0, low: 0 }),
            !r.spec_is_valid(),
    {
        NodeName { high: 0, low: 0 }
    }
}

/// A span of memory within a shared buffer of the link.
#[derive(Debug, Clone, Copy, PartialEq, Eq, Structural)]
pub struct FragmentDescriptor {
    /// The shared buffer id.
    pub buffer_id: u64,
    /// Byte offset within the buffer.
    pub offset: u32,
    /// Fragment size in bytes.
    pub size: u32,
}

/// The descriptor that references no memory.
pub open spec fn null_fragment() -> FragmentDescriptor {
    FragmentDescriptor { buffer_id: FragmentDescriptor::INVALID_BUFFER_ID, offset: 0, size: 0 }
}

impl FragmentDescriptor {
    /// The buffer id of a descriptor that references no memory.
    pub const INVALID_BUFFER_ID: u64 = u64::MAX;

    /// Whether this descriptor is null (references no memory).
    pub open spec fn spec_is_null(self) -> bool {
        self.buffer_id == FragmentDescriptor::INVALID_BUFFER_ID
    }

    /// Whether this descriptor is null (references no memory).
    pub fn is_null(self) -> (r: bool)
        ensures
            r == self.spec_is_null(),
    {
        self.buffer_id == FragmentDescriptor::INVALID_BUFFER_ID
    }
}

impl Default for FragmentDescriptor {
    fn default() -> (r: FragmentDescriptor)
        ensures
            r == null_fragment(),
    {
        FragmentDescriptor { buffer_id: FragmentDescriptor::INVALID_BUFFER_ID, offset: 0, size: 0 }
    }
}

/// A driver object carried by a message: its serialized data and the span of
/// its descriptors in the list attached to the message.
#[derive(Debug, Clone, PartialEq, Eq)]
pub struct DriverObjectRef {
    /// Serialized object payload.
    pub data: Vec<u8>,
    /// Index of the first attached descriptor for this object.
    pub first_fd: usize,
    /// Number of attached descriptors.
    pub num_fds: usize,
}

/// What a [`DriverObjectRef`] holds.
pub struct DriverObjectView {
    /// Serialized object payload.
    pub data: Seq<u8>,
    /// Index of the first attached descriptor for this object.
    pub first_fd: nat,
    /// Number of attached descriptors.
    pub num_fds: nat,
}

impl View for DriverObjectRef {
    type V = DriverObjectView;

    open spec fn view(&self) -> DriverObjectView {
        DriverObjectView {
            data: self.data@,
            first_fd: self.first_fd as nat,
            num_fds: self.num_fds as nat,
        }
    }
}

/// What a list of driver objects holds.
pub open spec fn object_views(v: Seq<DriverObjectRef>) -> Seq<DriverObjectView> {
    v.map_values(|o: DriverObjectRef| o@)
}

/// The broker's greeting to a non-broker on a new connection (message id 0).
#[derive(Debug, Clone, Copy, PartialEq, Eq, Structural)]
pub struct ConnectFromBrokerToNonBroker {
    /// The broker's node name.
    pub broker_name: NodeName,
    /// The name the broker assigned to the receiving non-broker.
    pub receiver_name: NodeName,
    /// The highest protocol version known to the broker.
    pub protocol_version: u32,
    /// The number of initial portals the broker assumes.
    pub num_initial_portals: u32,
    /// Index of the link-memory buffer in the message's driver-object array.
    pub buffer_index: u32,
}

/// The non-broker's reply (message id 1).
#[derive(Debug, Clone, Copy, PartialEq, Eq, Structural)]
pub struct ConnectFromNonBrokerToBroker {
    /// The highest protocol version known to the sender.
    pub protocol_version: u32,
    /// The number of initial portals the sender assumes.
    pub num_initial_portals: u32,
}

/// A parcel delivered over a link (message id 20).
#[derive(Debug, Clone, PartialEq, Eq)]
pub struct AcceptParcel {
    /// The sublink the parcel targets.
    pub sublink: u64,
    /// The parcel's sequence number on its route.
    pub sequence_number: u64,
    /// Subparcel index (0 for a standalone parcel).
    pub subparcel_index: u32,
    /// Total subparcel count.
    pub num_subparcels: u32,
    /// Where the parcel data lives; null means inlined in the message.
    pub parcel_fragment: FragmentDescriptor,
    /// Inline parcel data (when `parcel_fragment` is null).
    pub parcel_data: Vec<u8>,
    /// Handle types, one for each attached object.
    pub handle_types: Vec<u32>,
    /// Serialized router descriptors (portal transfers).
    pub new_routers: Vec<u8>,
    /// Driver objects attached to the parcel.
    pub driver_objects: Vec<DriverObjectRef>,
}

/// What an [`AcceptParcel`] holds.
pub struct AcceptParcelView {
    /// The sublink the parcel targets.
    pub sublink: u64,
    /// The parcel's sequence number on its route.
    pub sequence_number: u64,
    /// Subparcel index.
    pub subparcel_index: u32,
    /// Total subparcel count.
    pub num_subparcels: u32,
    /// Where the parcel data lives.
    pub parcel_fragment: FragmentDescriptor,
    /// Inline parcel data.
    pub parcel_data: Seq<u8>,
    /// Handle types.
    pub handle_types: Seq<u32>,
    /// Serialized router descriptors.
    pub new_routers: Seq<u8>,
    /// Driver objects.
    pub driver_objects: Seq<DriverObjectView>,
}

impl View for AcceptParcel {
    type V = AcceptParcelView;

    open spec fn view(&self) -> AcceptParcelView {
        AcceptParcelView {
            sublink: self.sublink,
            sequence_number: self.sequence_number,
            subparcel_index: self.subparcel_index,
            num_subparcels: self.num_subparcels,
            parcel_fragment: self.parcel_fragment,
            parcel_data: self.parcel_data@,
            handle_types: self.handle_types@,
            new_routers: self.new_routers@,
            driver_objects: object_views(self.driver_objects@),
        }
    }
}

/// The driver-object half of a split parcel (message id 21).
#[derive(Debug, Clone, PartialEq, Eq)]
pub struct AcceptParcelDriverObjects {
    /// The sublink the parcel targets.
    pub sublink: u64,
    /// The parcel's route sequence number.
    pub sequence_number: u64,
    /// Driver objects attached to the parcel.
    pub driver_objects: Vec<DriverObjectRef>,
}

/// What an [`AcceptParcelDriverObjects`] holds.
pub struct AcceptParcelDriverObjectsView {
    /// The sublink the parcel targets.
    pub sublink: u64,
    /// The parcel's route sequence number.
    pub sequence_number: u64,
    /// Driver objects.
    pub driver_objects: Seq<DriverObjectView>,
}

impl View for AcceptParcelDriverObjects {
    type V = AcceptParcelDriverObjectsView;

    open spec fn view(&self) -> AcceptParcelDriverObjectsView {
        AcceptParcelDriverObjectsView {
            sublink: self.sublink,
            sequence_number: self.sequence_number,
            driver_objects: object_views(self.driver_objects@),
        }
    }
}

/// A route endpoint was closed (message id 22).
#[derive(Debug, Clone, Copy, PartialEq, Eq, Structural)]
pub struct RouteClosed {
    /// The sublink whose route is closed.
    pub sublink: u64,
    /// The number of parcels the closing end sent on the route.
    pub sequence_length: u64,
}

/// A route was severed by a node loss (message id 23).
#[derive(Debug, Clone, Copy, PartialEq, Eq, Structural)]
pub struct RouteDisconnected {
    /// The sublink whose route was severed.
    pub sublink: u64,
}

/// A request to bypass a proxy using a new central link (message id 34).
#[derive(Debug, Clone, Copy, PartialEq, Eq, Structural)]
pub struct BypassPeerWithLink {
    /// The sublink of the route to bypass.
    pub sublink: u64,
    /// The new sublink allocated for the direct link.
    pub new_sublink: u64,
    /// The link state fragment for the new central link.
    pub new_link_state_fragment: FragmentDescriptor,
    /// The sequence length already sent by the initiator.
    pub inbound_sequence_length: u64,
}

/// A bypassed proxy stops forwarding (message id 35).
#[derive(Debug, Clone, Copy, PartialEq, Eq, Structural)]
pub struct StopProxyingToLocalPeer {
    /// The sublink of the route.
    pub sublink: u64,
    /// The outbound sequence length at which forwarding stops.
    pub outbound_sequence_length: u64,
}

/// A request to a peer router to flush (message id 36).
#[derive(Debug, Clone, Copy, PartialEq, Eq, Structural)]
pub struct FlushRouter {
    /// The sublink of the router to flush.
    pub sublink: u64,
}

/// A new shared buffer added to the link (message id 14).
#[derive(Debug, Clone, Copy, PartialEq, Eq, Structural)]
pub struct AddBlockBuffer {
    /// The id of the new buffer.
    pub buffer_id: u64,
    /// The block size the buffer backs.
    pub block_size: u32,
    /// Index of the buffer's driver object in the message.
    pub buffer_index: u32,
}

/// A request for a shared buffer (message id 64), or its reply (65).
#[derive(Debug, Clone, Copy, PartialEq, Eq, Structural)]
pub struct MemoryRequest {
    /// The requested or provided buffer size.
    pub size: u32,
}

/// A decoded node message.
#[derive(Debug, Clone, PartialEq, Eq)]
pub enum DecodedMessage {
    /// Message id 0.
    ConnectFromBrokerToNonBroker(ConnectFromBrokerToNonBroker),
    /// Message id 1.
    ConnectFromNonBrokerToBroker(ConnectFromNonBrokerToBroker),
    /// Message id 14.
    AddBlockBuffer(AddBlockBuffer),
    /// Message id 20.
    AcceptParcel(AcceptParcel),
    /// Message id 21.
    AcceptParcelDriverObjects(AcceptParcelDriverObjects),
    /// Message id 22.
    RouteClosed(RouteClosed),
    /// Message id 23.
    RouteDisconnected(RouteDisconnected),
    /// Message id 34.
    BypassPeerWithLink(BypassPeerWithLink),
    /// Message id 35.
    StopProxyingToLocalPeer(StopProxyingToLocalPeer),
    /// Message id 36.
    FlushRouter(FlushRouter),
    /// Message id 64.
    RequestMemory(MemoryRequest),
    /// Message id 65.
    ProvideMemory(MemoryRequest),
    /// A message type that is not decoded.
    Unknown(u8),
}

/// What a [`DecodedMessage`] holds.
pub enum DecodedView {
    /// Message id 0.
    ConnectFromBrokerToNonBroker(ConnectFromBrokerToNonBroker),
    /// Message id 1.
    ConnectFromNonBrokerToBroker(ConnectFromNonBrokerToBroker),
    /// Message id 14.
    AddBlockBuffer(AddBlockBuffer),
    /// Message id 20.
    AcceptParcel(AcceptParcelView),
    /// Message id 21.
    AcceptParcelDriverObjects(AcceptParcelDriverObjectsView),
    /// Message id 22.
    RouteClosed(RouteClosed),
    /// Message id 23.
    RouteDisconnected(RouteDisconnected),
    /// Message id 34.
    BypassPeerWithLink(BypassPeerWithLink),
    /// Message id 35.
    StopProxyingToLocalPeer(StopProxyingToLocalPeer),
    /// Message id 36.
    FlushRouter(FlushRouter),
    /// Message id 64.
    RequestMemory(MemoryRequest),
    /// Message id 65.
    ProvideMemory(MemoryRequest),
    /// A message type that is not decoded.
    Unknown(u8),
}

impl View for DecodedMessage {
    type V = DecodedView;

    open spec fn view(&self) -> DecodedView {
        match *self {
            DecodedMessage::ConnectFromBrokerToNonBroker(m) =>
                DecodedView::ConnectFromBrokerToNonBroker(m),
            DecodedMessage::ConnectFromNonBrokerToBroker(m) =>
                DecodedView::ConnectFromNonBrokerToBroker(m),
            DecodedMessage::AddBlockBuffer(m) => DecodedView::AddBlockBuffer(m),
            DecodedMessage::AcceptParcel(m) => DecodedView::AcceptParcel(m@),
            DecodedMessage::AcceptParcelDriverObjects(m) => DecodedView::AcceptParcelDriverObjects(
                m@,
            ),
            DecodedMessage::RouteClosed(m) => DecodedView::RouteClosed(m),
            DecodedMessage::RouteDisconnected(m) => DecodedView::RouteDisconnected(m),
            DecodedMessage::BypassPeerWithLink(m) => DecodedView::BypassPeerWithLink(m),
            DecodedMessage::StopProxyingToLocalPeer(m) => DecodedView::StopProxyingToLocalPeer(m),
            DecodedMessage::FlushRouter(m) => DecodedView::FlushRouter(m),
            DecodedMessage::RequestMemory(m) => DecodedView::RequestMemory(m),
            DecodedMessage::ProvideMemory(m) => DecodedView::ProvideMemory(m),
            DecodedMessage::Unknown(id) => DecodedView::Unknown(id),
        }
    }
}

/// The message id for `ConnectFromBrokerToNonBroker`.
pub const MSG_ID_CONNECT_FROM_BROKER_TO_NON_BROKER: u8 = 0;

/// The message id for `ConnectFromNonBrokerToBroker`.
pub const MSG_ID_CONNECT_FROM_NON_BROKER_TO_BROKER: u8 = 1;

/// `AddBlockBuffer`: a new block buffer added to the link.
pub const MSG_ID_ADD_BLOCK_BUFFER: u8 = 14;

/// `AcceptParcel`: a parcel delivered over a link.
pub const MSG_ID_ACCEPT_PARCEL: u8 = 20;

/// `AcceptParcelDriverObjects`: driver objects for an in-flight parcel.
pub const MSG_ID_ACCEPT_PARCEL_DRIVER_OBJECTS: u8 = 21;

/// `RouteClosed`: a route endpoint was closed.
pub const MSG_ID_ROUTE_CLOSED: u8 = 22;

/// `RouteDisconnected`: a route was severed by node loss.
pub const MSG_ID_ROUTE_DISCONNECTED: u8 = 23;

/// `BypassPeerWithLink`: route optimization.
pub const MSG_ID_BYPASS_PEER_WITH_LINK: u8 = 34;

/// `StopProxyingToLocalPeer`: route optimization.
pub const MSG_ID_STOP_PROXYING_TO_LOCAL_PEER: u8 = 35;

/// `FlushRouter`: route state flush.
pub const MSG_ID_FLUSH_ROUTER: u8 = 36;

/// `RequestMemory`: request a new shared buffer.
pub const MSG_ID_REQUEST_MEMORY: u8 = 64;

/// `ProvideMemory`: provide a new shared buffer.
pub const MSG_ID_PROVIDE_MEMORY: u8 = 65;

/// The name of a node message id.
pub open spec fn spec_message_id_name(id: u8) -> Seq<char> {
    if id == 0 {
        "ConnectFromBrokerToNonBroker"@
    } else if id == 1 {
        "ConnectFromNonBrokerToBroker"@
    } else if id == 2 {
        "ReferNonBroker"@
    } else if id == 3 {
        "ConnectToReferredBroker"@
    } else if id == 4 {
        "ConnectToReferredNonBroker"@
    } else if id == 5 {
        "NonBrokerReferralAccepted"@
    } else if id == 6 {
        "NonBrokerReferralRejected"@
    } else if id == 7 {
        "ConnectFromBrokerToBroker"@
    } else if id == 10 {
        "RequestIntroduction"@
    } else if id == 11 {
        "AcceptIntroduction"@
    } else if id == 12 {
        "RejectIntroduction"@
    } else if id == 13 {
        "RequestIndirectIntroduction"@
    } else if id == 14 {
        "AddBlockBuffer"@
    } else if id == 20 {
        "AcceptParcel"@
    } else if id == 21 {
        "AcceptParcelDriverObjects"@
    } else if id == 22 {
        "RouteClosed"@
    } else if id == 23 {
        "RouteDisconnected"@
    } else if id == 30 {
        "BypassPeer"@
    } else if id == 31 {
        "AcceptBypassLink"@
    } else if id == 32 {
        "StopProxying"@
    } else if id == 33 {
        "ProxyWillStop"@
    } else if id == 34 {
        "BypassPeerWithLink"@
    } else if id == 35 {
        "StopProxyingToLocalPeer"@
    } else if id == 36 {
        "FlushRouter"@
    } else if id == 64 {
        "RequestMemory"@
    } else if id == 65 {
        "ProvideMemory"@
    } else {
        "Unknown"@
    }
}

/// The name of a node message id.
pub fn message_id_name(id: u8) -> (r: &'static str)
    ensures
        r@ == spec_message_id_name(id),
{
    match id {
        0 => "ConnectFromBrokerToNonBroker",
        1 => "ConnectFromNonBrokerToBroker",
        2 => "ReferNonBroker",
        3 => "ConnectToReferredBroker",
        4 => "ConnectToReferredNonBroker",
        5 => "NonBrokerReferralAccepted",
        6 => "NonBrokerReferralRejected",
        7 => "ConnectFromBrokerToBroker",
        10 => "RequestIntroduction",
        11 => "AcceptIntroduction",
        12 => "RejectIntroduction",
        13 => "RequestIndirectIntroduction",
        14 => "AddBlockBuffer",
        20 => "AcceptParcel",
        21 => "AcceptParcelDriverObjects",
        22 => "RouteClosed",
        23 => "RouteDisconnected",
        30 => "BypassPeer",
        31 => "AcceptBypassLink",
        32 => "StopProxying",
        33 => "ProxyWillStop",
        34 => "BypassPeerWithLink",
        35 => "StopProxyingToLocalPeer",
        36 => "FlushRouter",
        64 => "RequestMemory",
        65 => "ProvideMemory",
        _ => "Unknown",
    }
}

/// The element bytes of the array at offset `off` of `payload`: its element
/// count times `element_size` bytes. Offset 0 is the empty array.
pub open spec fn array_at(payload: Seq<u8>, off: u32, element_size: nat) -> Result<
    Seq<u8>,
    WireError,
> {
    let room = payload.len() - off;
    let num_bytes = crate::bytes::le32(payload, off as int);
    let want = crate::bytes::le32(payload, off + 4) * element_size;
    if off == 0 {
        Ok(Seq::empty())
    } else if room < 0 {
        Err(WireError::BadArrayOffset)
    } else if room < 8 {
        Err(WireError::BadArray)
    } else if num_bytes < 8 || num_bytes % 8 != 0 || num_bytes > room {
        Err(WireError::BadArray)
    } else if want > num_bytes - 8 {
        Err(WireError::BadArray)
    } else {
        Ok(payload.subrange(off + 8, off + 8 + want))
    }
}

fn read_array<'a>(payload: &'a [u8], off: u32, element_size: usize) -> (r: Result<
    &'a [u8],
    WireError,
>)
    requires
        0 < element_size <= 0x1_0000,
    ensures
        match r {
            Ok(s) => array_at(payload@, off, element_size as nat) == Ok::<Seq<u8>, WireError>(s@),
            Err(e) => array_at(payload@, off, element_size as nat) == Err::<Seq<u8>, WireError>(e),
        },
{
    if off == 0 {
        let empty = slice_subrange(payload, 0, 0);
        assert(empty@ =~= Seq::<u8>::empty());
        return Ok(empty);
    }
    let start: usize = off as usize;
    if start > payload.len() {
        return Err(WireError::BadArrayOffset);
    }
    let room: usize = payload.len() - start;
    if room < 8 {
        return Err(WireError::BadArray);
    }
    let num_bytes: usize = get_u32(payload, start) as usize;
    let num_elements: u32 = get_u32(payload, start + 4);
    if num_bytes < 8 || num_bytes % 8 != 0 || num_bytes > room {
        return Err(WireError::BadArray);
    }
    assert(num_elements as u64 * element_size as u64 <= 0xffff_ffff * 0x1_0000) by (nonlinear_arith)
        requires
            element_size <= 0x1_0000,
            num_elements <= 0xffff_ffff,
    ;
    let want: u64 = num_elements as u64 * element_size as u64;
    if want > (num_bytes - 8) as u64 {
        return Err(WireError::BadArray);
    }
    Ok(slice_subrange(payload, start + 8, start + 8 + want as usize))
}

/// The driver objects that the entries in `data` describe, whose descriptors
/// start at index `next_fd` of `num_fds`. Objects take descriptors in order and
/// contiguously, and take all of them.
pub open spec fn objects_from(
    payload: Seq<u8>,
    data: Seq<u8>,
    next_fd: nat,
    num_fds: nat,
) -> Result<Seq<DriverObjectView>, WireError>
    decreases data.len(),
{
    if data.len() < 8 {
        if next_fd == num_fds {
            Ok(Seq::empty())
        } else {
            Err(WireError::BadDriverObjects)
        }
    } else {
        let first = crate::bytes::le16(data, 4) as nat;
        let num = crate::bytes::le16(data, 6) as nat;
        if first != next_fd || first + num > num_fds {
            Err(WireError::BadDriverObjects)
        } else {
            match array_at(payload, crate::bytes::le32(data, 0), 1) {
                Err(e) => Err(e),
                Ok(d) => match objects_from(payload, data.skip(8), first + num, num_fds) {
                    Err(e) => Err(e),
                    Ok(rest) => Ok(
                        seq![DriverObjectView { data: d, first_fd: first, num_fds: num }] + rest,
                    ),
                },
            }
        }
    }
}

/// The driver objects of a message whose driver object array is at `doa`.
pub open spec fn objects_at(payload: Seq<u8>, doa: u32, num_fds: nat) -> Result<
    Seq<DriverObjectView>,
    WireError,
> {
    if doa == 0 {
        Ok(Seq::empty())
    } else {
        match array_at(payload, doa, 8) {
            Err(e) => Err(e),
            Ok(data) => objects_from(payload, data, 0, num_fds),
        }
    }
}

fn read_driver_objects(payload: &[u8], hdr: &MessageHeader, num_fds: usize) -> (r: Result<
    Vec<DriverObjectRef>,
    WireError,
>)
    ensures
        match r {
            Ok(v) => objects_at(payload@, hdr.driver_object_data_array, num_fds as nat) == Ok::<
                Seq<DriverObjectView>,
                WireError,
            >(object_views(v@)),
            Err(e) => objects_at(payload@, hdr.driver_object_data_array, num_fds as nat) == Err::<
                Seq<DriverObjectView>,
                WireError,
            >(e),
        },
{
    let mut out: Vec<DriverObjectRef> = Vec::new();
    assert(object_views(out@) =~= Seq::<DriverObjectView>::empty());
    if hdr.driver_object_data_array == 0 {
        return Ok(out);
    }
    let data = match read_array(payload, hdr.driver_object_data_array, 8) {
        Ok(d) => d,
        Err(e) => {
            return Err(e);
        },
    };
    let ghost want = objects_from(payload@, data@, 0, num_fds as nat);
    let mut next_fd: usize = 0;
    let mut i: usize = 0;
    proof {
        assert(data@.skip(0) =~= data@);
        if want is Ok {
            assert(object_views(out@) + want->Ok_0 =~= want->Ok_0);
        }
    }
    while i < data.len() && data.len() - i >= 8
        invariant
            i <= data.len(),
            next_fd <= num_fds,
            match objects_from(payload@, data@.skip(i as int), next_fd as nat, num_fds as nat) {
                Err(e) => want == Err::<Seq<DriverObjectView>, WireError>(e),
                Ok(rest) => want == Ok::<Seq<DriverObjectView>, WireError>(
                    object_views(out@) + rest,
                ),
            },
            want == objects_at(payload@, hdr.driver_object_data_array, num_fds as nat),
        decreases data.len() - i,
    {
        let ghost tail = data@.skip(i as int);
        proof {
            assert(tail.skip(8) =~= data@.skip(i + 8));
            assert(crate::bytes::le32(data@, i as int) == crate::bytes::le32(tail, 0));
            assert(crate::bytes::le16(data@, i + 4) == crate::bytes::le16(tail, 4));
            assert(crate::bytes::le16(data@, i + 6) == crate::bytes::le16(tail, 6));
        }
        let driver_data_array: u32 = get_u32(data, i);
        let first: usize = get_u16(data, i + 4) as usize;
        let num: usize = get_u16(data, i + 6) as usize;
        if first != next_fd || num > num_fds - first {
            return Err(WireError::BadDriverObjects);
        }
        let obj_data = match read_array(payload, driver_data_array, 1) {
            Ok(d) => d,
            Err(e) => {
                return Err(e);
            },
        };
        let obj = DriverObjectRef { data: slice_to_vec(obj_data), first_fd: first, num_fds: num };
        let ghost before = object_views(out@);
        let ghost o = obj@;
        out.push(obj);
        next_fd = first + num;
        i = i + 8;
        proof {
            let rest = objects_from(payload@, data@.skip(i as int), next_fd as nat, num_fds as nat);
            assert(object_views(out@) =~= before.push(o));
            if rest is Ok {
                assert(before + (seq![o] + rest->Ok_0) =~= object_views(out@) + rest->Ok_0);
            }
        }
    }
    if next_fd != num_fds {
        return Err(WireError::BadDriverObjects);
    }
    assert(object_views(out@) + Seq::<DriverObjectView>::empty() =~= object_views(out@));
    Ok(out)
}

/// The `u32` values stored in `bytes`, 4 bytes each.
pub open spec fn words_of(bytes: Seq<u8>) -> Seq<u32> {
    Seq::new(bytes.len() / 4, |i: int| crate::bytes::le32(bytes, 4 * i))
}

fn read_words(bytes: &[u8]) -> (out: Vec<u32>)
    ensures
        out@ == words_of(bytes@),
{
    let n: usize = bytes.len() / 4;
    let mut out: Vec<u32> = Vec::new();
    let mut i: usize = 0;
    while i < n
        invariant
            i <= n,
            n == bytes.len() / 4,
            out@ == words_of(bytes@).take(i as int),
        decreases n - i,
    {
        out.push(get_u32(bytes, 4 * i));
        i = i + 1;
        assert(out@ =~= words_of(bytes@).take(i as int));
    }
    assert(out@ =~= words_of(bytes@));
    out
}

/// The node name stored at offset `o`.
pub open spec fn node_name_at(s: Seq<u8>, o: int) -> NodeName {
    NodeName { high: crate::bytes::le64(s, o), low: crate::bytes::le64(s, o + 8) }
}

/// The fragment descriptor stored at offset `o`.
pub open spec fn fragment_at(s: Seq<u8>, o: int) -> FragmentDescriptor {
    FragmentDescriptor {
        buffer_id: crate::bytes::le64(s, o),
        offset: crate::bytes::le32(s, o + 8),
        size: crate::bytes::le32(s, o + 12),
    }
}

/// The offset of the first parameter field: after the message header and the
/// size and padding words of the parameter struct.
pub const PARAMS_OFFSET: usize = 32;

/// The smallest size of the fields of the parameter struct of a message, for
/// the message types that are decoded.
pub open spec fn min_fields(message_id: u8) -> nat {
    if message_id == MSG_ID_CONNECT_FROM_BROKER_TO_NON_BROKER {
        48
    } else if message_id == MSG_ID_ACCEPT_PARCEL {
        64
    } else if message_id == MSG_ID_BYPASS_PEER_WITH_LINK {
        40
    } else if message_id == MSG_ID_ADD_BLOCK_BUFFER || message_id
        == MSG_ID_ACCEPT_PARCEL_DRIVER_OBJECTS || message_id == MSG_ID_ROUTE_CLOSED || message_id
        == MSG_ID_STOP_PROXYING_TO_LOCAL_PEER {
        16
    } else if message_id == MSG_ID_CONNECT_FROM_NON_BROKER_TO_BROKER || message_id
        == MSG_ID_ROUTE_DISCONNECTED || message_id == MSG_ID_FLUSH_ROUTER || message_id
        == MSG_ID_REQUEST_MEMORY || message_id == MSG_ID_PROVIDE_MEMORY {
        8
    } else {
        0
    }
}

/// The parcel that an `AcceptParcel` payload describes. Of the malformed
/// parts, the first in the order driver objects, data, handle types and router
/// descriptors is the one reported.
pub open spec fn accept_parcel_of(payload: Seq<u8>, doa: u32, num_fds: nat) -> Result<
    AcceptParcelView,
    WireError,
> {
    let f = PARAMS_OFFSET as int;
    match objects_at(payload, doa, num_fds) {
        Err(e) => Err(e),
        Ok(driver_objects) => match array_at(payload, crate::bytes::le32(payload, f + 40), 1) {
            Err(e) => Err(e),
            Ok(parcel_data) => match array_at(payload, crate::bytes::le32(payload, f + 44), 4) {
                Err(e) => Err(e),
                Ok(types) => match array_at(payload, crate::bytes::le32(payload, f + 48), 96) {
                    Err(e) => Err(e),
                    Ok(new_routers) => Ok(
                        AcceptParcelView {
                            sublink: crate::bytes::le64(payload, f),
                            sequence_number: crate::bytes::le64(payload, f + 8),
                            subparcel_index: crate::bytes::le32(payload, f + 16),
                            num_subparcels: crate::bytes::le32(payload, f + 20),
                            parcel_fragment: fragment_at(payload, f + 24),
                            parcel_data,
                            handle_types: words_of(types),
                            new_routers,
                            driver_objects,
                        },
                    ),
                },
            },
        },
    }
}

/// The message that the fields of a payload with header `hdr` describe.
pub open spec fn fields_decoded(payload: Seq<u8>, hdr: MessageHeader, num_fds: nat) -> Result<
    DecodedView,
    WireError,
> {
    let f = PARAMS_OFFSET as int;
    let id = hdr.message_id;
    let doa = hdr.driver_object_data_array;
    if id == MSG_ID_CONNECT_FROM_BROKER_TO_NON_BROKER {
        match objects_at(payload, doa, num_fds) {
            Err(e) => Err(e),
            Ok(objects) => if objects.len() != 1 || objects[0].first_fd != 0 {
                Err(WireError::BadDriverObjects)
            } else {
                Ok(
                    DecodedView::ConnectFromBrokerToNonBroker(
                        ConnectFromBrokerToNonBroker {
                            broker_name: node_name_at(payload, f),
                            receiver_name: node_name_at(payload, f + 16),
                            protocol_version: crate::bytes::le32(payload, f + 32),
                            num_initial_portals: crate::bytes::le32(payload, f + 36),
                            buffer_index: crate::bytes::le32(payload, f + 40),
                        },
                    ),
                )
            },
        }
    } else if id == MSG_ID_CONNECT_FROM_NON_BROKER_TO_BROKER {
        Ok(
            DecodedView::ConnectFromNonBrokerToBroker(
                ConnectFromNonBrokerToBroker {
                    protocol_version: crate::bytes::le32(payload, f),
                    num_initial_portals: crate::bytes::le32(payload, f + 4),
                },
            ),
        )
    } else if id == MSG_ID_ADD_BLOCK_BUFFER {
        match objects_at(payload, doa, num_fds) {
            Err(e) => Err(e),
            Ok(objects) => if objects.len() != 1 {
                Ok(DecodedView::Unknown(MSG_ID_ADD_BLOCK_BUFFER))
            } else {
                Ok(
                    DecodedView::AddBlockBuffer(
                        AddBlockBuffer {
                            buffer_id: crate::bytes::le64(payload, f),
                            block_size: crate::bytes::le32(payload, f + 8),
                            buffer_index: crate::bytes::le32(payload, f + 12),
                        },
                    ),
                )
            },
        }
    } else if id == MSG_ID_ACCEPT_PARCEL {
        match accept_parcel_of(payload, doa, num_fds) {
            Err(e) => Err(e),
            Ok(p) => Ok(DecodedView::AcceptParcel(p)),
        }
    } else if id == MSG_ID_ACCEPT_PARCEL_DRIVER_OBJECTS {
        match objects_at(payload, doa, num_fds) {
            Err(e) => Err(e),
            Ok(driver_objects) => Ok(
                DecodedView::AcceptParcelDriverObjects(
                    AcceptParcelDriverObjectsView {
                        sublink: crate::bytes::le64(payload, f),
                        sequence_number: crate::bytes::le64(payload, f + 8),
                        driver_objects,
                    },
                ),
            ),
        }
    } else if id == MSG_ID_ROUTE_CLOSED {
        Ok(
            DecodedView::RouteClosed(
                RouteClosed {
                    sublink: crate::bytes::le64(payload, f),
                    sequence_length: crate::bytes::le64(payload, f + 8),
                },
            ),
        )
    } else if id == MSG_ID_ROUTE_DISCONNECTED {
        Ok(
            DecodedView::RouteDisconnected(
                RouteDisconnected { sublink: crate::bytes::le64(payload, f) },
            ),
        )
    } else if id == MSG_ID_BYPASS_PEER_WITH_LINK {
        Ok(
            DecodedView::BypassPeerWithLink(
                BypassPeerWithLink {
                    sublink: crate::bytes::le64(payload, f),
                    new_sublink: crate::bytes::le64(payload, f + 8),
                    new_link_state_fragment: fragment_at(payload, f + 16),
                    inbound_sequence_length: crate::bytes::le64(payload, f + 32),
                },
            ),
        )
    } else if id == MSG_ID_STOP_PROXYING_TO_LOCAL_PEER {
        Ok(
            DecodedView::StopProxyingToLocalPeer(
                StopProxyingToLocalPeer {
                    sublink: crate::bytes::le64(payload, f),
                    outbound_sequence_length: crate::bytes::le64(payload, f + 8),
                },
            ),
        )
    } else if id == MSG_ID_FLUSH_ROUTER {
        Ok(DecodedView::FlushRouter(FlushRouter { sublink: crate::bytes::le64(payload, f) }))
    } else if id == MSG_ID_REQUEST_MEMORY {
        Ok(DecodedView::RequestMemory(MemoryRequest { size: crate::bytes::le32(payload, f) }))
    } else if id == MSG_ID_PROVIDE_MEMORY {
        Ok(DecodedView::ProvideMemory(MemoryRequest { size: crate::bytes::le32(payload, f) }))
    } else {
        Ok(DecodedView::Unknown(id))
    }
}

/// The node message that `payload` holds, received with `num_fds` descriptors.
pub open spec fn decoded(payload: Seq<u8>, num_fds: nat) -> Result<DecodedView, WireError> {
    let params = payload.len() - crate::ipcz::wire::MESSAGE_HEADER_SIZE;
    let params_size = crate::bytes::le32(payload, crate::ipcz::wire::MESSAGE_HEADER_SIZE as int);
    match crate::ipcz::wire::message_header_of(payload) {
        Err(e) => Err(e),
        Ok(hdr) => if params < 8 {
            Err(WireError::ShortParams)
        } else if params_size < 8 || params_size > params {
            Err(WireError::BadParamsSize)
        } else if params_size < 8 + min_fields(hdr.message_id) {
            Err(WireError::ShortParams)
        } else {
            fields_decoded(payload, hdr, num_fds)
        },
    }
}

fn read_node_name(payload: &[u8], o: usize) -> (r: NodeName)
    requires
        o + 16 <= payload.len(),
    ensures
        r == node_name_at(payload@, o as int),
{
    NodeName { high: get_u64(payload, o), low: get_u64(payload, o + 8) }
}

fn read_fragment(payload: &[u8], o: usize) -> (r: FragmentDescriptor)
    requires
        o + 16 <= payload.len(),
    ensures
        r == fragment_at(payload@, o as int),
{
    FragmentDescriptor {
        buffer_id: get_u64(payload, o),
        offset: get_u32(payload, o + 8),
        size: get_u32(payload, o + 12),
    }
}

fn fields_needed(message_id: u8) -> (r: usize)
    ensures
        r == min_fields(message_id),
{
    match message_id {
        0 => 48,
        20 => 64,
        34 => 40,
        14 | 21 | 22 | 35 => 16,
        1 | 23 | 36 | 64 | 65 => 8,
        _ => 0,
    }
}

fn decode_accept_parcel(payload: &[u8], hdr: &MessageHeader, num_fds: usize) -> (r: Result<
    AcceptParcel,
    WireError,
>)
    requires
        payload.len() >= PARAMS_OFFSET + 64,
    ensures
        match r {
            Ok(p) => accept_parcel_of(payload@, hdr.driver_object_data_array, num_fds as nat)
                == Ok::<AcceptParcelView, WireError>(p@),
            Err(e) => accept_parcel_of(payload@, hdr.driver_object_data_array, num_fds as nat)
                == Err::<AcceptParcelView, WireError>(e),
        },
{
    let f: usize = PARAMS_OFFSET;
    let driver_objects = match read_driver_objects(payload, hdr, num_fds) {
        Ok(v) => v,
        Err(e) => {
            return Err(e);
        },
    };
    let parcel_data = match read_array(payload, get_u32(payload, f + 40), 1) {
        Ok(v) => slice_to_vec(v),
        Err(e) => {
            return Err(e);
        },
    };
    let handle_types = match read_array(payload, get_u32(payload, f + 44), 4) {
        Ok(v) => read_words(v),
        Err(e) => {
            return Err(e);
        },
    };
    let new_routers = match read_array(payload, get_u32(payload, f + 48), 96) {
        Ok(v) => slice_to_vec(v),
        Err(e) => {
            return Err(e);
        },
    };
    Ok(
        AcceptParcel {
            sublink: get_u64(payload, f),
            sequence_number: get_u64(payload, f + 8),
            subparcel_index: get_u32(payload, f + 16),
            num_subparcels: get_u32(payload, f + 20),
            parcel_fragment: read_fragment(payload, f + 24),
            parcel_data,
            handle_types,
            new_routers,
            driver_objects,
        },
    )
}

/// Decode a node message from a payload that starts at the message header.
///
/// `num_fds` is the number of descriptors received with the message.
pub fn decode_message(payload: &[u8], num_fds: usize) -> (r: Result<DecodedMessage, WireError>)
    ensures
        match r {
            Ok(m) => decoded(payload@, num_fds as nat) == Ok::<DecodedView, WireError>(m@),
            Err(e) => decoded(payload@, num_fds as nat) == Err::<DecodedView, WireError>(e),
        },
{
    let hdr = match parse_message_header(payload) {
        Ok(h) => h,
        Err(e) => {
            return Err(e);
        },
    };
    let params: usize = payload.len() - 24;
    if params < 8 {
        return Err(WireError::ShortParams);
    }
    let params_size: usize = get_u32(payload, 24) as usize;
    if params_size < 8 || params_size > params {
        return Err(WireError::BadParamsSize);
    }
    if params_size < 8 + fields_needed(hdr.message_id) {
        return Err(WireError::ShortParams);
    }
    let f: usize = PARAMS_OFFSET;
    match hdr.message_id {
        0 => {
            let objects = match read_driver_objects(payload, &hdr, num_fds) {
                Ok(v) => v,
                Err(e) => {
                    return Err(e);
                },
            };
            assert(object_views(objects@).len() == objects@.len());
            if objects.len() != 1 || objects[0].first_fd != 0 {
                return Err(WireError::BadDriverObjects);
            }
            Ok(
                DecodedMessage::ConnectFromBrokerToNonBroker(
                    ConnectFromBrokerToNonBroker {
                        broker_name: read_node_name(payload, f),
                        receiver_name: read_node_name(payload, f + 16),
                        protocol_version: get_u32(payload, f + 32),
                        num_initial_portals: get_u32(payload, f + 36),
                        buffer_index: get_u32(payload, f + 40),
                    },
                ),
            )
        },
        1 => Ok(
            DecodedMessage::ConnectFromNonBrokerToBroker(
                ConnectFromNonBrokerToBroker {
                    protocol_version: get_u32(payload, f),
                    num_initial_portals: get_u32(payload, f + 4),
                },
            ),
        ),
        14 => {
            let objects = match read_driver_objects(payload, &hdr, num_fds) {
                Ok(v) => v,
                Err(e) => {
                    return Err(e);
                },
            };
            assert(object_views(objects@).len() == objects@.len());
            if objects.len() != 1 {
                return Ok(DecodedMessage::Unknown(MSG_ID_ADD_BLOCK_BUFFER));
            }
            Ok(
                DecodedMessage::AddBlockBuffer(
                    AddBlockBuffer {
                        buffer_id: get_u64(payload, f),
                        block_size: get_u32(payload, f + 8),
                        buffer_index: get_u32(payload, f + 12),
                    },
                ),
            )
        },
        20 => match decode_accept_parcel(payload, &hdr, num_fds) {
            Ok(p) => Ok(DecodedMessage::AcceptParcel(p)),
            Err(e) => Err(e),
        },
        21 => match read_driver_objects(payload, &hdr, num_fds) {
            Ok(driver_objects) => Ok(
                DecodedMessage::AcceptParcelDriverObjects(
                    AcceptParcelDriverObjects {
                        sublink: get_u64(payload, f),
                        sequence_number: get_u64(payload, f + 8),
                        driver_objects,
                    },
                ),
            ),
            Err(e) => Err(e),
        },
        22 => Ok(
            DecodedMessage::RouteClosed(
                RouteClosed {
                    sublink: get_u64(payload, f),
                    sequence_length: get_u64(payload, f + 8),
                },
            ),
        ),
        23 => Ok(
            DecodedMessage::RouteDisconnected(RouteDisconnected { sublink: get_u64(payload, f) }),
        ),
        34 => Ok(
            DecodedMessage::BypassPeerWithLink(
                BypassPeerWithLink {
                    sublink: get_u64(payload, f),
                    new_sublink: get_u64(payload, f + 8),
                    new_link_state_fragment: read_fragment(payload, f + 16),
                    inbound_sequence_length: get_u64(payload, f + 32),
                },
            ),
        ),
        35 => Ok(
            DecodedMessage::StopProxyingToLocalPeer(
                StopProxyingToLocalPeer {
                    sublink: get_u64(payload, f),
                    outbound_sequence_length: get_u64(payload, f + 8),
                },
            ),
        ),
        36 => Ok(DecodedMessage::FlushRouter(FlushRouter { sublink: get_u64(payload, f) })),
        64 => Ok(DecodedMessage::RequestMemory(MemoryRequest { size: get_u32(payload, f) })),
        65 => Ok(DecodedMessage::ProvideMemory(MemoryRequest { size: get_u32(payload, f) })),
        other => Ok(DecodedMessage::Unknown(other)),
    }
}

/// The header of a message as it is encoded, with the sequence number `seq`.
pub open spec fn header_with(message_id: u8, seq: u64, doa: u32) -> MessageHeader {
    MessageHeader {
        size: 24,
        version: 0,
        message_id,
        node_sequence_number: seq,
        driver_object_data_array: doa,
    }
}

/// A message of parameter fields alone, with the sequence number `seq`.
pub open spec fn plain_message(message_id: u8, seq: u64, fields: Seq<u8>) -> Seq<u8> {
    crate::ipcz::wire::message_bytes(
        header_with(message_id, seq, 0),
        crate::ipcz::wire::padded_block(0, fields),
    )
}

/// The bytes of a fragment descriptor.
pub open spec fn fragment_bytes(d: FragmentDescriptor) -> Seq<u8> {
    crate::bytes::bytes64(d.buffer_id) + crate::bytes::bytes32(d.offset) + crate::bytes::bytes32(
        d.size,
    )
}

fn encode_plain(message_id: u8, fields: &[u8]) -> (out: Vec<u8>)
    requires
        fields@.len() <= 0x1000,
    ensures
        out@ == plain_message(message_id, 0, fields@),
{
    let mut b = MessageBuilder::new(message_id);
    b.append_params(fields);
    assert(b.body@ =~= crate::ipcz::wire::padded_block(0, fields@));
    b.build()
}

fn push_fragment(out: &mut Vec<u8>, d: FragmentDescriptor)
    ensures
        final(out)@ == old(out)@ + fragment_bytes(d),
{
    push_u64(out, d.buffer_id);
    push_u32(out, d.offset);
    push_u32(out, d.size);
    assert(out@ =~= old(out)@ + fragment_bytes(d));
}

/// The `ConnectFromNonBrokerToBroker` message: protocol version 0, the number
/// of initial portals and the offset of the one-element features array.
pub open spec fn connect_reply_message(num_initial_portals: u32, features: u64, seq: u64) -> Seq<
    u8,
> {
    crate::ipcz::wire::message_bytes(
        header_with(MSG_ID_CONNECT_FROM_NON_BROKER_TO_BROKER, seq, 0),
        crate::ipcz::wire::padded_block(
            0,
            crate::bytes::bytes32(0) + crate::bytes::bytes32(num_initial_portals)
                + crate::bytes::bytes32(48),
        ) + crate::ipcz::wire::padded_block(1, crate::bytes::bytes64(features)),
    )
}

/// Encode `ConnectFromNonBrokerToBroker` with its features array.
pub fn encode_connect_from_non_broker_to_broker(num_initial_portals: u32, features: u64) -> (out:
    Vec<u8>)
    ensures
        out@ == connect_reply_message(num_initial_portals, features, 0),
{
    let mut b = MessageBuilder::new(MSG_ID_CONNECT_FROM_NON_BROKER_TO_BROKER);
    let mut fields: Vec<u8> = Vec::new();
    push_u32(&mut fields, 0);
    push_u32(&mut fields, num_initial_portals);
    push_u32(&mut fields, 48);
    assert(fields@ =~= crate::bytes::bytes32(0) + crate::bytes::bytes32(num_initial_portals)
        + crate::bytes::bytes32(48));
    b.append_params(fields.as_slice());
    let mut array: Vec<u8> = Vec::new();
    push_u64(&mut array, features);
    assert(array@ =~= crate::bytes::bytes64(features));
    b.append_array(array.as_slice(), 1);
    assert(b.body@ =~= crate::ipcz::wire::padded_block(0, fields@)
        + crate::ipcz::wire::padded_block(1, array@));
    b.build()
}

/// The bytes of a list of `u32` values.
pub open spec fn word_bytes(words: Seq<u32>) -> Seq<u8>
    decreases words.len(),
{
    if words.len() == 0 {
        Seq::empty()
    } else {
        word_bytes(words.drop_last()) + crate::bytes::bytes32(words.last())
    }
}

/// An array of `count` elements: nothing for the empty array.
pub open spec fn array_block(count: u32, elements: Seq<u8>) -> Seq<u8> {
    if elements.len() == 0 {
        Seq::empty()
    } else {
        crate::ipcz::wire::padded_block(count, elements)
    }
}

/// The offset of an array laid out at `at`: 0 for the empty array.
pub open spec fn array_offset(at: int, elements: Seq<u8>) -> u32 {
    if elements.len() == 0 {
        0
    } else {
        at as u32
    }
}

/// The 64 bytes of parameter fields of an `AcceptParcel`.
#[verifier::opaque]
pub open spec fn accept_parcel_fields(
    sublink: u64,
    sequence_number: u64,
    fragment: FragmentDescriptor,
    data_offset: u32,
    types_offset: u32,
    num_objects: u32,
) -> Seq<u8> {
    crate::bytes::bytes64(sublink) + crate::bytes::bytes64(sequence_number)
        + crate::bytes::bytes32(0) + crate::bytes::bytes32(1) + fragment_bytes(fragment)
        + crate::bytes::bytes32(data_offset) + crate::bytes::bytes32(types_offset)
        + crate::bytes::bytes32(0) + crate::bytes::bytes32(0) + crate::bytes::bytes32(0)
        + crate::bytes::bytes32(num_objects)
}

proof fn lemma_accept_parcel_fields_len(
    sublink: u64,
    sequence_number: u64,
    fragment: FragmentDescriptor,
    data_offset: u32,
    types_offset: u32,
    num_objects: u32,
)
    ensures
        accept_parcel_fields(
            sublink,
            sequence_number,
            fragment,
            data_offset,
            types_offset,
            num_objects,
        ).len() == 64,
{
    reveal(accept_parcel_fields);
}

fn encode_accept_parcel_fields(
    sublink: u64,
    sequence_number: u64,
    fragment: FragmentDescriptor,
    data_offset: u32,
    types_offset: u32,
    num_objects: u32,
) -> (fields: Vec<u8>)
    ensures
        fields@ == accept_parcel_fields(
            sublink,
            sequence_number,
            fragment,
            data_offset,
            types_offset,
            num_objects,
        ),
        fields@.len() == 64,
{
    let mut fields: Vec<u8> = Vec::new();
    push_u64(&mut fields, sublink);
    push_u64(&mut fields, sequence_number);
    push_u32(&mut fields, 0);
    push_u32(&mut fields, 1);
    push_fragment(&mut fields, fragment);
    push_u32(&mut fields, data_offset);
    push_u32(&mut fields, types_offset);
    push_u32(&mut fields, 0);
    push_u32(&mut fields, 0);
    push_u32(&mut fields, 0);
    push_u32(&mut fields, num_objects);
    reveal(accept_parcel_fields);
    assert(fields@ =~= accept_parcel_fields(
        sublink,
        sequence_number,
        fragment,
        data_offset,
        types_offset,
        num_objects,
    ));
    fields
}

/// What an `AcceptParcel` holds after its header, driver objects excepted.
#[verifier::opaque]
pub open spec fn accept_parcel_body(
    sublink: u64,
    sequence_number: u64,
    fragment: FragmentDescriptor,
    data: Seq<u8>,
    handle_types: Seq<u32>,
    num_objects: u32,
) -> Seq<u8> {
    let data_block = array_block(data.len() as u32, data);
    crate::ipcz::wire::padded_block(
        0,
        accept_parcel_fields(
            sublink,
            sequence_number,
            fragment,
            array_offset(96, data),
            array_offset((96 + data_block.len()) as int, word_bytes(handle_types)),
            num_objects,
        ),
    ) + data_block + array_block(handle_types.len() as u32, word_bytes(handle_types))
}

/// The driver object part of a message, placed at offset `at`: the array of
/// entries and the data of each object.
pub open spec fn driver_object_part(driver_data: Seq<Seq<u8>>, at: int) -> Seq<u8> {
    if driver_data.len() == 0 {
        Seq::empty()
    } else {
        crate::ipcz::wire::padded_block(
            driver_data.len() as u32,
            crate::ipcz::wire::driver_object_entries(
                driver_data,
                at + 8 + 8 * driver_data.len(),
                0,
            ),
        ) + crate::ipcz::wire::driver_data_blocks(driver_data)
    }
}

/// A message of `body` followed by driver objects.
pub open spec fn message_with_objects(
    message_id: u8,
    seq: u64,
    body: Seq<u8>,
    driver_data: Seq<Seq<u8>>,
) -> Seq<u8> {
    let at = 24 + body.len();
    crate::ipcz::wire::message_bytes(
        header_with(
            message_id,
            seq,
            if driver_data.len() == 0 {
                0
            } else {
                at as u32
            },
        ),
        body + driver_object_part(driver_data, at as int),
    )
}

/// An `AcceptParcel` message whose data is inline or in `fragment`.
pub open spec fn accept_parcel_message(
    sublink: u64,
    sequence_number: u64,
    fragment: FragmentDescriptor,
    data: Seq<u8>,
    handle_types: Seq<u32>,
    driver_data: Seq<Seq<u8>>,
    seq: u64,
) -> Seq<u8> {
    message_with_objects(
        MSG_ID_ACCEPT_PARCEL,
        seq,
        accept_parcel_body(
            sublink,
            sequence_number,
            fragment,
            data,
            handle_types,
            driver_data.len() as u32,
        ),
        driver_data,
    )
}

/// What driver objects must meet to be encoded: there are at most 65535, and
/// none is empty.
pub open spec fn encodable_objects(driver_data: Seq<Seq<u8>>) -> bool {
    &&& driver_data.len() <= u16::MAX
    &&& forall|i: int| 0 <= i < driver_data.len() ==> (#[trigger] driver_data[i]).len() > 0
}

/// The bytes of a list of words, 4 each.
pub proof fn lemma_word_bytes(words: Seq<u32>)
    ensures
        word_bytes(words).len() == 4 * words.len(),
        words_of(word_bytes(words)) == words,
    decreases words.len(),
{
    if words.len() > 0 {
        let init = words.drop_last();
        lemma_word_bytes(init);
        let b = word_bytes(words);
        let n = init.len();
        assert(b.subrange(4 * (n as int), 4 * (n as int) + 4) =~= crate::bytes::bytes32(words.last()));
        crate::bytes::lemma_le32_of_bytes(b, 4 * (n as int), words.last());
        assert forall|i: int| 0 <= i < words.len() implies words_of(b)[i] == words[i] by {
            if i < n {
                assert(words_of(word_bytes(init))[i] == init[i]);
            }
        }
    }
    assert(words_of(word_bytes(words)) =~= words);
}

fn encode_words(words: &[u32]) -> (out: Vec<u8>)
    ensures
        out@ == word_bytes(words@),
{
    let mut out: Vec<u8> = Vec::new();
    let mut i: usize = 0;
    while i < words.len()
        invariant
            i <= words.len(),
            out@ == word_bytes(words@.take(i as int)),
        decreases words.len() - i,
    {
        assert(words@.take(i + 1).drop_last() =~= words@.take(i as int));
        push_u32(&mut out, words[i]);
        i = i + 1;
    }
    assert(words@.take(words@.len() as int) =~= words@);
    out
}

fn accept_parcel_builder(
    sublink: u64,
    sequence_number: u64,
    fragment: FragmentDescriptor,
    data: &[u8],
    handle_types: &[u32],
    num_objects: u32,
) -> (b: MessageBuilder)
    requires
        24 + accept_parcel_body(
            sublink,
            sequence_number,
            fragment,
            data@,
            handle_types@,
            num_objects,
        ).len() <= u32::MAX,
    ensures
        b.header == header_with(MSG_ID_ACCEPT_PARCEL, 0, 0),
        b.body@ == accept_parcel_body(
            sublink,
            sequence_number,
            fragment,
            data@,
            handle_types@,
            num_objects,
        ),
{
    let types: Vec<u8> = encode_words(handle_types);
    reveal(accept_parcel_body);
    proof {
        lemma_word_bytes(handle_types@);
        crate::ipcz::wire::lemma_padded_block_len(data@.len() as u32, data@);
        crate::ipcz::wire::lemma_padded_block_len(handle_types@.len() as u32, types@);
        let data_block = array_block(data@.len() as u32, data@);
        lemma_accept_parcel_fields_len(
            sublink,
            sequence_number,
            fragment,
            array_offset(96, data@),
            array_offset((96 + data_block.len()) as int, types@),
            num_objects,
        );
    }
    let pd_off: u32 = if data.len() == 0 {
        0
    } else {
        96
    };
    let ht_off: u32 = if types.len() == 0 {
        0
    } else if data.len() == 0 {
        96
    } else {
        (96 + crate::ipcz::wire::align8(8 + data.len())) as u32
    };
    let fields = encode_accept_parcel_fields(
        sublink,
        sequence_number,
        fragment,
        pd_off,
        ht_off,
        num_objects,
    );
    proof {
        crate::ipcz::wire::lemma_padded_block_len(0, fields@);
    }
    let mut b = MessageBuilder::new(MSG_ID_ACCEPT_PARCEL);
    b.append_params(fields.as_slice());
    b.append_array(data, data.len() as u32);
    b.append_array(types.as_slice(), handle_types.len() as u32);
    assert(b.body@ =~= accept_parcel_body(
        sublink,
        sequence_number,
        fragment,
        data@,
        handle_types@,
        num_objects,
    ));
    b
}

proof fn lemma_message_with_objects_len(
    message_id: u8,
    seq: u64,
    body: Seq<u8>,
    driver_data: Seq<Seq<u8>>,
)
    ensures
        message_with_objects(message_id, seq, body, driver_data).len() == 24 + body.len()
            + driver_object_part(driver_data, (24 + body.len()) as int).len(),
{
    let doa = if driver_data.len() == 0 {
        0
    } else {
        (24 + body.len()) as u32
    };
    crate::ipcz::wire::lemma_message_body(
        header_with(message_id, seq, doa),
        body + driver_object_part(driver_data, (24 + body.len()) as int),
    );
}

fn build_with_objects(b: MessageBuilder, driver_data: &[Vec<u8>]) -> (out: Vec<u8>)
    requires
        b.header.size == 24,
        b.header.version == 0,
        b.header.node_sequence_number == 0,
        b.header.driver_object_data_array == 0,
        encodable_objects(crate::ipcz::wire::byte_views(driver_data@)),
        message_with_objects(
            b.header.message_id,
            0,
            b.body@,
            crate::ipcz::wire::byte_views(driver_data@),
        ).len() <= u32::MAX,
    ensures
        out@ == message_with_objects(
            b.header.message_id,
            0,
            b.body@,
            crate::ipcz::wire::byte_views(driver_data@),
        ),
{
    let mut b = b;
    let ghost body = b.body@;
    let ghost objects = crate::ipcz::wire::byte_views(driver_data@);
    let ghost at = (24 + body.len()) as int;
    proof {
        lemma_message_with_objects_len(b.header.message_id, 0, body, objects);
        assert forall|i: int| 0 <= i < driver_data@.len() implies (
        #[trigger] driver_data@[i])@.len() > 0 by {
            assert(objects[i] == driver_data@[i]@);
        }
        if objects.len() > 0 {
            crate::ipcz::wire::lemma_driver_object_entries_len(
                objects,
                at + 8 + 8 * objects.len(),
                0,
            );
            crate::ipcz::wire::lemma_padded_block_len(
                objects.len() as u32,
                crate::ipcz::wire::driver_object_entries(objects, at + 8 + 8 * objects.len(), 0),
            );
        }
    }
    b.append_driver_objects(driver_data);
    assert(b.body@ =~= body + driver_object_part(objects, at));
    b.build()
}

fn encode_accept_parcel(
    sublink: u64,
    sequence_number: u64,
    fragment: FragmentDescriptor,
    data: &[u8],
    handle_types: &[u32],
    driver_data: &[Vec<u8>],
) -> (out: Vec<u8>)
    requires
        encodable_objects(crate::ipcz::wire::byte_views(driver_data@)),
        accept_parcel_message(
            sublink,
            sequence_number,
            fragment,
            data@,
            handle_types@,
            crate::ipcz::wire::byte_views(driver_data@),
            0,
        ).len() <= u32::MAX,
    ensures
        out@ == accept_parcel_message(
            sublink,
            sequence_number,
            fragment,
            data@,
            handle_types@,
            crate::ipcz::wire::byte_views(driver_data@),
            0,
        ),
{
    proof {
        lemma_message_with_objects_len(
            MSG_ID_ACCEPT_PARCEL,
            0,
            accept_parcel_body(
                sublink,
                sequence_number,
                fragment,
                data@,
                handle_types@,
                driver_data@.len() as u32,
            ),
            crate::ipcz::wire::byte_views(driver_data@),
        );
    }
    let b = accept_parcel_builder(
        sublink,
        sequence_number,
        fragment,
        data,
        handle_types,
        driver_data.len() as u32,
    );
    build_with_objects(b, driver_data)
}

/// Encode an `AcceptParcel` with inline parcel data.
///
/// `driver_data` are the serialized driver objects, each of which takes one
/// attached descriptor.
pub fn encode_accept_parcel_inline(
    sublink: u64,
    sequence_number: u64,
    data: &[u8],
    handle_types: &[u32],
    driver_data: &[Vec<u8>],
) -> (out: Vec<u8>)
    requires
        encodable_objects(crate::ipcz::wire::byte_views(driver_data@)),
        accept_parcel_message(
            sublink,
            sequence_number,
            null_fragment(),
            data@,
            handle_types@,
            crate::ipcz::wire::byte_views(driver_data@),
            0,
        ).len() <= u32::MAX,
    ensures
        out@ == accept_parcel_message(
            sublink,
            sequence_number,
            null_fragment(),
            data@,
            handle_types@,
            crate::ipcz::wire::byte_views(driver_data@),
            0,
        ),
{
    encode_accept_parcel(
        sublink,
        sequence_number,
        FragmentDescriptor::default(),
        data,
        handle_types,
        driver_data,
    )
}

/// Encode an `AcceptParcel` whose data lives in a shared-memory fragment.
pub fn encode_accept_parcel_fragment(
    sublink: u64,
    sequence_number: u64,
    parcel_fragment: FragmentDescriptor,
    handle_types: &[u32],
    driver_data: &[Vec<u8>],
) -> (out: Vec<u8>)
    requires
        encodable_objects(crate::ipcz::wire::byte_views(driver_data@)),
        accept_parcel_message(
            sublink,
            sequence_number,
            parcel_fragment,
            Seq::empty(),
            handle_types@,
            crate::ipcz::wire::byte_views(driver_data@),
            0,
        ).len() <= u32::MAX,
    ensures
        out@ == accept_parcel_message(
            sublink,
            sequence_number,
            parcel_fragment,
            Seq::empty(),
            handle_types@,
            crate::ipcz::wire::byte_views(driver_data@),
            0,
        ),
{
    let empty: Vec<u8> = Vec::new();
    assert(empty@ =~= Seq::<u8>::empty());
    encode_accept_parcel(
        sublink,
        sequence_number,
        parcel_fragment,
        empty.as_slice(),
        handle_types,
        driver_data,
    )
}

/// An `AcceptParcelDriverObjects` message.
pub open spec fn parcel_objects_message(
    sublink: u64,
    sequence_number: u64,
    driver_data: Seq<Seq<u8>>,
    seq: u64,
) -> Seq<u8> {
    message_with_objects(
        MSG_ID_ACCEPT_PARCEL_DRIVER_OBJECTS,
        seq,
        crate::ipcz::wire::padded_block(
            0,
            crate::bytes::bytes64(sublink) + crate::bytes::bytes64(sequence_number)
                + crate::bytes::bytes32(0) + crate::bytes::bytes32(driver_data.len() as u32),
        ),
        driver_data,
    )
}

/// Encode an `AcceptParcelDriverObjects` message (the split-object half).
pub fn encode_accept_parcel_driver_objects(
    sublink: u64,
    sequence_number: u64,
    driver_data: &[Vec<u8>],
) -> (out: Vec<u8>)
    requires
        encodable_objects(crate::ipcz::wire::byte_views(driver_data@)),
        parcel_objects_message(
            sublink,
            sequence_number,
            crate::ipcz::wire::byte_views(driver_data@),
            0,
        ).len() <= u32::MAX,
    ensures
        out@ == parcel_objects_message(
            sublink,
            sequence_number,
            crate::ipcz::wire::byte_views(driver_data@),
            0,
        ),
{
    let mut b = MessageBuilder::new(MSG_ID_ACCEPT_PARCEL_DRIVER_OBJECTS);
    let mut fields: Vec<u8> = Vec::new();
    push_u64(&mut fields, sublink);
    push_u64(&mut fields, sequence_number);
    push_u32(&mut fields, 0);
    push_u32(&mut fields, driver_data.len() as u32);
    let ghost body = crate::ipcz::wire::padded_block(0, fields@);
    assert(fields@ =~= crate::bytes::bytes64(sublink) + crate::bytes::bytes64(sequence_number)
        + crate::bytes::bytes32(0) + crate::bytes::bytes32(driver_data@.len() as u32));
    b.append_params(fields.as_slice());
    assert(b.body@ =~= body);
    build_with_objects(b, driver_data)
}

/// The fields of a message that holds two 64-bit values.
pub open spec fn two_words(a: u64, b: u64) -> Seq<u8> {
    crate::bytes::bytes64(a) + crate::bytes::bytes64(b)
}

fn encode_two_words(message_id: u8, a: u64, b: u64) -> (out: Vec<u8>)
    ensures
        out@ == plain_message(message_id, 0, two_words(a, b)),
{
    let mut fields: Vec<u8> = Vec::new();
    push_u64(&mut fields, a);
    push_u64(&mut fields, b);
    assert(fields@ =~= two_words(a, b));
    encode_plain(message_id, fields.as_slice())
}

fn encode_one_word(message_id: u8, a: u64) -> (out: Vec<u8>)
    ensures
        out@ == plain_message(message_id, 0, crate::bytes::bytes64(a)),
{
    let mut fields: Vec<u8> = Vec::new();
    push_u64(&mut fields, a);
    assert(fields@ =~= crate::bytes::bytes64(a));
    encode_plain(message_id, fields.as_slice())
}

/// Encode `RouteClosed`.
pub fn encode_route_closed(sublink: u64, sequence_length: u64) -> (out: Vec<u8>)
    ensures
        out@ == plain_message(MSG_ID_ROUTE_CLOSED, 0, two_words(sublink, sequence_length)),
{
    encode_two_words(MSG_ID_ROUTE_CLOSED, sublink, sequence_length)
}

/// Encode `RouteDisconnected`.
pub fn encode_route_disconnected(sublink: u64) -> (out: Vec<u8>)
    ensures
        out@ == plain_message(MSG_ID_ROUTE_DISCONNECTED, 0, crate::bytes::bytes64(sublink)),
{
    encode_one_word(MSG_ID_ROUTE_DISCONNECTED, sublink)
}

/// Encode `FlushRouter`.
pub fn encode_flush_router(sublink: u64) -> (out: Vec<u8>)
    ensures
        out@ == plain_message(MSG_ID_FLUSH_ROUTER, 0, crate::bytes::bytes64(sublink)),
{
    encode_one_word(MSG_ID_FLUSH_ROUTER, sublink)
}

/// Encode `StopProxyingToLocalPeer`.
pub fn encode_stop_proxying_to_local_peer(sublink: u64, outbound_sequence_length: u64) -> (out: Vec<
    u8,
>)
    ensures
        out@ == plain_message(
            MSG_ID_STOP_PROXYING_TO_LOCAL_PEER,
            0,
            two_words(sublink, outbound_sequence_length),
        ),
{
    encode_two_words(MSG_ID_STOP_PROXYING_TO_LOCAL_PEER, sublink, outbound_sequence_length)
}

/// The fields of a `BypassPeerWithLink`.
pub open spec fn bypass_fields(
    sublink: u64,
    new_sublink: u64,
    state: FragmentDescriptor,
    length: u64,
) -> Seq<u8> {
    crate::bytes::bytes64(sublink) + crate::bytes::bytes64(new_sublink) + fragment_bytes(state)
        + crate::bytes::bytes64(length)
}

/// Encode `BypassPeerWithLink`.
pub fn encode_bypass_peer_with_link(
    sublink: u64,
    new_sublink: u64,
    new_link_state_fragment: FragmentDescriptor,
    inbound_sequence_length: u64,
) -> (out: Vec<u8>)
    ensures
        out@ == plain_message(
            MSG_ID_BYPASS_PEER_WITH_LINK,
            0,
            bypass_fields(
                sublink,
                new_sublink,
                new_link_state_fragment,
                inbound_sequence_length,
            ),
        ),
{
    let mut fields: Vec<u8> = Vec::new();
    push_u64(&mut fields, sublink);
    push_u64(&mut fields, new_sublink);
    push_fragment(&mut fields, new_link_state_fragment);
    push_u64(&mut fields, inbound_sequence_length);
    assert(fields@ =~= bypass_fields(
        sublink,
        new_sublink,
        new_link_state_fragment,
        inbound_sequence_length,
    ));
    encode_plain(MSG_ID_BYPASS_PEER_WITH_LINK, fields.as_slice())
}

/// An array that is laid out at `off` is read back.
proof fn lemma_array_at(p: Seq<u8>, off: int, count: u32, elements: Seq<u8>, element_size: nat)
    requires
        0 < off,
        off + crate::ipcz::wire::aligned8(8 + elements.len()) <= p.len() <= u32::MAX,
        p.subrange(off, off + crate::ipcz::wire::aligned8(8 + elements.len()))
            == crate::ipcz::wire::padded_block(count, elements),
        elements.len() == count * element_size,
    ensures
        array_at(p, off as u32, element_size) == Ok::<Seq<u8>, WireError>(elements),
{
    let size = crate::ipcz::wire::aligned8(8 + elements.len());
    let block = crate::ipcz::wire::padded_block(count, elements);
    assert(block.subrange(0, 4) =~= crate::bytes::bytes32(size as u32));
    assert(block.subrange(4, 8) =~= crate::bytes::bytes32(count));
    crate::bytes::lemma_le32_of_bytes(block, 0, size as u32);
    crate::bytes::lemma_le32_of_bytes(block, 4, count);
    crate::bytes::lemma_le32_in_part(p, off, block, 0);
    crate::bytes::lemma_le32_in_part(p, off, block, 4);
    assert(p.subrange(off + 8, off + 8 + elements.len()) =~= block.subrange(
        8,
        8 + elements.len() as int,
    ));
    assert(block.subrange(8, 8 + elements.len() as int) =~= elements);
}

/// The driver objects of the data blocks `data`, one descriptor each, of which
/// the first has index `first`.
pub open spec fn single_fd_objects(data: Seq<Seq<u8>>, first: nat) -> Seq<DriverObjectView> {
    Seq::new(
        data.len(),
        |i: int| DriverObjectView { data: data[i], first_fd: (first + i) as nat, num_fds: 1 },
    )
}

#[verifier::rlimit(40)]
proof fn lemma_objects_from(p: Seq<u8>, data: Seq<Seq<u8>>, off: int, first: nat, num_fds: nat)
    requires
        0 < off,
        p.len() <= u32::MAX,
        first + data.len() == num_fds <= u16::MAX,
        forall|i: int| 0 <= i < data.len() ==> (#[trigger] data[i]).len() > 0,
        off + crate::ipcz::wire::driver_data_blocks(data).len() <= p.len(),
        p.subrange(off, off + crate::ipcz::wire::driver_data_blocks(data).len())
            == crate::ipcz::wire::driver_data_blocks(data),
    ensures
        objects_from(
            p,
            crate::ipcz::wire::driver_object_entries(data, off, first as int),
            first,
            num_fds,
        ) == Ok::<Seq<DriverObjectView>, WireError>(single_fd_objects(data, first)),
    decreases data.len(),
{
    let entries = crate::ipcz::wire::driver_object_entries(data, off, first as int);
    crate::ipcz::wire::lemma_driver_object_entries_len(data, off, first as int);
    if data.len() == 0 {
        assert(single_fd_objects(data, first) =~= Seq::<DriverObjectView>::empty());
    } else {
        let d = data[0];
        let block = crate::ipcz::wire::padded_block(d.len() as u32, d);
        let size = crate::ipcz::wire::aligned8(8 + d.len());
        let tail = data.skip(1);
        let blocks = crate::ipcz::wire::driver_data_blocks(data);
        let rest_blocks = crate::ipcz::wire::driver_data_blocks(tail);
        let rest = crate::ipcz::wire::driver_object_entries(tail, off + size, first as int + 1);
        crate::ipcz::wire::lemma_padded_block_len(d.len() as u32, d);
        assert(entries.subrange(0, 4) =~= crate::bytes::bytes32(off as u32));
        assert(entries.subrange(4, 6) =~= crate::bytes::bytes16(first as u16));
        assert(entries.subrange(6, 8) =~= crate::bytes::bytes16(1));
        crate::bytes::lemma_le32_of_bytes(entries, 0, off as u32);
        crate::bytes::lemma_le16_of_bytes(entries, 4, first as u16);
        crate::bytes::lemma_le16_of_bytes(entries, 6, 1);
        assert(entries.skip(8) =~= rest);
        let here = p.subrange(off, off + blocks.len());
        assert(p.subrange(off, off + size) =~= here.subrange(0, size as int));
        assert(here.subrange(0, size as int) =~= block);
        lemma_array_at(p, off, d.len() as u32, d, 1);
        assert(p.subrange(off + size, off + size + rest_blocks.len()) =~= here.subrange(
            size as int,
            blocks.len() as int,
        ));
        assert(here.subrange(size as int, blocks.len() as int) =~= rest_blocks);
        assert forall|i: int| 0 <= i < tail.len() implies (#[trigger] tail[i]).len() > 0 by {
            assert(tail[i] == data[i + 1]);
        }
        lemma_objects_from(p, tail, off + size, first + 1, num_fds);
        assert(seq![DriverObjectView { data: d, first_fd: first, num_fds: 1 }]
            + single_fd_objects(tail, first + 1) =~= single_fd_objects(data, first));
    }
}

proof fn lemma_objects_of_message(
    message_id: u8,
    seq: u64,
    body: Seq<u8>,
    driver_data: Seq<Seq<u8>>,
)
    requires
        encodable_objects(driver_data),
        message_with_objects(message_id, seq, body, driver_data).len() <= u32::MAX,
    ensures
        objects_at(
            message_with_objects(message_id, seq, body, driver_data),
            if driver_data.len() == 0 {
                0
            } else {
                (24 + body.len()) as u32
            },
            driver_data.len(),
        ) == Ok::<Seq<DriverObjectView>, WireError>(single_fd_objects(driver_data, 0)),
{
    let p = message_with_objects(message_id, seq, body, driver_data);
    let doa = if driver_data.len() == 0 {
        0
    } else {
        (24 + body.len()) as u32
    };
    let whole = body + driver_object_part(driver_data, (24 + body.len()) as int);
    crate::ipcz::wire::lemma_message_body(header_with(message_id, seq, doa), whole);
    if driver_data.len() == 0 {
        assert(single_fd_objects(driver_data, 0) =~= Seq::<DriverObjectView>::empty());
    } else {
        let n = driver_data.len();
        let at = (24 + body.len()) as int;
        let start = at + 8 + 8 * n;
        let entries = crate::ipcz::wire::driver_object_entries(driver_data, start, 0);
        let block = crate::ipcz::wire::padded_block(n as u32, entries);
        let blocks = crate::ipcz::wire::driver_data_blocks(driver_data);
        crate::ipcz::wire::lemma_driver_object_entries_len(driver_data, start, 0);
        crate::ipcz::wire::lemma_padded_block_len(n as u32, entries);
        assert(crate::ipcz::wire::aligned8(8 + entries.len()) == 8 + 8 * n);
        assert(p.subrange(24, 24 + whole.len() as int) == whole);
        assert(whole.subrange(body.len() as int, start - 24) =~= block);
        assert(p.subrange(at, start) =~= whole.subrange(body.len() as int, start - 24));
        lemma_array_at(p, at, n as u32, entries, 8);
        assert(whole.subrange(start - 24, whole.len() as int) =~= blocks);
        assert(p.subrange(start, start + blocks.len()) =~= whole.subrange(
            start - 24,
            whole.len() as int,
        ));
        lemma_objects_from(p, driver_data, start, 0, n);
    }
}

/// The fields of an encoded message are where the decoder reads them.
proof fn lemma_fields_of_message(h: MessageHeader, fields: Seq<u8>, rest: Seq<u8>)
    requires
        h.size == 24,
        crate::ipcz::wire::aligned8(8 + fields.len()) <= u32::MAX,
    ensures
        ({
            let size = crate::ipcz::wire::aligned8(8 + fields.len());
            let p = crate::ipcz::wire::message_bytes(
                h,
                crate::ipcz::wire::padded_block(0, fields) + rest,
            );
            &&& crate::ipcz::wire::message_header_of(p) == Ok::<MessageHeader, WireError>(h)
            &&& p.len() == 24 + size + rest.len()
            &&& crate::bytes::le32(p, 24) == size
            &&& p.subrange(32, 32 + fields.len() as int) == fields
            &&& p.subrange(24 + size as int, p.len() as int) == rest
        }),
{
    let size = crate::ipcz::wire::aligned8(8 + fields.len());
    let block = crate::ipcz::wire::padded_block(0, fields);
    let p = crate::ipcz::wire::message_bytes(h, block + rest);
    crate::ipcz::wire::law_message_header_round_trip(h, block + rest);
    crate::ipcz::wire::lemma_padded_block_len(0, fields);
    crate::ipcz::wire::lemma_message_body(h, block + rest);
    let whole = block + rest;
    assert(p.subrange(24, 24 + whole.len() as int) == whole);
    assert(whole.subrange(0, 4) =~= crate::bytes::bytes32(size as u32));
    crate::bytes::lemma_le32_of_bytes(whole, 0, size as u32);
    crate::bytes::lemma_le32_in_part(p, 24, whole, 0);
    assert(whole.subrange(8, 8 + fields.len() as int) =~= fields);
    assert(p.subrange(32, 32 + fields.len() as int) =~= whole.subrange(
        8,
        8 + fields.len() as int,
    ));
    assert(whole.subrange(size as int, whole.len() as int) =~= rest);
    assert(p.subrange(24 + size as int, p.len() as int) =~= whole.subrange(
        size as int,
        whole.len() as int,
    ));
}

proof fn lemma_two_words_decoded(message_id: u8, seq: u64, a: u64, b: u64)
    requires
        min_fields(message_id) <= 16,
    ensures
        ({
            let p = plain_message(message_id, seq, two_words(a, b));
            &&& decoded(p, 0) == fields_decoded(p, header_with(message_id, seq, 0), 0)
            &&& crate::bytes::le64(p, 32) == a
            &&& crate::bytes::le64(p, 40) == b
        }),
{
    let fields = two_words(a, b);
    let h = header_with(message_id, seq, 0);
    let p = plain_message(message_id, seq, fields);
    let block = crate::ipcz::wire::padded_block(0, fields);
    assert(block + Seq::<u8>::empty() =~= block);
    lemma_fields_of_message(h, fields, Seq::empty());
    assert(fields.subrange(0, 8) =~= crate::bytes::bytes64(a));
    assert(fields.subrange(8, 16) =~= crate::bytes::bytes64(b));
    crate::bytes::lemma_le64_of_bytes(fields, 0, a);
    crate::bytes::lemma_le64_of_bytes(fields, 8, b);
    crate::bytes::lemma_le64_in_part(p, 32, fields, 0);
    crate::bytes::lemma_le64_in_part(p, 32, fields, 8);
}

proof fn lemma_one_word_decoded(message_id: u8, seq: u64, a: u64)
    requires
        min_fields(message_id) <= 8,
    ensures
        ({
            let p = plain_message(message_id, seq, crate::bytes::bytes64(a));
            &&& decoded(p, 0) == fields_decoded(p, header_with(message_id, seq, 0), 0)
            &&& crate::bytes::le64(p, 32) == a
        }),
{
    let fields = crate::bytes::bytes64(a);
    let h = header_with(message_id, seq, 0);
    let p = plain_message(message_id, seq, fields);
    let block = crate::ipcz::wire::padded_block(0, fields);
    assert(block + Seq::<u8>::empty() =~= block);
    lemma_fields_of_message(h, fields, Seq::empty());
    assert(fields.subrange(0, 8) =~= fields);
    crate::bytes::lemma_le64_of_bytes(fields, 0, a);
    crate::bytes::lemma_le64_in_part(p, 32, fields, 0);
}

/// An encoded `RouteClosed` decodes to what was encoded, whatever sequence
/// number it was sent with.
pub proof fn law_route_closed_round_trip(sublink: u64, sequence_length: u64, seq: u64)
    ensures
        decoded(plain_message(MSG_ID_ROUTE_CLOSED, seq, two_words(sublink, sequence_length)), 0)
            == Ok::<DecodedView, WireError>(
            DecodedView::RouteClosed(RouteClosed { sublink, sequence_length }),
        ),
{
    lemma_two_words_decoded(MSG_ID_ROUTE_CLOSED, seq, sublink, sequence_length);
}

/// An encoded `StopProxyingToLocalPeer` decodes to what was encoded.
pub proof fn law_stop_proxying_round_trip(sublink: u64, outbound_sequence_length: u64, seq: u64)
    ensures
        decoded(
            plain_message(
                MSG_ID_STOP_PROXYING_TO_LOCAL_PEER,
                seq,
                two_words(sublink, outbound_sequence_length),
            ),
            0,
        ) == Ok::<DecodedView, WireError>(
            DecodedView::StopProxyingToLocalPeer(
                StopProxyingToLocalPeer { sublink, outbound_sequence_length },
            ),
        ),
{
    lemma_two_words_decoded(
        MSG_ID_STOP_PROXYING_TO_LOCAL_PEER,
        seq,
        sublink,
        outbound_sequence_length,
    );
}

/// An encoded `RouteDisconnected` decodes to what was encoded.
pub proof fn law_route_disconnected_round_trip(sublink: u64, seq: u64)
    ensures
        decoded(plain_message(MSG_ID_ROUTE_DISCONNECTED, seq, crate::bytes::bytes64(sublink)), 0)
            == Ok::<DecodedView, WireError>(
            DecodedView::RouteDisconnected(RouteDisconnected { sublink }),
        ),
{
    lemma_one_word_decoded(MSG_ID_ROUTE_DISCONNECTED, seq, sublink);
}

/// An encoded `FlushRouter` decodes to what was encoded.
pub proof fn law_flush_router_round_trip(sublink: u64, seq: u64)
    ensures
        decoded(plain_message(MSG_ID_FLUSH_ROUTER, seq, crate::bytes::bytes64(sublink)), 0) == Ok::<
            DecodedView,
            WireError,
        >(DecodedView::FlushRouter(FlushRouter { sublink })),
{
    lemma_one_word_decoded(MSG_ID_FLUSH_ROUTER, seq, sublink);
}

proof fn lemma_fragment_at(s: Seq<u8>, o: int, d: FragmentDescriptor)
    requires
        0 <= o,
        o + 16 <= s.len(),
        s.subrange(o, o + 16) == fragment_bytes(d),
    ensures
        fragment_at(s, o) == d,
{
    let b = fragment_bytes(d);
    assert(b.subrange(0, 8) =~= crate::bytes::bytes64(d.buffer_id));
    assert(b.subrange(8, 12) =~= crate::bytes::bytes32(d.offset));
    assert(b.subrange(12, 16) =~= crate::bytes::bytes32(d.size));
    crate::bytes::lemma_le64_of_bytes(b, 0, d.buffer_id);
    crate::bytes::lemma_le32_of_bytes(b, 8, d.offset);
    crate::bytes::lemma_le32_of_bytes(b, 12, d.size);
    crate::bytes::lemma_le64_in_part(s, o, b, 0);
    crate::bytes::lemma_le32_in_part(s, o, b, 8);
    crate::bytes::lemma_le32_in_part(s, o, b, 12);
}

/// An encoded `BypassPeerWithLink` decodes to what was encoded.
pub proof fn law_bypass_peer_with_link_round_trip(
    sublink: u64,
    new_sublink: u64,
    new_link_state_fragment: FragmentDescriptor,
    inbound_sequence_length: u64,
    seq: u64,
)
    ensures
        decoded(
            plain_message(
                MSG_ID_BYPASS_PEER_WITH_LINK,
                seq,
                bypass_fields(
                    sublink,
                    new_sublink,
                    new_link_state_fragment,
                    inbound_sequence_length,
                ),
            ),
            0,
        ) == Ok::<DecodedView, WireError>(
            DecodedView::BypassPeerWithLink(
                BypassPeerWithLink {
                    sublink,
                    new_sublink,
                    new_link_state_fragment,
                    inbound_sequence_length,
                },
            ),
        ),
{
    let fields = bypass_fields(
        sublink,
        new_sublink,
        new_link_state_fragment,
        inbound_sequence_length,
    );
    let h = header_with(MSG_ID_BYPASS_PEER_WITH_LINK, seq, 0);
    let p = plain_message(MSG_ID_BYPASS_PEER_WITH_LINK, seq, fields);
    let block = crate::ipcz::wire::padded_block(0, fields);
    assert(block + Seq::<u8>::empty() =~= block);
    lemma_fields_of_message(h, fields, Seq::empty());
    assert(fields.subrange(0, 8) =~= crate::bytes::bytes64(sublink));
    assert(fields.subrange(8, 16) =~= crate::bytes::bytes64(new_sublink));
    assert(fields.subrange(16, 32) =~= fragment_bytes(new_link_state_fragment));
    assert(fields.subrange(32, 40) =~= crate::bytes::bytes64(inbound_sequence_length));
    crate::bytes::lemma_le64_of_bytes(fields, 0, sublink);
    crate::bytes::lemma_le64_of_bytes(fields, 8, new_sublink);
    crate::bytes::lemma_le64_of_bytes(fields, 32, inbound_sequence_length);
    crate::bytes::lemma_le64_in_part(p, 32, fields, 0);
    crate::bytes::lemma_le64_in_part(p, 32, fields, 8);
    crate::bytes::lemma_le64_in_part(p, 32, fields, 32);
    assert(p.subrange(48, 64) =~= fields.subrange(16, 32));
    lemma_fragment_at(p, 48, new_link_state_fragment);
}

/// An encoded connect reply decodes to protocol version 0 and the number of
/// portals that was encoded.
pub proof fn law_connect_reply_round_trip(num_initial_portals: u32, features: u64, seq: u64)
    ensures
        decoded(connect_reply_message(num_initial_portals, features, seq), 0) == Ok::<
            DecodedView,
            WireError,
        >(
            DecodedView::ConnectFromNonBrokerToBroker(
                ConnectFromNonBrokerToBroker { protocol_version: 0, num_initial_portals },
            ),
        ),
{
    let fields = crate::bytes::bytes32(0) + crate::bytes::bytes32(num_initial_portals)
        + crate::bytes::bytes32(48);
    let h = header_with(MSG_ID_CONNECT_FROM_NON_BROKER_TO_BROKER, seq, 0);
    let p = connect_reply_message(num_initial_portals, features, seq);
    let rest = crate::ipcz::wire::padded_block(1, crate::bytes::bytes64(features));
    lemma_fields_of_message(h, fields, rest);
    assert(fields.subrange(0, 4) =~= crate::bytes::bytes32(0));
    assert(fields.subrange(4, 8) =~= crate::bytes::bytes32(num_initial_portals));
    crate::bytes::lemma_le32_of_bytes(fields, 0, 0);
    crate::bytes::lemma_le32_of_bytes(fields, 4, num_initial_portals);
    crate::bytes::lemma_le32_in_part(p, 32, fields, 0);
    crate::bytes::lemma_le32_in_part(p, 32, fields, 4);
}

proof fn lemma_accept_parcel_fields(
    f: Seq<u8>,
    sublink: u64,
    sequence_number: u64,
    fragment: FragmentDescriptor,
    data_offset: u32,
    types_offset: u32,
    num_objects: u32,
)
    requires
        f == accept_parcel_fields(
            sublink,
            sequence_number,
            fragment,
            data_offset,
            types_offset,
            num_objects,
        ),
    ensures
        f.len() == 64,
        crate::bytes::le64(f, 0) == sublink,
        crate::bytes::le64(f, 8) == sequence_number,
        crate::bytes::le32(f, 16) == 0,
        crate::bytes::le32(f, 20) == 1,
        f.subrange(24, 40) == fragment_bytes(fragment),
        crate::bytes::le32(f, 40) == data_offset,
        crate::bytes::le32(f, 44) == types_offset,
        crate::bytes::le32(f, 48) == 0,
{
    reveal(accept_parcel_fields);
    assert(f.subrange(0, 8) =~= crate::bytes::bytes64(sublink));
    assert(f.subrange(8, 16) =~= crate::bytes::bytes64(sequence_number));
    assert(f.subrange(16, 20) =~= crate::bytes::bytes32(0));
    assert(f.subrange(20, 24) =~= crate::bytes::bytes32(1));
    assert(f.subrange(24, 40) =~= fragment_bytes(fragment));
    assert(f.subrange(40, 44) =~= crate::bytes::bytes32(data_offset));
    assert(f.subrange(44, 48) =~= crate::bytes::bytes32(types_offset));
    assert(f.subrange(48, 52) =~= crate::bytes::bytes32(0));
    crate::bytes::lemma_le64_of_bytes(f, 0, sublink);
    crate::bytes::lemma_le64_of_bytes(f, 8, sequence_number);
    crate::bytes::lemma_le32_of_bytes(f, 16, 0);
    crate::bytes::lemma_le32_of_bytes(f, 20, 1);
    crate::bytes::lemma_le32_of_bytes(f, 40, data_offset);
    crate::bytes::lemma_le32_of_bytes(f, 44, types_offset);
    crate::bytes::lemma_le32_of_bytes(f, 48, 0);
}

/// Where the parts of an encoded `AcceptParcel` lie.
proof fn lemma_accept_parcel_layout(
    sublink: u64,
    sequence_number: u64,
    fragment: FragmentDescriptor,
    data: Seq<u8>,
    handle_types: Seq<u32>,
    driver_data: Seq<Seq<u8>>,
    seq: u64,
)
    ensures
        ({
            let n = driver_data.len() as u32;
            let types = word_bytes(handle_types);
            let data_block = array_block(data.len() as u32, data);
            let types_block = array_block(handle_types.len() as u32, types);
            let at = 96 + data_block.len() as int;
            let fields = accept_parcel_fields(
                sublink,
                sequence_number,
                fragment,
                array_offset(96, data),
                array_offset(at, types),
                n,
            );
            let body = accept_parcel_body(
                sublink,
                sequence_number,
                fragment,
                data,
                handle_types,
                n,
            );
            let doa = if driver_data.len() == 0 {
                0
            } else {
                (24 + body.len()) as u32
            };
            let p = accept_parcel_message(
                sublink,
                sequence_number,
                fragment,
                data,
                handle_types,
                driver_data,
                seq,
            );
            &&& crate::ipcz::wire::message_header_of(p) == Ok::<MessageHeader, WireError>(
                header_with(MSG_ID_ACCEPT_PARCEL, seq, doa),
            )
            &&& p.len() >= at + types_block.len()
            &&& crate::bytes::le32(p, 24) == 72
            &&& p.subrange(32, 96) == fields
            &&& p.subrange(96, at) == data_block
            &&& p.subrange(at, at + types_block.len()) == types_block
        }),
{
    let n = driver_data.len() as u32;
    let types = word_bytes(handle_types);
    let data_block = array_block(data.len() as u32, data);
    let types_block = array_block(handle_types.len() as u32, types);
    let at = 96 + data_block.len() as int;
    let fields = accept_parcel_fields(
        sublink,
        sequence_number,
        fragment,
        array_offset(96, data),
        array_offset(at, types),
        n,
    );
    let body = accept_parcel_body(sublink, sequence_number, fragment, data, handle_types, n);
    let part = driver_object_part(driver_data, (24 + body.len()) as int);
    let doa = if driver_data.len() == 0 {
        0
    } else {
        (24 + body.len()) as u32
    };
    let h = header_with(MSG_ID_ACCEPT_PARCEL, seq, doa);
    let p = message_with_objects(MSG_ID_ACCEPT_PARCEL, seq, body, driver_data);
    let rest = data_block + types_block + part;
    lemma_accept_parcel_fields_len(
        sublink,
        sequence_number,
        fragment,
        array_offset(96, data),
        array_offset(at, types),
        n,
    );
    assert(body + part =~= crate::ipcz::wire::padded_block(0, fields) + rest) by {
        reveal(accept_parcel_body);
    }
    lemma_fields_of_message(h, fields, rest);
    assert(p.subrange(96, p.len() as int) == rest);
    assert(rest.subrange(0, at - 96) =~= data_block);
    assert(p.subrange(96, at) =~= rest.subrange(0, at - 96));
    assert(rest.subrange(at - 96, at - 96 + types_block.len()) =~= types_block);
    assert(p.subrange(at, at + types_block.len()) =~= rest.subrange(
        at - 96,
        at - 96 + types_block.len(),
    ));
}

/// An encoded `AcceptParcel` decodes to the parcel that was encoded: its
/// route, its fragment, its inline data, its handle types and its driver
/// objects in order.
pub proof fn law_accept_parcel_round_trip(
    sublink: u64,
    sequence_number: u64,
    fragment: FragmentDescriptor,
    data: Seq<u8>,
    handle_types: Seq<u32>,
    driver_data: Seq<Seq<u8>>,
    seq: u64,
)
    requires
        encodable_objects(driver_data),
        accept_parcel_message(
            sublink,
            sequence_number,
            fragment,
            data,
            handle_types,
            driver_data,
            seq,
        ).len() <= u32::MAX,
    ensures
        decoded(
            accept_parcel_message(
                sublink,
                sequence_number,
                fragment,
                data,
                handle_types,
                driver_data,
                seq,
            ),
            driver_data.len(),
        ) == Ok::<DecodedView, WireError>(
            DecodedView::AcceptParcel(
                AcceptParcelView {
                    sublink,
                    sequence_number,
                    subparcel_index: 0,
                    num_subparcels: 1,
                    parcel_fragment: fragment,
                    parcel_data: data,
                    handle_types,
                    new_routers: Seq::empty(),
                    driver_objects: single_fd_objects(driver_data, 0),
                },
            ),
        ),
{
    let n = driver_data.len() as u32;
    let types = word_bytes(handle_types);
    let data_block = array_block(data.len() as u32, data);
    let types_block = array_block(handle_types.len() as u32, types);
    let at = 96 + data_block.len() as int;
    let fields = accept_parcel_fields(
        sublink,
        sequence_number,
        fragment,
        array_offset(96, data),
        array_offset(at, types),
        n,
    );
    let body = accept_parcel_body(sublink, sequence_number, fragment, data, handle_types, n);
    let p = message_with_objects(MSG_ID_ACCEPT_PARCEL, seq, body, driver_data);
    lemma_accept_parcel_layout(
        sublink,
        sequence_number,
        fragment,
        data,
        handle_types,
        driver_data,
        seq,
    );
    lemma_accept_parcel_fields(
        fields,
        sublink,
        sequence_number,
        fragment,
        array_offset(96, data),
        array_offset(at, types),
        n,
    );
    lemma_word_bytes(handle_types);
    lemma_objects_of_message(MSG_ID_ACCEPT_PARCEL, seq, body, driver_data);
    crate::bytes::lemma_le64_in_part(p, 32, fields, 0);
    crate::bytes::lemma_le64_in_part(p, 32, fields, 8);
    crate::bytes::lemma_le32_in_part(p, 32, fields, 16);
    crate::bytes::lemma_le32_in_part(p, 32, fields, 20);
    crate::bytes::lemma_le32_in_part(p, 32, fields, 40);
    crate::bytes::lemma_le32_in_part(p, 32, fields, 44);
    crate::bytes::lemma_le32_in_part(p, 32, fields, 48);
    assert(p.subrange(56, 72) =~= fields.subrange(24, 40));
    lemma_fragment_at(p, 56, fragment);
    if data.len() > 0 {
        crate::ipcz::wire::lemma_padded_block_len(data.len() as u32, data);
        lemma_array_at(p, 96, data.len() as u32, data, 1);
    } else {
        assert(data =~= Seq::<u8>::empty());
    }
    if types.len() > 0 {
        crate::ipcz::wire::lemma_padded_block_len(handle_types.len() as u32, types);
        lemma_array_at(p, at, handle_types.len() as u32, types, 4);
    } else {
        assert(types =~= Seq::<u8>::empty());
    }
}

/// An encoded `AcceptParcelDriverObjects` decodes to the objects that were
/// encoded, in order.
pub proof fn law_parcel_objects_round_trip(
    sublink: u64,
    sequence_number: u64,
    driver_data: Seq<Seq<u8>>,
    seq: u64,
)
    requires
        encodable_objects(driver_data),
        parcel_objects_message(sublink, sequence_number, driver_data, seq).len() <= u32::MAX,
    ensures
        decoded(
            parcel_objects_message(sublink, sequence_number, driver_data, seq),
            driver_data.len(),
        ) == Ok::<DecodedView, WireError>(
            DecodedView::AcceptParcelDriverObjects(
                AcceptParcelDriverObjectsView {
                    sublink,
                    sequence_number,
                    driver_objects: single_fd_objects(driver_data, 0),
                },
            ),
        ),
{
    let id = MSG_ID_ACCEPT_PARCEL_DRIVER_OBJECTS;
    let fields = crate::bytes::bytes64(sublink) + crate::bytes::bytes64(sequence_number)
        + crate::bytes::bytes32(0) + crate::bytes::bytes32(driver_data.len() as u32);
    let body = crate::ipcz::wire::padded_block(0, fields);
    let part = driver_object_part(driver_data, (24 + body.len()) as int);
    let doa = if driver_data.len() == 0 {
        0
    } else {
        (24 + body.len()) as u32
    };
    let h = header_with(id, seq, doa);
    let p = message_with_objects(id, seq, body, driver_data);
    lemma_message_with_objects_len(id, seq, body, driver_data);
    lemma_fields_of_message(h, fields, part);
    lemma_objects_of_message(id, seq, body, driver_data);
    assert(fields.subrange(0, 8) =~= crate::bytes::bytes64(sublink));
    assert(fields.subrange(8, 16) =~= crate::bytes::bytes64(sequence_number));
    crate::bytes::lemma_le64_of_bytes(fields, 0, sublink);
    crate::bytes::lemma_le64_of_bytes(fields, 8, sequence_number);
    crate::bytes::lemma_le64_in_part(p, 32, fields, 0);
    crate::bytes::lemma_le64_in_part(p, 32, fields, 8);
}

/// The length of a message of parameter fields alone.
pub proof fn lemma_plain_message_len(message_id: u8, seq: u64, fields: Seq<u8>)
    ensures
        plain_message(message_id, seq, fields).len() >= 24,
{
    crate::ipcz::wire::lemma_message_body(
        header_with(message_id, seq, 0),
        crate::ipcz::wire::padded_block(0, fields),
    );
}

/// The length of a parcel message that carries one handle with a short object
/// and short data.
pub proof fn lemma_one_object_parcel_len(
    sublink: u64,
    sequence_number: u64,
    fragment: FragmentDescriptor,
    handle_type: u32,
    object: Seq<u8>,
    seq: u64,
)
    requires
        0 < object.len() <= 64,
    ensures
        encodable_objects(seq![object]),
        24 <= accept_parcel_message(
            sublink,
            sequence_number,
            fragment,
            Seq::empty(),
            seq![handle_type],
            seq![object],
            seq,
        ).len() <= 1000,
{
    let types = seq![handle_type];
    let data = seq![object];
    lemma_word_bytes(types);
    let at = 96 + array_block(0, Seq::empty()).len() as int;
    lemma_accept_parcel_fields_len(
        sublink,
        sequence_number,
        fragment,
        array_offset(96, Seq::empty()),
        array_offset(at, word_bytes(types)),
        1,
    );
    let body = accept_parcel_body(sublink, sequence_number, fragment, Seq::empty(), types, 1);
    lemma_message_with_objects_len(MSG_ID_ACCEPT_PARCEL, seq, body, data);
    reveal(accept_parcel_body);
    let part = driver_object_part(data, (24 + body.len()) as int);
    crate::ipcz::wire::lemma_driver_object_entries_len(data, (24 + body.len()) as int + 16, 0);
    reveal_with_fuel(crate::ipcz::wire::driver_data_blocks, 2);
    assert(body.len() <= 200);
    assert(part.len() <= 200);
    assert(data.skip(1).len() == 0);
}

/// The length of a parcel message that carries `n` bytes of inline data and
/// nothing else.
pub open spec fn plain_parcel_len(n: nat) -> nat {
    if n == 0 {
        96
    } else {
        96 + crate::ipcz::wire::aligned8(8 + n)
    }
}

/// The length of a parcel message that carries data alone.
pub proof fn lemma_plain_parcel_len(
    sublink: u64,
    sequence_number: u64,
    fragment: FragmentDescriptor,
    data: Seq<u8>,
    seq: u64,
)
    ensures
        encodable_objects(Seq::empty()),
        accept_parcel_message(
            sublink,
            sequence_number,
            fragment,
            data,
            Seq::empty(),
            Seq::empty(),
            seq,
        ).len() == plain_parcel_len(data.len()),
{
    let types = Seq::<u32>::empty();
    lemma_word_bytes(types);
    let at = 96 + array_block(data.len() as u32, data).len() as int;
    lemma_accept_parcel_fields_len(
        sublink,
        sequence_number,
        fragment,
        array_offset(96, data),
        array_offset(at, word_bytes(types)),
        0,
    );
    let body = accept_parcel_body(sublink, sequence_number, fragment, data, types, 0);
    lemma_message_with_objects_len(MSG_ID_ACCEPT_PARCEL, seq, body, Seq::empty());
    reveal(accept_parcel_body);
}

/// A serialized shared buffer of `size` bytes: a header of 8 bytes for type 1,
/// then a buffer header of 32 bytes with the size, the unsafe mode, which is 2,
/// and no guid.
pub open spec fn shared_buffer_object(size: u32) -> Seq<u8> {
    crate::bytes::bytes32(8) + crate::bytes::bytes32(1) + crate::bytes::bytes32(32)
        + crate::bytes::bytes32(size) + crate::bytes::bytes32(2) + crate::bytes::bytes32(0)
        + crate::bytes::bytes64(0) + crate::bytes::bytes64(0)
}

fn encode_shared_buffer(size: u32) -> (out: Vec<u8>)
    ensures
        out@ == shared_buffer_object(size),
        out@.len() == 40,
{
    let mut out: Vec<u8> = Vec::new();
    push_u32(&mut out, 8);
    push_u32(&mut out, 1);
    push_u32(&mut out, 32);
    push_u32(&mut out, size);
    push_u32(&mut out, 2);
    push_u32(&mut out, 0);
    push_u64(&mut out, 0);
    push_u64(&mut out, 0);
    assert(out@ =~= shared_buffer_object(size));
    out
}

/// The fields of an `AddBlockBuffer`.
pub open spec fn buffer_fields(buffer_id: u64, block_size: u32, buffer_index: u32) -> Seq<u8> {
    crate::bytes::bytes64(buffer_id) + crate::bytes::bytes32(block_size) + crate::bytes::bytes32(
        buffer_index,
    )
}

/// An `AddBlockBuffer` message for a buffer of `size` bytes, which is its one
/// driver object.
pub open spec fn add_buffer_message(
    buffer_id: u64,
    block_size: u32,
    buffer_index: u32,
    size: u32,
    seq: u64,
) -> Seq<u8> {
    message_with_objects(
        MSG_ID_ADD_BLOCK_BUFFER,
        seq,
        crate::ipcz::wire::padded_block(0, buffer_fields(buffer_id, block_size, buffer_index)),
        seq![shared_buffer_object(size)],
    )
}

/// The length of an `AddBlockBuffer` message.
pub proof fn lemma_add_buffer_len(
    buffer_id: u64,
    block_size: u32,
    buffer_index: u32,
    size: u32,
    seq: u64,
)
    ensures
        encodable_objects(seq![shared_buffer_object(size)]),
        24 <= add_buffer_message(buffer_id, block_size, buffer_index, size, seq).len() <= 500,
{
    let object = shared_buffer_object(size);
    let data = seq![object];
    let body = crate::ipcz::wire::padded_block(
        0,
        buffer_fields(buffer_id, block_size, buffer_index),
    );
    assert(object.len() == 40);
    lemma_message_with_objects_len(MSG_ID_ADD_BLOCK_BUFFER, seq, body, data);
    reveal_with_fuel(crate::ipcz::wire::driver_object_entries, 2);
    reveal_with_fuel(crate::ipcz::wire::driver_data_blocks, 2);
}

/// Encode `AddBlockBuffer`.
pub fn encode_add_block_buffer(buffer_id: u64, block_size: u32, buffer_index: u32, size: u32)
    -> (out: Vec<u8>)
    ensures
        out@ == add_buffer_message(buffer_id, block_size, buffer_index, size, 0),
{
    let mut b = MessageBuilder::new(MSG_ID_ADD_BLOCK_BUFFER);
    let mut fields: Vec<u8> = Vec::new();
    push_u64(&mut fields, buffer_id);
    push_u32(&mut fields, block_size);
    push_u32(&mut fields, buffer_index);
    let ghost body = crate::ipcz::wire::padded_block(0, fields@);
    assert(fields@ =~= buffer_fields(buffer_id, block_size, buffer_index));
    b.append_params(fields.as_slice());
    assert(b.body@ =~= body);
    let mut objects: Vec<Vec<u8>> = Vec::new();
    objects.push(encode_shared_buffer(size));
    proof {
        assert(crate::ipcz::wire::byte_views(objects@) =~= seq![shared_buffer_object(size)]);
        lemma_add_buffer_len(buffer_id, block_size, buffer_index, size, 0);
    }
    build_with_objects(b, objects.as_slice())
}

/// An encoded `AddBlockBuffer` decodes to what was encoded.
pub proof fn law_add_block_buffer_round_trip(
    buffer_id: u64,
    block_size: u32,
    buffer_index: u32,
    size: u32,
    seq: u64,
)
    ensures
        decoded(add_buffer_message(buffer_id, block_size, buffer_index, size, seq), 1) == Ok::<
            DecodedView,
            WireError,
        >(DecodedView::AddBlockBuffer(AddBlockBuffer { buffer_id, block_size, buffer_index })),
{
    let id = MSG_ID_ADD_BLOCK_BUFFER;
    let data = seq![shared_buffer_object(size)];
    let fields = buffer_fields(buffer_id, block_size, buffer_index);
    let body = crate::ipcz::wire::padded_block(0, fields);
    let part = driver_object_part(data, (24 + body.len()) as int);
    let h = header_with(id, seq, (24 + body.len()) as u32);
    let p = message_with_objects(id, seq, body, data);
    lemma_add_buffer_len(buffer_id, block_size, buffer_index, size, seq);
    lemma_message_with_objects_len(id, seq, body, data);
    lemma_fields_of_message(h, fields, part);
    lemma_objects_of_message(id, seq, body, data);
    assert(fields.subrange(0, 8) =~= crate::bytes::bytes64(buffer_id));
    assert(fields.subrange(8, 12) =~= crate::bytes::bytes32(block_size));
    assert(fields.subrange(12, 16) =~= crate::bytes::bytes32(buffer_index));
    crate::bytes::lemma_le64_of_bytes(fields, 0, buffer_id);
    crate::bytes::lemma_le32_of_bytes(fields, 8, block_size);
    crate::bytes::lemma_le32_of_bytes(fields, 12, buffer_index);
    crate::bytes::lemma_le64_in_part(p, 32, fields, 0);
    crate::bytes::lemma_le32_in_part(p, 32, fields, 8);
    crate::bytes::lemma_le32_in_part(p, 32, fields, 12);
}

/// Encode `RequestMemory`.
pub fn encode_request_memory(size: u32) -> (out: Vec<u8>)
    ensures
        out@ == plain_message(
            MSG_ID_REQUEST_MEMORY,
            0,
            crate::bytes::bytes32(size) + crate::bytes::bytes32(0),
        ),
{
    let mut fields: Vec<u8> = Vec::new();
    push_u32(&mut fields, size);
    push_u32(&mut fields, 0);
    assert(fields@ =~= crate::bytes::bytes32(size) + crate::bytes::bytes32(0));
    encode_plain(MSG_ID_REQUEST_MEMORY, fields.as_slice())
}

/// An encoded `RequestMemory` decodes to the size that was encoded.
pub proof fn law_request_memory_round_trip(size: u32, seq: u64)
    ensures
        decoded(
            plain_message(
                MSG_ID_REQUEST_MEMORY,
                seq,
                crate::bytes::bytes32(size) + crate::bytes::bytes32(0),
            ),
            0,
        ) == Ok::<DecodedView, WireError>(DecodedView::RequestMemory(MemoryRequest { size })),
{
    let fields = crate::bytes::bytes32(size) + crate::bytes::bytes32(0);
    let h = header_with(MSG_ID_REQUEST_MEMORY, seq, 0);
    let p = plain_message(MSG_ID_REQUEST_MEMORY, seq, fields);
    let block = crate::ipcz::wire::padded_block(0, fields);
    assert(block + Seq::<u8>::empty() =~= block);
    lemma_fields_of_message(h, fields, Seq::empty());
    assert(fields.subrange(0, 4) =~= crate::bytes::bytes32(size));
    crate::bytes::lemma_le32_of_bytes(fields, 0, size);
    crate::bytes::lemma_le32_in_part(p, 32, fields, 0);
}

/// An array that is read lies in its message: behind its header of 8 bytes it
/// has room for all elements that it counts, and these are what is read.
pub proof fn law_array_lies_in_message(payload: Seq<u8>, off: u32, element_size: nat)
    requires
        off != 0,
    ensures
        ({
            let r = array_at(payload, off, element_size);
            let size = crate::bytes::le32(payload, off as int);
            let count = crate::bytes::le32(payload, off + 4);
            &&& r is Ok <==> off + 8 <= payload.len() && 8 <= size && size % 8 == 0 && off + size
                <= payload.len() && 8 + count * element_size <= size
            &&& r matches Ok(s) ==> s.len() == count * element_size && off + 8 + s.len()
                <= payload.len() && s == payload.subrange(off + 8, off + 8 + s.len())
        }),
{
    let count = crate::bytes::le32(payload, off + 4);
    assert(0 <= count * element_size) by (nonlinear_arith)
        requires
            0 <= count,
            0 <= element_size,
    ;
}

/// The driver objects of a message share out its descriptors: the first object
/// has the first ones, each other object those behind the one before it, and
/// none is left over.
pub proof fn law_objects_share_out_descriptors(
    payload: Seq<u8>,
    data: Seq<u8>,
    next_fd: nat,
    num_fds: nat,
    i: int,
)
    requires
        objects_from(payload, data, next_fd, num_fds) is Ok,
    ensures
        ({
            let objects = objects_from(payload, data, next_fd, num_fds)->Ok_0;
            &&& objects.len() == data.len() / 8
            &&& objects.len() == 0 ==> next_fd == num_fds
            &&& objects.len() > 0 ==> objects[0].first_fd == next_fd
            &&& objects.len() > 0 ==> objects.last().first_fd + objects.last().num_fds == num_fds
            &&& 0 <= i && i + 1 < objects.len() ==> objects[i + 1].first_fd == objects[i].first_fd
                + objects[i].num_fds
            &&& 0 <= i < objects.len() ==> objects[i].first_fd + objects[i].num_fds <= num_fds
        }),
    decreases data.len(),
{
    if data.len() >= 8 {
        let first = crate::bytes::le16(data, 4) as nat;
        let num = crate::bytes::le16(data, 6) as nat;
        law_objects_share_out_descriptors(payload, data.skip(8), first + num, num_fds, i - 1);
        let rest = objects_from(payload, data.skip(8), first + num, num_fds)->Ok_0;
        let objects = objects_from(payload, data, next_fd, num_fds)->Ok_0;
        assert(data.skip(8).len() / 8 == data.len() / 8 - 1);
        if rest.len() > 0 {
            assert(objects.last() == rest.last());
        }
    }
}

/// A message is decoded only if its parameters lie in it and have room for all
/// fields of its kind; and what kind it is its header says.
pub proof fn law_short_message_is_refused(payload: Seq<u8>, num_fds: nat)
    requires
        decoded(payload, num_fds) is Ok,
    ensures
        ({
            let size = crate::bytes::le32(payload, 24);
            let id = payload[2];
            &&& payload.len() >= 32
            &&& payload[0] == 24
            &&& 8 <= size
            &&& 24 + size <= payload.len()
            &&& match decoded(payload, num_fds)->Ok_0 {
                DecodedView::ConnectFromBrokerToNonBroker(_) => id == 0 && size >= 56,
                DecodedView::ConnectFromNonBrokerToBroker(_) => id == 1 && size >= 16,
                DecodedView::AddBlockBuffer(_) => id == 14 && size >= 24,
                DecodedView::AcceptParcel(_) => id == 20 && size >= 72,
                DecodedView::AcceptParcelDriverObjects(_) => id == 21 && size >= 24,
                DecodedView::RouteClosed(_) => id == 22 && size >= 24,
                DecodedView::RouteDisconnected(_) => id == 23 && size >= 16,
                DecodedView::BypassPeerWithLink(_) => id == 34 && size >= 48,
                DecodedView::StopProxyingToLocalPeer(_) => id == 35 && size >= 24,
                DecodedView::FlushRouter(_) => id == 36 && size >= 16,
                DecodedView::RequestMemory(_) => id == 64 && size >= 16,
                DecodedView::ProvideMemory(_) => id == 65 && size >= 16,
                DecodedView::Unknown(x) => id == x,
            }
        }),
{
}

} // verus!
