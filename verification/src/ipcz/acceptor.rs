//! The acceptor: the non-broker end of a node link.
//!
//! The acceptor completes the connect handshake with a broker, adopts the link
//! memory that the broker's greeting carries, and then exchanges a message with
//! a wrapped descriptor over the bootstrap pipe (initial portal 1, sublink 1).
//!
//! The state machine takes what the channel received and says what to do next;
//! what it sends is put into its outbox. Message types that it does not support
//! are refused with a classified error; nothing is passed over in silence but
//! what the protocol says to ignore.

use std::collections::{HashMap, VecDeque};
use vstd::prelude::*;
use vstd::slice::{slice_subrange, slice_to_vec};
#[allow(unused_imports)]
use vstd::utf8::encode_utf8;

#[allow(unused_imports)]
use crate::bytes::{bytes32, bytes64, le16, le32, le64, next_number, overwrite};
use crate::bytes::{following, get_u16, get_u32, get_u64, push_u32, same_bytes};
#[allow(unused_imports)]
use crate::casefile::events::{event_views, plain_event, EventView};
use crate::casefile::events::{Event, EventKind};
use crate::digest::digest_text;
#[allow(unused_imports)]
use crate::digest::hex_text;
use crate::ipcz::channel::{ChannelError, IncomingMessage};
#[allow(unused_imports)]
use crate::ipcz::channel::IncomingView;
use crate::ipcz::link_memory::{
    LinkMemory, LinkMemoryError, RouterLinkStatus, MAX_INITIAL_PORTALS, PRIMARY_BUFFER_SIZE,
    ROUTER_LINK_STATE_SIZE,
};
#[allow(unused_imports)]
use crate::ipcz::link_memory::{
    link_status, memory_ok, parcel_allocation, parcel_in, primary_region, resolve, status_of,
    with_buffer, with_status, LinkMemoryView, PRIMARY_BUFFER_ID,
};
use crate::ipcz::messages::{
    decode_message, encode_accept_parcel_fragment, encode_connect_from_non_broker_to_broker,
    encode_route_closed, encode_stop_proxying_to_local_peer, AcceptParcel,
    AcceptParcelDriverObjects, AddBlockBuffer, BypassPeerWithLink, DecodedMessage, DriverObjectRef,
    FragmentDescriptor, MSG_ID_ACCEPT_PARCEL, MSG_ID_PROVIDE_MEMORY, MSG_ID_REQUEST_MEMORY,
};
#[allow(unused_imports)]
use crate::ipcz::messages::{
    accept_parcel_message, connect_reply_message, decoded, object_views, plain_message, two_words,
    AcceptParcelDriverObjectsView, AcceptParcelView, DecodedView, DriverObjectView,
    MSG_ID_ROUTE_CLOSED, MSG_ID_STOP_PROXYING_TO_LOCAL_PEER,
};
use crate::ipcz::pair_map::PairMap;
#[allow(unused_imports)]
use crate::ipcz::wire::{byte_views, message_header_of};
use crate::ipcz::wire::{parse_message_header, set_message_sequence_number, WireError};
#[allow(unused_imports)]
use crate::text::decimal;
use crate::text::{joined, labelled};

verus! {

broadcast use vstd::std_specs::hash::group_hash_axioms;

/// Classified acceptor errors. Every failure mode is explicit.
#[derive(Debug, Clone, Copy)]
pub enum AcceptorError {
    /// The channel failed (I/O, end of stream, malformed framing).
    Channel(ChannelError),
    /// The exchange saw nothing for too long.
    ExchangeTimedOut,
    /// A message was malformed at the wire level.
    Wire(WireError),
    /// The link memory was malformed or out of bounds.
    LinkMemory(LinkMemoryError),
    /// A protocol message was unexpected in the current state.
    Unexpected(&'static str),
    /// A message type is valid but unsupported by the acceptor.
    Unsupported(u8, &'static str),
    /// A parcel violated route sequencing or structure.
    BadParcel(&'static str),
    /// The operating system refused, with the number that it gave.
    Io(i32),
}

/// What an error says.
pub enum Failure {
    /// The channel failed.
    Channel(ChannelError),
    /// The exchange saw nothing for too long.
    ExchangeTimedOut,
    /// A message was malformed at the wire level.
    Wire(WireError),
    /// The link memory was malformed or out of bounds.
    LinkMemory(LinkMemoryError),
    /// A protocol message was unexpected in the current state.
    Unexpected(Seq<char>),
    /// A message type is valid but unsupported by the acceptor.
    Unsupported(u8, Seq<char>),
    /// A parcel violated route sequencing or structure.
    BadParcel(Seq<char>),
    /// The operating system refused.
    Io(i32),
}

impl View for AcceptorError {
    type V = Failure;

    open spec fn view(&self) -> Failure {
        match *self {
            AcceptorError::Channel(e) => Failure::Channel(e),
            AcceptorError::ExchangeTimedOut => Failure::ExchangeTimedOut,
            AcceptorError::Wire(e) => Failure::Wire(e),
            AcceptorError::LinkMemory(e) => Failure::LinkMemory(e),
            AcceptorError::Unexpected(s) => Failure::Unexpected(s@),
            AcceptorError::Unsupported(id, s) => Failure::Unsupported(id, s@),
            AcceptorError::BadParcel(s) => Failure::BadParcel(s@),
            AcceptorError::Io(n) => Failure::Io(n),
        }
    }
}

/// A result with its error as a [`Failure`].
pub open spec fn outcome<T>(r: Result<T, AcceptorError>) -> Result<T, Failure> {
    match r {
        Ok(v) => Ok(v),
        Err(e) => Err(e@),
    }
}

impl AcceptorError {
    /// The message of the error; that of an I/O failure is in `io`.
    pub open spec fn spec_text(self, io: Seq<char>) -> Seq<char> {
        match self {
            AcceptorError::Channel(e) => "channel: "@ + e.spec_text(io),
            AcceptorError::ExchangeTimedOut => "channel: channel io: exchange timed out"@,
            AcceptorError::Wire(e) => "wire: "@ + e.spec_text(),
            AcceptorError::LinkMemory(e) => "link memory: "@ + e.spec_text(),
            AcceptorError::Unexpected(s) => "unexpected message: "@ + s@,
            AcceptorError::Unsupported(id, s) => "unsupported message "@ + decimal(id as nat)
                + ": "@ + s@,
            AcceptorError::BadParcel(s) => "bad parcel: "@ + s@,
            AcceptorError::Io(_) => "io: "@ + io,
        }
    }

    /// The message of the error; that of an I/O failure is in `io`.
    pub fn text(self, io: &str) -> (r: String)
        ensures
            r@ == self.spec_text(io@),
    {
        match self {
            AcceptorError::Channel(e) => joined("channel: ", e.text(io).as_str()),
            AcceptorError::ExchangeTimedOut => "channel: channel io: exchange timed out".to_owned(),
            AcceptorError::Wire(e) => joined("wire: ", e.text().as_str()),
            AcceptorError::LinkMemory(e) => joined("link memory: ", e.text()),
            AcceptorError::Unexpected(s) => joined("unexpected message: ", s),
            AcceptorError::Unsupported(id, s) => {
                let head = labelled("unsupported message ", id as u64);
                let head = joined(head.as_str(), ": ");
                joined(head.as_str(), s)
            },
            AcceptorError::BadParcel(s) => joined("bad parcel: ", s),
            AcceptorError::Io(_) => joined("io: ", io),
        }
    }
}

/// The part after the 8 header bytes of the array at `off`, up to the byte
/// count that its header gives.
pub open spec fn raw_array(payload: Seq<u8>, off: int) -> Result<Seq<u8>, Failure> {
    let room = payload.len() - off;
    let num_bytes = le32(payload, off);
    if room < 0 {
        Err(Failure::Wire(WireError::BadArrayOffset))
    } else if room < 8 {
        Err(Failure::Wire(WireError::BadArray))
    } else if num_bytes < 8 || num_bytes > room {
        Err(Failure::Wire(WireError::BadArray))
    } else {
        Ok(payload.subrange(off + 8, off + num_bytes))
    }
}

/// Resolve an array at an offset into a payload.
pub fn read_array_at(payload: &[u8], off: u32) -> (r: Result<&[u8], AcceptorError>)
    ensures
        match r {
            Ok(s) => raw_array(payload@, off as int) == Ok::<Seq<u8>, Failure>(s@),
            Err(e) => raw_array(payload@, off as int) == Err::<Seq<u8>, Failure>(e@),
        },
{
    let start: usize = off as usize;
    if start > payload.len() {
        return Err(AcceptorError::Wire(WireError::BadArrayOffset));
    }
    let room: usize = payload.len() - start;
    if room < 8 {
        return Err(AcceptorError::Wire(WireError::BadArray));
    }
    let num_bytes: usize = get_u32(payload, start) as usize;
    if num_bytes < 8 || num_bytes > room {
        return Err(AcceptorError::Wire(WireError::BadArray));
    }
    Ok(slice_subrange(payload, start + 8, start + num_bytes))
}

/// What a serialized shared buffer says of itself.
#[derive(Debug, Clone, Copy, PartialEq, Eq, Structural)]
pub struct SharedBufferInfo {
    /// The buffer size in bytes.
    pub buffer_size: u32,
    /// The buffer mode (0 = read-only, 1 = writable, 2 = unsafe).
    pub mode: u32,
    /// The low half of the buffer's identity.
    pub guid_low: u64,
    /// The high half of the buffer's identity.
    pub guid_high: u64,
}

/// What the serialized object `obj` says of the shared buffer that it is.
pub open spec fn shared_buffer_in(obj: Seq<u8>) -> Result<SharedBufferInfo, Failure> {
    if obj.len() < 8 {
        Err(Failure::Unexpected("truncated driver object"@))
    } else if le32(obj, 0) != 8 || le32(obj, 4) != 1 {
        Err(Failure::Unexpected("Connect buffer is not a SharedBuffer"@))
    } else if obj.len() < 40 {
        Err(Failure::Unexpected("truncated BufferHeader"@))
    } else if le32(obj, 8) != 32 {
        Err(Failure::Unexpected("bad BufferHeader size"@))
    } else {
        Ok(
            SharedBufferInfo {
                buffer_size: le32(obj, 12),
                mode: le32(obj, 16),
                guid_low: le64(obj, 24),
                guid_high: le64(obj, 32),
            },
        )
    }
}

/// A serialized shared buffer is read back as what it is.
pub proof fn law_shared_buffer_round_trip(size: u32)
    ensures
        shared_buffer_in(crate::ipcz::messages::shared_buffer_object(size)) == Ok::<
            SharedBufferInfo,
            Failure,
        >(SharedBufferInfo { buffer_size: size, mode: 2, guid_low: 0, guid_high: 0 }),
{
    let obj = crate::ipcz::messages::shared_buffer_object(size);
    assert(obj.subrange(0, 4) =~= crate::bytes::bytes32(8));
    assert(obj.subrange(4, 8) =~= crate::bytes::bytes32(1));
    assert(obj.subrange(8, 12) =~= crate::bytes::bytes32(32));
    assert(obj.subrange(12, 16) =~= crate::bytes::bytes32(size));
    assert(obj.subrange(16, 20) =~= crate::bytes::bytes32(2));
    assert(obj.subrange(24, 32) =~= bytes64(0));
    assert(obj.subrange(32, 40) =~= bytes64(0));
    crate::bytes::lemma_le32_of_bytes(obj, 0, 8);
    crate::bytes::lemma_le32_of_bytes(obj, 4, 1);
    crate::bytes::lemma_le32_of_bytes(obj, 8, 32);
    crate::bytes::lemma_le32_of_bytes(obj, 12, size);
    crate::bytes::lemma_le32_of_bytes(obj, 16, 2);
    crate::bytes::lemma_le64_of_bytes(obj, 24, 0);
    crate::bytes::lemma_le64_of_bytes(obj, 32, 0);
}

/// The shared buffer that a message carries as its one driver object.
pub open spec fn shared_buffer_of(payload: Seq<u8>) -> Result<SharedBufferInfo, Failure> {
    match message_header_of(payload) {
        Err(e) => Err(Failure::Wire(e)),
        Ok(hdr) => if hdr.driver_object_data_array == 0 {
            Err(Failure::Unexpected("Connect carries no driver objects"@))
        } else {
            match raw_array(payload, hdr.driver_object_data_array as int) {
                Err(e) => Err(e),
                Ok(data) => if data.len() != 8 {
                    Err(Failure::Unexpected("bad driver object array"@))
                } else if le16(data, 6) != 1 {
                    Err(Failure::Unexpected("link memory must carry one fd"@))
                } else {
                    match raw_array(payload, le32(data, 0) as int) {
                        Err(e) => Err(e),
                        Ok(obj) => shared_buffer_in(obj),
                    }
                },
            }
        },
    }
}

/// Read what a serialized object says of the shared buffer that it is: an
/// 8-byte object header (size, type 1), then a 32-byte buffer header.
pub fn parse_shared_buffer_object(obj: &[u8]) -> (r: Result<SharedBufferInfo, AcceptorError>)
    ensures
        outcome(r) == shared_buffer_in(obj@),
{
    if obj.len() < 8 {
        return Err(AcceptorError::Unexpected("truncated driver object"));
    }
    if get_u32(obj, 0) != 8 || get_u32(obj, 4) != 1 {
        return Err(AcceptorError::Unexpected("Connect buffer is not a SharedBuffer"));
    }
    if obj.len() < 40 {
        return Err(AcceptorError::Unexpected("truncated BufferHeader"));
    }
    if get_u32(obj, 8) != 32 {
        return Err(AcceptorError::Unexpected("bad BufferHeader size"));
    }
    Ok(
        SharedBufferInfo {
            buffer_size: get_u32(obj, 12),
            mode: get_u32(obj, 16),
            guid_low: get_u64(obj, 24),
            guid_high: get_u64(obj, 32),
        },
    )
}

/// Parse the link-memory object of a greeting.
pub fn parse_shared_buffer_driver_object(payload: &[u8]) -> (r: Result<
    SharedBufferInfo,
    AcceptorError,
>)
    ensures
        outcome(r) == shared_buffer_of(payload@),
{
    let hdr = match parse_message_header(payload) {
        Ok(h) => h,
        Err(e) => {
            return Err(AcceptorError::Wire(e));
        },
    };
    if hdr.driver_object_data_array == 0 {
        return Err(AcceptorError::Unexpected("Connect carries no driver objects"));
    }
    let data = match read_array_at(payload, hdr.driver_object_data_array) {
        Ok(d) => d,
        Err(e) => {
            return Err(e);
        },
    };
    if data.len() != 8 {
        return Err(AcceptorError::Unexpected("bad driver object array"));
    }
    if get_u16(data, 6) != 1 {
        return Err(AcceptorError::Unexpected("link memory must carry one fd"));
    }
    match read_array_at(payload, get_u32(data, 0)) {
        Ok(obj) => parse_shared_buffer_object(obj),
        Err(e) => Err(e),
    }
}

/// The descriptor that a wrapped platform handle stands for.
pub open spec fn unwrapped(obj: DriverObjectView, fds: Seq<i32>) -> Result<i32, Failure> {
    let data = obj.data;
    if obj.num_fds != 1 {
        Err(Failure::BadParcel("wrapped handle must carry one fd"@))
    } else if obj.first_fd >= fds.len() {
        Err(Failure::BadParcel("driver object fd out of range"@))
    } else if data.len() < 16 {
        Err(Failure::BadParcel("truncated wrapped handle"@))
    } else if le32(data, 0) != 8 || le32(data, 4) != 4 {
        Err(Failure::BadParcel("driver object is not a WrappedPlatformHandle"@))
    } else if le32(data, 8) < 8 || le32(data, 8) % 8 != 0 || le32(data, 12) != 0 {
        Err(Failure::BadParcel("bad WrappedPlatformHandle header"@))
    } else {
        Ok(fds[obj.first_fd as int])
    }
}

/// Unwrap a serialized platform handle to its descriptor.
pub fn unwrap_wrapped_platform_handle(obj: &DriverObjectRef, fds: &Vec<i32>) -> (r: Result<
    i32,
    AcceptorError,
>)
    ensures
        outcome(r) == unwrapped(obj@, fds@),
{
    if obj.num_fds != 1 {
        return Err(AcceptorError::BadParcel("wrapped handle must carry one fd"));
    }
    if obj.first_fd >= fds.len() {
        return Err(AcceptorError::BadParcel("driver object fd out of range"));
    }
    let data = obj.data.as_slice();
    if data.len() < 16 {
        return Err(AcceptorError::BadParcel("truncated wrapped handle"));
    }
    if get_u32(data, 0) != 8 || get_u32(data, 4) != 4 {
        return Err(AcceptorError::BadParcel("driver object is not a WrappedPlatformHandle"));
    }
    if get_u32(data, 8) < 8 || get_u32(data, 8) % 8 != 0 || get_u32(data, 12) != 0 {
        return Err(AcceptorError::BadParcel("bad WrappedPlatformHandle header"));
    }
    Ok(fds[obj.first_fd])
}

/// The serialized form of a wrapped platform handle: an object header (size 8,
/// type 4), then a wrapper header (size 8, transmissible).
pub open spec fn wrapped_handle() -> Seq<u8> {
    bytes32(8) + bytes32(4) + bytes32(8) + bytes32(0)
}

/// The serialized form of a wrapped platform handle.
pub fn wrapped_platform_handle_encoding() -> (out: Vec<u8>)
    ensures
        out@ == wrapped_handle(),
        out@.len() == 16,
{
    let mut out: Vec<u8> = Vec::new();
    push_u32(&mut out, 8);
    push_u32(&mut out, 4);
    push_u32(&mut out, 8);
    push_u32(&mut out, 0);
    assert(out@ =~= wrapped_handle());
    out
}

/// A wrapped platform handle is unwrapped to the descriptor it was sent with.
pub proof fn law_wrapped_handle_round_trip(first_fd: nat, fds: Seq<i32>)
    requires
        first_fd < fds.len(),
    ensures
        unwrapped(DriverObjectView { data: wrapped_handle(), first_fd, num_fds: 1 }, fds) == Ok::<
            i32,
            Failure,
        >(fds[first_fd as int]),
{
    let d = wrapped_handle();
    assert(d.subrange(0, 4) =~= bytes32(8));
    assert(d.subrange(4, 8) =~= bytes32(4));
    assert(d.subrange(8, 12) =~= bytes32(8));
    assert(d.subrange(12, 16) =~= bytes32(0));
    crate::bytes::lemma_le32_of_bytes(d, 0, 8);
    crate::bytes::lemma_le32_of_bytes(d, 4, 4);
    crate::bytes::lemma_le32_of_bytes(d, 8, 8);
    crate::bytes::lemma_le32_of_bytes(d, 12, 0);
}

/// The number of initial portals that the acceptor assumes.
pub const ACCEPTOR_INITIAL_PORTALS: u32 = 8;

/// The sublink of the bootstrap pipe (initial portal 1).
pub const BOOTSTRAP_SUBLINK: u64 = 1;

/// One remote link of a router.
#[derive(Debug, Clone, Copy, PartialEq, Eq, Structural)]
pub struct LinkEdge {
    /// The sublink id on the node link.
    pub sublink: u64,
    /// The link state of this central link.
    pub link_state: FragmentDescriptor,
}

/// What a list of messages holds.
pub open spec fn message_views(v: Seq<IncomingMessage>) -> Seq<IncomingView> {
    v.map_values(|m: IncomingMessage| m@)
}

/// A message-pipe endpoint with its queue of delivered messages.
#[derive(Debug)]
pub struct Portal {
    /// Delivered messages: payload bytes plus extracted descriptors.
    pub messages: VecDeque<IncomingMessage>,
}

impl View for Portal {
    type V = Seq<IncomingView>;

    open spec fn view(&self) -> Seq<IncomingView> {
        message_views(self.messages@)
    }
}

impl Portal {
    /// A portal without messages.
    pub fn new() -> (r: Portal)
        ensures
            r@ == Seq::<IncomingView>::empty(),
    {
        let r = Portal { messages: VecDeque::new() };
        assert(r@ =~= Seq::<IncomingView>::empty());
        r
    }

    /// Add a message to the queue.
    pub fn push(&mut self, m: IncomingMessage)
        ensures
            final(self)@ == old(self)@.push(m@),
    {
        self.messages.push_back(m);
        assert(self@ =~= old(self)@.push(m@));
    }

    /// Take the first delivered message, if any.
    pub fn pop(&mut self) -> (r: Option<IncomingMessage>)
        ensures
            match r {
                None => old(self)@.len() == 0 && final(self)@ == old(self)@,
                Some(m) => {
                    &&& old(self)@.len() > 0
                    &&& m@ == old(self)@[0]
                    &&& final(self)@ == old(self)@.skip(1)
                },
            },
    {
        let r = self.messages.pop_front();
        match r {
            Some(m) => {
                assert(self@ =~= old(self)@.skip(1));
                Some(m)
            },
            None => None,
        }
    }

    /// Whether no message waits.
    pub fn is_empty(&self) -> (r: bool)
        ensures
            r == (self@.len() == 0),
    {
        self.messages.len() == 0
    }
}

/// The state of one route on the link.
pub struct Router {
    /// The portal this router fronts, if any.
    pub portal: Option<Portal>,
    /// The primary (current) link.
    pub primary: LinkEdge,
    /// A decaying link during a bypass; dropped once drained.
    pub decaying: Option<LinkEdge>,
    /// How many parcels the decaying link brings.
    pub decaying_length: u64,
    /// Next outbound route sequence number.
    pub outbound_seq: u64,
    /// Next expected inbound route sequence number.
    pub inbound_seq: u64,
    /// Inbound parcels received for each sublink.
    pub inbound_by_edge: HashMap<u64, u64>,
    /// Whether this route is closed.
    pub closed: bool,
}

/// What a [`Router`] holds.
#[verifier::ext_equal]
pub struct RouteView {
    /// The messages at the portal, if there is one.
    pub portal: Option<Seq<IncomingView>>,
    /// The primary link.
    pub primary: LinkEdge,
    /// The decaying link.
    pub decaying: Option<LinkEdge>,
    /// How many parcels the decaying link brings.
    pub decaying_length: u64,
    /// Next outbound route sequence number.
    pub outbound_seq: u64,
    /// Next expected inbound route sequence number.
    pub inbound_seq: u64,
    /// Inbound parcels received for each sublink.
    pub received: Map<u64, u64>,
    /// Whether this route is closed.
    pub closed: bool,
}

impl View for Router {
    type V = RouteView;

    open spec fn view(&self) -> RouteView {
        RouteView {
            portal: match self.portal {
                Some(p) => Some(p@),
                None => None,
            },
            primary: self.primary,
            decaying: self.decaying,
            decaying_length: self.decaying_length,
            outbound_seq: self.outbound_seq,
            inbound_seq: self.inbound_seq,
            received: self.inbound_by_edge@,
            closed: self.closed,
        }
    }
}

/// The number of parcels that came in over a sublink.
pub open spec fn received_on(r: RouteView, sublink: u64) -> u64 {
    if r.received.contains_key(sublink) {
        r.received[sublink]
    } else {
        0
    }
}

impl Router {
    /// The current sublink for outbound transmissions.
    pub fn outbound_sublink(&self) -> (r: u64)
        ensures
            r == self@.primary.sublink,
    {
        self.primary.sublink
    }

    fn received_count(&self, sublink: u64) -> (r: u64)
        ensures
            r == received_on(self@, sublink),
    {
        match self.inbound_by_edge.get(&sublink) {
            Some(n) => *n,
            None => 0,
        }
    }
}

/// A half of a split parcel.
pub enum SplitHalf {
    /// The data half, with placeholders for the objects that the other half
    /// brings.
    Data {
        /// The types of all its handles.
        types: Vec<u32>,
        /// Its inline data.
        payload: Vec<u8>,
    },
    /// The objects half: its descriptors.
    Objects(Vec<i32>),
}

/// What a half of a split parcel holds.
#[verifier::ext_equal]
pub enum SplitView {
    /// The data half: the types of its handles, and its inline data.
    Data(Seq<u32>, Seq<u8>),
    /// The objects half.
    Objects(Seq<i32>),
}

impl View for SplitHalf {
    type V = SplitView;

    open spec fn view(&self) -> SplitView {
        match *self {
            SplitHalf::Data { types, payload } => SplitView::Data(types@, payload@),
            SplitHalf::Objects(v) => SplitView::Objects(v@),
        }
    }
}

/// A message to be sent.
pub struct OutgoingMessage {
    /// The payload (starting at the message header).
    pub payload: Vec<u8>,
    /// What the one memory file that goes with it holds, if one goes with it.
    pub file: Option<Vec<u8>>,
}

/// What an outgoing message holds.
#[verifier::ext_equal]
pub struct OutgoingView {
    /// The payload.
    pub payload: Seq<u8>,
    /// What the memory file that goes with it holds.
    pub file: Option<Seq<u8>>,
}

/// The bytes that are there, if any.
pub open spec fn opt_bytes(o: Option<Vec<u8>>) -> Option<Seq<u8>> {
    match o {
        Some(v) => Some(v@),
        None => None,
    }
}

impl View for OutgoingMessage {
    type V = OutgoingView;

    open spec fn view(&self) -> OutgoingView {
        OutgoingView { payload: self.payload@, file: opt_bytes(self.file) }
    }
}

/// The acceptor state machine.
pub struct Acceptor {
    /// The adopted link memory (set by the connect handshake).
    pub link_memory: Option<LinkMemory>,
    /// The number of the next message on the link (after the handshake).
    pub next_link_seq: u64,
    /// Routers by sublink.
    pub routers: HashMap<u64, Router>,
    /// The routers that sublinks adopted in a bypass belong to.
    pub adopted: HashMap<u64, u64>,
    /// Parcels for sublinks not yet established, with their sequence numbers.
    pub early_parcels: HashMap<u64, VecDeque<(u64, IncomingMessage)>>,
    /// Halves of split parcels that await their counterpart, by sublink and
    /// sequence number.
    pub pending_split: PairMap<SplitHalf>,
    /// The events so far.
    pub events: Vec<Event>,
    /// The number of the last event (the first has number 1).
    pub event_seq: u64,
    /// Whether the reply has been sent.
    pub reply_sent: bool,
    /// Whether the bootstrap portal has delivered a message.
    pub reply_ready: bool,
    /// Messages to be sent, in order.
    pub outbox: Vec<OutgoingMessage>,
}

/// The state of an [`Acceptor`].
#[verifier::ext_equal]
pub struct AcceptorView {
    /// The adopted link memory.
    pub memory: Option<LinkMemoryView>,
    /// The number of the next message on the link.
    pub next_link_seq: u64,
    /// Routers by sublink.
    pub routers: Map<u64, RouteView>,
    /// The routers that adopted sublinks belong to.
    pub adopted: Map<u64, u64>,
    /// Parcels for sublinks not yet established, with their sequence numbers.
    pub early: Map<u64, Seq<(u64, IncomingView)>>,
    /// Halves of split parcels.
    pub pending: Map<(u64, u64), SplitView>,
    /// The events so far.
    pub events: Seq<EventView>,
    /// The number of the last event.
    pub event_seq: u64,
    /// Whether the reply has been sent.
    pub reply_sent: bool,
    /// Whether the bootstrap portal has delivered a message.
    pub reply_ready: bool,
    /// Messages to be sent, in order.
    pub outbox: Seq<OutgoingView>,
}

/// The link memory that is there, if any.
pub open spec fn opt_memory(m: Option<LinkMemory>) -> Option<LinkMemoryView> {
    match m {
        Some(m) => Some(m@),
        None => None,
    }
}

/// What kept parcels hold.
pub open spec fn early_views(q: Seq<(u64, IncomingMessage)>) -> Seq<(u64, IncomingView)> {
    q.map_values(|x: (u64, IncomingMessage)| (x.0, x.1@))
}

impl View for Acceptor {
    type V = AcceptorView;

    open spec fn view(&self) -> AcceptorView {
        AcceptorView {
            memory: opt_memory(self.link_memory),
            next_link_seq: self.next_link_seq,
            routers: self.routers@.map_values(|r: Router| r@),
            adopted: self.adopted@,
            early: self.early_parcels@.map_values(
                |q: VecDeque<(u64, IncomingMessage)>| early_views(q@),
            ),
            pending: self.pending_split@.map_values(|h: SplitHalf| h@),
            events: event_views(self.events@),
            event_seq: self.event_seq,
            reply_sent: self.reply_sent,
            reply_ready: self.reply_ready,
            outbox: self.outbox@.map_values(|m: OutgoingMessage| m@),
        }
    }
}

/// How the run of the acceptor ended.
#[derive(Debug, Clone, Copy, PartialEq, Eq, Structural)]
pub enum RunOutcome {
    /// The bootstrap exchange completed and verified.
    Success,
    /// The peer closed before the exchange completed.
    PeerClosed,
}

/// A state, and the error that stopped the step that led to it, if one did.
pub type Step = (AcceptorView, Result<(), Failure>);

/// The state with one more event.
pub open spec fn noted(s: AcceptorView, e: EventView) -> AcceptorView {
    AcceptorView { events: s.events.push(e), event_seq: e.seq, ..s }
}

/// The state with one more event that is nothing but a result.
pub open spec fn emitted(s: AcceptorView, op_id: u64, kind: EventKind) -> AcceptorView {
    noted(s, plain_event(next_number(s.event_seq), op_id, kind, "MOJO_RESULT_OK"@))
}

/// The state with one more message to be sent, numbered in the order of the
/// link.
pub open spec fn sent(s: AcceptorView, payload: Seq<u8>, file: Option<Seq<u8>>) -> AcceptorView {
    AcceptorView {
        outbox: s.outbox.push(
            OutgoingView { payload: overwrite(payload, 8, bytes64(s.next_link_seq)), file },
        ),
        next_link_seq: next_number(s.next_link_seq),
        ..s
    }
}

/// The router that a sublink belongs to: the one that adopted it, or the one
/// that started on it.
pub open spec fn owner(s: AcceptorView, sublink: u64) -> Option<u64> {
    if s.adopted.contains_key(sublink) && s.routers.contains_key(s.adopted[sublink]) {
        Some(s.adopted[sublink])
    } else if s.routers.contains_key(sublink) {
        Some(sublink)
    } else {
        None
    }
}

/// The state after a decaying link of a route is dropped, where it has brought
/// all its parcels: the current link is then stable on this side.
pub open spec fn decay_settled(s: AcceptorView, key: u64) -> Step {
    let r = s.routers[key];
    if r.decaying is Some && received_on(r, r.decaying->Some_0.sublink) >= r.decaying_length {
        let t = AcceptorView {
            routers: s.routers.insert(key, RouteView { decaying: None, ..r }),
            ..s
        };
        let d = r.primary.link_state;
        match s.memory {
            None => (t, Err(Failure::Unexpected("link memory not established"@))),
            Some(m) => match link_status(m, d) {
                Err(e) => (t, Err(Failure::LinkMemory(e))),
                Ok(status) => (
                    AcceptorView { memory: Some(with_status(m, d, status.0 | 2)), ..t },
                    Ok(()),
                ),
            },
        }
    } else {
        (s, Ok(()))
    }
}

/// The route after a parcel came in over a sublink.
pub open spec fn taken_in(r: RouteView, sublink: u64, m: IncomingView) -> RouteView {
    RouteView {
        inbound_seq: next_number(r.inbound_seq),
        received: r.received.insert(sublink, next_number(received_on(r, sublink))),
        portal: match r.portal {
            Some(q) => Some(q.push(m)),
            None => None,
        },
        ..r
    }
}

/// The state after a complete parcel is delivered to its sublink: the route
/// takes parcels in the order of their numbers only, and a sublink that is not
/// there yet keeps them for later.
pub open spec fn delivered(s: AcceptorView, sublink: u64, number: u64, m: IncomingView) -> Step {
    match owner(s, sublink) {
        Some(key) => {
            let r = s.routers[key];
            if number != r.inbound_seq {
                (s, Err(Failure::BadParcel("route sequence gap or duplicate"@)))
            } else {
                decay_settled(
                    AcceptorView {
                        routers: s.routers.insert(key, taken_in(r, sublink, m)),
                        reply_ready: s.reply_ready || (r.portal is Some && key
                            == BOOTSTRAP_SUBLINK),
                        ..s
                    },
                    key,
                )
            }
        },
        None => {
            let queue = if s.early.contains_key(sublink) {
                s.early[sublink]
            } else {
                Seq::empty()
            };
            (AcceptorView { early: s.early.insert(sublink, queue.push((number, m))), ..s }, Ok(()))
        },
    }
}

/// The state after parcels that were kept are delivered, one after the other,
/// up to the first that is refused.
pub open spec fn delivered_all(
    s: AcceptorView,
    sublink: u64,
    queue: Seq<(u64, IncomingView)>,
) -> Step
    decreases queue.len(),
{
    if queue.len() == 0 {
        (s, Ok(()))
    } else {
        let (t, r) = delivered(s, sublink, queue[0].0, queue[0].1);
        if r is Err {
            (t, r)
        } else {
            delivered_all(t, sublink, queue.skip(1))
        }
    }
}

impl Acceptor {
    /// The validity of an acceptor.
    pub open spec fn wf(&self) -> bool {
        &&& self.pending_split.wf()
        &&& self@.memory matches Some(m) ==> memory_ok(m)
    }

    /// An acceptor before the handshake.
    pub fn new() -> (r: Acceptor)
        ensures
            r.wf(),
            r@ == (AcceptorView {
                memory: None,
                next_link_seq: 0,
                routers: Map::empty(),
                adopted: Map::empty(),
                early: Map::empty(),
                pending: Map::empty(),
                events: Seq::empty(),
                event_seq: 0,
                reply_sent: false,
                reply_ready: false,
                outbox: Seq::empty(),
            }),
    {
        let r = Acceptor {
            link_memory: None,
            next_link_seq: 0,
            routers: HashMap::new(),
            adopted: HashMap::new(),
            early_parcels: HashMap::new(),
            pending_split: PairMap::new(),
            events: Vec::new(),
            event_seq: 0,
            reply_sent: false,
            reply_ready: false,
            outbox: Vec::new(),
        };
        assert(r@.routers =~= Map::empty());
        assert(r@.adopted =~= Map::empty());
        assert(r@.early =~= Map::empty());
        assert(r@.pending =~= Map::empty());
        assert(r@.events =~= Seq::empty());
        assert(r@.outbox =~= Seq::empty());
        r
    }

    /// The events emitted so far.
    pub fn events(&self) -> (r: &[Event])
        ensures
            event_views(r@) == self@.events,
    {
        self.events.as_slice()
    }

    fn note(&mut self, e: Event)
        requires
            old(self).wf(),
        ensures
            final(self).wf(),
            final(self)@ == noted(old(self)@, e@),
    {
        self.event_seq = e.seq;
        self.events.push(e);
        assert(self@.events =~= old(self)@.events.push(e@));
    }

    fn emit(&mut self, op_id: u64, kind: EventKind)
        requires
            old(self).wf(),
        ensures
            final(self).wf(),
            final(self)@ == emitted(old(self)@, op_id, kind),
    {
        let e = Event::plain(following(self.event_seq), op_id, kind, "MOJO_RESULT_OK");
        self.note(e);
    }

    /// Queue a message for the link, with the next number of the link.
    fn send_link_message(&mut self, payload: Vec<u8>, file: Option<Vec<u8>>)
        requires
            old(self).wf(),
            payload@.len() >= 16,
        ensures
            final(self).wf(),
            final(self)@ == sent(old(self)@, payload@, opt_bytes(file)),
    {
        let mut payload: Vec<u8> = payload;
        set_message_sequence_number(&mut payload, self.next_link_seq);
        self.next_link_seq = following(self.next_link_seq);
        let m = OutgoingMessage { payload, file };
        self.outbox.push(m);
        assert(self@.outbox =~= old(self)@.outbox.push(m@));
    }

    fn owner_of(&self, sublink: u64) -> (r: Option<u64>)
        ensures
            r == owner(self@, sublink),
    {
        assert(self@.routers.dom() =~= self.routers@.dom());
        match self.adopted.get(&sublink) {
            Some(key) => {
                if self.routers.contains_key(key) {
                    return Some(*key);
                }
            },
            None => {},
        }
        if self.routers.contains_key(&sublink) {
            Some(sublink)
        } else {
            None
        }
    }

    /// Drop the decaying link of a route where it has brought all its parcels.
    fn settle_decay(&mut self, key: u64) -> (r: Result<(), AcceptorError>)
        requires
            old(self).wf(),
            old(self)@.routers.contains_key(key),
        ensures
            final(self).wf(),
            (final(self)@, outcome(r)) == decay_settled(old(self)@, key),
    {
        let ghost before = self@;
        let mut router: Router = match self.routers.remove(&key) {
            Some(r) => r,
            None => {
                return Ok(());
            },
        };
        assert(router@ == before.routers[key]);
        let over: bool = match router.decaying {
            Some(old_edge) => router.received_count(old_edge.sublink) >= router.decaying_length,
            None => false,
        };
        if over {
            router.decaying = None;
        }
        let state = router.primary.link_state;
        let ghost after = router@;
        self.routers.insert(key, router);
        assert(self@.routers =~= before.routers.insert(key, after));
        if !over {
            assert(self@.routers =~= before.routers);
            return Ok(());
        }
        match &mut self.link_memory {
            None => Err(AcceptorError::Unexpected("link memory not established")),
            Some(m) => match m.set_link_status_bits(state, RouterLinkStatus::SIDE_B_STABLE) {
                Ok(_) => Ok(()),
                Err(e) => Err(AcceptorError::LinkMemory(e)),
            },
        }
    }

    /// Deliver a complete parcel to the router's portal.
    fn deliver_parcel(&mut self, sublink: u64, number: u64, m: IncomingMessage) -> (r: Result<
        (),
        AcceptorError,
    >)
        requires
            old(self).wf(),
        ensures
            final(self).wf(),
            (final(self)@, outcome(r)) == delivered(old(self)@, sublink, number, m@),
    {
        let ghost before = self@;
        let key: u64 = match self.owner_of(sublink) {
            Some(key) => key,
            None => {
                let mut queue: VecDeque<(u64, IncomingMessage)> = match self.early_parcels.remove(
                    &sublink,
                ) {
                    Some(q) => q,
                    None => VecDeque::new(),
                };
                let ghost q = early_views(queue@);
                queue.push_back((number, m));
                assert(early_views(queue@) =~= q.push((number, m@)));
                self.early_parcels.insert(sublink, queue);
                proof {
                    let want = delivered(before, sublink, number, m@).0;
                    if !before.early.contains_key(sublink) {
                        assert(q =~= Seq::empty());
                    }
                    assert(self@.early =~= want.early);
                }
                return Ok(());
            },
        };
        let mut router: Router = match self.routers.remove(&key) {
            Some(r) => r,
            None => {
                return Ok(());
            },
        };
        assert(before.routers[key] == router@);
        if number != router.inbound_seq {
            self.routers.insert(key, router);
            assert(self@.routers =~= before.routers);
            return Err(AcceptorError::BadParcel("route sequence gap or duplicate"));
        }
        router.inbound_seq = following(router.inbound_seq);
        let count: u64 = following(router.received_count(sublink));
        router.inbound_by_edge.insert(sublink, count);
        match &mut router.portal {
            Some(portal) => {
                portal.push(m);
                if key == BOOTSTRAP_SUBLINK {
                    self.reply_ready = true;
                }
            },
            None => {},
        }
        let ghost after = router@;
        assert(after =~= taken_in(before.routers[key], sublink, m@));
        self.routers.insert(key, router);
        assert(self@.routers =~= before.routers.insert(key, after));
        self.settle_decay(key)
    }

    /// Deliver parcels that were kept for a sublink.
    fn deliver_all(&mut self, sublink: u64, queue: VecDeque<(u64, IncomingMessage)>) -> (r: Result<
        (),
        AcceptorError,
    >)
        requires
            old(self).wf(),
        ensures
            final(self).wf(),
            (final(self)@, outcome(r)) == delivered_all(
                old(self)@,
                sublink,
                early_views(queue@),
            ),
    {
        let mut waiting: VecDeque<(u64, IncomingMessage)> = queue;
        loop
            invariant
                self.wf(),
                delivered_all(self@, sublink, early_views(waiting@)) == delivered_all(
                    old(self)@,
                    sublink,
                    early_views(queue@),
                ),
            decreases waiting@.len(),
        {
            let ghost q = early_views(waiting@);
            match waiting.pop_front() {
                Some((number, m)) => {
                    assert(early_views(waiting@) =~= q.skip(1));
                    assert(q[0] == (number, m@));
                    match self.deliver_parcel(sublink, number, m) {
                        Ok(_) => {},
                        Err(e) => {
                            return Err(e);
                        },
                    }
                },
                None => {
                    return Ok(());
                },
            }
        }
    }
}

/// The descriptors that the handle types of a parcel claim from its driver
/// objects, in order, and whether objects are left for a second message.
pub open spec fn claimed(types: Seq<u32>, refs: Seq<DriverObjectView>, fds: Seq<i32>) -> Result<
    (Seq<i32>, bool),
    Failure,
>
    decreases types.len(),
{
    if types.len() == 0 {
        Ok((Seq::empty(), false))
    } else {
        match claimed(types.drop_last(), refs, fds) {
            Err(e) => Err(e),
            Ok((objects, split)) => if types.last() == 1 {
                if objects.len() >= refs.len() {
                    Err(Failure::BadParcel("missing driver object"@))
                } else {
                    match unwrapped(refs[objects.len() as int], fds) {
                        Err(e) => Err(e),
                        Ok(fd) => Ok((objects.push(fd), split)),
                    }
                }
            } else if types.last() == 2 {
                Ok((objects, true))
            } else if types.last() == 0 {
                Err(
                    Failure::Unsupported(
                        MSG_ID_ACCEPT_PARCEL,
                        "portal transfer (kPortal) not supported"@,
                    ),
                )
            } else {
                Err(Failure::BadParcel("unknown handle type"@))
            },
        }
    }
}

/// The descriptors of driver objects, in order.
pub open spec fn all_unwrapped(refs: Seq<DriverObjectView>, fds: Seq<i32>) -> Result<
    Seq<i32>,
    Failure,
>
    decreases refs.len(),
{
    if refs.len() == 0 {
        Ok(Seq::empty())
    } else {
        match all_unwrapped(refs.drop_last(), fds) {
            Err(e) => Err(e),
            Ok(objects) => match unwrapped(refs.last(), fds) {
                Err(e) => Err(e),
                Ok(fd) => Ok(objects.push(fd)),
            },
        }
    }
}

/// The number of placeholders among handle types.
pub open spec fn placeholders(types: Seq<u32>) -> nat
    decreases types.len(),
{
    if types.len() == 0 {
        0
    } else {
        placeholders(types.drop_last()) + if types.last() == 2 {
            1nat
        } else {
            0
        }
    }
}

/// The data of a parcel: inline, or in a fragment of the link memory.
pub open spec fn parcel_data(memory: Option<LinkMemoryView>, p: AcceptParcelView) -> Result<
    Seq<u8>,
    Failure,
> {
    if p.parcel_fragment.spec_is_null() {
        Ok(p.parcel_data)
    } else {
        match memory {
            None => Err(Failure::Unexpected("link memory not established"@)),
            Some(m) => match parcel_in(m, p.parcel_fragment) {
                Err(e) => Err(Failure::LinkMemory(e)),
                Ok(data) => Ok(data),
            },
        }
    }
}

/// The state after the two halves of a split parcel met: it is delivered with
/// the inline data of the one and the descriptors of the other.
pub open spec fn halves_met(
    s: AcceptorView,
    key: (u64, u64),
    types: Seq<u32>,
    payload: Seq<u8>,
    relayed: Seq<i32>,
) -> Step {
    let rest = AcceptorView { pending: s.pending.remove(key), ..s };
    if placeholders(types) != relayed.len() {
        (rest, Err(Failure::BadParcel("split parcel object count mismatch"@)))
    } else {
        delivered(rest, key.0, key.1, IncomingView { payload, fds: relayed })
    }
}

/// The state after the data half of a split parcel is accepted: it waits for
/// the objects unless they are there.
pub open spec fn half_accepted(
    s: AcceptorView,
    key: (u64, u64),
    types: Seq<u32>,
    payload: Seq<u8>,
) -> Step {
    if s.pending.contains_key(key) && s.pending[key] is Objects {
        halves_met(s, key, types, payload, s.pending[key]->Objects_0)
    } else {
        (
            AcceptorView {
                pending: s.pending.insert(key, SplitView::Data(types, payload)),
                ..s
            },
            Ok(()),
        )
    }
}

/// The state after a parcel is accepted.
pub open spec fn parcel_accepted(s: AcceptorView, p: AcceptParcelView, fds: Seq<i32>) -> Step {
    if p.num_subparcels == 0 || p.subparcel_index >= p.num_subparcels || p.num_subparcels > 16 {
        (s, Err(Failure::BadParcel("invalid subparcel bounds"@)))
    } else if p.num_subparcels > 1 {
        (
            s,
            Err(
                Failure::Unsupported(MSG_ID_ACCEPT_PARCEL, "multi-subparcel parcels not supported"@),
            ),
        )
    } else {
        match parcel_data(s.memory, p) {
            Err(e) => (s, Err(e)),
            Ok(data) => match claimed(p.handle_types, p.driver_objects, fds) {
                Err(e) => (s, Err(e)),
                Ok((objects, split)) => if objects.len() < p.driver_objects.len() {
                    (s, Err(Failure::BadParcel("unclaimed driver objects"@)))
                } else if split {
                    half_accepted(
                        s,
                        (p.sublink, p.sequence_number),
                        p.handle_types,
                        p.parcel_data,
                    )
                } else {
                    delivered(
                        s,
                        p.sublink,
                        p.sequence_number,
                        IncomingView { payload: data, fds: objects },
                    )
                },
            },
        }
    }
}

/// The state after the objects half of a split parcel is accepted.
pub open spec fn objects_accepted(
    s: AcceptorView,
    p: AcceptParcelDriverObjectsView,
    fds: Seq<i32>,
) -> Step {
    let key = (p.sublink, p.sequence_number);
    match all_unwrapped(p.driver_objects, fds) {
        Err(e) => (s, Err(e)),
        Ok(objects) => if !s.pending.contains_key(key) {
            (
                AcceptorView {
                    pending: s.pending.insert(key, SplitView::Objects(objects)),
                    ..s
                },
                Ok(()),
            )
        } else {
            match s.pending[key] {
                SplitView::Objects(_) => (
                    AcceptorView { pending: s.pending.remove(key), ..s },
                    Err(Failure::BadParcel("duplicate split parcel objects"@)),
                ),
                SplitView::Data(types, payload) => halves_met(s, key, types, payload, objects),
            }
        },
    }
}

fn claim_objects(types: &Vec<u32>, refs: &Vec<DriverObjectRef>, fds: &Vec<i32>) -> (r: Result<
    (Vec<i32>, bool),
    AcceptorError,
>)
    ensures
        match r {
            Ok((objects, split)) => claimed(types@, object_views(refs@), fds@) == Ok::<
                (Seq<i32>, bool),
                Failure,
            >((objects@, split)),
            Err(e) => claimed(types@, object_views(refs@), fds@) == Err::<(Seq<i32>, bool), Failure>(
                e@,
            ),
        },
{
    let mut objects: Vec<i32> = Vec::new();
    let mut split: bool = false;
    let mut i: usize = 0;
    let ghost views = object_views(refs@);
    while i < types.len()
        invariant
            i <= types.len(),
            views == object_views(refs@),
            claimed(types@.take(i as int), views, fds@) == Ok::<(Seq<i32>, bool), Failure>(
                (objects@, split),
            ),
        decreases types.len() - i,
    {
        proof {
            assert(types@.take(i + 1).drop_last() =~= types@.take(i as int));
            lemma_claim_fails(types@, i + 1, views, fds@);
        }
        match types[i] {
            1 => {
                if objects.len() >= refs.len() {
                    return Err(AcceptorError::BadParcel("missing driver object"));
                }
                assert(views[objects@.len() as int] == refs@[objects@.len() as int]@);
                match unwrap_wrapped_platform_handle(&refs[objects.len()], fds) {
                    Ok(fd) => {
                        objects.push(fd);
                    },
                    Err(e) => {
                        return Err(e);
                    },
                }
            },
            2 => {
                split = true;
            },
            0 => {
                return Err(
                    AcceptorError::Unsupported(
                        MSG_ID_ACCEPT_PARCEL,
                        "portal transfer (kPortal) not supported",
                    ),
                );
            },
            _ => {
                return Err(AcceptorError::BadParcel("unknown handle type"));
            },
        }
        i = i + 1;
    }
    assert(types@.take(types@.len() as int) =~= types@);
    Ok((objects, split))
}

/// Where a first part of the handle types is refused, all of them are.
proof fn lemma_claim_fails(
    types: Seq<u32>,
    n: int,
    refs: Seq<DriverObjectView>,
    fds: Seq<i32>,
)
    requires
        0 <= n <= types.len(),
    ensures
        claimed(types.take(n), refs, fds) is Err ==> claimed(types, refs, fds) == claimed(
            types.take(n),
            refs,
            fds,
        ),
    decreases types.len() - n,
{
    if n < types.len() {
        lemma_claim_fails(types, n + 1, refs, fds);
        assert(types.take(n + 1).drop_last() =~= types.take(n));
    } else {
        assert(types.take(n) =~= types);
    }
}

fn unwrap_all(refs: &Vec<DriverObjectRef>, fds: &Vec<i32>) -> (r: Result<Vec<i32>, AcceptorError>)
    ensures
        match r {
            Ok(objects) => all_unwrapped(object_views(refs@), fds@) == Ok::<Seq<i32>, Failure>(
                objects@,
            ),
            Err(e) => all_unwrapped(object_views(refs@), fds@) == Err::<Seq<i32>, Failure>(e@),
        },
{
    let mut objects: Vec<i32> = Vec::new();
    let mut i: usize = 0;
    let ghost views = object_views(refs@);
    while i < refs.len()
        invariant
            i <= refs.len(),
            views == object_views(refs@),
            all_unwrapped(views.take(i as int), fds@) == Ok::<Seq<i32>, Failure>(objects@),
        decreases refs.len() - i,
    {
        proof {
            assert(views.take(i + 1).drop_last() =~= views.take(i as int));
            assert(views[i as int] == refs@[i as int]@);
            lemma_unwrap_fails(views, i + 1, fds@);
        }
        match unwrap_wrapped_platform_handle(&refs[i], fds) {
            Ok(fd) => {
                objects.push(fd);
            },
            Err(e) => {
                return Err(e);
            },
        }
        i = i + 1;
    }
    assert(views.take(views.len() as int) =~= views);
    Ok(objects)
}

/// Where a first part of the objects is refused, all of them are.
proof fn lemma_unwrap_fails(refs: Seq<DriverObjectView>, n: int, fds: Seq<i32>)
    requires
        0 <= n <= refs.len(),
    ensures
        all_unwrapped(refs.take(n), fds) is Err ==> all_unwrapped(refs, fds) == all_unwrapped(
            refs.take(n),
            fds,
        ),
    decreases refs.len() - n,
{
    if n < refs.len() {
        lemma_unwrap_fails(refs, n + 1, fds);
        assert(refs.take(n + 1).drop_last() =~= refs.take(n));
    } else {
        assert(refs.take(n) =~= refs);
    }
}

fn count_placeholders(types: &Vec<u32>) -> (r: usize)
    ensures
        r == placeholders(types@),
{
    let mut n: usize = 0;
    let mut i: usize = 0;
    while i < types.len()
        invariant
            i <= types.len(),
            n <= i,
            n == placeholders(types@.take(i as int)),
        decreases types.len() - i,
    {
        assert(types@.take(i + 1).drop_last() =~= types@.take(i as int));
        if types[i] == 2 {
            n = n + 1;
        }
        i = i + 1;
    }
    assert(types@.take(types@.len() as int) =~= types@);
    n
}

impl Acceptor {
    /// Deliver a parcel whose two halves are there.
    fn join_halves(
        &mut self,
        sublink: u64,
        number: u64,
        types: Vec<u32>,
        payload: Vec<u8>,
        relayed: Vec<i32>,
    ) -> (r: Result<(), AcceptorError>)
        requires
            old(self).wf(),
            !old(self)@.pending.contains_key((sublink, number)),
        ensures
            final(self).wf(),
            (final(self)@, outcome(r)) == halves_met(
                old(self)@,
                (sublink, number),
                types@,
                payload@,
                relayed@,
            ),
    {
        assert(self@.pending.remove((sublink, number)) =~= self@.pending);
        if count_placeholders(&types) != relayed.len() {
            return Err(AcceptorError::BadParcel("split parcel object count mismatch"));
        }
        let m = IncomingMessage { payload, fds: relayed };
        self.deliver_parcel(sublink, number, m)
    }

    fn read_parcel_data(&self, p: &AcceptParcel) -> (r: Result<Vec<u8>, AcceptorError>)
        ensures
            match r {
                Ok(v) => parcel_data(self@.memory, p@) == Ok::<Seq<u8>, Failure>(v@),
                Err(e) => parcel_data(self@.memory, p@) == Err::<Seq<u8>, Failure>(e@),
            },
    {
        if p.parcel_fragment.is_null() {
            return Ok(slice_to_vec(p.parcel_data.as_slice()));
        }
        match &self.link_memory {
            None => Err(AcceptorError::Unexpected("link memory not established")),
            Some(m) => match m.read_parcel_fragment(p.parcel_fragment) {
                Ok(v) => Ok(v),
                Err(e) => Err(AcceptorError::LinkMemory(e)),
            },
        }
    }

    /// Accept a parcel: validate, put together, and deliver.
    pub fn on_accept_parcel(&mut self, p: AcceptParcel, fds: &Vec<i32>) -> (r: Result<
        (),
        AcceptorError,
    >)
        requires
            old(self).wf(),
        ensures
            final(self).wf(),
            (final(self)@, outcome(r)) == parcel_accepted(old(self)@, p@, fds@),
    {
        if p.num_subparcels == 0 || p.subparcel_index >= p.num_subparcels || p.num_subparcels
            > 16 {
            return Err(AcceptorError::BadParcel("invalid subparcel bounds"));
        }
        if p.num_subparcels > 1 {
            return Err(
                AcceptorError::Unsupported(
                    MSG_ID_ACCEPT_PARCEL,
                    "multi-subparcel parcels not supported",
                ),
            );
        }
        let data = match self.read_parcel_data(&p) {
            Ok(d) => d,
            Err(e) => {
                return Err(e);
            },
        };
        let (objects, split) = match claim_objects(&p.handle_types, &p.driver_objects, fds) {
            Ok(c) => c,
            Err(e) => {
                return Err(e);
            },
        };
        if objects.len() < p.driver_objects.len() {
            return Err(AcceptorError::BadParcel("unclaimed driver objects"));
        }
        if split {
            let ghost key = (p.sublink, p.sequence_number);
            let ghost half = SplitView::Data(p.handle_types@, p.parcel_data@);
            let waiting = self.pending_split.remove(p.sublink, p.sequence_number);
            assert(self@.pending =~= old(self)@.pending.remove(key));
            match waiting {
                Some(SplitHalf::Objects(relayed)) => {
                    assert(self@.pending.remove(key) =~= self@.pending);
                    return self.join_halves(
                        p.sublink,
                        p.sequence_number,
                        p.handle_types,
                        p.parcel_data,
                        relayed,
                    );
                },
                _ => {},
            }
            self.pending_split.insert(
                p.sublink,
                p.sequence_number,
                SplitHalf::Data { types: p.handle_types, payload: p.parcel_data },
            );
            assert(self@.pending =~= old(self)@.pending.insert(key, half));
            return Ok(());
        }
        let m = IncomingMessage { payload: data, fds: objects };
        self.deliver_parcel(p.sublink, p.sequence_number, m)
    }

    /// Accept the objects half of a split parcel: pair it with the data half.
    pub fn on_accept_parcel_objects(
        &mut self,
        p: AcceptParcelDriverObjects,
        fds: &Vec<i32>,
    ) -> (r: Result<(), AcceptorError>)
        requires
            old(self).wf(),
        ensures
            final(self).wf(),
            (final(self)@, outcome(r)) == objects_accepted(old(self)@, p@, fds@),
    {
        let objects = match unwrap_all(&p.driver_objects, fds) {
            Ok(o) => o,
            Err(e) => {
                return Err(e);
            },
        };
        let ghost key = (p.sublink, p.sequence_number);
        let taken = self.pending_split.remove(p.sublink, p.sequence_number);
        assert(self@.pending =~= old(self)@.pending.remove(key));
        match taken {
            Some(SplitHalf::Data { types, payload }) => {
                assert(self@.pending.remove(key) =~= self@.pending);
                self.join_halves(p.sublink, p.sequence_number, types, payload, objects)
            },
            Some(SplitHalf::Objects(_)) => Err(
                AcceptorError::BadParcel("duplicate split parcel objects"),
            ),
            None => {
                let ghost view = SplitView::Objects(objects@);
                self.pending_split.insert(
                    p.sublink,
                    p.sequence_number,
                    SplitHalf::Objects(objects),
                );
                assert(self@.pending =~= old(self)@.pending.insert(key, view));
                Ok(())
            },
        }
    }
}

/// The state after a route adopts a new central link: the old link decays, and
/// the peer is told to stop proxying on the old sublink.
pub open spec fn link_adopted(s: AcceptorView, key: u64, b: BypassPeerWithLink) -> AcceptorView {
    let r = s.routers[key];
    let route = RouteView {
        primary: LinkEdge { sublink: b.new_sublink, link_state: b.new_link_state_fragment },
        decaying: Some(r.primary),
        decaying_length: b.inbound_sequence_length,
        ..r
    };
    sent(
        AcceptorView {
            routers: s.routers.insert(key, route),
            adopted: s.adopted.insert(b.new_sublink, key),
            ..s
        },
        plain_message(
            MSG_ID_STOP_PROXYING_TO_LOCAL_PEER,
            0,
            two_words(r.primary.sublink, r.outbound_seq),
        ),
        None,
    )
}

/// The state after a bypass moves a route to a new central link, which is done
/// with the old one at once where all its parcels have come in; parcels that
/// were kept for the new sublink are delivered.
pub open spec fn bypassed(s: AcceptorView, b: BypassPeerWithLink) -> Step {
    let d = b.new_link_state_fragment;
    if d.spec_is_null() {
        (s, Err(Failure::BadParcel("bypass with null link state"@)))
    } else if s.memory is None {
        (s, Err(Failure::Unexpected("link memory not established"@)))
    } else if resolve(s.memory->Some_0, d) is Err {
        (s, Err(Failure::BadParcel("bypass link state unresolvable"@)))
    } else {
        match owner(s, b.sublink) {
            None => (s, Err(Failure::BadParcel("bypass for unknown sublink"@))),
            Some(key) => {
                let (t, r) = decay_settled(link_adopted(s, key, b), key);
                if r is Err {
                    (t, r)
                } else {
                    early_taken(t, b.new_sublink)
                }
            },
        }
    }
}

/// The state after the parcels that were kept for a sublink are delivered.
pub open spec fn early_taken(s: AcceptorView, sublink: u64) -> Step {
    if s.early.contains_key(sublink) {
        delivered_all(
            AcceptorView { early: s.early.remove(sublink), ..s },
            sublink,
            s.early[sublink],
        )
    } else {
        (s, Ok(()))
    }
}

/// The state after a route is closed by the peer.
pub open spec fn route_closed(s: AcceptorView, sublink: u64) -> AcceptorView {
    match owner(s, sublink) {
        Some(key) => AcceptorView {
            routers: s.routers.insert(key, RouteView { closed: true, ..s.routers[key] }),
            ..s
        },
        None => s,
    }
}

/// The state after a buffer is added to the link memory.
pub open spec fn buffer_added(
    s: AcceptorView,
    b: AddBlockBuffer,
    num_fds: nat,
    buffer: Seq<u8>,
) -> Step {
    if b.buffer_index >= num_fds {
        (s, Err(Failure::Unexpected("AddBlockBuffer index out of range"@)))
    } else {
        match s.memory {
            None => (s, Err(Failure::Unexpected("link memory not established"@))),
            Some(m) => (
                AcceptorView {
                    memory: Some(with_buffer(m, b.buffer_id, buffer, b.block_size)),
                    ..s
                },
                Ok(()),
            ),
        }
    }
}

/// The state after a message is dispatched. `buffer` is what the shared memory
/// that came with the message holds, where the message adds a buffer.
pub open spec fn dispatched(
    s: AcceptorView,
    payload: Seq<u8>,
    fds: Seq<i32>,
    buffer: Seq<u8>,
) -> Step {
    match decoded(payload, fds.len()) {
        Err(e) => (s, Err(Failure::Wire(e))),
        Ok(m) => match m {
            DecodedView::ConnectFromBrokerToNonBroker(_) => (
                s,
                Err(Failure::Unexpected("Connect received after handshake"@)),
            ),
            DecodedView::ConnectFromNonBrokerToBroker(_) => (
                s,
                Err(Failure::Unexpected("Connect reply received from broker"@)),
            ),
            DecodedView::AddBlockBuffer(b) => buffer_added(s, b, fds.len(), buffer),
            DecodedView::AcceptParcel(p) => parcel_accepted(s, p, fds),
            DecodedView::AcceptParcelDriverObjects(p) => objects_accepted(s, p, fds),
            DecodedView::RouteClosed(rc) => (route_closed(s, rc.sublink), Ok(())),
            DecodedView::RouteDisconnected(rd) => (route_closed(s, rd.sublink), Ok(())),
            DecodedView::BypassPeerWithLink(b) => bypassed(s, b),
            DecodedView::StopProxyingToLocalPeer(_) => (s, Ok(())),
            DecodedView::FlushRouter(_) => (s, Ok(())),
            DecodedView::RequestMemory(_) => (
                s,
                Err(
                    Failure::Unsupported(
                        MSG_ID_REQUEST_MEMORY,
                        "RequestMemory not supported by the Phase 3 acceptor"@,
                    ),
                ),
            ),
            DecodedView::ProvideMemory(_) => (
                s,
                Err(
                    Failure::Unsupported(
                        MSG_ID_PROVIDE_MEMORY,
                        "ProvideMemory not supported by the Phase 3 acceptor"@,
                    ),
                ),
            ),
            DecodedView::Unknown(id) => (
                s,
                Err(Failure::Unsupported(id, refusal(id))),
            ),
        },
    }
}

/// Why a message of a type that has no decoder here is refused.
pub open spec fn refusal(id: u8) -> Seq<char> {
    if id == 30 {
        "BypassPeer not supported by the Phase 3 acceptor"@
    } else if id == 31 {
        "AcceptBypassLink not supported by the Phase 3 acceptor"@
    } else if id == 32 {
        "StopProxying not supported by the Phase 3 acceptor"@
    } else if id == 33 {
        "ProxyWillStop not supported by the Phase 3 acceptor"@
    } else {
        "message type not decoded by the interop layer"@
    }
}

fn refusal_text(id: u8) -> (r: &'static str)
    ensures
        r@ == refusal(id),
{
    match id {
        30 => "BypassPeer not supported by the Phase 3 acceptor",
        31 => "AcceptBypassLink not supported by the Phase 3 acceptor",
        32 => "StopProxying not supported by the Phase 3 acceptor",
        33 => "ProxyWillStop not supported by the Phase 3 acceptor",
        _ => "message type not decoded by the interop layer",
    }
}

impl Acceptor {
    fn mark_closed(&mut self, sublink: u64)
        requires
            old(self).wf(),
        ensures
            final(self).wf(),
            final(self)@ == route_closed(old(self)@, sublink),
    {
        match self.owner_of(sublink) {
            Some(key) => match self.routers.remove(&key) {
                Some(router) => {
                    let mut router: Router = router;
                    router.closed = true;
                    self.routers.insert(key, router);
                },
                None => {},
            },
            None => {},
        }
        assert(self@.routers =~= route_closed(old(self)@, sublink).routers);
    }

    /// Adopt a new central link for a route, as the peer asks for.
    pub fn on_bypass_peer_with_link(&mut self, b: BypassPeerWithLink) -> (r: Result<
        (),
        AcceptorError,
    >)
        requires
            old(self).wf(),
        ensures
            final(self).wf(),
            (final(self)@, outcome(r)) == bypassed(old(self)@, b),
    {
        let ghost before = self@;
        if b.new_link_state_fragment.is_null() {
            return Err(AcceptorError::BadParcel("bypass with null link state"));
        }
        match &self.link_memory {
            None => {
                return Err(AcceptorError::Unexpected("link memory not established"));
            },
            Some(m) => match m.fragment(b.new_link_state_fragment) {
                Ok(_) => {},
                Err(_) => {
                    return Err(AcceptorError::BadParcel("bypass link state unresolvable"));
                },
            },
        }
        let key: u64 = match self.owner_of(b.sublink) {
            Some(key) => key,
            None => {
                return Err(AcceptorError::BadParcel("bypass for unknown sublink"));
            },
        };
        let mut router: Router = match self.routers.remove(&key) {
            Some(r) => r,
            None => {
                return Ok(());
            },
        };
        assert(router@ == before.routers[key]);
        let old_edge = router.primary;
        let length: u64 = router.outbound_seq;
        router.primary = LinkEdge { sublink: b.new_sublink, link_state: b.new_link_state_fragment };
        router.decaying = Some(old_edge);
        router.decaying_length = b.inbound_sequence_length;
        let ghost after = router@;
        self.routers.insert(key, router);
        assert(self@.routers =~= before.routers.insert(key, after));
        self.adopted.insert(b.new_sublink, key);
        let stop = encode_stop_proxying_to_local_peer(old_edge.sublink, length);
        proof {
            crate::ipcz::messages::lemma_plain_message_len(
                MSG_ID_STOP_PROXYING_TO_LOCAL_PEER,
                0,
                two_words(old_edge.sublink, length),
            );
        }
        self.send_link_message(stop, None);
        assert(self@ =~= link_adopted(before, key, b));
        match self.settle_decay(key) {
            Ok(_) => {},
            Err(e) => {
                return Err(e);
            },
        }
        let ghost moved = self@;
        match self.early_parcels.remove(&b.new_sublink) {
            Some(queue) => {
                assert(moved.early[b.new_sublink] == early_views(queue@));
                assert(self@.early =~= moved.early.remove(b.new_sublink));
                self.deliver_all(b.new_sublink, queue)
            },
            None => {
                assert(self@.early =~= moved.early);
                Ok(())
            },
        }
    }

    fn on_add_block_buffer(&mut self, b: AddBlockBuffer, num_fds: usize, buffer: Vec<u8>) -> (r:
        Result<(), AcceptorError>)
        requires
            old(self).wf(),
        ensures
            final(self).wf(),
            (final(self)@, outcome(r)) == buffer_added(old(self)@, b, num_fds as nat, buffer@),
    {
        if b.buffer_index as usize >= num_fds {
            return Err(AcceptorError::Unexpected("AddBlockBuffer index out of range"));
        }
        match &mut self.link_memory {
            None => Err(AcceptorError::Unexpected("link memory not established")),
            Some(m) => {
                m.add_block_buffer(b.buffer_id, buffer, b.block_size);
                Ok(())
            },
        }
    }

    /// Dispatch one incoming channel message. `buffer` is what the shared
    /// memory that came with the message holds, where it adds a buffer.
    pub fn dispatch(&mut self, payload: &[u8], fds: &Vec<i32>, buffer: Vec<u8>) -> (r: Result<
        (),
        AcceptorError,
    >)
        requires
            old(self).wf(),
        ensures
            final(self).wf(),
            (final(self)@, outcome(r)) == dispatched(old(self)@, payload@, fds@, buffer@),
    {
        let message = match decode_message(payload, fds.len()) {
            Ok(m) => m,
            Err(e) => {
                return Err(AcceptorError::Wire(e));
            },
        };
        match message {
            DecodedMessage::ConnectFromBrokerToNonBroker(_) => Err(
                AcceptorError::Unexpected("Connect received after handshake"),
            ),
            DecodedMessage::ConnectFromNonBrokerToBroker(_) => Err(
                AcceptorError::Unexpected("Connect reply received from broker"),
            ),
            DecodedMessage::AddBlockBuffer(b) => self.on_add_block_buffer(b, fds.len(), buffer),
            DecodedMessage::AcceptParcel(p) => self.on_accept_parcel(p, fds),
            DecodedMessage::AcceptParcelDriverObjects(p) => self.on_accept_parcel_objects(p, fds),
            DecodedMessage::RouteClosed(rc) => {
                self.mark_closed(rc.sublink);
                Ok(())
            },
            DecodedMessage::RouteDisconnected(rd) => {
                self.mark_closed(rd.sublink);
                Ok(())
            },
            DecodedMessage::BypassPeerWithLink(b) => self.on_bypass_peer_with_link(b),
            DecodedMessage::StopProxyingToLocalPeer(_) => Ok(()),
            DecodedMessage::FlushRouter(_) => Ok(()),
            DecodedMessage::RequestMemory(_) => Err(
                AcceptorError::Unsupported(
                    MSG_ID_REQUEST_MEMORY,
                    "RequestMemory not supported by the Phase 3 acceptor",
                ),
            ),
            DecodedMessage::ProvideMemory(_) => Err(
                AcceptorError::Unsupported(
                    MSG_ID_PROVIDE_MEMORY,
                    "ProvideMemory not supported by the Phase 3 acceptor",
                ),
            ),
            DecodedMessage::Unknown(id) => Err(
                AcceptorError::Unsupported(id, refusal_text(id)),
            ),
        }
    }
}

/// The link state of initial portal `i`.
pub open spec fn initial_state(i: int) -> FragmentDescriptor {
    FragmentDescriptor { buffer_id: 0, offset: (0x100 + 64 * i) as u32, size: 64 }
}

/// The number of initial portals that a greeting offers, where the greeting is
/// in order: it is a greeting, offers no more portals than there may be, and
/// carries the link memory as its one descriptor.
pub open spec fn greeting(payload: Seq<u8>, num_fds: nat) -> Result<u32, Failure> {
    match decoded(payload, num_fds) {
        Err(e) => Err(Failure::Wire(e)),
        Ok(DecodedView::ConnectFromBrokerToNonBroker(connect)) => if connect.num_initial_portals
            > MAX_INITIAL_PORTALS {
            Err(Failure::BadParcel("excessive initial portals"@))
        } else if num_fds != 1 {
            Err(Failure::Unexpected("Connect carries no link memory"@))
        } else {
            match shared_buffer_of(payload) {
                Err(e) => Err(e),
                Ok(buffer) => if buffer.buffer_size != PRIMARY_BUFFER_SIZE {
                    Err(Failure::Unexpected("link memory buffer has unexpected size"@))
                } else {
                    Ok(connect.num_initial_portals)
                },
            }
        },
        Ok(_) => Err(Failure::Unexpected("first message was not ConnectFromBrokerToNonBroker"@)),
    }
}

/// Check the broker's greeting; returns the number of initial portals that it
/// offers.
pub fn check_greeting(payload: &[u8], num_fds: usize) -> (r: Result<u32, AcceptorError>)
    ensures
        outcome(r) == greeting(payload@, num_fds as nat),
        r matches Ok(n) ==> n <= MAX_INITIAL_PORTALS,
{
    let connect = match decode_message(payload, num_fds) {
        Err(e) => {
            return Err(AcceptorError::Wire(e));
        },
        Ok(DecodedMessage::ConnectFromBrokerToNonBroker(c)) => c,
        Ok(_) => {
            return Err(
                AcceptorError::Unexpected("first message was not ConnectFromBrokerToNonBroker"),
            );
        },
    };
    if connect.num_initial_portals > MAX_INITIAL_PORTALS as u32 {
        return Err(AcceptorError::BadParcel("excessive initial portals"));
    }
    if num_fds != 1 {
        return Err(AcceptorError::Unexpected("Connect carries no link memory"));
    }
    match parse_shared_buffer_driver_object(payload) {
        Err(e) => Err(e),
        Ok(buffer) => if buffer.buffer_size != PRIMARY_BUFFER_SIZE as u32 {
            Err(AcceptorError::Unexpected("link memory buffer has unexpected size"))
        } else {
            Ok(connect.num_initial_portals)
        },
    }
}

/// The adopted link memory with the acceptor's side marked stable in the states
/// of the first `n` initial portals.
pub open spec fn greeted_memory(contents: Seq<u8>, n: nat) -> LinkMemoryView
    decreases n,
{
    if n == 0 {
        LinkMemoryView {
            buffers: map![PRIMARY_BUFFER_ID => contents],
            regions: seq![primary_region()],
        }
    } else {
        let m = greeted_memory(contents, (n - 1) as nat);
        let d = initial_state(n - 1);
        with_status(m, d, status_of(m, d) | RouterLinkStatus::SIDE_B_STABLE)
    }
}

/// The router of initial portal `i`, where the broker offers `portals`. Only
/// portal 1 has an endpoint; the portals after it, and those that the broker
/// does not offer, are closed.
pub open spec fn initial_router(i: u64, portals: u32) -> RouteView {
    RouteView {
        portal: if i == 1 && i < portals {
            Some(Seq::empty())
        } else {
            None
        },
        primary: LinkEdge { sublink: i, link_state: initial_state(i as int) },
        decaying: None,
        decaying_length: 0,
        outbound_seq: 0,
        inbound_seq: 0,
        received: Map::empty(),
        closed: i > 1 || i >= portals,
    }
}

/// The routers of the first `n` initial portals, over those that were there.
pub open spec fn with_initial_routers(
    routers: Map<u64, RouteView>,
    n: u64,
    portals: u32,
) -> Map<u64, RouteView> {
    Map::new(
        |i: u64| i < n || routers.contains_key(i),
        |i: u64|
            if i < n {
                initial_router(i, portals)
            } else {
                routers[i]
            },
    )
}

/// The state after the handshake: the reply is sent, the link memory adopted
/// and the initial portals are there.
pub open spec fn connected(s: AcceptorView, portals: u32, contents: Seq<u8>) -> AcceptorView {
    let t = AcceptorView {
        memory: Some(greeted_memory(contents, portals as nat)),
        outbox: s.outbox.push(
            OutgoingView {
                payload: connect_reply_message(ACCEPTOR_INITIAL_PORTALS, 0, 0),
                file: None,
            },
        ),
        routers: with_initial_routers(s.routers, MAX_INITIAL_PORTALS as u64, portals),
        ..s
    };
    emitted(emitted(t, 1, EventKind::Result), 2, EventKind::Result)
}

impl Acceptor {
    /// Note that the run starts.
    pub fn start(&mut self)
        requires
            old(self).wf(),
        ensures
            final(self).wf(),
            final(self)@ == emitted(old(self)@, 0, EventKind::Lifecycle),
    {
        self.emit(0, EventKind::Lifecycle);
    }

    /// Complete the handshake once the greeting is in order: adopt the link
    /// memory, reply, and establish the initial portals. The reply has the
    /// sequence number zero.
    pub fn connect(&mut self, portals: u32, contents: Vec<u8>)
        requires
            old(self).wf(),
            portals <= MAX_INITIAL_PORTALS,
            contents@.len() == PRIMARY_BUFFER_SIZE,
        ensures
            final(self).wf(),
            final(self)@ == connected(old(self)@, portals, contents@),
    {
        let ghost before = self@;
        let mut memory = LinkMemory::adopt_primary(contents);
        let reply = encode_connect_from_non_broker_to_broker(ACCEPTOR_INITIAL_PORTALS, 0);
        let m = OutgoingMessage { payload: reply, file: None };
        self.outbox.push(m);
        assert(self@.outbox =~= before.outbox.push(m@));
        assert(memory@ == greeted_memory(contents@, 0));
        let mut i: u64 = 0;
        assert(self@.routers =~= with_initial_routers(before.routers, 0, portals));
        while i < 12
            invariant
                i <= 12,
                portals <= 12,
                memory_ok(memory@),
                memory@ == greeted_memory(
                    contents@,
                    if i < portals {
                        i as nat
                    } else {
                        portals as nat
                    },
                ),
                self.wf(),
                self@ == (AcceptorView {
                    routers: with_initial_routers(before.routers, i, portals),
                    outbox: before.outbox.push(m@),
                    ..before
                }),
            decreases 12 - i,
        {
            let state = FragmentDescriptor {
                buffer_id: 0,
                offset: LinkMemory::initial_link_state_offset(i as usize) as u32,
                size: ROUTER_LINK_STATE_SIZE as u32,
            };
            let portal = if i == 1 && i < portals as u64 {
                Some(Portal::new())
            } else {
                None
            };
            if i < portals as u64 {
                let ghost mem = memory@;
                let r = memory.set_link_status_bits(state, RouterLinkStatus::SIDE_B_STABLE);
                assert(link_status(mem, state) is Ok);
            }
            let router = Router {
                portal,
                primary: LinkEdge { sublink: i, link_state: state },
                decaying: None,
                decaying_length: 0,
                outbound_seq: 0,
                inbound_seq: 0,
                inbound_by_edge: HashMap::new(),
                closed: i > 1 || i >= portals as u64,
            };
            assert(router@ =~= initial_router(i, portals));
            let ghost prev = self@.routers;
            self.routers.insert(i, router);
            assert(self@.routers =~= prev.insert(i, router@));
            i = i + 1;
            assert(self@.routers =~= with_initial_routers(before.routers, i, portals));
        }
        self.link_memory = Some(memory);
        self.emit(1, EventKind::Result);
        self.emit(2, EventKind::Result);
    }
}

/// The state after the first message is taken from the bootstrap portal, and
/// the descriptor that came with it: the message must be the broker's greeting
/// text with one descriptor.
pub open spec fn bootstrap_taken(s: AcceptorView) -> (AcceptorView, Result<i32, Failure>) {
    if !s.routers.contains_key(BOOTSTRAP_SUBLINK) {
        (s, Err(Failure::Unexpected("bootstrap router missing"@)))
    } else {
        let r = s.routers[BOOTSTRAP_SUBLINK];
        match r.portal {
            None => (s, Err(Failure::Unexpected("bootstrap portal missing"@))),
            Some(queue) => if queue.len() == 0 {
                (s, Err(Failure::Unexpected("bootstrap message missing"@)))
            } else {
                let t = AcceptorView {
                    routers: s.routers.insert(
                        BOOTSTRAP_SUBLINK,
                        RouteView { portal: Some(queue.skip(1)), ..r },
                    ),
                    ..s
                };
                if queue[0].payload != encode_utf8("hello-from-broker"@) {
                    (t, Err(Failure::BadParcel("unexpected broker payload"@)))
                } else if queue[0].fds.len() != 1 {
                    (t, Err(Failure::BadParcel("expected one descriptor"@)))
                } else {
                    (t, Ok(queue[0].fds[0]))
                }
            },
        }
    }
}

/// The event of the message received from the broker, with what its descriptor
/// holds.
pub open spec fn receive_event(seq: u64, content: Seq<u8>) -> EventView {
    EventView {
        payload_hex: Some(hex_text(encode_utf8("hello-from-broker"@))),
        note: Some("fd_hex:"@ + hex_text(content)),
        ..plain_event(seq, 3, EventKind::Message, "MOJO_RESULT_OK"@)
    }
}

/// The reply: a parcel whose data is in `fragment`, with one wrapped handle.
pub open spec fn reply_message(route: RouteView, fragment: FragmentDescriptor) -> Seq<u8> {
    accept_parcel_message(
        route.primary.sublink,
        route.outbound_seq,
        fragment,
        Seq::empty(),
        seq![1u32],
        seq![wrapped_handle()],
        0,
    )
}

/// The state after the reply to the broker's message, whose descriptor holds
/// `content`: the reply's data goes through the link memory, on the current
/// link of the bootstrap route.
pub open spec fn replied(s: AcceptorView, content: Seq<u8>) -> Step {
    let t = noted(s, receive_event(next_number(s.event_seq), content));
    if content != encode_utf8("fd-from-broker"@) {
        (s, Err(Failure::BadParcel("unexpected broker fd content"@)))
    } else if !s.routers.contains_key(BOOTSTRAP_SUBLINK) {
        (t, Err(Failure::Unexpected("bootstrap router missing"@)))
    } else {
        let route = s.routers[BOOTSTRAP_SUBLINK];
        match s.memory {
            None => (t, Err(Failure::Unexpected("link memory not established"@))),
            Some(m) => match parcel_allocation(m, encode_utf8("hello-from-acceptor"@)) {
                None => (t, Err(Failure::LinkMemory(LinkMemoryError::OutOfBounds))),
                Some((fragment, m2)) => {
                    let u = sent(
                        AcceptorView { memory: Some(m2), ..t },
                        reply_message(route, fragment),
                        Some(encode_utf8("fd-from-acceptor"@)),
                    );
                    let v = AcceptorView {
                        routers: u.routers.insert(
                            BOOTSTRAP_SUBLINK,
                            RouteView { outbound_seq: next_number(route.outbound_seq), ..route },
                        ),
                        reply_sent: true,
                        ..u
                    };
                    (emitted(v, 4, EventKind::Result), Ok(()))
                },
            },
        }
    }
}

/// The state at the end of the exchange: where the reply went out and the peer
/// is still there, the route is closed with the number of parcels sent on it.
pub open spec fn finished(s: AcceptorView, peer_closed: bool) -> (AcceptorView, RunOutcome) {
    let (sublink, length) = if s.routers.contains_key(BOOTSTRAP_SUBLINK) {
        (
            s.routers[BOOTSTRAP_SUBLINK].primary.sublink,
            s.routers[BOOTSTRAP_SUBLINK].outbound_seq,
        )
    } else {
        (BOOTSTRAP_SUBLINK, 0)
    };
    let t = if !peer_closed && s.reply_sent {
        sent(s, plain_message(MSG_ID_ROUTE_CLOSED, 0, two_words(sublink, length)), None)
    } else {
        s
    };
    (
        emitted(t, 5, EventKind::Lifecycle),
        if peer_closed && !s.reply_sent {
            RunOutcome::PeerClosed
        } else {
            RunOutcome::Success
        },
    )
}

/// What happened during the exchange.
pub enum ExchangeEvent {
    /// Nothing yet.
    Start,
    /// The wait for the channel ended: it is readable, or the time was up.
    Ready(bool),
    /// A message came in, with what the shared memory that came with it holds.
    Message(IncomingMessage, Vec<u8>),
    /// Nothing more is to be had for now.
    WouldBlock,
    /// The peer closed the channel.
    PeerClosed,
    /// The descriptor that was to be read holds these bytes.
    Content(Vec<u8>),
}

/// What is to be done next in the exchange.
#[derive(Debug, Clone, Copy, PartialEq, Eq, Structural)]
pub enum ExchangeAction {
    /// Wait until the channel is readable, up to the given number of seconds.
    Wait(u64),
    /// Receive what is available.
    Receive,
    /// Read the whole of a descriptor.
    ReadDescriptor(i32),
    /// The exchange is over.
    Done(RunOutcome),
}

/// The state after an event of the exchange, and what is to be done next. Every
/// message that is available is dispatched before the reply is sent, so that
/// the reply goes out on the link that a bypass in between has set up.
pub open spec fn exchanged(s: AcceptorView, e: ExchangeEvent) -> (
    AcceptorView,
    Result<ExchangeAction, Failure>,
) {
    match e {
        ExchangeEvent::Start => if s.reply_sent {
            let (t, done) = finished(s, false);
            (t, Ok(ExchangeAction::Done(done)))
        } else {
            (s, Ok(ExchangeAction::Wait(30)))
        },
        ExchangeEvent::Ready(ready) => if ready {
            (s, Ok(ExchangeAction::Receive))
        } else {
            (s, Err(Failure::ExchangeTimedOut))
        },
        ExchangeEvent::Message(m, buffer) => {
            let (t, r) = dispatched(s, m.payload@, m.fds@, buffer@);
            (
                t,
                match r {
                    Ok(_) => Ok(ExchangeAction::Receive),
                    Err(e) => Err(e),
                },
            )
        },
        ExchangeEvent::WouldBlock => if s.reply_ready && !s.reply_sent {
            let (t, r) = bootstrap_taken(s);
            (
                t,
                match r {
                    Ok(fd) => Ok(ExchangeAction::ReadDescriptor(fd)),
                    Err(e) => Err(e),
                },
            )
        } else {
            (s, Ok(ExchangeAction::Wait(30)))
        },
        ExchangeEvent::PeerClosed => {
            let (t, done) = finished(s, true);
            (t, Ok(ExchangeAction::Done(done)))
        },
        ExchangeEvent::Content(content) => {
            let (t, r) = replied(s, content@);
            match r {
                Err(e) => (t, Err(e)),
                Ok(_) => {
                    let (u, done) = finished(t, false);
                    (u, Ok(ExchangeAction::Done(done)))
                },
            }
        },
    }
}

impl Acceptor {
    /// Take the broker's message from the bootstrap portal and check it.
    /// Returns the descriptor that came with it.
    pub fn take_bootstrap_message(&mut self) -> (r: Result<i32, AcceptorError>)
        requires
            old(self).wf(),
        ensures
            final(self).wf(),
            (final(self)@, outcome(r)) == bootstrap_taken(old(self)@),
    {
        let ghost before = self@;
        let mut router: Router = match self.routers.remove(&BOOTSTRAP_SUBLINK) {
            Some(r) => r,
            None => {
                assert(self@.routers =~= before.routers);
                return Err(AcceptorError::Unexpected("bootstrap router missing"));
            },
        };
        assert(router@ == before.routers[BOOTSTRAP_SUBLINK]);
        let ghost route = router@;
        let popped: Result<IncomingMessage, AcceptorError> = match &mut router.portal {
            None => Err(AcceptorError::Unexpected("bootstrap portal missing")),
            Some(portal) => match portal.pop() {
                Some(m) => Ok(m),
                None => Err(AcceptorError::Unexpected("bootstrap message missing")),
            },
        };
        let ghost after = router@;
        self.routers.insert(BOOTSTRAP_SUBLINK, router);
        assert(self@.routers =~= before.routers.insert(BOOTSTRAP_SUBLINK, after));
        let m = match popped {
            Ok(m) => m,
            Err(e) => {
                assert(after =~= route);
                assert(self@.routers =~= before.routers);
                return Err(e);
            },
        };
        if !same_bytes(m.payload.as_slice(), "hello-from-broker".as_bytes()) {
            return Err(AcceptorError::BadParcel("unexpected broker payload"));
        }
        if m.fds.len() != 1 {
            return Err(AcceptorError::BadParcel("expected one descriptor"));
        }
        Ok(m.fds[0])
    }

    fn emit_receive(&mut self, content: &[u8])
        requires
            old(self).wf(),
        ensures
            final(self).wf(),
            final(self)@ == noted(
                old(self)@,
                receive_event(next_number(old(self)@.event_seq), content@),
            ),
    {
        let mut e = Event::plain(
            following(self.event_seq),
            3,
            EventKind::Message,
            "MOJO_RESULT_OK",
        );
        e.payload_hex = Some(digest_text("hello-from-broker".as_bytes()));
        e.note = Some(joined("fd_hex:", digest_text(content).as_str()));
        self.note(e);
    }

    /// Check what the broker's descriptor holds, and send the reply.
    pub fn send_reply(&mut self, content: &Vec<u8>) -> (r: Result<(), AcceptorError>)
        requires
            old(self).wf(),
        ensures
            final(self).wf(),
            (final(self)@, outcome(r)) == replied(old(self)@, content@),
    {
        let ghost before = self@;
        if !same_bytes(content.as_slice(), "fd-from-broker".as_bytes()) {
            return Err(AcceptorError::BadParcel("unexpected broker fd content"));
        }
        self.emit_receive(content.as_slice());
        let (sublink, number): (u64, u64) = match self.routers.get(&BOOTSTRAP_SUBLINK) {
            Some(router) => (router.primary.sublink, router.outbound_seq),
            None => {
                return Err(AcceptorError::Unexpected("bootstrap router missing"));
            },
        };
        let fragment = match &mut self.link_memory {
            None => {
                return Err(AcceptorError::Unexpected("link memory not established"));
            },
            Some(m) => match m.write_parcel_fragment("hello-from-acceptor".as_bytes()) {
                Ok(f) => f,
                Err(e) => {
                    return Err(AcceptorError::LinkMemory(e));
                },
            },
        };
        let object = wrapped_platform_handle_encoding();
        let types: Vec<u32> = vec![1];
        let mut objects: Vec<Vec<u8>> = Vec::new();
        objects.push(object);
        proof {
            crate::ipcz::messages::lemma_one_object_parcel_len(
                sublink,
                number,
                fragment,
                1,
                wrapped_handle(),
                0,
            );
            assert(byte_views(objects@) =~= seq![wrapped_handle()]);
            assert(types@ =~= seq![1u32]);
        }
        let payload = encode_accept_parcel_fragment(
            sublink,
            number,
            fragment,
            types.as_slice(),
            objects.as_slice(),
        );
        self.send_link_message(payload, Some(slice_to_vec("fd-from-acceptor".as_bytes())));
        let ghost routers = self@.routers;
        match self.routers.remove(&BOOTSTRAP_SUBLINK) {
            Some(router) => {
                let mut router: Router = router;
                router.outbound_seq = following(router.outbound_seq);
                let ghost after = router@;
                self.routers.insert(BOOTSTRAP_SUBLINK, router);
                assert(self@.routers =~= routers.insert(BOOTSTRAP_SUBLINK, after));
            },
            None => {},
        }
        self.reply_sent = true;
        self.emit(4, EventKind::Result);
        Ok(())
    }

    /// End the exchange: close the route where that is due.
    pub fn finish(&mut self, peer_closed: bool) -> (r: RunOutcome)
        requires
            old(self).wf(),
        ensures
            final(self).wf(),
            (final(self)@, r) == finished(old(self)@, peer_closed),
    {
        let reply_sent: bool = self.reply_sent;
        if !peer_closed && reply_sent {
            let (sublink, length): (u64, u64) = match self.routers.get(&BOOTSTRAP_SUBLINK) {
                Some(router) => (router.outbound_sublink(), router.outbound_seq),
                None => (BOOTSTRAP_SUBLINK, 0),
            };
            let payload = encode_route_closed(sublink, length);
            proof {
                crate::ipcz::messages::lemma_plain_message_len(
                    MSG_ID_ROUTE_CLOSED,
                    0,
                    two_words(sublink, length),
                );
            }
            self.send_link_message(payload, None);
        }
        self.emit(5, EventKind::Lifecycle);
        if peer_closed && !reply_sent {
            RunOutcome::PeerClosed
        } else {
            RunOutcome::Success
        }
    }

    /// Take an event of the exchange, and say what is to be done next.
    pub fn exchange(&mut self, event: ExchangeEvent) -> (r: Result<ExchangeAction, AcceptorError>)
        requires
            old(self).wf(),
        ensures
            final(self).wf(),
            (final(self)@, outcome(r)) == exchanged(old(self)@, event),
    {
        match event {
            ExchangeEvent::Start => if self.reply_sent {
                Ok(ExchangeAction::Done(self.finish(false)))
            } else {
                Ok(ExchangeAction::Wait(30))
            },
            ExchangeEvent::Ready(ready) => if ready {
                Ok(ExchangeAction::Receive)
            } else {
                Err(AcceptorError::ExchangeTimedOut)
            },
            ExchangeEvent::Message(m, buffer) => match self.dispatch(
                m.payload.as_slice(),
                &m.fds,
                buffer,
            ) {
                Ok(_) => Ok(ExchangeAction::Receive),
                Err(e) => Err(e),
            },
            ExchangeEvent::WouldBlock => if self.reply_ready && !self.reply_sent {
                match self.take_bootstrap_message() {
                    Ok(fd) => Ok(ExchangeAction::ReadDescriptor(fd)),
                    Err(e) => Err(e),
                }
            } else {
                Ok(ExchangeAction::Wait(30))
            },
            ExchangeEvent::PeerClosed => Ok(ExchangeAction::Done(self.finish(true))),
            ExchangeEvent::Content(content) => match self.send_reply(&content) {
                Ok(_) => Ok(ExchangeAction::Done(self.finish(false))),
                Err(e) => Err(e),
            },
        }
    }
}

/// A route takes its parcels once and in order: the parcel with the expected
/// number goes to the end of the portal's queue, whichever of its sublinks it
/// comes on, and offering it again is refused and changes nothing.
pub proof fn law_parcels_in_order(
    s: AcceptorView,
    sublink: u64,
    key: u64,
    m: IncomingView,
    again: IncomingView,
)
    requires
        owner(s, sublink) == Some(key),
        s.routers[key].portal is Some,
    ensures
        ({
            let n = s.routers[key].inbound_seq;
            let (t, r) = delivered(s, sublink, n, m);
            &&& s.routers[key].decaying is None ==> r is Ok
            &&& t.routers[key].portal == Some(s.routers[key].portal->Some_0.push(m))
            &&& delivered(t, sublink, n, again) == (
                t,
                Err::<(), Failure>(Failure::BadParcel("route sequence gap or duplicate"@)),
            )
        }),
{
    lemma_owner_stays(s, sublink, s.routers[key].inbound_seq, m, sublink);
}

/// A delivery changes nothing about whom a sublink belongs to.
proof fn lemma_owner_stays(s: AcceptorView, on: u64, number: u64, m: IncomingView, sublink: u64)
    ensures
        owner(delivered(s, on, number, m).0, sublink) == owner(s, sublink),
{
    let t = delivered(s, on, number, m).0;
    assert(t.adopted == s.adopted);
    assert(t.routers.dom() =~= s.routers.dom());
}

/// Messages on the link are numbered one after the other: the next message
/// has the link's next number in its header, and the message after it the
/// number that follows.
pub proof fn law_link_messages_are_numbered(
    s: AcceptorView,
    h: crate::ipcz::wire::MessageHeader,
    body: Seq<u8>,
    file: Option<Seq<u8>>,
)
    requires
        h.size == 24,
    ensures
        ({
            let t = sent(s, crate::ipcz::wire::message_bytes(h, body), file);
            let numbered = crate::ipcz::wire::MessageHeader {
                node_sequence_number: s.next_link_seq,
                ..h
            };
            &&& t.outbox == s.outbox.push(
                OutgoingView { payload: crate::ipcz::wire::message_bytes(numbered, body), file },
            )
            &&& message_header_of(t.outbox.last().payload) == Ok::<
                crate::ipcz::wire::MessageHeader,
                WireError,
            >(numbered)
            &&& t.next_link_seq == next_number(s.next_link_seq)
        }),
{
    let numbered = crate::ipcz::wire::MessageHeader { node_sequence_number: s.next_link_seq, ..h };
    crate::ipcz::wire::law_sequence_number_is_header_field(h, body, s.next_link_seq);
    crate::ipcz::wire::law_message_header_round_trip(numbered, body);
}

/// Kept parcels change nothing about the links of the routes and whom sublinks
/// belong to; once all are delivered to a portal, they are at the end of its
/// queue, in order.
proof fn lemma_kept_parcels(
    s: AcceptorView,
    sublink: u64,
    queue: Seq<(u64, IncomingView)>,
    key: u64,
    i: u64,
)
    requires
        owner(s, sublink) == Some(key),
        s.routers.contains_key(i),
    ensures
        ({
            let (t, r) = delivered_all(s, sublink, queue);
            &&& t.routers.contains_key(i)
            &&& t.routers[i].primary == s.routers[i].primary
            &&& t.routers[i].outbound_seq == s.routers[i].outbound_seq
            &&& t.early == s.early
            &&& owner(t, sublink) == Some(key)
            &&& r is Ok && s.routers[key].portal is Some ==> t.routers[key].portal == Some(
                s.routers[key].portal->Some_0 + messages_in(queue),
            )
        }),
    decreases queue.len(),
{
    if queue.len() > 0 {
        let (n, m) = queue[0];
        let (t, r) = delivered(s, sublink, n, m);
        lemma_owner_stays(s, sublink, n, m, sublink);
        if r is Ok {
            lemma_kept_parcels(t, sublink, queue.skip(1), key, i);
            if s.routers[key].portal is Some {
                let portal = s.routers[key].portal->Some_0;
                assert(portal.push(m) + messages_in(queue.skip(1)) =~= portal + messages_in(queue));
            }
        }
    } else if s.routers[key].portal is Some {
        assert(s.routers[key].portal->Some_0 + messages_in(queue)
            =~= s.routers[key].portal->Some_0);
    }
}

/// The messages of kept parcels.
pub open spec fn messages_in(queue: Seq<(u64, IncomingView)>) -> Seq<IncomingView> {
    queue.map_values(|x: (u64, IncomingView)| x.1)
}

/// Parcels that are kept for a sublink are all delivered when it is adopted, in
/// the order in which they came, where their numbers go on from those that the
/// route has taken.
pub proof fn law_kept_parcels_are_delivered(s: AcceptorView, sublink: u64, key: u64)
    requires
        owner(s, sublink) == Some(key),
        s.routers[key].portal is Some,
        s.routers[key].decaying is None,
        s.early.contains_key(sublink),
        s.routers[key].inbound_seq + s.early[sublink].len() <= u64::MAX,
        forall|i: int|
            0 <= i < s.early[sublink].len() ==> (#[trigger] s.early[sublink][i]).0
                == s.routers[key].inbound_seq + i,
    ensures
        ({
            let (t, r) = early_taken(s, sublink);
            &&& r is Ok
            &&& !t.early.contains_key(sublink)
            &&& t.routers[key].portal == Some(
                s.routers[key].portal->Some_0 + messages_in(s.early[sublink]),
            )
        }),
{
    let rest = AcceptorView { early: s.early.remove(sublink), ..s };
    assert(owner(rest, sublink) == Some(key));
    lemma_kept_parcels_pass(rest, sublink, s.early[sublink], key);
    lemma_kept_parcels(rest, sublink, s.early[sublink], key, key);
}

proof fn lemma_kept_parcels_pass(
    s: AcceptorView,
    sublink: u64,
    queue: Seq<(u64, IncomingView)>,
    key: u64,
)
    requires
        owner(s, sublink) == Some(key),
        s.routers[key].decaying is None,
        s.routers[key].inbound_seq + queue.len() <= u64::MAX,
        forall|i: int|
            0 <= i < queue.len() ==> (#[trigger] queue[i]).0 == s.routers[key].inbound_seq + i,
    ensures
        delivered_all(s, sublink, queue).1 is Ok,
    decreases queue.len(),
{
    if queue.len() > 0 {
        let (n, m) = queue[0];
        let t = delivered(s, sublink, n, m).0;
        lemma_owner_stays(s, sublink, n, m, sublink);
        assert forall|i: int| 0 <= i < queue.skip(1).len() implies (#[trigger] queue.skip(1)[i]).0
            == t.routers[key].inbound_seq + i by {
            assert(queue.skip(1)[i] == queue[i + 1]);
        }
        lemma_kept_parcels_pass(t, sublink, queue.skip(1), key);
    }
}

/// A bypass that succeeds leaves the route on the new sublink: what is sent on
/// the route from then on goes there, numbered on from before; what comes in on
/// the new sublink belongs to the route; and what was kept for the new sublink
/// is at the end of the portal's queue.
pub proof fn law_bypass_moves_route(s: AcceptorView, b: BypassPeerWithLink)
    requires
        bypassed(s, b).1 is Ok,
    ensures
        ({
            let t = bypassed(s, b).0;
            &&& owner(s, b.sublink) matches Some(key)
            &&& owner(t, b.new_sublink) == Some(key)
            &&& t.routers[key].primary.sublink == b.new_sublink
            &&& t.routers[key].outbound_seq == s.routers[key].outbound_seq
            &&& !t.early.contains_key(b.new_sublink)
            &&& s.routers[key].portal is Some ==> t.routers[key].portal == Some(
                s.routers[key].portal->Some_0 + if s.early.contains_key(b.new_sublink) {
                    messages_in(s.early[b.new_sublink])
                } else {
                    Seq::empty()
                },
            )
        }),
{
    let key = owner(s, b.sublink)->Some_0;
    let moved = link_adopted(s, key, b);
    let settled = decay_settled(moved, key).0;
    assert(settled.routers.contains_key(key));
    assert(owner(settled, b.new_sublink) == Some(key));
    if settled.early.contains_key(b.new_sublink) {
        let rest = AcceptorView { early: settled.early.remove(b.new_sublink), ..settled };
        assert(owner(rest, b.new_sublink) == Some(key));
        lemma_kept_parcels(rest, b.new_sublink, settled.early[b.new_sublink], key, key);
    } else if s.routers[key].portal is Some {
        assert(s.routers[key].portal->Some_0 + Seq::<IncomingView>::empty()
            =~= s.routers[key].portal->Some_0);
    }
}

/// The two halves of a split parcel come to the same in either order: one
/// parcel with the inline data of the one and the objects of the other.
pub proof fn law_split_halves_meet(
    s: AcceptorView,
    p: AcceptParcelView,
    fds: Seq<i32>,
    q: AcceptParcelDriverObjectsView,
    more: Seq<i32>,
)
    requires
        parcel_accepted(s, p, fds).1 is Ok,
        claimed(p.handle_types, p.driver_objects, fds)->Ok_0.1,
        q.sublink == p.sublink,
        q.sequence_number == p.sequence_number,
        all_unwrapped(q.driver_objects, more) is Ok,
        all_unwrapped(q.driver_objects, more)->Ok_0.len() == placeholders(p.handle_types),
        !s.pending.contains_key((p.sublink, p.sequence_number)),
    ensures
        ({
            let whole = delivered(
                s,
                p.sublink,
                p.sequence_number,
                IncomingView {
                    payload: p.parcel_data,
                    fds: all_unwrapped(q.driver_objects, more)->Ok_0,
                },
            );
            &&& objects_accepted(parcel_accepted(s, p, fds).0, q, more) == whole
            &&& objects_accepted(s, q, more).1 is Ok
            &&& parcel_accepted(objects_accepted(s, q, more).0, p, fds) == whole
        }),
{
    let key = (p.sublink, p.sequence_number);
    let t = parcel_accepted(s, p, fds).0;
    assert(t.pending.remove(key) =~= s.pending);
    assert(AcceptorView { pending: t.pending.remove(key), ..t } =~= s);
    let u = objects_accepted(s, q, more).0;
    assert(u.pending.remove(key) =~= s.pending);
    assert(AcceptorView { pending: u.pending.remove(key), ..u } =~= s);
}

/// What the reply decodes to, once it is numbered.
proof fn lemma_reply_decodes(route: RouteView, fragment: FragmentDescriptor, number: u64)
    ensures
        decoded(overwrite(reply_message(route, fragment), 8, bytes64(number)), 1) == Ok::<
            DecodedView,
            WireError,
        >(
            DecodedView::AcceptParcel(
                AcceptParcelView {
                    sublink: route.primary.sublink,
                    sequence_number: route.outbound_seq,
                    subparcel_index: 0,
                    num_subparcels: 1,
                    parcel_fragment: fragment,
                    parcel_data: Seq::empty(),
                    handle_types: seq![1u32],
                    new_routers: Seq::empty(),
                    driver_objects: crate::ipcz::messages::single_fd_objects(
                        seq![wrapped_handle()],
                        0,
                    ),
                },
            ),
        ),
{
    let data = seq![wrapped_handle()];
    let types = seq![1u32];
    assert(wrapped_handle().len() == 16);
    crate::ipcz::messages::lemma_one_object_parcel_len(
        route.primary.sublink,
        route.outbound_seq,
        fragment,
        1,
        wrapped_handle(),
        number,
    );
    crate::ipcz::messages::law_accept_parcel_round_trip(
        route.primary.sublink,
        route.outbound_seq,
        fragment,
        Seq::empty(),
        types,
        data,
        number,
    );
    let body = crate::ipcz::messages::accept_parcel_body(
        route.primary.sublink,
        route.outbound_seq,
        fragment,
        Seq::empty(),
        types,
        1,
    );
    let at = 24 + body.len();
    crate::ipcz::wire::law_sequence_number_is_header_field(
        crate::ipcz::messages::header_with(MSG_ID_ACCEPT_PARCEL, 0, at as u32),
        body + crate::ipcz::messages::driver_object_part(data, at as int),
        number,
    );
}

/// The one handle of the reply claims the one descriptor.
proof fn lemma_reply_claims(fd: i32)
    ensures
        claimed(
            seq![1u32],
            crate::ipcz::messages::single_fd_objects(seq![wrapped_handle()], 0),
            seq![fd],
        ) == Ok::<(Seq<i32>, bool), Failure>((seq![fd], false)),
{
    let types = seq![1u32];
    let refs = crate::ipcz::messages::single_fd_objects(seq![wrapped_handle()], 0);
    law_wrapped_handle_round_trip(0, seq![fd]);
    assert(types.drop_last() =~= Seq::empty());
    reveal_with_fuel(claimed, 2);
    assert(refs[0] == DriverObjectView { data: wrapped_handle(), first_fd: 0, num_fds: 1 });
    assert(claimed(types, refs, seq![fd]) == Ok::<(Seq<i32>, bool), Failure>(
        (Seq::<i32>::empty().push(fd), false),
    ));
    assert(Seq::<i32>::empty().push(fd) =~= seq![fd]);
}

/// The broker reads back what the reply was made of: the last message sent is
/// a parcel on the route's current sublink, with the route's next number; its
/// fragment holds the reply text, and its one object stands for the descriptor
/// sent with it.
pub proof fn law_reply_reaches_broker(s: AcceptorView, content: Seq<u8>, fd: i32)
    requires
        s.memory matches Some(m) ==> memory_ok(m),
        replied(s, content).1 is Ok,
    ensures
        ({
            let t = replied(s, content).0;
            let route = s.routers[BOOTSTRAP_SUBLINK];
            &&& t.outbox.len() == s.outbox.len() + 1
            &&& t.outbox.last().file == Some(encode_utf8("fd-from-acceptor"@))
            &&& decoded(t.outbox.last().payload, 1) matches Ok(DecodedView::AcceptParcel(p))
            &&& p.sublink == route.primary.sublink
            &&& p.sequence_number == route.outbound_seq
            &&& parcel_data(t.memory, p) == Ok::<Seq<u8>, Failure>(
                encode_utf8("hello-from-acceptor"@),
            )
            &&& claimed(p.handle_types, p.driver_objects, seq![fd]) == Ok::<
                (Seq<i32>, bool),
                Failure,
            >((seq![fd], false))
        }),
{
    let m = s.memory->Some_0;
    let route = s.routers[BOOTSTRAP_SUBLINK];
    let text = encode_utf8("hello-from-acceptor"@);
    let (fragment, m2) = parcel_allocation(m, text)->Some_0;
    crate::ipcz::link_memory::law_parcel_fragment_round_trip(m, text);
    lemma_reply_decodes(route, fragment, s.next_link_seq);
    lemma_reply_claims(fd);
}

} // verus!
