//! The bytes of the messages that a routing node sends.

use vstd::prelude::*;

#[allow(unused_imports)]
use crate::bytes::{bytes32, bytes64, overwrite};
use crate::bytes::push_u32;
#[allow(unused_imports)]
use crate::ipcz::messages::{
    accept_parcel_body, accept_parcel_message, add_buffer_message, buffer_fields, bypass_fields,
    connect_reply_message, decoded, plain_parcel_len, shared_buffer_object, AddBlockBuffer,
    MSG_ID_ADD_BLOCK_BUFFER,
    driver_object_part, header_with, null_fragment, plain_message, single_fd_objects, two_words,
    AcceptParcelView, ConnectFromNonBrokerToBroker, DecodedView, DriverObjectView, MemoryRequest,
    RouteClosed, MSG_ID_ACCEPT_PARCEL, MSG_ID_BYPASS_PEER_WITH_LINK,
    MSG_ID_CONNECT_FROM_NON_BROKER_TO_BROKER, MSG_ID_FLUSH_ROUTER, MSG_ID_REQUEST_MEMORY,
    MSG_ID_ROUTE_CLOSED, MSG_ID_STOP_PROXYING_TO_LOCAL_PEER,
};
use crate::ipcz::messages::{
    encode_accept_parcel_fragment, encode_accept_parcel_inline, encode_add_block_buffer,
    encode_bypass_peer_with_link,
    encode_connect_from_non_broker_to_broker, encode_flush_router, encode_request_memory,
    encode_route_closed, encode_stop_proxying_to_local_peer, BypassPeerWithLink, FlushRouter,
    FragmentDescriptor, StopProxyingToLocalPeer,
};
use crate::ipcz::node::{LinkMessage, HANDLE_BOXED_DRIVER_OBJECT};
#[allow(unused_imports)]
use crate::ipcz::node::{LinkMessageView, RouterDescriptor};
use crate::ipcz::wire::{set_message_sequence_number, IPCZ_HEADER_SIZE};
#[allow(unused_imports)]
use crate::ipcz::wire::{byte_views, law_sequence_number_is_header_field, padded_block, WireError};

verus! {

/// The serialized transport that the shared memory service is offered: a header
/// of 8 bytes for type 0, then destination type 1 and four flags that are not
/// set.
pub open spec fn transport_object() -> Seq<u8> {
    bytes32(8) + bytes32(0) + bytes32(1) + bytes32(0)
}

fn encode_transport() -> (v: Vec<u8>)
    ensures
        v@ == transport_object(),
        v@.len() == 16,
{
    let mut v: Vec<u8> = Vec::new();
    push_u32(&mut v, 8);
    push_u32(&mut v, 0);
    push_u32(&mut v, 1);
    push_u32(&mut v, 0);
    assert(v@ =~= transport_object());
    v
}

/// Whether a message fits a frame, whose length is a 32-bit number.
pub open spec fn fits_frame(len: nat) -> bool {
    IPCZ_HEADER_SIZE + len <= u32::MAX
}

/// The bytes of a message with the sequence number `seq`. A parcel that carries
/// routers, or that fits no frame, has none, nor have the messages that name
/// another node.
pub open spec fn encoded(m: LinkMessageView, seq: u64) -> Option<Seq<u8>> {
    match m {
        LinkMessageView::ConnectReply(portals) => Some(connect_reply_message(portals, 0, seq)),
        LinkMessageView::SharedMemoryClient => Some(
            accept_parcel_message(
                0,
                0,
                null_fragment(),
                Seq::empty(),
                seq![HANDLE_BOXED_DRIVER_OBJECT],
                seq![transport_object()],
                seq,
            ),
        ),
        LinkMessageView::Parcel(sublink, number, fragment, data, routers) => if routers.len() > 0 {
            None
        } else {
            match fragment {
                Some(f) => Some(
                    accept_parcel_message(
                        sublink,
                        number,
                        f,
                        Seq::empty(),
                        Seq::empty(),
                        Seq::empty(),
                        seq,
                    ),
                ),
                None => {
                    let bytes = accept_parcel_message(
                        sublink,
                        number,
                        null_fragment(),
                        data,
                        Seq::empty(),
                        Seq::empty(),
                        seq,
                    );
                    if fits_frame(bytes.len()) {
                        Some(bytes)
                    } else {
                        None
                    }
                },
            }
        },
        LinkMessageView::RouteClosed(sublink, length) => Some(
            plain_message(MSG_ID_ROUTE_CLOSED, seq, two_words(sublink, length)),
        ),
        LinkMessageView::FlushRouter(sublink) => Some(
            plain_message(MSG_ID_FLUSH_ROUTER, seq, bytes64(sublink)),
        ),
        LinkMessageView::BypassPeerWithLink(sublink, new_sublink, state, length) => Some(
            plain_message(
                MSG_ID_BYPASS_PEER_WITH_LINK,
                seq,
                bypass_fields(sublink, new_sublink, state, length),
            ),
        ),
        LinkMessageView::StopProxyingToLocalPeer(sublink, length) => Some(
            plain_message(MSG_ID_STOP_PROXYING_TO_LOCAL_PEER, seq, two_words(sublink, length)),
        ),
        LinkMessageView::RequestMemory(size) => Some(
            plain_message(MSG_ID_REQUEST_MEMORY, seq, bytes32(size) + bytes32(0)),
        ),
        LinkMessageView::BypassPeer(_, _, _) => None,
        LinkMessageView::AcceptBypassLink(_, _, _, _, _) => None,
        LinkMessageView::AddBlockBuffer(buffer_id, block_size, size, _) => Some(
            add_buffer_message(buffer_id, block_size, 0, size, seq),
        ),
    }
}

fn numbered(payload: Vec<u8>, seq: u64) -> (out: Vec<u8>)
    requires
        payload@.len() >= 24,
    ensures
        out@ == overwrite(payload@, 8, bytes64(seq)),
{
    let mut out: Vec<u8> = payload;
    set_message_sequence_number(&mut out, seq);
    out
}

pub(crate) proof fn lemma_plain_numbered(id: u8, fields: Seq<u8>, seq: u64)
    ensures
        plain_message(id, 0, fields).len() >= 24,
        overwrite(plain_message(id, 0, fields), 8, bytes64(seq)) == plain_message(id, seq, fields),
{
    crate::ipcz::messages::lemma_plain_message_len(id, 0, fields);
    law_sequence_number_is_header_field(header_with(id, 0, 0), padded_block(0, fields), seq);
}

proof fn lemma_parcel_numbered(
    sublink: u64,
    number: u64,
    fragment: FragmentDescriptor,
    data: Seq<u8>,
    types: Seq<u32>,
    objects: Seq<Seq<u8>>,
    seq: u64,
)
    ensures
        overwrite(
            accept_parcel_message(sublink, number, fragment, data, types, objects, 0),
            8,
            bytes64(seq),
        ) == accept_parcel_message(sublink, number, fragment, data, types, objects, seq),
{
    let body = accept_parcel_body(
        sublink,
        number,
        fragment,
        data,
        types,
        objects.len() as u32,
    );
    let at = 24 + body.len();
    let doa = if objects.len() == 0 {
        0
    } else {
        at as u32
    };
    law_sequence_number_is_header_field(
        header_with(MSG_ID_ACCEPT_PARCEL, 0, doa),
        body + driver_object_part(objects, at as int),
        seq,
    );
}

fn parcel_fits_frame(len: usize) -> (r: bool)
    ensures
        r == fits_frame(plain_parcel_len(len as nat)),
{
    if len == 0 {
        return true;
    }
    if len as u64 > 0xffff_ffff {
        return false;
    }
    let block: u64 = (len as u64 + 15) / 8 * 8;
    IPCZ_HEADER_SIZE as u64 + 96 + block <= 0xffff_ffff
}

fn encode_parcel(
    sublink: u64,
    number: u64,
    fragment: Option<FragmentDescriptor>,
    data: &Vec<u8>,
    seq: u64,
) -> (out: Option<Vec<u8>>)
    ensures
        match out {
            Some(v) => encoded(
                LinkMessageView::Parcel(sublink, number, fragment, data@, Seq::empty()),
                seq,
            ) == Some(v@),
            None => encoded(
                LinkMessageView::Parcel(sublink, number, fragment, data@, Seq::empty()),
                seq,
            ) is None,
        },
{
    let types: Vec<u32> = Vec::new();
    let objects: Vec<Vec<u8>> = Vec::new();
    assert(types@ =~= Seq::<u32>::empty());
    assert(byte_views(objects@) =~= Seq::<Seq<u8>>::empty());
    match fragment {
        Some(f) => {
            proof {
                crate::ipcz::messages::lemma_plain_parcel_len(sublink, number, f, Seq::empty(), 0);
                lemma_parcel_numbered(
                    sublink,
                    number,
                    f,
                    Seq::empty(),
                    Seq::empty(),
                    Seq::empty(),
                    seq,
                );
            }
            let payload = encode_accept_parcel_fragment(
                sublink,
                number,
                f,
                types.as_slice(),
                objects.as_slice(),
            );
            Some(numbered(payload, seq))
        },
        None => {
            proof {
                crate::ipcz::messages::lemma_plain_parcel_len(
                    sublink,
                    number,
                    null_fragment(),
                    data@,
                    seq,
                );
                crate::ipcz::messages::lemma_plain_parcel_len(
                    sublink,
                    number,
                    null_fragment(),
                    data@,
                    0,
                );
                lemma_parcel_numbered(
                    sublink,
                    number,
                    null_fragment(),
                    data@,
                    Seq::empty(),
                    Seq::empty(),
                    seq,
                );
            }
            if !parcel_fits_frame(data.len()) {
                return None;
            }
            let payload = encode_accept_parcel_inline(
                sublink,
                number,
                data.as_slice(),
                types.as_slice(),
                objects.as_slice(),
            );
            Some(numbered(payload, seq))
        },
    }
}

fn encode_client(seq: u64) -> (out: Vec<u8>)
    ensures
        encoded(LinkMessageView::SharedMemoryClient, seq) == Some(out@),
{
    let empty: Vec<u8> = Vec::new();
    let mut types: Vec<u32> = Vec::new();
    types.push(HANDLE_BOXED_DRIVER_OBJECT);
    let mut objects: Vec<Vec<u8>> = Vec::new();
    objects.push(encode_transport());
    assert(empty@ =~= Seq::<u8>::empty());
    assert(types@ =~= seq![HANDLE_BOXED_DRIVER_OBJECT]);
    assert(byte_views(objects@) =~= seq![transport_object()]);
    proof {
        crate::ipcz::messages::lemma_one_object_parcel_len(
            0,
            0,
            null_fragment(),
            HANDLE_BOXED_DRIVER_OBJECT,
            transport_object(),
            0,
        );
        lemma_parcel_numbered(
            0,
            0,
            null_fragment(),
            Seq::empty(),
            seq![HANDLE_BOXED_DRIVER_OBJECT],
            seq![transport_object()],
            seq,
        );
    }
    let payload = encode_accept_parcel_inline(
        0,
        0,
        empty.as_slice(),
        types.as_slice(),
        objects.as_slice(),
    );
    numbered(payload, seq)
}

/// The bytes of a message with the sequence number `seq`.
pub fn encode_link_message(m: &LinkMessage, seq: u64) -> (out: Option<Vec<u8>>)
    ensures
        match out {
            Some(v) => encoded(m@, seq) == Some(v@),
            None => encoded(m@, seq) is None,
        },
{
    match m {
        LinkMessage::ConnectReply { portals } => {
            let payload = encode_connect_from_non_broker_to_broker(*portals, 0);
            proof {
                let body = padded_block(0, bytes32(0) + bytes32(*portals) + bytes32(48))
                    + padded_block(1, bytes64(0));
                let h = header_with(MSG_ID_CONNECT_FROM_NON_BROKER_TO_BROKER, 0, 0);
                crate::ipcz::wire::lemma_message_body(h, body);
                law_sequence_number_is_header_field(h, body, seq);
            }
            Some(numbered(payload, seq))
        },
        LinkMessage::SharedMemoryClient => Some(encode_client(seq)),
        LinkMessage::Parcel { sublink, sequence_number, fragment, data, routers } => {
            if routers.len() > 0 {
                return None;
            }
            assert(routers@ =~= Seq::<RouterDescriptor>::empty());
            encode_parcel(*sublink, *sequence_number, *fragment, data, seq)
        },
        LinkMessage::RouteClosed { sublink, sequence_length } => {
            proof {
                lemma_plain_numbered(
                    MSG_ID_ROUTE_CLOSED,
                    two_words(*sublink, *sequence_length),
                    seq,
                );
            }
            Some(numbered(encode_route_closed(*sublink, *sequence_length), seq))
        },
        LinkMessage::FlushRouter { sublink } => {
            proof {
                lemma_plain_numbered(MSG_ID_FLUSH_ROUTER, bytes64(*sublink), seq);
            }
            Some(numbered(encode_flush_router(*sublink), seq))
        },
        LinkMessage::BypassPeerWithLink { sublink, new_sublink, link_state, sequence_length } => {
            proof {
                lemma_plain_numbered(
                    MSG_ID_BYPASS_PEER_WITH_LINK,
                    bypass_fields(*sublink, *new_sublink, *link_state, *sequence_length),
                    seq,
                );
            }
            Some(
                numbered(
                    encode_bypass_peer_with_link(
                        *sublink,
                        *new_sublink,
                        *link_state,
                        *sequence_length,
                    ),
                    seq,
                ),
            )
        },
        LinkMessage::StopProxyingToLocalPeer { sublink, sequence_length } => {
            proof {
                lemma_plain_numbered(
                    MSG_ID_STOP_PROXYING_TO_LOCAL_PEER,
                    two_words(*sublink, *sequence_length),
                    seq,
                );
            }
            Some(numbered(encode_stop_proxying_to_local_peer(*sublink, *sequence_length), seq))
        },
        LinkMessage::RequestMemory { size } => {
            proof {
                lemma_plain_numbered(MSG_ID_REQUEST_MEMORY, bytes32(*size) + bytes32(0), seq);
            }
            Some(numbered(encode_request_memory(*size), seq))
        },
        LinkMessage::BypassPeer { .. } => None,
        LinkMessage::AcceptBypassLink { .. } => None,
        LinkMessage::AddBlockBuffer { buffer_id, block_size, size, fd: _ } => {
            proof {
                let fields = buffer_fields(*buffer_id, *block_size, 0);
                let data = seq![shared_buffer_object(*size)];
                let body = padded_block(0, fields);
                let at = 24 + body.len();
                crate::ipcz::messages::lemma_add_buffer_len(*buffer_id, *block_size, 0, *size, 0);
                law_sequence_number_is_header_field(
                    header_with(MSG_ID_ADD_BLOCK_BUFFER, 0, at as u32),
                    body + driver_object_part(data, at as int),
                    seq,
                );
            }
            Some(numbered(encode_add_block_buffer(*buffer_id, *block_size, 0, *size), seq))
        },
    }
}

/// What a peer reads from the bytes of a message.
pub open spec fn as_received(m: LinkMessageView) -> DecodedView {
    match m {
        LinkMessageView::ConnectReply(num_initial_portals) =>
            DecodedView::ConnectFromNonBrokerToBroker(
            ConnectFromNonBrokerToBroker { protocol_version: 0, num_initial_portals },
        ),
        LinkMessageView::SharedMemoryClient => DecodedView::AcceptParcel(
            AcceptParcelView {
                sublink: 0,
                sequence_number: 0,
                subparcel_index: 0,
                num_subparcels: 1,
                parcel_fragment: null_fragment(),
                parcel_data: Seq::empty(),
                handle_types: seq![HANDLE_BOXED_DRIVER_OBJECT],
                new_routers: Seq::empty(),
                driver_objects: seq![
                    DriverObjectView { data: transport_object(), first_fd: 0, num_fds: 1 },
                ],
            },
        ),
        LinkMessageView::Parcel(sublink, sequence_number, fragment, data, _) =>
            DecodedView::AcceptParcel(
            AcceptParcelView {
                sublink,
                sequence_number,
                subparcel_index: 0,
                num_subparcels: 1,
                parcel_fragment: match fragment {
                    Some(f) => f,
                    None => null_fragment(),
                },
                parcel_data: match fragment {
                    Some(_) => Seq::empty(),
                    None => data,
                },
                handle_types: Seq::empty(),
                new_routers: Seq::empty(),
                driver_objects: Seq::empty(),
            },
        ),
        LinkMessageView::RouteClosed(sublink, sequence_length) => DecodedView::RouteClosed(
            RouteClosed { sublink, sequence_length },
        ),
        LinkMessageView::FlushRouter(sublink) => DecodedView::FlushRouter(FlushRouter { sublink }),
        LinkMessageView::BypassPeerWithLink(
            sublink,
            new_sublink,
            new_link_state_fragment,
            inbound_sequence_length,
        ) => DecodedView::BypassPeerWithLink(
            BypassPeerWithLink {
                sublink,
                new_sublink,
                new_link_state_fragment,
                inbound_sequence_length,
            },
        ),
        LinkMessageView::StopProxyingToLocalPeer(sublink, outbound_sequence_length) =>
            DecodedView::StopProxyingToLocalPeer(
            StopProxyingToLocalPeer { sublink, outbound_sequence_length },
        ),
        LinkMessageView::RequestMemory(size) => DecodedView::RequestMemory(MemoryRequest { size }),
        LinkMessageView::AddBlockBuffer(buffer_id, block_size, _, _) => DecodedView::AddBlockBuffer(
            AddBlockBuffer { buffer_id, block_size, buffer_index: 0 },
        ),
        _ => DecodedView::Unknown(0),
    }
}

/// The number of descriptors that go with a message.
pub open spec fn attached(m: LinkMessageView) -> nat {
    if m is SharedMemoryClient || m is AddBlockBuffer {
        1
    } else {
        0
    }
}

/// A peer decodes the bytes of a message to what was sent, whatever number it
/// was sent with.
pub proof fn law_peer_reads_what_was_sent(m: LinkMessageView, seq: u64)
    requires
        encoded(m, seq) is Some,
    ensures
        decoded(encoded(m, seq)->0, attached(m)) == Ok::<DecodedView, WireError>(as_received(m)),
{
    match m {
        LinkMessageView::ConnectReply(portals) => {
            crate::ipcz::messages::law_connect_reply_round_trip(portals, 0, seq);
        },
        LinkMessageView::SharedMemoryClient => {
            assert(transport_object().len() == 16);
            crate::ipcz::messages::lemma_one_object_parcel_len(
                0,
                0,
                null_fragment(),
                HANDLE_BOXED_DRIVER_OBJECT,
                transport_object(),
                seq,
            );
            crate::ipcz::messages::law_accept_parcel_round_trip(
                0,
                0,
                null_fragment(),
                Seq::empty(),
                seq![HANDLE_BOXED_DRIVER_OBJECT],
                seq![transport_object()],
                seq,
            );
            assert(single_fd_objects(seq![transport_object()], 0) =~= seq![
                DriverObjectView { data: transport_object(), first_fd: 0, num_fds: 1 },
            ]);
        },
        LinkMessageView::Parcel(sublink, number, fragment, data, _) => {
            let f = match fragment {
                Some(f) => f,
                None => null_fragment(),
            };
            let d = match fragment {
                Some(_) => Seq::empty(),
                None => data,
            };
            crate::ipcz::messages::lemma_plain_parcel_len(sublink, number, f, d, seq);
            crate::ipcz::messages::law_accept_parcel_round_trip(
                sublink,
                number,
                f,
                d,
                Seq::empty(),
                Seq::empty(),
                seq,
            );
            assert(single_fd_objects(Seq::empty(), 0) =~= Seq::<DriverObjectView>::empty());
        },
        LinkMessageView::RouteClosed(sublink, length) => {
            crate::ipcz::messages::law_route_closed_round_trip(sublink, length, seq);
        },
        LinkMessageView::FlushRouter(sublink) => {
            crate::ipcz::messages::law_flush_router_round_trip(sublink, seq);
        },
        LinkMessageView::BypassPeerWithLink(sublink, new_sublink, state, length) => {
            crate::ipcz::messages::law_bypass_peer_with_link_round_trip(
                sublink,
                new_sublink,
                state,
                length,
                seq,
            );
        },
        LinkMessageView::StopProxyingToLocalPeer(sublink, length) => {
            crate::ipcz::messages::law_stop_proxying_round_trip(sublink, length, seq);
        },
        LinkMessageView::RequestMemory(size) => {
            crate::ipcz::messages::law_request_memory_round_trip(size, seq);
        },
        LinkMessageView::AddBlockBuffer(buffer_id, block_size, size, _) => {
            crate::ipcz::messages::law_add_block_buffer_round_trip(
                buffer_id,
                block_size,
                0,
                size,
                seq,
            );
        },
        _ => {},
    }
}

} // verus!
