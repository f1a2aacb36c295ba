//! Framing and messages.

use mojo_rs::ipcz::messages::{
    decode_message, encode_accept_parcel_driver_objects, encode_accept_parcel_fragment,
    encode_accept_parcel_inline, encode_bypass_peer_with_link,
    encode_connect_from_non_broker_to_broker, encode_flush_router, encode_request_memory,
    encode_route_closed, encode_route_disconnected, encode_stop_proxying_to_local_peer,
    message_id_name, DecodedMessage, FragmentDescriptor, NodeName,
};
use mojo_rs::ipcz::wire::{
    encode_channel_header, encode_channel_message, parse_channel_message, parse_message_header,
    parse_stream, set_message_sequence_number, MessageBuilder, WireError,
};

#[test]
fn malformed_inputs_rejected() {
    assert_eq!(parse_channel_message(&[]), Err(WireError::ShortChannelHeader));
    assert_eq!(parse_channel_message(&[0; 8]), Err(WireError::ShortChannelHeader));
    // Unknown header size.
    let mut bad = vec![0u8; 32];
    bad[0] = 32;
    bad[1] = 0;
    assert!(matches!(
        parse_channel_message(&bad),
        Err(WireError::UnknownChannelHeaderSize(32))
    ));
    // Truncated: header says 100 bytes but only 20 present.
    let mut trunc = vec![0u8; 20];
    trunc[0] = 16;
    trunc[1] = 0;
    trunc[4] = 100;
    trunc[5] = 0;
    trunc[6] = 0;
    trunc[7] = 0;
    assert_eq!(parse_channel_message(&trunc), Err(WireError::TruncatedMessage));
    // Bad total size smaller than the header.
    let mut badsize = vec![0u8; 32];
    badsize[0] = 16;
    badsize[1] = 0;
    badsize[4] = 8;
    assert!(matches!(
        parse_channel_message(&badsize),
        Err(WireError::BadChannelMessageSize(8))
    ));
    // Short ipcz payload.
    assert_eq!(parse_message_header(&[0u8; 10]), Err(WireError::ShortMessageHeader));
}

#[test]
fn truncated_params_rejected() {
    let mut payload = vec![0u8; 24 + 8 + 4];
    payload[0] = 24; // message header size
    payload[1] = 0; // version
    payload[2] = 0; // ConnectFromBrokerToNonBroker
    payload[24] = 64; // params StructHeader size (more than present)
    assert!(decode_message(&payload, 0).is_err());
}

#[test]
fn framed_messages_are_parsed() {
    let mut stream = encode_channel_message(b"first", 1);
    stream.extend_from_slice(&encode_channel_message(b"", 0));
    assert_eq!(stream.len(), 16 + 5 + 16);
    let messages = parse_stream(&stream).unwrap();
    assert_eq!(messages.len(), 2);
    assert_eq!(messages[0].payload, b"first");
    assert_eq!(messages[0].num_handles, 1);
    assert!(messages[1].payload.is_empty());
    assert_eq!(encode_channel_header(5, 1)[..], stream[..16]);
    stream.pop();
    assert_eq!(parse_stream(&stream), Err(WireError::ShortChannelHeader));
}

#[test]
fn header_fields_are_read() {
    let mut m = encode_route_closed(13, 1);
    set_message_sequence_number(&mut m, 0x0102);
    let h = parse_message_header(&m).unwrap();
    assert_eq!(h.size, 24);
    assert_eq!(h.version, 0);
    assert_eq!(h.message_id, 22);
    assert_eq!(h.node_sequence_number, 0x0102);
    assert_eq!(h.driver_object_data_array, 0);
    m[0] = 25;
    assert_eq!(parse_message_header(&m), Err(WireError::UnknownMessageHeaderSize(25)));
}

#[test]
fn route_closed_has_its_layout() {
    let m = encode_route_closed(13, 1);
    let mut want = vec![24u8, 0, 22];
    want.resize(24, 0);
    want.extend_from_slice(&24u32.to_le_bytes());
    want.extend_from_slice(&0u32.to_le_bytes());
    want.extend_from_slice(&13u64.to_le_bytes());
    want.extend_from_slice(&1u64.to_le_bytes());
    assert_eq!(m, want);
}

#[test]
fn connect_reply_is_64_bytes() {
    let m = encode_connect_from_non_broker_to_broker(8, 0);
    assert_eq!(m.len(), 64);
    match decode_message(&m, 0).unwrap() {
        DecodedMessage::ConnectFromNonBrokerToBroker(c) => {
            assert_eq!(c.protocol_version, 0);
            assert_eq!(c.num_initial_portals, 8);
        }
        other => panic!("{other:?}"),
    }
}

#[test]
fn small_messages_round_trip() {
    match decode_message(&encode_route_closed(13, 1), 0).unwrap() {
        DecodedMessage::RouteClosed(x) => assert_eq!((x.sublink, x.sequence_length), (13, 1)),
        other => panic!("{other:?}"),
    }
    match decode_message(&encode_route_disconnected(4), 0).unwrap() {
        DecodedMessage::RouteDisconnected(x) => assert_eq!(x.sublink, 4),
        other => panic!("{other:?}"),
    }
    match decode_message(&encode_flush_router(12), 0).unwrap() {
        DecodedMessage::FlushRouter(x) => assert_eq!(x.sublink, 12),
        other => panic!("{other:?}"),
    }
    match decode_message(&encode_stop_proxying_to_local_peer(12, 7), 0).unwrap() {
        DecodedMessage::StopProxyingToLocalPeer(x) => {
            assert_eq!((x.sublink, x.outbound_sequence_length), (12, 7));
        }
        other => panic!("{other:?}"),
    }
    match decode_message(&encode_request_memory(65536), 0).unwrap() {
        DecodedMessage::RequestMemory(x) => assert_eq!(x.size, 65536),
        other => panic!("{other:?}"),
    }
    let state = FragmentDescriptor { buffer_id: 0, offset: 1088, size: 64 };
    match decode_message(&encode_bypass_peer_with_link(1, 12, state, 3), 0).unwrap() {
        DecodedMessage::BypassPeerWithLink(x) => {
            assert_eq!((x.sublink, x.new_sublink), (1, 12));
            assert_eq!(x.new_link_state_fragment, state);
            assert_eq!(x.inbound_sequence_length, 3);
        }
        other => panic!("{other:?}"),
    }
}

#[test]
fn inline_parcel_round_trips() {
    let object = vec![8u8, 0, 0, 0, 4, 0, 0, 0, 8, 0, 0, 0, 0, 0, 0, 0];
    let m = encode_accept_parcel_inline(1, 0, b"hello-from-broker", &[1], &[object.clone()]);
    match decode_message(&m, 1).unwrap() {
        DecodedMessage::AcceptParcel(p) => {
            assert_eq!(p.sublink, 1);
            assert_eq!(p.sequence_number, 0);
            assert_eq!(p.num_subparcels, 1);
            assert!(p.parcel_fragment.is_null());
            assert_eq!(&p.parcel_data, b"hello-from-broker");
            assert_eq!(p.handle_types, vec![1]);
            assert!(p.new_routers.is_empty());
            assert_eq!(p.driver_objects.len(), 1);
            assert_eq!(p.driver_objects[0].data, object);
            assert_eq!(p.driver_objects[0].first_fd, 0);
            assert_eq!(p.driver_objects[0].num_fds, 1);
        }
        other => panic!("{other:?}"),
    }
    // A message must come with the descriptors that it claims.
    assert!(decode_message(&m, 0).is_err());
    assert!(decode_message(&m, 2).is_err());
}

#[test]
fn fragment_parcel_round_trips() {
    let f = FragmentDescriptor { buffer_id: 0, offset: 1088, size: 64 };
    let m = encode_accept_parcel_fragment(13, 2, f, &[], &[]);
    match decode_message(&m, 0).unwrap() {
        DecodedMessage::AcceptParcel(p) => {
            assert_eq!((p.sublink, p.sequence_number), (13, 2));
            assert_eq!(p.parcel_fragment, f);
            assert!(p.parcel_data.is_empty());
        }
        other => panic!("{other:?}"),
    }
}

#[test]
fn split_objects_round_trip() {
    let m = encode_accept_parcel_driver_objects(5, 6, &[vec![1, 2, 3], vec![4]]);
    match decode_message(&m, 2).unwrap() {
        DecodedMessage::AcceptParcelDriverObjects(p) => {
            assert_eq!((p.sublink, p.sequence_number), (5, 6));
            assert_eq!(p.driver_objects[0].data, vec![1, 2, 3]);
            assert_eq!(p.driver_objects[1].data, vec![4]);
            assert_eq!(p.driver_objects[1].first_fd, 1);
        }
        other => panic!("{other:?}"),
    }
}

#[test]
fn unknown_message_is_named_by_its_id() {
    let mut m = encode_flush_router(1);
    m[2] = 99;
    match decode_message(&m, 0).unwrap() {
        DecodedMessage::Unknown(id) => assert_eq!(id, 99),
        other => panic!("{other:?}"),
    }
    assert_eq!(message_id_name(64), "RequestMemory");
}

#[test]
fn builder_aligns_its_arrays() {
    let mut b = MessageBuilder::new(22);
    b.append_params(&[1, 2, 3]);
    assert_eq!(b.payload_len(), 24 + 16);
    assert_eq!(b.append_array(&[9], 1), 40);
    assert_eq!(b.payload_len(), 56);
    assert!(!b.has_driver_objects());
    let m = b.build();
    assert_eq!(m.len(), 56);
    assert_eq!(m[32..35], [1, 2, 3]);
    assert_eq!(m[48], 9);
}

#[test]
fn names_and_fragments_know_their_empty_values() {
    assert!(!NodeName::invalid().is_valid());
    assert!(NodeName { high: 0, low: 1 }.is_valid());
    assert!(FragmentDescriptor::default().is_null());
    assert_eq!(WireError::BadChannelMessageSize(8).text(), "bad channel message size 8");
    assert_eq!(WireError::BadParcelData.text(), "parcel data neither inline nor fragment");
}

#[test]
fn one_handle_is_attached_per_driver_object() {
    for n in [0usize, 1, 3, 300] {
        let mut b = MessageBuilder::new(20);
        b.append_params(&[1, 2, 3]);
        b.append_driver_objects(&vec![vec![9, 8, 7]; n]);
        assert_eq!(b.num_attached_handles(), n as u16);
        assert_eq!(b.has_driver_objects(), n > 0);
    }
}
