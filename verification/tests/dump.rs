//! Readable text of captures.

use mojo_rs::ipcz::dump::{describe, dump_descriptors, dump_message, dump_stream, nn, ShownMessage};
use mojo_rs::ipcz::messages::{
    encode_accept_parcel_inline, encode_route_closed, DecodedMessage, FragmentDescriptor, NodeName,
};
use mojo_rs::ipcz::node::RouterDescriptor;
use mojo_rs::ipcz::wire::{encode_channel_message, ChannelMessage, WireError};

#[test]
fn node_names_have_32_digits() {
    let n = NodeName { high: 0xab, low: 0x1234_5678_9abc_def0 };
    assert_eq!(nn(&n), "00000000000000ab123456789abcdef0");
    assert_eq!(nn(&NodeName { high: 0, low: 0 }), "invalid");
}

#[test]
fn captures_are_dumped_line_by_line() {
    let mut stream = encode_channel_message(&encode_route_closed(13, 1), 0);
    stream.extend_from_slice(&encode_channel_message(b"short", 0));
    let lines = dump_stream(&stream).unwrap();
    assert_eq!(
        lines,
        vec![
            "[0] seq=0 id=22 (RouteClosed) handles=0 sub=13 len=1".to_string(),
            "[1] header error: short ipcz message header".to_string(),
        ]
    );
    assert_eq!(dump_stream(&stream[..3]), Err(WireError::ShortChannelHeader));
}

#[test]
fn parcels_show_their_data() {
    // Two bytes that are no text, a quotation mark and a letter.
    let payload = encode_accept_parcel_inline(1, 2, &[0xff, b'"', b'x'], &[1], &[vec![7]]);
    let m = ChannelMessage { num_handles: 1, payload };
    assert_eq!(
        dump_message(4, &m, &vec![]),
        "[4] seq=0 id=20 (AcceptParcel) handles=1 sub=1 rseq=2 subparcel=0/1 \
         frag=FragmentDescriptor { buffer_id: 18446744073709551615, offset: 0, size: 0 } \
         data=\"\u{fffd}\\\"x\" handle_types=[1] new_routers=[none] \
         driver_objects=[DriverObjectRef { data: [7], first_fd: 0, num_fds: 1 }]"
    );
    let m = ChannelMessage { num_handles: 0, payload: m.payload };
    assert_eq!(
        dump_message(5, &m, &vec![]),
        "[5] seq=0 id=20 (AcceptParcel) handles=0 decode error: malformed driver objects"
    );
}

#[test]
fn descriptors_are_listed() {
    let d = RouterDescriptor { new_sublink: 12, new_decaying_sublink: 13, ..Default::default() };
    let text = "{new=12 decaying=13 next_o=0 next_i=0 din=0 peer_closed=false pab=false \
                proxy_node=invalid proxy_sub=0}";
    assert_eq!(dump_descriptors(&[], &vec![]), "none");
    assert_eq!(dump_descriptors(&[0; 96], &vec![Ok(d)]), text);
    assert_eq!(
        dump_descriptors(&[0; 200], &vec![Ok(d), Err(WireError::BadArray)]),
        format!("{text}, <decode err {}>, <truncated>", WireError::BadArray.text())
    );
}

#[test]
fn other_messages_are_described() {
    let none = vec![];
    let name = NodeName { high: 0, low: 1 };
    let m = ShownMessage::BypassPeer { sublink: 1, target_node: name, target_sublink: 9 };
    assert_eq!(
        describe(&m, &none, ""),
        "sub=1 target_node=00000000000000000000000000000001 target_sublink=9"
    );
    let m = ShownMessage::StopProxying {
        sublink: 1,
        inbound_sequence_length: 2,
        outbound_sequence_length: 3,
    };
    assert_eq!(describe(&m, &none, ""), "sub=1 in_len=2 out_len=3");
    let m = ShownMessage::ProxyWillStop { sublink: 1, inbound_sequence_length: 2 };
    assert_eq!(describe(&m, &none, ""), "sub=1 inbound_len=2");
    let m = ShownMessage::AcceptBypassLink {
        current_peer_node: name,
        current_peer_sublink: 4,
        inbound_sequence_length: 5,
        new_sublink: 6,
        link_state: FragmentDescriptor { buffer_id: 0, offset: 1088, size: 64 },
    };
    assert_eq!(
        describe(&m, &none, ""),
        "current_peer_node=00000000000000000000000000000001 current_peer_sublink=4 inbound_len=5 \
         new_sublink=6 frag=FragmentDescriptor { buffer_id: 0, offset: 1088, size: 64 }"
    );
    let m = ShownMessage::Decoded(DecodedMessage::Unknown(30));
    assert_eq!(describe(&m, &none, ""), "unknown id=30");
}
