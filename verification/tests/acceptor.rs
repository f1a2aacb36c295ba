//! The acceptor of the bootstrap exchange.

use mojo_rs::ipcz::acceptor::{
    check_greeting, parse_shared_buffer_driver_object, parse_shared_buffer_object,
    unwrap_wrapped_platform_handle, wrapped_platform_handle_encoding, Acceptor, AcceptorError,
    ExchangeAction, ExchangeEvent, RunOutcome,
};
use mojo_rs::ipcz::channel::IncomingMessage;
use mojo_rs::ipcz::link_memory::{
    BLOCK_ALLOCATOR_64_BLOCKS, BLOCK_ALLOCATOR_64_OFFSET, PRIMARY_BUFFER_SIZE,
};
use mojo_rs::ipcz::messages::{
    decode_message, encode_accept_parcel_driver_objects, encode_accept_parcel_fragment,
    encode_accept_parcel_inline,
    encode_bypass_peer_with_link, encode_flush_router, encode_request_memory, DecodedMessage,
    DriverObjectRef, FragmentDescriptor,
};
use mojo_rs::ipcz::wire::{parse_message_header, MessageBuilder};

fn buffer_object(size: u32) -> Vec<u8> {
    let mut obj = Vec::new();
    for word in [8u32, 1, 32, size, 2, 0] {
        obj.extend_from_slice(&word.to_le_bytes());
    }
    obj.extend_from_slice(&7u64.to_le_bytes());
    obj.extend_from_slice(&9u64.to_le_bytes());
    obj
}

fn greeting(portals: u32, size: u32) -> Vec<u8> {
    let mut b = MessageBuilder::new(0);
    let mut fields = Vec::new();
    for word in [1u64, 2, 3, 4] {
        fields.extend_from_slice(&word.to_le_bytes());
    }
    for word in [0u32, portals, 0, 0] {
        fields.extend_from_slice(&word.to_le_bytes());
    }
    b.append_params(&fields);
    b.append_driver_objects(&[buffer_object(size)]);
    b.build()
}

fn memory() -> Vec<u8> {
    let mut map = vec![0u8; PRIMARY_BUFFER_SIZE];
    map[0..8].copy_from_slice(&1u64.to_le_bytes());
    map[8..16].copy_from_slice(&12u64.to_le_bytes());
    let last = BLOCK_ALLOCATOR_64_OFFSET + (BLOCK_ALLOCATOR_64_BLOCKS - 1) * 64;
    let rel = -(BLOCK_ALLOCATOR_64_BLOCKS as i16);
    map[last + 2..last + 4].copy_from_slice(&rel.to_le_bytes());
    map
}

fn connected() -> Acceptor {
    let mut a = Acceptor::new();
    a.start();
    let portals = check_greeting(&greeting(2, PRIMARY_BUFFER_SIZE as u32), 1).unwrap();
    a.connect(portals, memory());
    a
}

fn hello(sublink: u64, number: u64) -> Vec<u8> {
    let handle = wrapped_platform_handle_encoding();
    encode_accept_parcel_inline(sublink, number, b"hello-from-broker", &[1], &[handle])
}

#[test]
fn wrapped_handle_encoding_is_stable() {
    let enc = wrapped_platform_handle_encoding();
    assert_eq!(enc, vec![8, 0, 0, 0, 4, 0, 0, 0, 8, 0, 0, 0, 0, 0, 0, 0]);
}

#[test]
fn shared_buffer_of_a_greeting_is_read() {
    let info =
        parse_shared_buffer_driver_object(&greeting(2, PRIMARY_BUFFER_SIZE as u32)).unwrap();
    assert_eq!(info.buffer_size, PRIMARY_BUFFER_SIZE as u32);
    assert_eq!(info.mode, 2);
    assert_eq!((info.guid_low, info.guid_high), (7, 9));
    assert!(matches!(
        parse_shared_buffer_object(&[0; 4]),
        Err(AcceptorError::Unexpected("truncated driver object"))
    ));
    assert!(matches!(
        parse_shared_buffer_object(&[0; 40]),
        Err(AcceptorError::Unexpected("Connect buffer is not a SharedBuffer"))
    ));
}

#[test]
fn wrapped_handles_are_unwrapped() {
    let obj = DriverObjectRef {
        data: wrapped_platform_handle_encoding(),
        first_fd: 1,
        num_fds: 1,
    };
    assert!(matches!(unwrap_wrapped_platform_handle(&obj, &vec![4, 5]), Ok(5)));
    assert!(matches!(
        unwrap_wrapped_platform_handle(&obj, &vec![4]),
        Err(AcceptorError::BadParcel("driver object fd out of range"))
    ));
}

#[test]
fn greetings_are_checked() {
    assert!(matches!(
        check_greeting(&greeting(13, PRIMARY_BUFFER_SIZE as u32), 1),
        Err(AcceptorError::BadParcel("excessive initial portals"))
    ));
    assert!(matches!(
        check_greeting(&greeting(2, 4096), 1),
        Err(AcceptorError::Unexpected("link memory buffer has unexpected size"))
    ));
    assert!(matches!(
        check_greeting(&encode_flush_router(1), 0),
        Err(AcceptorError::Unexpected("first message was not ConnectFromBrokerToNonBroker"))
    ));
}

#[test]
fn whole_exchange_succeeds() {
    let mut a = connected();
    assert_eq!(a.exchange(ExchangeEvent::Start).unwrap(), ExchangeAction::Wait(30));
    assert_eq!(a.exchange(ExchangeEvent::Ready(true)).unwrap(), ExchangeAction::Receive);
    let m = IncomingMessage { payload: hello(1, 0), fds: vec![21] };
    assert_eq!(a.exchange(ExchangeEvent::Message(m, vec![])).unwrap(), ExchangeAction::Receive);
    // The broker bypasses the route before the reply goes out.
    let state = FragmentDescriptor { buffer_id: 0, offset: 1088, size: 64 };
    let bypass = encode_bypass_peer_with_link(1, 13, state, 1);
    let m = IncomingMessage { payload: bypass, fds: vec![] };
    a.exchange(ExchangeEvent::Message(m, vec![])).unwrap();
    assert_eq!(
        a.exchange(ExchangeEvent::WouldBlock).unwrap(),
        ExchangeAction::ReadDescriptor(21)
    );
    assert_eq!(
        a.exchange(ExchangeEvent::Content(b"fd-from-broker".to_vec())).unwrap(),
        ExchangeAction::Done(RunOutcome::Success)
    );
    let reply = a.outbox.iter().find(|m| m.file.is_some()).unwrap();
    assert_eq!(reply.file.as_deref(), Some(&b"fd-from-acceptor"[..]));
    match decode_message(&reply.payload, 1).unwrap() {
        DecodedMessage::AcceptParcel(p) => {
            assert_eq!(p.sublink, 13);
            assert_eq!(p.parcel_fragment.size, 64);
        }
        other => panic!("{other:?}"),
    }
    let ops: Vec<u64> = a.events().iter().map(|e| e.op_id).collect();
    assert_eq!(ops, vec![0, 1, 2, 3, 4, 5]);
    assert_eq!(a.events()[3].note.as_deref(), Some("fd_hex:66642d66726f6d2d62726f6b6572"));
    // The messages after the reply to the greeting are numbered from zero.
    let numbers: Vec<u64> = a.outbox[1..]
        .iter()
        .map(|m| parse_message_header(&m.payload).unwrap().node_sequence_number)
        .collect();
    let want: Vec<u64> = (0..numbers.len() as u64).collect();
    assert_eq!(numbers, want);
}

#[test]
fn exchange_ends_early() {
    let mut a = connected();
    assert_eq!(
        a.exchange(ExchangeEvent::PeerClosed).unwrap(),
        ExchangeAction::Done(RunOutcome::PeerClosed)
    );
    let mut a = connected();
    assert!(matches!(
        a.exchange(ExchangeEvent::Ready(false)),
        Err(AcceptorError::ExchangeTimedOut)
    ));
}

#[test]
fn parcels_must_be_in_sequence() {
    let mut a = connected();
    let r = a.dispatch(&hello(1, 1), &vec![3], vec![]);
    assert!(r.is_err());
    assert!(a.dispatch(&hello(1, 0), &vec![3], vec![]).is_ok());
    assert!(a.dispatch(&hello(1, 0), &vec![3], vec![]).is_err());
}

fn objects_half(n: u64) -> Vec<u8> {
    encode_accept_parcel_driver_objects(1, n, &[wrapped_platform_handle_encoding()])
}

#[test]
fn split_halves_meet() {
    let mut a = connected();
    let data = encode_accept_parcel_inline(1, 0, b"hello-from-broker", &[2], &[]);
    a.dispatch(&data, &vec![], vec![]).unwrap();
    a.dispatch(&objects_half(0), &vec![33], vec![]).unwrap();
    assert!(matches!(a.take_bootstrap_message(), Ok(33)));
}

#[test]
fn split_halves_meet_with_the_objects_first() {
    let mut a = connected();
    let data = encode_accept_parcel_inline(1, 0, b"hello-from-broker", &[2], &[]);
    a.dispatch(&objects_half(0), &vec![33], vec![]).unwrap();
    a.dispatch(&data, &vec![], vec![]).unwrap();
    assert!(matches!(a.take_bootstrap_message(), Ok(33)));
    assert!(a.pending_split.entries.is_empty());
}

#[test]
fn split_parcel_has_inline_data_and_relayed_objects() {
    let mut a = connected();
    let memory = a.link_memory.as_mut().unwrap();
    let fragment = memory.write_parcel_fragment(b"in memory").unwrap();
    let own = wrapped_platform_handle_encoding();
    let data = encode_accept_parcel_fragment(1, 0, fragment, &[2, 1], &[own]);
    a.dispatch(&data, &vec![7], vec![]).unwrap();
    a.dispatch(&objects_half(0), &vec![8], vec![]).unwrap();
    let router = a.routers.get_mut(&1).unwrap();
    let m = router.portal.as_mut().unwrap().pop().unwrap();
    assert!(m.payload.is_empty());
    assert_eq!(m.fds, vec![8]);
}

#[test]
fn split_halves_must_fit() {
    let mut a = connected();
    let data = encode_accept_parcel_inline(1, 0, b"x", &[2, 2], &[]);
    a.dispatch(&objects_half(0), &vec![33], vec![]).unwrap();
    assert!(matches!(
        a.dispatch(&objects_half(0), &vec![34], vec![]),
        Err(AcceptorError::BadParcel("duplicate split parcel objects"))
    ));
    a.dispatch(&objects_half(0), &vec![33], vec![]).unwrap();
    assert!(matches!(
        a.dispatch(&data, &vec![], vec![]),
        Err(AcceptorError::BadParcel("split parcel object count mismatch"))
    ));
}

#[test]
fn parcels_on_an_adopted_sublink_reach_the_portal() {
    let mut a = connected();
    // Two parcels come before their sublink is adopted.
    for n in [1, 2] {
        let early = encode_accept_parcel_inline(13, n, &[n as u8], &[], &[]);
        a.dispatch(&early, &vec![], vec![]).unwrap();
    }
    let first = encode_accept_parcel_inline(1, 0, &[0], &[], &[]);
    a.dispatch(&first, &vec![], vec![]).unwrap();
    let state = FragmentDescriptor { buffer_id: 0, offset: 1088, size: 64 };
    a.dispatch(&encode_bypass_peer_with_link(1, 13, state, 1), &vec![], vec![]).unwrap();
    let late = encode_accept_parcel_inline(13, 3, &[3], &[], &[]);
    a.dispatch(&late, &vec![], vec![]).unwrap();
    let portal = a.routers.get_mut(&1).unwrap().portal.as_mut().unwrap();
    for n in 0..4 {
        assert_eq!(portal.pop().unwrap().payload, vec![n]);
    }
    assert!(a.early_parcels.is_empty());
    // The route can move on from the adopted sublink.
    let state = FragmentDescriptor { buffer_id: 0, offset: 1152, size: 64 };
    a.dispatch(&encode_bypass_peer_with_link(13, 15, state, 3), &vec![], vec![]).unwrap();
    assert_eq!(a.routers.get(&1).unwrap().primary.sublink, 15);
}

#[test]
fn decaying_link_is_dropped_once_drained() {
    let mut a = connected();
    let state = FragmentDescriptor { buffer_id: 0, offset: 1088, size: 64 };
    a.dispatch(&encode_bypass_peer_with_link(1, 13, state, 1), &vec![], vec![]).unwrap();
    assert!(a.routers.get(&1).unwrap().decaying.is_some());
    let last = encode_accept_parcel_inline(1, 0, &[0], &[], &[]);
    a.dispatch(&last, &vec![], vec![]).unwrap();
    assert!(a.routers.get(&1).unwrap().decaying.is_none());
    let status = a.link_memory.as_ref().unwrap().read_link_status(state).unwrap();
    assert!(status.side_b_stable());
}

#[test]
fn unsupported_messages_are_named() {
    let mut a = connected();
    match a.dispatch(&encode_request_memory(64), &vec![], vec![]) {
        Err(AcceptorError::Unsupported(id, why)) => {
            assert_eq!(id, 64);
            assert_eq!(why, "RequestMemory not supported by the Phase 3 acceptor");
        }
        _ => panic!("accepted"),
    }
    let mut m = encode_flush_router(1);
    for (id, why) in [
        (30, "BypassPeer not supported by the Phase 3 acceptor"),
        (31, "AcceptBypassLink not supported by the Phase 3 acceptor"),
        (32, "StopProxying not supported by the Phase 3 acceptor"),
        (33, "ProxyWillStop not supported by the Phase 3 acceptor"),
        (99, "message type not decoded by the interop layer"),
    ] {
        m[2] = id;
        match a.dispatch(&m, &vec![], vec![]) {
            Err(AcceptorError::Unsupported(got, text)) => assert_eq!((got, text), (id, why)),
            _ => panic!("accepted"),
        }
    }
}

#[test]
fn wrong_content_is_refused() {
    let mut a = connected();
    a.dispatch(&hello(1, 0), &vec![3], vec![]).unwrap();
    assert!(matches!(a.take_bootstrap_message(), Ok(3)));
    assert!(matches!(
        a.send_reply(&b"other".to_vec()),
        Err(AcceptorError::BadParcel("unexpected broker fd content"))
    ));
    assert!(matches!(
        a.take_bootstrap_message(),
        Err(AcceptorError::Unexpected("bootstrap message missing"))
    ));
}
