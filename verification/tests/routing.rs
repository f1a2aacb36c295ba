//! The routing node and its scenarios.

use mojo_rs::ipcz::acceptor::parse_shared_buffer_driver_object;
use mojo_rs::ipcz::dispatch::NodeMessage;
use mojo_rs::ipcz::link_memory::{
    LinkMemory, RouterLinkStatus, BLOCK_ALLOCATOR_64_BLOCKS, BLOCK_ALLOCATOR_64_OFFSET,
    MAX_INITIAL_PORTALS, PRIMARY_BUFFER_ID, PRIMARY_BUFFER_SIZE,
};
use mojo_rs::ipcz::messages::{
    decode_message, AcceptParcel, ConnectFromBrokerToNonBroker, DecodedMessage,
    FragmentDescriptor, NodeName, RouteClosed,
};
use mojo_rs::ipcz::node::{
    InboundParcel, LinkMessage, RouterDescriptor, RoutingAcceptor, RoutingError, LINK_ID_BROKER,
    ROUTER_DESCRIPTOR_SIZE,
};
use mojo_rs::ipcz::outgoing::encode_link_message;
use mojo_rs::ipcz::router::Object;
use mojo_rs::ipcz::scenario::{Scenario, ScenarioAction, ScenarioEvent, ScenarioKind};
use mojo_rs::ipcz::wire::parse_message_header;

/// A primary buffer initialized like the broker's.
fn fresh_buffer() -> Vec<u8> {
    let mut map = vec![0u8; PRIMARY_BUFFER_SIZE];
    map[0..8].copy_from_slice(&1u64.to_le_bytes());
    map[8..16].copy_from_slice(&(MAX_INITIAL_PORTALS as u64).to_le_bytes());
    let last = BLOCK_ALLOCATOR_64_OFFSET + (BLOCK_ALLOCATOR_64_BLOCKS - 1) * 64;
    let rel = -(BLOCK_ALLOCATOR_64_BLOCKS as i16);
    map[last + 2..last + 4].copy_from_slice(&rel.to_le_bytes());
    map
}

/// A node with the link memory in place (no handshake).
fn node_with_memory() -> RoutingAcceptor {
    let mut a = RoutingAcceptor::new();
    a.link_memory = Some(LinkMemory::adopt_primary(fresh_buffer()));
    a.broker_name = NodeName { high: 0x1111, low: 0x2222 };
    a
}

fn greeting(portals: u32) -> ConnectFromBrokerToNonBroker {
    ConnectFromBrokerToNonBroker {
        broker_name: NodeName { high: 1, low: 2 },
        receiver_name: NodeName { high: 3, low: 4 },
        protocol_version: 0,
        num_initial_portals: portals,
        buffer_index: 0,
    }
}

fn connected() -> RoutingAcceptor {
    let mut a = RoutingAcceptor::new();
    a.connect(&greeting(2), fresh_buffer()).unwrap();
    a.settle(u64::MAX).unwrap();
    a
}

fn parcel(sublink: u64, number: u64, data: &[u8], routers: usize) -> AcceptParcel {
    AcceptParcel {
        sublink,
        sequence_number: number,
        subparcel_index: 0,
        num_subparcels: 1,
        parcel_fragment: FragmentDescriptor::default(),
        parcel_data: data.to_vec(),
        handle_types: vec![0; routers],
        new_routers: vec![0; ROUTER_DESCRIPTOR_SIZE * routers],
        driver_objects: vec![],
    }
}

fn portal_messages(a: &RoutingAcceptor, rid: u64) -> Vec<Vec<u8>> {
    let portal = a.routers.get(rid).unwrap().portal.as_ref().unwrap();
    portal.messages.iter().map(|m| m.0.clone()).collect()
}

#[test]
fn open_portals_creates_stable_local_pair() {
    let mut a = node_with_memory();
    let (p1, p2) = a.open_portals();
    let r1 = a.routers.get(p1).unwrap();
    let r2 = a.routers.get(p2).unwrap();
    assert!(r1.outward.primary.is_some());
    assert!(r2.outward.primary.is_some());
    let l1 = r1.outward.primary.as_ref().unwrap();
    assert_eq!(l1.local_peer, Some(p2));
    assert!(l1.kind.is_central());
    let state = &a.local_states[l1.local_state.unwrap()];
    assert_eq!(state.status, RouterLinkStatus::STABLE);
}

#[test]
fn serialize_with_local_peer_splits_the_pair() {
    let mut a = node_with_memory();
    let (p1, p2) = a.open_portals();
    let d = a
        .serialize_router_with_local_peer(p2, p1, LINK_ID_BROKER)
        .unwrap()
        .expect("link state available");

    assert!(d.proxy_already_bypassed);
    assert_eq!(d.new_decaying_sublink, d.new_sublink + 1);
    assert!(!d.new_link_state_fragment.is_null());
    assert_eq!(d.new_link_state_fragment.buffer_id, PRIMARY_BUFFER_ID);
    // The local peer's outward link was released at serialization.
    assert!(a.routers.get(p1).unwrap().outward.primary.is_none());
    // The proxy's inward edge waits for a link with a deferred decay.
    let proxy = a.routers.get(p2).unwrap();
    assert!(proxy.inward.is_some());
    assert!(proxy.inward.as_ref().unwrap().is_decay_deferred());
    // The tentative sublinks are registered on the link.
    assert_eq!(a.owners.get(LINK_ID_BROKER, d.new_sublink), Some(&p1));
    assert_eq!(a.owners.get(LINK_ID_BROKER, d.new_decaying_sublink), Some(&p2));
    // The link state was allocated from the shared pool (ref count 2).
    let view = a.link_memory.as_ref().unwrap().fragment(d.new_link_state_fragment).unwrap();
    let ref_count = u32::from_le_bytes(view[0..4].try_into().unwrap());
    assert_eq!(ref_count, 2);

    // The proxy adopts the decaying link, the local peer the new central link.
    // A fresh pair has no queued parcels, so that the flush ends the decay and
    // the proxy drops at once.
    a.begin_proxying(p2, &d, LINK_ID_BROKER).unwrap();
    a.settle(u64::MAX).unwrap();
    assert!(a.routers.get(p2).is_none(), "the fresh-pair proxy decays and drops");
    assert_eq!(a.owners.get(LINK_ID_BROKER, d.new_decaying_sublink), None);
    let local = a.routers.get(p1).unwrap();
    let central = local.outward.primary.as_ref().expect("local peer adopts the central link");
    assert_eq!(central.sublink, d.new_sublink);
    assert!(central.kind.is_central());
    assert_eq!(central.link_state, Some(d.new_link_state_fragment));
    // Side A is marked stable.
    let status_view =
        a.link_memory.as_ref().unwrap().fragment(d.new_link_state_fragment).unwrap();
    let at = LinkMemory::LINK_STATUS_OFFSET;
    let status = u32::from_le_bytes(status_view[at..at + 4].try_into().unwrap());
    let status = RouterLinkStatus(status);
    assert!(status.side_a_stable());
    // Nothing unexpected goes to the peer.
    assert!(a.outbox.is_empty());
}

#[test]
fn with_local_peer_exhaustion_lobbies_request_memory() {
    let mut a = node_with_memory();
    // Exhaust the entire 64-byte pool (all blocks, one at a time).
    let mut allocated = Vec::new();
    while let Some(desc) = a.link_memory.as_mut().unwrap().try_allocate_link_state().unwrap() {
        allocated.push(desc);
    }
    assert!(allocated.len() >= 1400, "pool should be large");
    let (p1, p2) = a.open_portals();
    let d = a.serialize_router_with_local_peer(p2, p1, LINK_ID_BROKER).unwrap();
    assert!(d.is_none(), "exhausted pool must fall back");
    // A RequestMemory{65536} went out.
    assert_eq!(a.outbox.len(), 1);
    let bytes = encode_link_message(&a.outbox[0].message, a.outbox[0].number).unwrap();
    match decode_message(&bytes, 0).unwrap() {
        DecodedMessage::RequestMemory(r) => {
            assert_eq!(r.size, 65536);
        }
        other_msg => panic!("expected RequestMemory, got {other_msg:?}"),
    }
    // The fallback plain proxy path (local outward link: unlocked, no proxy
    // fields) still serializes.
    let d = a.serialize_router(p2, LINK_ID_BROKER).unwrap();
    assert!(!d.proxy_already_bypassed);
    assert!(!d.proxy_peer_node_name.is_valid());
    assert!(d.new_link_state_fragment.is_null());
    assert_eq!(a.outbox.len(), 1);
}

#[test]
fn local_messages_come_out_in_order() {
    let mut a = node_with_memory();
    let (p1, p2) = a.open_portals();
    for text in ["one", "two", "three"] {
        a.put(p1, text.as_bytes().to_vec(), vec![]).unwrap();
        a.settle(u64::MAX).unwrap();
    }
    assert_eq!(
        portal_messages(&a, p2),
        vec![b"one".to_vec(), b"two".to_vec(), b"three".to_vec()]
    );
    assert!(portal_messages(&a, p1).is_empty());
    assert!(a.outbox.is_empty());
}

#[test]
fn handshake_sends_its_messages() {
    let a = connected();
    assert!(matches!(a.outbox[0].message, LinkMessage::ConnectReply { portals: 8 }));
    assert!(matches!(a.outbox[1].message, LinkMessage::SharedMemoryClient));
    assert!(matches!(
        a.outbox[2].message,
        LinkMessage::RouteClosed { sublink: 0, sequence_length: 1 }
    ));
    assert_eq!(a.outbox[0].number, 0);
    let numbers: Vec<u64> = a.outbox[1..].iter().map(|m| m.number).collect();
    let want: Vec<u64> = (0..numbers.len() as u64).collect();
    assert_eq!(numbers, want);
}

#[test]
fn inbound_parcels_reach_the_bootstrap_portal() {
    let mut a = connected();
    let m = NodeMessage::Decoded(DecodedMessage::AcceptParcel(parcel(1, 0, b"hi", 0)), vec![]);
    a.dispatch(m, &vec![], vec![], LINK_ID_BROKER).unwrap();
    a.settle(u64::MAX).unwrap();
    assert_eq!(portal_messages(&a, a.bootstrap_rid), vec![b"hi".to_vec()]);
}

#[test]
fn described_router_takes_what_came_early() {
    let mut a = connected();
    // A parcel for a sublink that nobody owns waits.
    let early = DecodedMessage::AcceptParcel(parcel(40, 0, b"early", 0));
    let early = NodeMessage::Decoded(early, vec![]);
    a.dispatch(early, &vec![], vec![], LINK_ID_BROKER).unwrap();
    a.settle(u64::MAX).unwrap();
    let d = RouterDescriptor { new_sublink: 40, ..Default::default() };
    let processed = a
        .process_accept_parcel(
            InboundParcel { parcel: parcel(1, 0, b"portal", 1), routers: vec![d] },
            LINK_ID_BROKER,
        )
        .unwrap();
    assert_eq!(processed.identities, vec![40]);
    assert_eq!(processed.payload, b"portal");
    a.settle(u64::MAX).unwrap();
    assert_eq!(portal_messages(&a, 40), vec![b"early".to_vec()]);
    let got = a.routers.get(a.bootstrap_rid).unwrap().portal.as_ref().unwrap();
    assert_eq!(got.messages[0].1, vec![Object::Router(40)]);
}

#[test]
fn remote_message_goes_through_link_memory() {
    let mut a = connected();
    let d = RouterDescriptor { new_sublink: 40, ..Default::default() };
    a.router_deserialize(&d, LINK_ID_BROKER).unwrap();
    a.settle(u64::MAX).unwrap();
    let before = a.outbox.len();
    let f = a.put(40, b"data".to_vec(), vec![]).unwrap().expect("fragment");
    a.settle(u64::MAX).unwrap();
    assert_eq!(a.outbox.len(), before + 1);
    match &a.outbox[before].message {
        LinkMessage::Parcel { sublink, sequence_number, fragment, data, .. } => {
            assert_eq!((*sublink, *sequence_number), (40, 0));
            assert_eq!(*fragment, Some(f));
            assert_eq!(data, b"data");
        }
        _ => panic!("no parcel"),
    }
    let bytes = encode_link_message(&a.outbox[before].message, a.outbox[before].number).unwrap();
    assert_eq!(parse_message_header(&bytes).unwrap().node_sequence_number, a.outbox[before].number);
    match decode_message(&bytes, 0).unwrap() {
        DecodedMessage::AcceptParcel(p) => {
            assert_eq!(p.parcel_fragment, f);
            assert!(p.parcel_data.is_empty());
        }
        other => panic!("{other:?}"),
    }
    let memory = a.link_memory.as_ref().unwrap();
    assert_eq!(memory.read_parcel_fragment(f).unwrap(), b"data");
}

#[test]
fn closure_comes_through() {
    let mut a = connected();
    let d = RouterDescriptor { new_sublink: 40, ..Default::default() };
    a.router_deserialize(&d, LINK_ID_BROKER).unwrap();
    a.settle(u64::MAX).unwrap();
    let closed = DecodedMessage::RouteClosed(RouteClosed { sublink: 40, sequence_length: 0 });
    a.dispatch(NodeMessage::Decoded(closed, vec![]), &vec![], vec![], LINK_ID_BROKER).unwrap();
    a.settle(u64::MAX).unwrap();
    assert!(a.routers.get(40).unwrap().peer_closed);
}

#[test]
fn lost_route_is_forgotten() {
    let mut a = connected();
    let d = RouterDescriptor { new_sublink: 40, ..Default::default() };
    a.router_deserialize(&d, LINK_ID_BROKER).unwrap();
    a.settle(u64::MAX).unwrap();
    assert_eq!(a.owners.get(LINK_ID_BROKER, 40), Some(&40));
    a.router_disconnected(40).unwrap();
    a.settle(u64::MAX).unwrap();
    assert!(a.routers.get(40).is_none());
    assert_eq!(a.owners.get(LINK_ID_BROKER, 40), None);
}

#[test]
fn capacity_is_asked_for_once_and_provided() {
    let mut a = connected();
    let before = a.outbox.len();
    a.request_block_capacity(64).unwrap();
    a.request_block_capacity(64).unwrap();
    assert_eq!(a.outbox.len(), before + 1);
    a.on_provide_memory(65536, 11, vec![0; 65536]).unwrap();
    match &a.outbox[before + 1].message {
        LinkMessage::AddBlockBuffer { buffer_id, block_size, size, fd } => {
            assert_eq!((*buffer_id, *block_size, *size, *fd), (1, 64, 65536, 11));
        }
        _ => panic!("no buffer shared"),
    }
    assert!(a.link_memory.as_ref().unwrap().has_extra_buffers());
    assert!(matches!(
        a.on_provide_memory(65536, 12, vec![0; 65536]),
        Err(RoutingError::BadParcel("ProvideMemory without a pending request"))
    ));
}

#[test]
fn refused_messages_say_why() {
    let mut a = connected();
    let m = NodeMessage::Decoded(DecodedMessage::Unknown(10), vec![]);
    match a.dispatch(m, &vec![], vec![], LINK_ID_BROKER) {
        Err(RoutingError::Unsupported(id, why)) => {
            assert_eq!(id, 10);
            assert_eq!(why, "native broker role not exercised by a sealed court");
        }
        _ => panic!("accepted"),
    }
    let m = NodeMessage::Decoded(DecodedMessage::AcceptParcel(parcel(1, 0, b"x", 1)), vec![]);
    assert!(matches!(
        a.dispatch(m, &vec![], vec![], LINK_ID_BROKER),
        Err(RoutingError::BadParcel("malformed new_routers array"))
    ));
}

#[test]
fn failed_work_is_dropped() {
    let mut a = connected();
    a.put(a.bootstrap_rid, b"x".to_vec(), vec![Object::Fd(3)]).unwrap();
    let r = a.settle(u64::MAX);
    assert!(r.is_err() || a.tasks.is_empty());
    assert!(a.tasks.is_empty());
}

#[test]
fn outgoing_messages_have_their_bytes() {
    let reply = encode_link_message(&LinkMessage::ConnectReply { portals: 8 }, 0).unwrap();
    assert_eq!(reply.len(), 64);
    let client = encode_link_message(&LinkMessage::SharedMemoryClient, 5).unwrap();
    assert_eq!(parse_message_header(&client).unwrap().node_sequence_number, 5);
    match decode_message(&client, 1).unwrap() {
        DecodedMessage::AcceptParcel(p) => {
            assert_eq!(p.handle_types, vec![1]);
            assert_eq!(
                p.driver_objects[0].data,
                vec![8, 0, 0, 0, 0, 0, 0, 0, 1, 0, 0, 0, 0, 0, 0, 0]
            );
        }
        other => panic!("{other:?}"),
    }
    let shared = LinkMessage::AddBlockBuffer { buffer_id: 1, block_size: 64, size: 4096, fd: 3 };
    let bytes = encode_link_message(&shared, 9).unwrap();
    assert_eq!(parse_message_header(&bytes).unwrap().node_sequence_number, 9);
    match decode_message(&bytes, 1).unwrap() {
        DecodedMessage::AddBlockBuffer(b) => {
            assert_eq!((b.buffer_id, b.block_size, b.buffer_index), (1, 64, 0));
        }
        other => panic!("{other:?}"),
    }
    let info = parse_shared_buffer_driver_object(&bytes).unwrap();
    assert_eq!((info.buffer_size, info.mode), (4096, 2));
}

#[test]
fn routing_scenario_starts() {
    let mut s = Scenario::new(ScenarioKind::Routing);
    assert!(matches!(s.advance(ScenarioEvent::Start), Ok(ScenarioAction::Greet)));
    assert!(matches!(
        s.advance(ScenarioEvent::Greeted(greeting(2), fresh_buffer())),
        Ok(ScenarioAction::Receive)
    ));
    let d = RouterDescriptor { new_sublink: 40, ..Default::default() };
    let transfer = DecodedMessage::AcceptParcel(parcel(1, 0, b"transfer-b1", 1));
    let transfer = NodeMessage::Decoded(transfer, vec![d]);
    assert!(matches!(
        s.advance(ScenarioEvent::Message(transfer, vec![], vec![])),
        Ok(ScenarioAction::Receive)
    ));
    let write = NodeMessage::Decoded(DecodedMessage::AcceptParcel(parcel(40, 0, b"w1", 0)), vec![]);
    assert!(matches!(
        s.advance(ScenarioEvent::Message(write, vec![], vec![])),
        Ok(ScenarioAction::Drain)
    ));
    let ops: Vec<u64> = s.node.events().iter().map(|e| e.op_id).collect();
    assert_eq!(ops, vec![0, 1, 2, 3, 4]);
    assert_eq!(s.node.events()[4].payload_hex.as_deref(), Some("7731"));
}

#[test]
fn scenario_refuses_what_it_does_not_expect() {
    let mut s = Scenario::new(ScenarioKind::Memory);
    assert!(matches!(
        s.advance(ScenarioEvent::PeerClosed),
        Err(RoutingError::Unexpected("peer closed before Connect"))
    ));
    s.advance(ScenarioEvent::Greeted(greeting(2), fresh_buffer())).unwrap();
    let d = RouterDescriptor { new_sublink: 40, ..Default::default() };
    let transfer =
        NodeMessage::Decoded(DecodedMessage::AcceptParcel(parcel(1, 0, b"other", 1)), vec![d]);
    assert!(matches!(
        s.advance(ScenarioEvent::Message(transfer, vec![], vec![])),
        Err(RoutingError::BadParcel("unexpected transfer payload"))
    ));
    assert!(matches!(
        s.advance(ScenarioEvent::PeerClosed),
        Err(RoutingError::Unexpected("peer closed during exchange"))
    ));
}

#[test]
fn exhaustion_events_are_numbered_by_transfer() {
    let mut s = Scenario::new(ScenarioKind::Exhaust);
    s.advance(ScenarioEvent::Start).unwrap();
    s.advance(ScenarioEvent::Greeted(greeting(2), fresh_buffer())).unwrap();
    // Transfers on the route, out of order, and the first write among them.
    for (number, payload) in [(0, "transfer-b1"), (2, "transfer-3"), (1, "transfer-2")] {
        let d = RouterDescriptor { new_sublink: 40 + number, ..Default::default() };
        let p = parcel(1, number, payload.as_bytes(), 1);
        let m = NodeMessage::Decoded(DecodedMessage::AcceptParcel(p), vec![d]);
        s.advance(ScenarioEvent::Message(m, vec![], vec![])).unwrap();
    }
    let w1 = NodeMessage::Decoded(DecodedMessage::AcceptParcel(parcel(40, 0, b"w1", 0)), vec![]);
    s.advance(ScenarioEvent::Message(w1, vec![], vec![])).unwrap();
    let ops: Vec<u64> = s.node.events().iter().map(|e| e.op_id).collect();
    assert_eq!(ops, vec![0, 1, 2, 3, 6, 5, 4]);
}

#[test]
fn messages_put_while_the_route_waits_are_kept() {
    let mut a = node_with_memory();
    let (p1, p2) = a.open_portals();
    // The messages are queued before any work is done.
    for text in ["one", "two", "three"] {
        a.put(p1, text.as_bytes().to_vec(), vec![]).unwrap();
    }
    a.settle(u64::MAX).unwrap();
    assert_eq!(
        portal_messages(&a, p2),
        vec![b"one".to_vec(), b"two".to_vec(), b"three".to_vec()]
    );
}

#[test]
fn exhaustion_scenario_ends_with_its_last_events() {
    let mut s = Scenario::new(ScenarioKind::Exhaust);
    s.advance(ScenarioEvent::Start).unwrap();
    s.advance(ScenarioEvent::Greeted(greeting(2), fresh_buffer())).unwrap();
    for number in 0..1486u64 {
        let text = match number {
            0 => "transfer-b1".to_string(),
            n => format!("transfer-{}", n + 1),
        };
        let d = RouterDescriptor { new_sublink: 40 + number, ..Default::default() };
        let p = DecodedMessage::AcceptParcel(parcel(1, number, text.as_bytes(), 1));
        let m = NodeMessage::Decoded(p, vec![d]);
        s.advance(ScenarioEvent::Message(m, vec![], vec![])).unwrap();
    }
    let w1 = NodeMessage::Decoded(DecodedMessage::AcceptParcel(parcel(40, 0, b"w1", 0)), vec![]);
    s.advance(ScenarioEvent::Message(w1, vec![], vec![])).unwrap();
    let sublink = s.node.bootstrap_sublink().unwrap();
    let closed = DecodedMessage::RouteClosed(RouteClosed { sublink, sequence_length: 1486 });
    let m = NodeMessage::Decoded(closed, vec![]);
    assert!(matches!(
        s.advance(ScenarioEvent::Message(m, vec![], vec![])),
        Ok(ScenarioAction::Done)
    ));
    let ops: Vec<u64> = s.node.events().iter().map(|e| e.op_id).collect();
    assert_eq!(&ops[..5], &[0, 1, 2, 3, 5]);
    assert_eq!(&ops[ops.len() - 5..], &[1489, 4, 1490, 1491, 1492]);
    let mut sorted = ops.clone();
    sorted.sort();
    assert_eq!(sorted, (0..=1492).collect::<Vec<u64>>());
    let numbers: Vec<u64> = s.node.events().iter().map(|e| e.seq).collect();
    assert_eq!(numbers, (1..=1493).collect::<Vec<u64>>());
}
