//! Links, edges, parcel queues and routers.

use mojo_rs::ipcz::link_memory::RouterLinkStatus;
use mojo_rs::ipcz::router::{
    Edge, Link, LinkKind, LinkSide, LocalLinkState, Parcel, ParcelQueue, Router,
};

fn pair(kind: LinkKind, stable: bool) -> (Link, Link, Vec<LocalLinkState>) {
    let mut states = Vec::new();
    let (a, b) = Link::local_pair(&mut states, kind, LinkSide::A, 1, 2, stable);
    (a, b, states)
}

fn parcel(sequence_number: u64, data: &[u8]) -> Parcel {
    Parcel { sequence_number, data: data.to_vec(), objects: Vec::new(), fragment: None }
}

#[test]
fn local_link_state_initial_values() {
    let stable = LocalLinkState::new(true);
    assert_eq!(stable.status, RouterLinkStatus::STABLE);
    let unstable = LocalLinkState::new(false);
    assert_eq!(unstable.status, RouterLinkStatus::UNSTABLE);
}

#[test]
fn local_link_try_lock_stable() {
    let (a, b, mut states) = pair(LinkKind::Central, true);
    let n = a.local_state.unwrap();
    // Side A locks.
    assert!(states[n].try_lock(true));
    assert_ne!(states[n].status & RouterLinkStatus::LOCKED_BY_SIDE_A, 0);
    // Side B cannot lock while A holds it.
    assert!(!states[n].try_lock(false));
    // Unlock; B can now lock.
    states[n].unlock(true);
    assert!(states[n].try_lock(false));
    // Both sides share one state.
    assert_eq!(a.local_state, b.local_state);
    assert_ne!(states[n].status & RouterLinkStatus::LOCKED_BY_SIDE_B, 0);
}

#[test]
fn local_link_try_lock_unstable() {
    let (a, _b, mut states) = pair(LinkKind::Bridge, false);
    let n = a.local_state.unwrap();
    assert!(!states[n].try_lock(true));
    assert_eq!(states[n].status, RouterLinkStatus::UNSTABLE);
    // Once both sides are stable, the link can be locked.
    states[n].set_side_stable(true);
    states[n].set_side_stable(false);
    assert!(states[n].try_lock(true));
}

#[test]
fn local_link_try_lock_sets_waiting_when_peer_unstable() {
    let (a, _b, mut states) = pair(LinkKind::Central, true);
    let n = a.local_state.unwrap();
    // Make side B unstable, then have side A try to lock: the lock fails and
    // A's waiting bit is set.
    states[n].status = RouterLinkStatus::SIDE_A_STABLE;
    assert!(!states[n].try_lock(true));
    assert_ne!(states[n].status & RouterLinkStatus::SIDE_A_WAITING, 0);
    assert_eq!(states[n].status & RouterLinkStatus::LOCKED_BY_SIDE_A, 0);
    // Side B becomes stable; A's waiting bit is reset, and the next attempt
    // locks.
    states[n].set_side_stable(false);
    assert!(states[n].reset_waiting_bit(true));
    assert!(states[n].try_lock(true));
    assert_eq!(states[n].status & RouterLinkStatus::SIDE_A_WAITING, 0);
}

#[test]
fn local_link_reset_waiting_bit() {
    let (a, _b, mut states) = pair(LinkKind::Central, true);
    let n = a.local_state.unwrap();
    // Not waiting: no reset.
    assert!(!states[n].reset_waiting_bit(true));
    // A waiting A-side with a not-yet-stable B side: reset refuses.
    states[n].status = RouterLinkStatus::SIDE_A_STABLE | RouterLinkStatus::SIDE_A_WAITING;
    assert!(!states[n].reset_waiting_bit(true));
    // B becomes stable: the waiting bit can now be reset.
    states[n].set_side_stable(false);
    assert!(states[n].reset_waiting_bit(true));
    assert_eq!(states[n].status, RouterLinkStatus::STABLE);
}

#[test]
fn local_pair_wiring() {
    let mut states = Vec::new();
    let (a, b) = Link::local_pair(&mut states, LinkKind::Bridge, LinkSide::A, 7, 42, false);
    assert!(a.is_local());
    assert_eq!(a.local_peer, Some(42));
    assert_eq!(a.side, LinkSide::A);
    assert_eq!(b.local_peer, Some(7));
    assert_eq!(b.side, LinkSide::B);
    assert_eq!(a.kind, LinkKind::Bridge);
    assert!(a.local_state.is_some());
}

#[test]
fn edge_local_peer_helpers() {
    let (local_a, local_b, _states) = pair(LinkKind::Central, true);
    let mut edge = Edge::default();
    assert_eq!(edge.get_local_peer(), None);
    edge.set_primary_link(local_a);
    assert_eq!(edge.get_local_peer(), Some(2));
    assert_eq!(edge.get_decaying_local_peer(), None);
    // Begin decay moves the primary into the decaying slot.
    assert!(edge.begin_primary_link_decay());
    assert_eq!(edge.get_decaying_local_peer(), Some(2));
    assert_eq!(edge.get_local_peer(), None);
    // A remote link has no local peer.
    edge.set_primary_link(Link::remote(0, 5, LinkKind::Central, LinkSide::B, None));
    assert_eq!(edge.get_local_peer(), None);
    // Sanity: local_b peers back to 1.
    assert_eq!(local_b.local_peer, Some(1));
}

#[test]
fn bridge_collect_and_decay() {
    let (bridge_a, _b, _states) = pair(LinkKind::Bridge, false);
    let mut router = Router::bare();
    router.bridge = Some(Edge { primary: Some(bridge_a), decaying: None });
    assert!(router.accept_inbound(parcel(0, b"x")));
    let collected = router.collect_bridge();
    assert_eq!(collected.len(), 1);
    assert!(collected[0].0.is_local());
    assert_eq!(collected[0].1.data, b"x");

    // No decay bounds yet: finish_bridge_decay is a no-op.
    assert!(!router.finish_bridge_decay());
    // Begin the decay, then set the bounds to the current lengths.
    {
        let b = router.bridge.as_mut().unwrap();
        assert!(b.begin_primary_link_decay());
        b.set_length_to_decaying_link(1);
        b.set_length_from_decaying_link(0);
    }
    assert!(router.finish_bridge_decay());
    assert!(router.bridge.is_none());
}

#[test]
fn bridge_link_prefers_primary() {
    let (bridge_a, _b, _states) = pair(LinkKind::Bridge, false);
    let mut edge = Edge { primary: Some(bridge_a), decaying: None };
    let link = edge.primary.unwrap();
    assert!(edge.begin_primary_link_decay());
    // Now decaying only.
    let mut router = Router::bare();
    router.bridge = Some(edge);
    let got = router.bridge_link().unwrap();
    assert_eq!(got, link);
}

#[test]
fn finish_decays_reports_edges() {
    let mut router = Router::bare();
    router.outward.set_primary_link(Link::remote(0, 1, LinkKind::Central, LinkSide::B, None));
    assert!(router.outward.begin_primary_link_decay());
    router.outward.set_length_to_decaying_link(0);
    router.outward.set_length_from_decaying_link(0);
    let (out_sub, out_decayed, in_sub, in_decayed) = router.finish_decays();
    assert!(out_decayed);
    assert_eq!(out_sub.map(|l| l.sublink), Some(1));
    assert!(!in_decayed);
    assert_eq!(in_sub.map(|l| l.sublink), None);
}

#[test]
fn parcels_leave_in_sequence() {
    let mut q = ParcelQueue::new();
    assert!(q.push(parcel(1, b"b")));
    assert!(q.pop().is_none());
    assert!(q.push(parcel(0, b"a")));
    assert_eq!(q.pop().unwrap().data, b"a");
    assert_eq!(q.pop().unwrap().data, b"b");
    // What is behind is stale.
    assert!(!q.push(parcel(1, b"late")));
    assert!(q.set_final_sequence_length(2));
    assert!(q.is_sequence_fully_consumed());
    assert!(!q.expects_more_elements());
    assert!(!q.set_final_sequence_length(1));
}

#[test]
fn decaying_link_takes_the_numbers_below_its_length() {
    let old = Link::remote(0, 3, LinkKind::Central, LinkSide::B, None);
    let new = Link::remote(0, 4, LinkKind::Central, LinkSide::B, None);
    let mut router = Router::new_terminal(old);
    for n in 0..3 {
        assert!(router.push_outbound(parcel(n, &[n as u8])));
    }
    assert!(router.outward.begin_primary_link_decay());
    router.outward.set_length_to_decaying_link(2);
    router.outward.set_primary_link(new);
    let sent: Vec<u64> = router.collect_outbound().iter().map(|(l, _)| l.sublink).collect();
    assert_eq!(sent, vec![3, 3, 4]);
    assert_eq!(router.outbound_length(), 3);
}

#[test]
fn deferred_decay_takes_the_first_link() {
    let mut edge = Edge::default();
    assert!(edge.begin_primary_link_decay());
    assert!(edge.is_decay_deferred());
    let link = Link::remote(0, 9, LinkKind::PeripheralInward, LinkSide::A, None);
    edge.set_primary_link(link);
    assert_eq!(edge.decaying_link(), Some(link));
    assert!(edge.primary.is_none());
    assert!(!edge.is_stable());
}

#[test]
fn portal_takes_what_has_come_in() {
    let mut router =
        Router::new_terminal(Link::remote(0, 1, LinkKind::Central, LinkSide::B, None));
    assert!(router.accept_inbound(parcel(1, b"second")));
    router.fill_portal();
    assert!(router.portal.as_ref().unwrap().messages.is_empty());
    assert!(router.accept_inbound(parcel(0, b"first")));
    router.fill_portal();
    let got: Vec<Vec<u8>> =
        router.portal.as_ref().unwrap().messages.iter().map(|m| m.0.clone()).collect();
    assert_eq!(got, vec![b"first".to_vec(), b"second".to_vec()]);
    assert_eq!(router.inbound_length(), 2);
}

#[test]
fn parcels_without_a_number_are_all_kept() {
    let mut router = Router::bare();
    assert!(router.push_outbound(parcel(u64::MAX, b"one")));
    assert!(router.push_outbound(parcel(u64::MAX, b"two")));
    // A number that is queued already is passed over.
    assert!(router.push_outbound(parcel(2, b"three")));
    assert!(router.push_outbound(parcel(u64::MAX, b"four")));
    for (n, data) in [(0, "one"), (1, "two"), (2, "three"), (3, "four")] {
        let p = router.outbound.pop().unwrap();
        assert_eq!((p.sequence_number, p.data.as_slice()), (n, data.as_bytes()));
    }
    assert!(router.outbound.pop().is_none());
}

#[test]
fn queue_is_empty_when_nothing_is_held() {
    let mut q = ParcelQueue::new();
    assert!(q.is_empty());
    assert!(q.push(parcel(0, b"")));
    assert!(!q.is_empty());
    assert!(q.pop().is_some());
    assert!(q.is_empty());
}

#[test]
fn no_number_is_left_at_the_end() {
    let mut router = Router::bare();
    router.outbound.reset_sequence(u64::MAX);
    assert!(router.push_outbound(parcel(u64::MAX, b"last")));
    assert!(!router.push_outbound(parcel(u64::MAX, b"lost")));
    assert_eq!(router.outbound.pop().unwrap().data, b"last");
}
