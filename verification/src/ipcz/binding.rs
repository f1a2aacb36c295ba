//! What every operation of a routing node keeps: each sublink that is owned
//! belongs to a router that is there.

use vstd::prelude::*;

#[allow(unused_imports)]
use crate::ipcz::dispatch::NodeMessageView;
#[allow(unused_imports)]
use crate::ipcz::messages::{
    AddBlockBuffer, BypassPeerWithLink, ConnectFromBrokerToNonBroker, DecodedView,
    FragmentDescriptor, NodeName,
};
#[allow(unused_imports)]
use crate::ipcz::node::{
    InboundView, LinkMessageView, NodeView, NumberedView, RouterDescriptor, TaskView,
    LINK_ID_BROKER,
};
#[allow(unused_imports)]
use crate::ipcz::router::{Edge, Link, LinkKind, Object, ParcelView, RouterView};
#[allow(unused_imports)]
use crate::ipcz::routing::DecayOrder;

verus! {

/// Whether each sublink that is owned belongs to a router that is there.
#[verifier::opaque]
pub open spec fn bound(owners: Map<(u64, u64), u64>, routers: Map<u64, RouterView>) -> bool {
    forall|k: (u64, u64)| #[trigger]
        owners.contains_key(k) ==> routers.contains_key(owners[k])
}

broadcast proof fn lemma_router(
    owners: Map<(u64, u64), u64>,
    routers: Map<u64, RouterView>,
    rid: u64,
    r: RouterView,
)
    requires
        #[trigger] bound(owners, routers),
    ensures
        bound(owners, #[trigger] routers.insert(rid, r)),
{
    reveal(bound);
}

broadcast proof fn lemma_owner(
    owners: Map<(u64, u64), u64>,
    routers: Map<u64, RouterView>,
    key: (u64, u64),
    rid: u64,
)
    requires
        #[trigger] bound(owners, routers),
        routers.contains_key(rid),
    ensures
        bound(#[trigger] owners.insert(key, rid), routers),
{
    reveal(bound);
}

proof fn lemma_states_let_go(s: NodeView, links: Seq<Link>)
    ensures
        s.states_let_go(links).owners == s.owners,
        s.states_let_go(links).routers == s.routers,
    decreases links.len(),
{
    if links.len() > 0 {
        lemma_states_let_go(s, links.drop_last());
    }
}

proof fn lemma_owners_without(owners: Map<(u64, u64), u64>, links: Seq<Link>)
    ensures
        crate::ipcz::routing::owners_without(owners, links).submap_of(owners),
    decreases links.len(),
{
    if links.len() > 0 {
        lemma_owners_without(owners, links.drop_last());
    }
}

proof fn lemma_unbound(
    owners: Map<(u64, u64), u64>,
    fewer: Map<(u64, u64), u64>,
    routers: Map<u64, RouterView>,
    rid: u64,
)
    requires
        bound(owners, routers),
        fewer.submap_of(owners),
    ensures
        bound(crate::ipcz::pair_map::without_value(fewer, rid), routers.remove(rid)),
{
    reveal(bound);
    let left = crate::ipcz::pair_map::without_value(fewer, rid);
    assert forall|k: (u64, u64)| #[trigger] left.contains_key(k) implies routers.remove(
        rid,
    ).contains_key(left[k]) by {
        assert(fewer.contains_key(k));
        assert(owners.contains_key(k));
    }
}

proof fn lemma_marked_stable(s: NodeView, link: Link)
    requires
        bound(s.owners, s.routers),
    ensures
        bound(s.marked_stable(link).0.owners, s.marked_stable(link).0.routers),
{
    broadcast use {lemma_router, lemma_owner};

}

proof fn lemma_bypass_lock_tried(s: NodeView, link: Link, source: u64)
    requires
        bound(s.owners, s.routers),
    ensures
        bound(
            s.bypass_lock_tried(link, source).0.owners,
            s.bypass_lock_tried(link, source).0.routers,
        ),
{
    broadcast use {lemma_router, lemma_owner};

}

proof fn lemma_unlocked(s: NodeView, link: Link)
    requires
        bound(s.owners, s.routers),
    ensures
        bound(s.unlocked(link).0.owners, s.unlocked(link).0.routers),
{
    broadcast use {lemma_router, lemma_owner};

}

proof fn lemma_closure_delivered(s: NodeView, link: Link, length: u64)
    requires
        bound(s.owners, s.routers),
    ensures
        bound(
            s.closure_delivered(link, length).0.owners,
            s.closure_delivered(link, length).0.routers,
        ),
{
    broadcast use {lemma_router, lemma_owner};

}

proof fn lemma_outward_link_set(s: NodeView, rid: u64, link: Link)
    requires
        bound(s.owners, s.routers),
    ensures
        bound(s.outward_link_set(rid, link).0.owners, s.outward_link_set(rid, link).0.routers),
{
    broadcast use {lemma_router, lemma_owner};

}

proof fn lemma_router_removed(s: NodeView, rid: u64)
    requires
        bound(s.owners, s.routers),
    ensures
        bound(s.router_removed(rid).owners, s.router_removed(rid).routers),
{
    if s.routers.contains_key(rid) {
        let links = crate::ipcz::routing::links_of(s.routers[rid]);
        let owners = crate::ipcz::routing::owners_without(s.owners, links);
        let t = NodeView {
            owners: crate::ipcz::pair_map::without_value(owners, rid),
            ..s
        };
        lemma_states_let_go(t, links);
        lemma_owners_without(s.owners, links);
        lemma_unbound(s.owners, owners, s.routers, rid);
    }
}

proof fn lemma_flush_started(s: NodeView, rid: u64, force: bool)
    requires
        bound(s.owners, s.routers),
    ensures
        bound(s.flush_started(rid, force).0.owners, s.flush_started(rid, force).0.routers),
{
    broadcast use {lemma_router, lemma_owner};

}

proof fn lemma_decays_ended(s: NodeView, rid: u64)
    requires
        bound(s.owners, s.routers),
    ensures
        bound(s.decays_ended(rid).0.owners, s.decays_ended(rid).0.routers),
{
    broadcast use {lemma_router, lemma_owner};

    reveal(NodeView::decays_ended);
}

proof fn lemma_closures_found(s: NodeView, rid: u64, on_central: bool)
    requires
        bound(s.owners, s.routers),
    ensures
        bound(
            s.closures_found(rid, on_central).0.owners,
            s.closures_found(rid, on_central).0.routers,
        ),
{
    broadcast use {lemma_router, lemma_owner};

    reveal(NodeView::closures_found);
}

proof fn lemma_flush_finished(
    s: NodeView,
    rid: u64,
    force: bool,
    on_central: bool,
    outward_decaying: bool,
    inward_decaying: bool,
)
    requires
        bound(s.owners, s.routers),
    ensures
        bound(
            s.flush_finished(rid, force, on_central, outward_decaying, inward_decaying).0.owners,
            s.flush_finished(rid, force, on_central, outward_decaying, inward_decaying).0.routers,
        ),
{
    broadcast use {lemma_router, lemma_owner};

    if s.routers.contains_key(rid) {
        let r = s.routers[rid];
        lemma_decays_ended(s, rid);
        let t = s.decays_ended(rid).0;
        let u = t.with_router(rid, t.routers[rid].portal_filled());
        lemma_router_removed(u, rid);
        lemma_flush_settled(
                u,
            rid,
            force,
            on_central,
            r.outward_decay_over(),
            r.inward_decay_over(),
            outward_decaying && !r.outward_decay_over(),
            inward_decaying && !r.inward_decay_over(),
        );
    }
}

proof fn lemma_flush_settled(
    s: NodeView,
    rid: u64,
    force: bool,
    on_central: bool,
    out_over: bool,
    in_over: bool,
    out_left: bool,
    in_left: bool,
)
    requires
        bound(s.owners, s.routers),
    ensures
        bound(
            s.flush_settled(rid, force, on_central, out_over, in_over, out_left, in_left).0.owners,
            s.flush_settled(rid, force, on_central, out_over, in_over, out_left, in_left).0.routers,
        ),
{
    broadcast use {lemma_router, lemma_owner};

    let r = s.routers[rid];
    let mark = on_central && (out_over || in_over) && r.outward.primary is Some && !out_left && (
    r.inward is Some ==> !in_left);
    lemma_marked_stable(s, r.outward.primary->Some_0);
    let t = if mark {
        s.marked_stable(r.outward.primary->Some_0).0
    } else {
        s
    };
    lemma_closures_found(t, rid, on_central);
}

proof fn lemma_peer_woken(s: NodeView, rid: u64)
    requires
        bound(s.owners, s.routers),
    ensures
        bound(s.peer_woken(rid).0.owners, s.peer_woken(rid).0.routers),
{
    broadcast use {lemma_router, lemma_owner};

}

proof fn lemma_closed_here(s: NodeView, rid: u64)
    requires
        bound(s.owners, s.routers),
    ensures
        bound(s.closed_here(rid).0.owners, s.closed_here(rid).0.routers),
{
    broadcast use {lemma_router, lemma_owner};

}

proof fn lemma_closed_remotely(s: NodeView, rid: u64, sublink: u64, length: u64)
    requires
        bound(s.owners, s.routers),
    ensures
        bound(
            s.closed_remotely(rid, sublink, length).0.owners,
            s.closed_remotely(rid, sublink, length).0.routers,
        ),
{
    broadcast use {lemma_router, lemma_owner};

}

proof fn lemma_disconnected(s: NodeView, rid: u64)
    requires
        bound(s.owners, s.routers),
    ensures
        bound(s.disconnected(rid).0.owners, s.disconnected(rid).0.routers),
{
    broadcast use {lemma_router, lemma_owner};

    if s.routers.contains_key(rid) {
        let none = Edge { primary: None, decaying: None };
        let r = s.routers[rid];
        let gone = RouterView {
            disconnected: true,
            outward: none,
            inward: if r.inward is Some {
                Some(none)
            } else {
                None
            },
            bridge: if r.inward is None && r.bridge is Some {
                Some(none)
            } else {
                r.bridge
            },
            peer_closed: true,
            inbound: r.inbound.with_final_length(r.inbound.current),
            ..r
        };
        lemma_router_removed(s.with_router(rid, gone), rid);
    }
}

proof fn lemma_proxying_stopped(s: NodeView, rid: u64, inbound: u64, outbound: u64)
    requires
        bound(s.owners, s.routers),
    ensures
        bound(
            s.proxying_stopped(rid, inbound, outbound).0.owners,
            s.proxying_stopped(rid, inbound, outbound).0.routers,
        ),
{
    broadcast use {lemma_router, lemma_owner};

}

proof fn lemma_decay_ordered(s: NodeView, o: DecayOrder)
    requires
        bound(s.owners, s.routers),
    ensures
        bound(s.decay_ordered(o).0.owners, s.decay_ordered(o).0.routers),
{
    broadcast use {lemma_router, lemma_owner};

}

proof fn lemma_decays_ordered(s: NodeView, orders: Seq<DecayOrder>)
    requires
        bound(s.owners, s.routers),
    ensures
        bound(s.decays_ordered(orders).0.owners, s.decays_ordered(orders).0.routers),
    decreases orders.len(),
{
    broadcast use {lemma_router, lemma_owner};

    if orders.len() > 0 {
        lemma_decay_ordered(s, orders[0]);
        lemma_decays_ordered(s.decay_ordered(orders[0]).0, orders.skip(1));
    }
}

proof fn lemma_state_allocated(s: NodeView, link_id: u64)
    requires
        bound(s.owners, s.routers),
    ensures
        bound(s.state_allocated(link_id).0.owners, s.state_allocated(link_id).0.routers),
{
    broadcast use {lemma_router, lemma_owner};

}

proof fn lemma_bridge_bypass(s: NodeView, rid: u64)
    requires
        bound(s.owners, s.routers),
    ensures
        bound(s.bridge_bypass(rid).0.owners, s.bridge_bypass(rid).0.routers),
{
    broadcast use {lemma_router, lemma_owner};

    if s.bridge_peer_of(rid) is Some {
        let second = s.bridge_peer_of(rid)->0;
        if s.outward_of(rid) is Some && s.outward_of(second) is Some {
            let a = s.outward_of(rid)->0;
            let b = s.outward_of(second)->0;
            lemma_bypass_lock_tried(s, a, s.source_of(b));
            let t = s.bypass_lock_tried(a, s.source_of(b)).0;
            lemma_bypass_lock_tried(t, b, s.source_of(a));
            let u = t.bypass_lock_tried(b, s.source_of(a)).0;
            lemma_unlocked(u, a);
            lemma_bridge_bypassed(u, rid, second, a, b);
        }
    }
}

proof fn lemma_bridge_bypassed(
    s: NodeView,
    first: u64,
    second: u64,
    first_link: Link,
    second_link: Link,
)
    requires
        bound(s.owners, s.routers),
    ensures
        bound(
            s.bridge_bypassed(first, second, first_link, second_link).0.owners,
            s.bridge_bypassed(first, second, first_link, second_link).0.routers,
        ),
{
    broadcast use {lemma_router, lemma_owner};

    lemma_decays_ordered(s, crate::ipcz::bypass::remote_orders(first, second));
    lemma_half_local_bypass(s, first);
    lemma_half_local_bypass(s, second);
    if first_link.local_peer is Some && second_link.local_peer is Some {
        lemma_local_bypass(
                s,
            first,
            second,
            first_link.local_peer->0,
            second_link.local_peer->0,
        );
    }
}

proof fn lemma_half_local_bypass(s: NodeView, rid: u64)
    requires
        bound(s.owners, s.routers),
    ensures
        bound(s.half_local_bypass(rid).0.owners, s.half_local_bypass(rid).0.routers),
{
    broadcast use {lemma_router, lemma_owner};

    let (t, r) = s.state_allocated(LINK_ID_BROKER);
    lemma_state_allocated(s, LINK_ID_BROKER);
    if r is Ok && r->Ok_0 is Some {
        lemma_bypass_from_local_peer(t, rid, r->Ok_0->0);
    }
}

proof fn lemma_bypass_from_local_peer(s: NodeView, rid: u64, d: FragmentDescriptor)
    requires
        bound(s.owners, s.routers),
    ensures
        bound(
            s.bypass_from_local_peer(rid, d).0.owners,
            s.bypass_from_local_peer(rid, d).0.routers,
        ),
{
    broadcast use {lemma_router, lemma_owner};

    if s.bridge_peer_of(rid) is Some && s.routers.contains_key(rid) {
        let other = s.bridge_peer_of(rid)->0;
        if s.routers[rid].outward.spec_local_peer() is Some && s.routers[other].outward.primary
            is Some {
            lemma_bypass_with_new_link(
                        s,
                rid,
                other,
                s.routers[rid].outward.spec_local_peer()->0,
                s.routers[other].outward.primary->0.sublink,
                d,
            );
        }
    }
}

proof fn lemma_bypass_with_new_link(
    s: NodeView,
    rid: u64,
    other: u64,
    local: u64,
    remote_sublink: u64,
    d: FragmentDescriptor,
)
    requires
        bound(s.owners, s.routers),
    ensures
        bound(
            s.bypass_with_new_link(rid, other, local, remote_sublink, d).0.owners,
            s.bypass_with_new_link(rid, other, local, remote_sublink, d).0.routers,
        ),
{
    broadcast use {lemma_router, lemma_owner};

    let n = s.sent_by(local);
    let t = s.sublinks_allocated(LINK_ID_BROKER, 1).0;
    let orders = crate::ipcz::bypass::half_local_orders(rid, other, local, n);
    lemma_decays_ordered(t, orders);
    let u = t.decays_ordered(orders).0;
    if s.sublinks_allocated(LINK_ID_BROKER, 1).1 is Ok {
        let sublink = s.sublinks_allocated(LINK_ID_BROKER, 1).1->Ok_0;
        let v = u.with_message(LinkMessageView::BypassPeerWithLink(remote_sublink, sublink, d, n));
        lemma_outward_link_set(
                v,
            local,
            crate::ipcz::router::remote_link(
                0,
                sublink,
                LinkKind::Central,
                crate::ipcz::router::LinkSide::A,
                Some(d),
            ),
        );
    }
}

proof fn lemma_local_bypass(s: NodeView, first: u64, second: u64, a: u64, b: u64)
    requires
        bound(s.owners, s.routers),
    ensures
        bound(
            s.local_bypass(first, second, a, b).0.owners,
            s.local_bypass(first, second, a, b).0.routers,
        ),
{
    broadcast use {lemma_router, lemma_owner};

    let orders = crate::ipcz::bypass::local_orders(
        first,
        second,
        a,
        b,
        s.sent_by(a),
        s.sent_by(b),
    );
    lemma_decays_ordered(s, orders);
}

proof fn lemma_local_proxying_stopped(s: NodeView, rid: u64, n: u64)
    requires
        bound(s.owners, s.routers),
    ensures
        bound(
            s.local_proxying_stopped(rid, n).0.owners,
            s.local_proxying_stopped(rid, n).0.routers,
        ),
{
    broadcast use {lemma_router, lemma_owner};

}

proof fn lemma_bypass_accepted(s: NodeView, b: BypassPeerWithLink, link_id: u64)
    requires
        bound(s.owners, s.routers),
    ensures
        bound(s.bypass_accepted(b, link_id).0.owners, s.bypass_accepted(b, link_id).0.routers),
{
    broadcast use {lemma_router, lemma_owner};

}

proof fn lemma_peer_bypassed(s: NodeView, rid: u64, requestor: u64, name: NodeName, sublink: u64)
    requires
        bound(s.owners, s.routers),
    ensures
        bound(
            s.peer_bypassed(rid, requestor, name, sublink).0.owners,
            s.peer_bypassed(rid, requestor, name, sublink).0.routers,
        ),
{
    broadcast use {lemma_router, lemma_owner};

}

proof fn lemma_serialized(s: NodeView, rid: u64, link_id: u64)
    requires
        bound(s.owners, s.routers),
    ensures
        bound(s.serialized(rid, link_id).0.owners, s.serialized(rid, link_id).0.routers),
{
    broadcast use {lemma_router, lemma_owner};

    reveal(NodeView::serialized);
    if s.routers.contains_key(rid) && s.routers[rid].outward.primary is Some {
        let l = s.routers[rid].outward.primary->0;
        lemma_bypass_lock_tried(s, l, s.broker_name.low);
        let (t, r) = s.bypass_lock_tried(l, s.broker_name.low);
        if r is Ok {
            lemma_serialized_as_proxy(t, rid, link_id, r->Ok_0);
        }
        if l.local_peer is Some {
            lemma_split_from_local_peer(t, rid, l.local_peer->0, link_id);
            let u = t.split_from_local_peer(rid, l.local_peer->0, link_id).0;
            lemma_unlocked(u, l);
            lemma_serialized_as_proxy(u.unlocked(l).0, rid, link_id, true);
        }
    }
}

proof fn lemma_serialized_as_proxy(s: NodeView, rid: u64, link_id: u64, locked: bool)
    requires
        bound(s.owners, s.routers),
    ensures
        bound(
            s.serialized_as_proxy(rid, link_id, locked).0.owners,
            s.serialized_as_proxy(rid, link_id, locked).0.routers,
        ),
{
    broadcast use {lemma_router, lemma_owner};

}

proof fn lemma_split_from_local_peer(s: NodeView, rid: u64, peer: u64, link_id: u64)
    requires
        bound(s.owners, s.routers),
        s.routers.contains_key(rid),
    ensures
        bound(
            s.split_from_local_peer(rid, peer, link_id).0.owners,
            s.split_from_local_peer(rid, peer, link_id).0.routers,
        ),
{
    broadcast use {lemma_router, lemma_owner};

}

proof fn lemma_proxying_begun(s: NodeView, rid: u64, d: RouterDescriptor, link_id: u64)
    requires
        bound(s.owners, s.routers),
    ensures
        bound(
            s.proxying_begun(rid, d, link_id).0.owners,
            s.proxying_begun(rid, d, link_id).0.routers,
        ),
{
    broadcast use {lemma_router, lemma_owner};

}

proof fn lemma_objects_serialized(s: NodeView, objects: Seq<Object>, link_id: u64)
    requires
        bound(s.owners, s.routers),
    ensures
        bound(
            s.objects_serialized(objects, link_id).0.owners,
            s.objects_serialized(objects, link_id).0.routers,
        ),
    decreases objects.len(),
{
    broadcast use {lemma_router, lemma_owner};

    if objects.len() > 0 {
        lemma_objects_serialized(s, objects.drop_last(), link_id);
        if objects.last() is Router {
            lemma_serialized(
                        s.objects_serialized(objects.drop_last(), link_id).0,
                objects.last()->Router_0,
                link_id,
            );
        }
    }
}

proof fn lemma_transmitted(s: NodeView, link: Link, p: ParcelView)
    requires
        bound(s.owners, s.routers),
    ensures
        bound(s.transmitted(link, p).0.owners, s.transmitted(link, p).0.routers),
{
    broadcast use {lemma_router, lemma_owner};

    lemma_objects_serialized(s, p.objects, link.link_id);
}

proof fn lemma_message_put(s: NodeView, rid: u64, data: Seq<u8>, objects: Seq<Object>)
    requires
        bound(s.owners, s.routers),
    ensures
        bound(
            s.message_put(rid, data, objects).0.owners,
            s.message_put(rid, data, objects).0.routers,
        ),
{
    broadcast use {lemma_router, lemma_owner};

}

proof fn lemma_portals_opened(s: NodeView)
    requires
        bound(s.owners, s.routers),
    ensures
        bound(s.portals_opened().owners, s.portals_opened().routers),
{
    broadcast use {lemma_router, lemma_owner};

}

proof fn lemma_deserialized(s: NodeView, d: RouterDescriptor, link_id: u64)
    requires
        bound(s.owners, s.routers),
    ensures
        bound(s.deserialized(d, link_id).0.owners, s.deserialized(d, link_id).0.routers),
{
    broadcast use {lemma_router, lemma_owner};

}

proof fn lemma_parcel_accepted(s: NodeView, p: InboundView, link_id: u64)
    requires
        bound(s.owners, s.routers),
    ensures
        bound(s.parcel_accepted(p, link_id).0.owners, s.parcel_accepted(p, link_id).0.routers),
{
    broadcast use {lemma_router, lemma_owner};

}

proof fn lemma_parcel_routed(s: NodeView, p: InboundView, data: Seq<u8>, link_id: u64)
    requires
        bound(s.owners, s.routers),
    ensures
        bound(
            s.parcel_routed(p, data, link_id).0.owners,
            s.parcel_routed(p, data, link_id).0.routers,
        ),
{
    broadcast use {lemma_router, lemma_owner};

}

proof fn lemma_buffer_added(s: NodeView, b: AddBlockBuffer, num_fds: nat, buffer: Seq<u8>)
    requires
        bound(s.owners, s.routers),
    ensures
        bound(
            s.buffer_added(b, num_fds, buffer).0.owners,
            s.buffer_added(b, num_fds, buffer).0.routers,
        ),
{
    broadcast use {lemma_router, lemma_owner};

}

proof fn lemma_memory_provided(s: NodeView, size: u32, fd: i32, buffer: Seq<u8>)
    requires
        bound(s.owners, s.routers),
    ensures
        bound(
            s.memory_provided(size, fd, buffer).0.owners,
            s.memory_provided(size, fd, buffer).0.routers,
        ),
{
    broadcast use {lemma_router, lemma_owner};

}

proof fn lemma_dispatched(
    s: NodeView,
    m: NodeMessageView,
    fds: Seq<i32>,
    buffer: Seq<u8>,
    link_id: u64,
)
    requires
        bound(s.owners, s.routers),
    ensures
        bound(
            s.dispatched(m, fds, buffer, link_id).0.owners,
            s.dispatched(m, fds, buffer, link_id).0.routers,
        ),
{
    broadcast use {lemma_router, lemma_owner};

    match m {
        NodeMessageView::StopProxying(sublink, inbound, outbound) => {
            lemma_proxying_stopped(s, s.owners[(link_id, sublink)], inbound, outbound);
        },
        NodeMessageView::Decoded(d, routers) => match d {
            DecodedView::AddBlockBuffer(b) => {
                lemma_buffer_added(s, b, fds.len(), buffer);
            },
            DecodedView::AcceptParcel(p) => {
                lemma_parcel_accepted(s, InboundView { parcel: p, routers }, link_id);
            },
            DecodedView::RouteClosed(x) => {
                lemma_closed_remotely(
                                s,
                    s.owners[(link_id, x.sublink)],
                    x.sublink,
                    x.sequence_length,
                );
            },
            DecodedView::RouteDisconnected(x) => {
                lemma_disconnected(s, s.owners[(link_id, x.sublink)]);
            },
            DecodedView::BypassPeerWithLink(b) => {
                lemma_bypass_accepted(s, b, link_id);
            },
            DecodedView::StopProxyingToLocalPeer(x) => {
                lemma_local_proxying_stopped(
                                s,
                    s.owners[(link_id, x.sublink)],
                    x.outbound_sequence_length,
                );
            },
            DecodedView::ProvideMemory(x) => {
                lemma_memory_provided(s, x.size, fds[0], buffer);
            },
            _ => {},
        },
    }
}

proof fn lemma_stepped(s: NodeView)
    requires
        bound(s.owners, s.routers),
    ensures
        bound(s.stepped().0.owners, s.stepped().0.routers),
{
    broadcast use {lemma_router, lemma_owner};

    let t = NodeView { tasks: s.tasks.drop_last(), ..s };
    match s.tasks.last() {
        TaskView::Flush(rid, force) => {
            lemma_flush_started(t, rid, force);
        },
        TaskView::FinishFlush(rid, force, a, b, c) => {
            lemma_flush_finished(t, rid, force, a, b, c);
        },
        TaskView::Transmit(link, parcel) => {
            lemma_transmitted(t, link, parcel);
        },
        TaskView::DeliverClosed(link, length) => {
            lemma_closure_delivered(t, link, length);
        },
        TaskView::WakePeer(rid) => {
            lemma_peer_woken(t, rid);
        },
        TaskView::BridgeBypass(rid) => {
            lemma_bridge_bypass(t, rid);
        },
        TaskView::BeginProxying(rid, d, link_id) => {
            lemma_proxying_begun(t, rid, d, link_id);
        },
        TaskView::Accept(p, link_id) => {
            lemma_parcel_accepted(t, p, link_id);
        },
        TaskView::Deserialize(d, link_id) => {
            lemma_deserialized(t, d, link_id);
        },
        TaskView::BypassPeer(rid, requestor, node, sublink) => {
            lemma_peer_bypassed(t, rid, requestor, node, sublink);
        },
        TaskView::Route(p, data, link_id) => {
            lemma_parcel_routed(t, p, data, link_id);
        },
    }
}

proof fn lemma_settled(s: NodeView, n: nat)
    requires
        bound(s.owners, s.routers),
    ensures
        bound(s.settled(n).0.owners, s.settled(n).0.routers),
    decreases n,
{
    broadcast use {lemma_router, lemma_owner};

    if n > 0 && s.tasks.len() > 0 {
        lemma_stepped(s);
        if s.stepped().1 is Ok {
            lemma_settled(s.stepped().0, (n - 1) as nat);
        }
    }
}

proof fn lemma_with_initial_portals(s: NodeView, n: nat)
    requires
        bound(s.owners, s.routers),
    ensures
        bound(s.with_initial_portals(n).owners, s.with_initial_portals(n).routers),
    decreases n,
{
    broadcast use {lemma_router, lemma_owner};

    if n > 0 {
        lemma_with_initial_portals(s, (n - 1) as nat);
    }
}

proof fn lemma_with_bootstrap_bridge(s: NodeView)
    requires
        bound(s.owners, s.routers),
    ensures
        bound(s.with_bootstrap_bridge().0.owners, s.with_bootstrap_bridge().0.routers),
{
    broadcast use {lemma_router, lemma_owner};

}

/// Each piece of work, and any number of them, leaves every sublink with a router
/// that is there.
pub proof fn law_work_keeps_sublinks_bound(s: NodeView, n: nat)
    requires
        bound(s.owners, s.routers),
        s.tasks.len() > 0,
    ensures
        bound(s.stepped().0.owners, s.stepped().0.routers),
        bound(s.settled(n).0.owners, s.settled(n).0.routers),
{
    lemma_stepped(s);
    lemma_settled(s, n);
}

/// A message of another node leaves every sublink with a router that is there,
/// whatever it is.
pub proof fn law_dispatch_keeps_sublinks_bound(
    s: NodeView,
    m: NodeMessageView,
    fds: Seq<i32>,
    buffer: Seq<u8>,
    link_id: u64,
)
    requires
        bound(s.owners, s.routers),
    ensures
        ({
            let t = s.dispatched(m, fds, buffer, link_id).0;
            bound(t.owners, t.routers)
        }),
{
    lemma_dispatched(s, m, fds, buffer, link_id);
}

/// What the application does with its portals leaves every sublink with a router
/// that is there.
pub proof fn law_portal_use_keeps_sublinks_bound(
    s: NodeView,
    rid: u64,
    data: Seq<u8>,
    objects: Seq<Object>,
)
    requires
        bound(s.owners, s.routers),
    ensures
        ({
            let t = s.message_put(rid, data, objects).0;
            bound(t.owners, t.routers)
        }),
        bound(s.portals_opened().owners, s.portals_opened().routers),
        bound(s.closed_here(rid).0.owners, s.closed_here(rid).0.routers),
{
    lemma_message_put(s, rid, data, objects);
    lemma_portals_opened(s);
    lemma_closed_here(s, rid);
}

/// The handshake leaves every sublink with a router that is there.
pub proof fn law_handshake_binds_sublinks(
    s: NodeView,
    c: ConnectFromBrokerToNonBroker,
    contents: Seq<u8>,
)
    requires
        bound(s.owners, s.routers),
    ensures
        ({
            let t = s.connected(c, contents).0;
            bound(t.owners, t.routers)
        }),
{
    let t = NodeView {
        memory: Some(crate::ipcz::dispatch::adopted_memory(contents)),
        broker_name: c.broker_name,
        local_name: c.receiver_name,
        outbox: s.outbox.push(
            NumberedView {
                link_id: LINK_ID_BROKER,
                number: 0,
                message: LinkMessageView::ConnectReply(
                    crate::ipcz::acceptor::ACCEPTOR_INITIAL_PORTALS,
                ),
            },
        ),
        ..s
    };
    lemma_with_initial_portals(t, c.num_initial_portals as nat);
    let u = t.with_initial_portals(c.num_initial_portals as nat).with_message(
        LinkMessageView::SharedMemoryClient,
    ).with_message(LinkMessageView::RouteClosed(0, 1));
    lemma_with_bootstrap_bridge(u);
}

/// A node starts without sublinks, so that each is bound.
pub proof fn law_no_sublink_is_bound(routers: Map<u64, RouterView>)
    ensures
        bound(Map::empty(), routers),
{
    reveal(bound);
}

/// A parcel, a closure or a request for a sublink that is owned finds its
/// router: none is refused because the router is not there.
pub proof fn law_owned_sublink_has_router(s: NodeView, link_id: u64, sublink: u64)
    requires
        bound(s.owners, s.routers),
        s.owners.contains_key((link_id, sublink)),
    ensures
        s.routers.contains_key(s.owners[(link_id, sublink)]),
{
    reveal(bound);
}

/// A router that is removed is gone, and owns no sublink any more.
pub proof fn law_removed_router_owns_nothing(s: NodeView, rid: u64)
    requires
        s.routers.contains_key(rid),
    ensures
        !s.router_removed(rid).routers.contains_key(rid),
        forall|k: (u64, u64)| #[trigger]
            s.router_removed(rid).owners.contains_key(k) ==> s.router_removed(rid).owners[k]
                != rid,
{
    let links = crate::ipcz::routing::links_of(s.routers[rid]);
    let t = NodeView {
        owners: crate::ipcz::pair_map::without_value(
            crate::ipcz::routing::owners_without(s.owners, links),
            rid,
        ),
        ..s
    };
    lemma_states_let_go(t, links);
}

} // verus!
