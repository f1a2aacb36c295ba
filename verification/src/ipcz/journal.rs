//! What every operation of a routing node keeps: messages and events are only
//! added, and those that are added are numbered in order.

use vstd::prelude::*;

#[allow(unused_imports)]
use crate::bytes::next_number;
#[allow(unused_imports)]
use crate::casefile::events::{EventKind, EventView};
#[allow(unused_imports)]
use crate::ipcz::dispatch::NodeMessageView;
#[allow(unused_imports)]
use crate::ipcz::messages::{
    AddBlockBuffer, BypassPeerWithLink, ConnectFromBrokerToNonBroker, DecodedView,
    FragmentDescriptor, NodeName,
};
#[allow(unused_imports)]
use crate::ipcz::node::{
    InboundView, LinkMessageView, NodeStep, NodeView, NumberedView, RouterDescriptor, TaskView,
    LINK_ID_BROKER, LINK_ID_DIRECT,
};
#[allow(unused_imports)]
use crate::ipcz::router::{Link, LinkKind, Object, ParcelView};
#[allow(unused_imports)]
use crate::ipcz::routing::DecayOrder;
#[allow(unused_imports)]
use crate::ipcz::scenario::{ScenarioEvent, ScenarioView, WORK_LIMIT};
#[allow(unused_imports)]
use vstd::utf8::encode_utf8;

verus! {

/// The record of what a node sent and reported.
pub struct Journal {
    /// The messages that are to be sent.
    pub outbox: Seq<NumberedView>,
    /// The number of the next message to the broker.
    pub next_link_seq: u64,
    /// The number of the next message on the direct link.
    pub direct_seq: u64,
    /// The events.
    pub events: Seq<EventView>,
    /// The number of the last event.
    pub event_seq: u64,
}

impl NodeView {
    /// The record of what the node sent and reported.
    pub open spec fn journal(self) -> Journal {
        Journal {
            outbox: self.outbox,
            next_link_seq: self.next_link_seq,
            direct_seq: self.direct_seq,
            events: self.events,
            event_seq: self.event_seq,
        }
    }
}

/// The number after those of the messages on a link, if these follow each other
/// from `start` on.
pub open spec fn next_on_link(messages: Seq<NumberedView>, direct: bool, start: u64) -> Option<u64>
    decreases messages.len(),
{
    if messages.len() == 0 {
        Some(start)
    } else {
        match next_on_link(messages.drop_last(), direct, start) {
            None => None,
            Some(n) => if (messages.last().link_id == LINK_ID_DIRECT) != direct {
                Some(n)
            } else if messages.last().number == n {
                Some(next_number(n))
            } else {
                None
            },
        }
    }
}

/// The number of the last of the events, if they follow each other after
/// `start`.
pub open spec fn last_event(events: Seq<EventView>, start: u64) -> Option<u64>
    decreases events.len(),
{
    if events.len() == 0 {
        Some(start)
    } else {
        match last_event(events.drop_last(), start) {
            None => None,
            Some(n) => if events.last().seq == next_number(n) {
                Some(next_number(n))
            } else {
                None
            },
        }
    }
}

/// Whether a record goes on from another: what was there stays, and what was
/// added is numbered in order, on each link and among the events.
#[verifier::opaque]
pub open spec fn goes_on(a: Journal, b: Journal) -> bool {
    &&& a.outbox.is_prefix_of(b.outbox)
    &&& a.events.is_prefix_of(b.events)
    &&& next_on_link(b.outbox.skip(a.outbox.len() as int), false, a.next_link_seq) == Some(
        b.next_link_seq,
    )
    &&& next_on_link(b.outbox.skip(a.outbox.len() as int), true, a.direct_seq) == Some(b.direct_seq)
    &&& last_event(b.events.skip(a.events.len() as int), a.event_seq) == Some(b.event_seq)
}

/// Whether a record goes on from another by messages alone: these are numbered
/// in order on each link, and there is no event among what was added.
#[verifier::opaque]
pub open spec fn sends_on(a: Journal, b: Journal) -> bool {
    &&& a.outbox.is_prefix_of(b.outbox)
    &&& next_on_link(b.outbox.skip(a.outbox.len() as int), false, a.next_link_seq) == Some(
        b.next_link_seq,
    )
    &&& next_on_link(b.outbox.skip(a.outbox.len() as int), true, a.direct_seq) == Some(b.direct_seq)
    &&& b.events == a.events
    &&& b.event_seq == a.event_seq
}

/// A record goes on from itself.
pub proof fn lemma_same(a: Journal)
    ensures
        sends_on(a, a),
        goes_on(a, a),
{
    reveal(sends_on);
    reveal(goes_on);
    assert(a.outbox.skip(a.outbox.len() as int) =~= Seq::empty());
    assert(a.events.skip(a.events.len() as int) =~= Seq::empty());
}

broadcast proof fn lemma_message(a: Journal, b: Journal, s: NodeView, m: LinkMessageView)
    requires
        #[trigger] sends_on(a, b),
        b == s.journal(),
    ensures
        sends_on(a, (#[trigger] s.with_message(m)).journal()),
{
    reveal(sends_on);
    let n = a.outbox.len() as int;
    let t = s.with_message(m);
    assert(t.outbox.skip(n).drop_last() =~= s.outbox.skip(n));
    assert(t.outbox.skip(n).last() == t.outbox.last());
}

broadcast proof fn lemma_message_on(
    a: Journal,
    b: Journal,
    s: NodeView,
    link_id: u64,
    m: LinkMessageView,
)
    requires
        #[trigger] sends_on(a, b),
        b == s.journal(),
    ensures
        sends_on(a, (#[trigger] s.with_message_on(link_id, m)).0.journal()),
{
    reveal(sends_on);
    let n = a.outbox.len() as int;
    let t = s.with_message_on(link_id, m).0;
    if t != s {
        assert(t.outbox.skip(n).drop_last() =~= s.outbox.skip(n));
        assert(t.outbox.skip(n).last() == t.outbox.last());
    }
}

proof fn lemma_marked_stable(from: Journal, s: NodeView, link: Link)
    requires
        sends_on(from, s.journal()),
    ensures
        sends_on(from, s.marked_stable(link).0.journal()),
{
    broadcast use {lemma_message, lemma_message_on};

}

proof fn lemma_bypass_lock_tried(from: Journal, s: NodeView, link: Link, source: u64)
    requires
        sends_on(from, s.journal()),
    ensures
        sends_on(from, s.bypass_lock_tried(link, source).0.journal()),
{
    broadcast use {lemma_message, lemma_message_on};

}

proof fn lemma_unlocked(from: Journal, s: NodeView, link: Link)
    requires
        sends_on(from, s.journal()),
    ensures
        sends_on(from, s.unlocked(link).0.journal()),
{
    broadcast use {lemma_message, lemma_message_on};

}

proof fn lemma_state_released(from: Journal, s: NodeView, link: Link)
    requires
        sends_on(from, s.journal()),
    ensures
        sends_on(from, s.state_released(link).0.journal()),
{
    broadcast use {lemma_message, lemma_message_on};

}

proof fn lemma_closure_delivered(from: Journal, s: NodeView, link: Link, length: u64)
    requires
        sends_on(from, s.journal()),
    ensures
        sends_on(from, s.closure_delivered(link, length).0.journal()),
{
    broadcast use {lemma_message, lemma_message_on};

}

proof fn lemma_outward_link_set(from: Journal, s: NodeView, rid: u64, link: Link)
    requires
        sends_on(from, s.journal()),
    ensures
        sends_on(from, s.outward_link_set(rid, link).0.journal()),
{
    broadcast use {lemma_message, lemma_message_on};

}

proof fn lemma_states_let_go(from: Journal, s: NodeView, links: Seq<Link>)
    requires
        sends_on(from, s.journal()),
    ensures
        sends_on(from, s.states_let_go(links).journal()),
    decreases links.len(),
{
    broadcast use {lemma_message, lemma_message_on};

    if links.len() > 0 {
        lemma_states_let_go(from, s, links.drop_last());
        lemma_state_released(from, s.states_let_go(links.drop_last()), links.last());
    }
}

proof fn lemma_router_removed(from: Journal, s: NodeView, rid: u64)
    requires
        sends_on(from, s.journal()),
    ensures
        sends_on(from, s.router_removed(rid).journal()),
{
    broadcast use {lemma_message, lemma_message_on};

    if s.routers.contains_key(rid) {
        let links = crate::ipcz::routing::links_of(s.routers[rid]);
        let t = NodeView {
            owners: crate::ipcz::pair_map::without_value(
                crate::ipcz::routing::owners_without(s.owners, links),
                rid,
            ),
            ..s
        };
        lemma_states_let_go(from, t, links);
    }
}

proof fn lemma_flush_started(from: Journal, s: NodeView, rid: u64, force: bool)
    requires
        sends_on(from, s.journal()),
    ensures
        sends_on(from, s.flush_started(rid, force).0.journal()),
{
    broadcast use {lemma_message, lemma_message_on};

}

proof fn lemma_decays_ended(from: Journal, s: NodeView, rid: u64)
    requires
        sends_on(from, s.journal()),
    ensures
        sends_on(from, s.decays_ended(rid).0.journal()),
{
    broadcast use {lemma_message, lemma_message_on};

    reveal(NodeView::decays_ended);
}

proof fn lemma_closures_found(from: Journal, s: NodeView, rid: u64, on_central: bool)
    requires
        sends_on(from, s.journal()),
    ensures
        sends_on(from, s.closures_found(rid, on_central).0.journal()),
{
    broadcast use {lemma_message, lemma_message_on};

    reveal(NodeView::closures_found);
}

proof fn lemma_flush_finished(
    from: Journal,
    s: NodeView,
    rid: u64,
    force: bool,
    on_central: bool,
    outward_decaying: bool,
    inward_decaying: bool,
)
    requires
        sends_on(from, s.journal()),
    ensures
        sends_on(
            from,
            s.flush_finished(rid, force, on_central, outward_decaying, inward_decaying).0.journal(),
        ),
{
    broadcast use {lemma_message, lemma_message_on};

    if s.routers.contains_key(rid) {
        let r = s.routers[rid];
        lemma_decays_ended(from, s, rid);
        let t = s.decays_ended(rid).0;
        let u = t.with_router(rid, t.routers[rid].portal_filled());
        lemma_router_removed(from, u, rid);
        lemma_flush_settled(
            from,
            u,
            rid,
            force,
            on_central,
            r.outward_decay_over(),
            r.inward_decay_over(),
            outward_decaying && !r.outward_decay_over(),
            inward_decaying && !r.inward_decay_over(),
        );
    }
}

proof fn lemma_flush_settled(
    from: Journal,
    s: NodeView,
    rid: u64,
    force: bool,
    on_central: bool,
    out_over: bool,
    in_over: bool,
    out_left: bool,
    in_left: bool,
)
    requires
        sends_on(from, s.journal()),
    ensures
        sends_on(
            from,
            s.flush_settled(rid, force, on_central, out_over, in_over, out_left, in_left).0.journal(),
        ),
{
    broadcast use {lemma_message, lemma_message_on};

    let r = s.routers[rid];
    let mark = on_central && (out_over || in_over) && r.outward.primary is Some && !out_left && (
    r.inward is Some ==> !in_left);
    lemma_marked_stable(from, s, r.outward.primary->Some_0);
    let t = if mark {
        s.marked_stable(r.outward.primary->Some_0).0
    } else {
        s
    };
    lemma_closures_found(from, t, rid, on_central);
}

proof fn lemma_peer_woken(from: Journal, s: NodeView, rid: u64)
    requires
        sends_on(from, s.journal()),
    ensures
        sends_on(from, s.peer_woken(rid).0.journal()),
{
    broadcast use {lemma_message, lemma_message_on};

}

pub(crate) proof fn lemma_closed_here(from: Journal, s: NodeView, rid: u64)
    requires
        sends_on(from, s.journal()),
    ensures
        sends_on(from, s.closed_here(rid).0.journal()),
{
    broadcast use {lemma_message, lemma_message_on};

}

proof fn lemma_closed_remotely(from: Journal, s: NodeView, rid: u64, sublink: u64, length: u64)
    requires
        sends_on(from, s.journal()),
    ensures
        sends_on(from, s.closed_remotely(rid, sublink, length).0.journal()),
{
    broadcast use {lemma_message, lemma_message_on};

}

proof fn lemma_disconnected(from: Journal, s: NodeView, rid: u64)
    requires
        sends_on(from, s.journal()),
    ensures
        sends_on(from, s.disconnected(rid).0.journal()),
{
    broadcast use {lemma_message, lemma_message_on};

}

proof fn lemma_proxying_stopped(from: Journal, s: NodeView, rid: u64, inbound: u64, outbound: u64)
    requires
        sends_on(from, s.journal()),
    ensures
        sends_on(from, s.proxying_stopped(rid, inbound, outbound).0.journal()),
{
    broadcast use {lemma_message, lemma_message_on};

}

proof fn lemma_decay_ordered(from: Journal, s: NodeView, o: DecayOrder)
    requires
        sends_on(from, s.journal()),
    ensures
        sends_on(from, s.decay_ordered(o).0.journal()),
{
    broadcast use {lemma_message, lemma_message_on};

}

proof fn lemma_decays_ordered(from: Journal, s: NodeView, orders: Seq<DecayOrder>)
    requires
        sends_on(from, s.journal()),
    ensures
        sends_on(from, s.decays_ordered(orders).0.journal()),
    decreases orders.len(),
{
    broadcast use {lemma_message, lemma_message_on};

    if orders.len() > 0 {
        lemma_decay_ordered(from, s, orders[0]);
        lemma_decays_ordered(from, s.decay_ordered(orders[0]).0, orders.skip(1));
    }
}

proof fn lemma_state_allocated(from: Journal, s: NodeView, link_id: u64)
    requires
        sends_on(from, s.journal()),
    ensures
        sends_on(from, s.state_allocated(link_id).0.journal()),
{
    broadcast use {lemma_message, lemma_message_on};

}

proof fn lemma_bridge_bypass(from: Journal, s: NodeView, rid: u64)
    requires
        sends_on(from, s.journal()),
    ensures
        sends_on(from, s.bridge_bypass(rid).0.journal()),
{
    broadcast use {lemma_message, lemma_message_on};

    if s.bridge_peer_of(rid) is Some {
        let second = s.bridge_peer_of(rid)->0;
        if s.outward_of(rid) is Some && s.outward_of(second) is Some {
            let a = s.outward_of(rid)->0;
            let b = s.outward_of(second)->0;
            lemma_bypass_lock_tried(from, s, a, s.source_of(b));
            let t = s.bypass_lock_tried(a, s.source_of(b)).0;
            lemma_bypass_lock_tried(from, t, b, s.source_of(a));
            let u = t.bypass_lock_tried(b, s.source_of(a)).0;
            lemma_unlocked(from, u, a);
            lemma_bridge_bypassed(from, u, rid, second, a, b);
        }
    }
}

proof fn lemma_bridge_bypassed(
    from: Journal,
    s: NodeView,
    first: u64,
    second: u64,
    first_link: Link,
    second_link: Link,
)
    requires
        sends_on(from, s.journal()),
    ensures
        sends_on(from, s.bridge_bypassed(first, second, first_link, second_link).0.journal()),
{
    broadcast use {lemma_message, lemma_message_on};

    lemma_decays_ordered(from, s, crate::ipcz::bypass::remote_orders(first, second));
    lemma_half_local_bypass(from, s, first);
    lemma_half_local_bypass(from, s, second);
    if first_link.local_peer is Some && second_link.local_peer is Some {
        lemma_local_bypass(
            from,
            s,
            first,
            second,
            first_link.local_peer->0,
            second_link.local_peer->0,
        );
    }
}

proof fn lemma_half_local_bypass(from: Journal, s: NodeView, rid: u64)
    requires
        sends_on(from, s.journal()),
    ensures
        sends_on(from, s.half_local_bypass(rid).0.journal()),
{
    broadcast use {lemma_message, lemma_message_on};

    let (t, r) = s.state_allocated(LINK_ID_BROKER);
    lemma_state_allocated(from, s, LINK_ID_BROKER);
    if r is Ok && r->Ok_0 is Some {
        lemma_bypass_from_local_peer(from, t, rid, r->Ok_0->0);
    }
}

proof fn lemma_bypass_from_local_peer(from: Journal, s: NodeView, rid: u64, d: FragmentDescriptor)
    requires
        sends_on(from, s.journal()),
    ensures
        sends_on(from, s.bypass_from_local_peer(rid, d).0.journal()),
{
    broadcast use {lemma_message, lemma_message_on};

    if s.bridge_peer_of(rid) is Some && s.routers.contains_key(rid) {
        let other = s.bridge_peer_of(rid)->0;
        if s.routers[rid].outward.spec_local_peer() is Some && s.routers[other].outward.primary
            is Some {
            lemma_bypass_with_new_link(
                from,
                s,
                rid,
                other,
                s.routers[rid].outward.spec_local_peer()->0,
                s.routers[other].outward.primary->0.sublink,
                d,
            );
        }
    }
}

proof fn lemma_bypass_with_new_link(
    from: Journal,
    s: NodeView,
    rid: u64,
    other: u64,
    local: u64,
    remote_sublink: u64,
    d: FragmentDescriptor,
)
    requires
        sends_on(from, s.journal()),
    ensures
        sends_on(from, s.bypass_with_new_link(rid, other, local, remote_sublink, d).0.journal()),
{
    broadcast use {lemma_message, lemma_message_on};

    let n = s.sent_by(local);
    let t = s.sublinks_allocated(LINK_ID_BROKER, 1).0;
    let orders = crate::ipcz::bypass::half_local_orders(rid, other, local, n);
    lemma_decays_ordered(from, t, orders);
    let u = t.decays_ordered(orders).0;
    if s.sublinks_allocated(LINK_ID_BROKER, 1).1 is Ok {
        let sublink = s.sublinks_allocated(LINK_ID_BROKER, 1).1->Ok_0;
        let v = u.with_message(LinkMessageView::BypassPeerWithLink(remote_sublink, sublink, d, n));
        lemma_outward_link_set(
            from,
            v,
            local,
            crate::ipcz::router::remote_link(
                0,
                sublink,
                LinkKind::Central,
                crate::ipcz::router::LinkSide::A,
                Some(d),
            ),
        );
    }
}

proof fn lemma_local_bypass(from: Journal, s: NodeView, first: u64, second: u64, a: u64, b: u64)
    requires
        sends_on(from, s.journal()),
    ensures
        sends_on(from, s.local_bypass(first, second, a, b).0.journal()),
{
    broadcast use {lemma_message, lemma_message_on};

    let orders = crate::ipcz::bypass::local_orders(
        first,
        second,
        a,
        b,
        s.sent_by(a),
        s.sent_by(b),
    );
    lemma_decays_ordered(from, s, orders);
}

proof fn lemma_local_proxying_stopped(from: Journal, s: NodeView, rid: u64, n: u64)
    requires
        sends_on(from, s.journal()),
    ensures
        sends_on(from, s.local_proxying_stopped(rid, n).0.journal()),
{
    broadcast use {lemma_message, lemma_message_on};

}

proof fn lemma_bypass_accepted(from: Journal, s: NodeView, b: BypassPeerWithLink, link_id: u64)
    requires
        sends_on(from, s.journal()),
    ensures
        sends_on(from, s.bypass_accepted(b, link_id).0.journal()),
{
    broadcast use {lemma_message, lemma_message_on};

}

proof fn lemma_peer_bypassed(
    from: Journal,
    s: NodeView,
    rid: u64,
    requestor: u64,
    name: NodeName,
    sublink: u64,
)
    requires
        sends_on(from, s.journal()),
    ensures
        sends_on(from, s.peer_bypassed(rid, requestor, name, sublink).0.journal()),
{
    broadcast use {lemma_message, lemma_message_on};

}

proof fn lemma_serialized(from: Journal, s: NodeView, rid: u64, link_id: u64)
    requires
        sends_on(from, s.journal()),
    ensures
        sends_on(from, s.serialized(rid, link_id).0.journal()),
{
    broadcast use {lemma_message, lemma_message_on};

    reveal(NodeView::serialized);
    if s.routers.contains_key(rid) && s.routers[rid].outward.primary is Some {
        let l = s.routers[rid].outward.primary->0;
        lemma_bypass_lock_tried(from, s, l, s.broker_name.low);
        let (t, r) = s.bypass_lock_tried(l, s.broker_name.low);
        if r is Ok {
            lemma_serialized_as_proxy(from, t, rid, link_id, r->Ok_0);
        }
        if l.local_peer is Some {
            lemma_split_from_local_peer(from, t, rid, l.local_peer->0, link_id);
            let u = t.split_from_local_peer(rid, l.local_peer->0, link_id).0;
            lemma_unlocked(from, u, l);
            lemma_serialized_as_proxy(from, u.unlocked(l).0, rid, link_id, true);
        }
    }
}

proof fn lemma_serialized_as_proxy(from: Journal, s: NodeView, rid: u64, link_id: u64, locked: bool)
    requires
        sends_on(from, s.journal()),
    ensures
        sends_on(from, s.serialized_as_proxy(rid, link_id, locked).0.journal()),
{
    broadcast use {lemma_message, lemma_message_on};

}

proof fn lemma_split_from_local_peer(from: Journal, s: NodeView, rid: u64, peer: u64, link_id: u64)
    requires
        sends_on(from, s.journal()),
    ensures
        sends_on(from, s.split_from_local_peer(rid, peer, link_id).0.journal()),
{
    broadcast use {lemma_message, lemma_message_on};

}

proof fn lemma_proxying_begun(
    from: Journal,
    s: NodeView,
    rid: u64,
    d: RouterDescriptor,
    link_id: u64,
)
    requires
        sends_on(from, s.journal()),
    ensures
        sends_on(from, s.proxying_begun(rid, d, link_id).0.journal()),
{
    broadcast use {lemma_message, lemma_message_on};

}

proof fn lemma_objects_serialized(from: Journal, s: NodeView, objects: Seq<Object>, link_id: u64)
    requires
        sends_on(from, s.journal()),
    ensures
        sends_on(from, s.objects_serialized(objects, link_id).0.journal()),
    decreases objects.len(),
{
    broadcast use {lemma_message, lemma_message_on};

    if objects.len() > 0 {
        lemma_objects_serialized(from, s, objects.drop_last(), link_id);
        if objects.last() is Router {
            lemma_serialized(
                from,
                s.objects_serialized(objects.drop_last(), link_id).0,
                objects.last()->Router_0,
                link_id,
            );
        }
    }
}

proof fn lemma_transmitted(from: Journal, s: NodeView, link: Link, p: ParcelView)
    requires
        sends_on(from, s.journal()),
    ensures
        sends_on(from, s.transmitted(link, p).0.journal()),
{
    broadcast use {lemma_message, lemma_message_on};

    lemma_objects_serialized(from, s, p.objects, link.link_id);
}

proof fn lemma_message_put(
    from: Journal,
    s: NodeView,
    rid: u64,
    data: Seq<u8>,
    objects: Seq<Object>,
)
    requires
        sends_on(from, s.journal()),
    ensures
        sends_on(from, s.message_put(rid, data, objects).0.journal()),
{
    broadcast use {lemma_message, lemma_message_on};

}

proof fn lemma_portals_opened(from: Journal, s: NodeView)
    requires
        sends_on(from, s.journal()),
    ensures
        sends_on(from, s.portals_opened().journal()),
{
    broadcast use {lemma_message, lemma_message_on};

}

proof fn lemma_deserialized(from: Journal, s: NodeView, d: RouterDescriptor, link_id: u64)
    requires
        sends_on(from, s.journal()),
    ensures
        sends_on(from, s.deserialized(d, link_id).0.journal()),
{
    broadcast use {lemma_message, lemma_message_on};

}

proof fn lemma_parcel_accepted(from: Journal, s: NodeView, p: InboundView, link_id: u64)
    requires
        sends_on(from, s.journal()),
    ensures
        sends_on(from, s.parcel_accepted(p, link_id).0.journal()),
{
    broadcast use {lemma_message, lemma_message_on};

}

proof fn lemma_parcel_routed(
    from: Journal,
    s: NodeView,
    p: InboundView,
    data: Seq<u8>,
    link_id: u64,
)
    requires
        sends_on(from, s.journal()),
    ensures
        sends_on(from, s.parcel_routed(p, data, link_id).0.journal()),
{
    broadcast use {lemma_message, lemma_message_on};

}

proof fn lemma_buffer_added(
    from: Journal,
    s: NodeView,
    b: AddBlockBuffer,
    num_fds: nat,
    buffer: Seq<u8>,
)
    requires
        sends_on(from, s.journal()),
    ensures
        sends_on(from, s.buffer_added(b, num_fds, buffer).0.journal()),
{
    broadcast use {lemma_message, lemma_message_on};

}

proof fn lemma_memory_provided(from: Journal, s: NodeView, size: u32, fd: i32, buffer: Seq<u8>)
    requires
        sends_on(from, s.journal()),
    ensures
        sends_on(from, s.memory_provided(size, fd, buffer).0.journal()),
{
    broadcast use {lemma_message, lemma_message_on};

}

pub(crate) proof fn lemma_dispatched(
    from: Journal,
    s: NodeView,
    m: NodeMessageView,
    fds: Seq<i32>,
    buffer: Seq<u8>,
    link_id: u64,
)
    requires
        sends_on(from, s.journal()),
    ensures
        sends_on(from, s.dispatched(m, fds, buffer, link_id).0.journal()),
{
    broadcast use {lemma_message, lemma_message_on};

    match m {
        NodeMessageView::StopProxying(sublink, inbound, outbound) => {
            lemma_proxying_stopped(from, s, s.owners[(link_id, sublink)], inbound, outbound);
        },
        NodeMessageView::Decoded(d, routers) => match d {
            DecodedView::AddBlockBuffer(b) => {
                lemma_buffer_added(from, s, b, fds.len(), buffer);
            },
            DecodedView::AcceptParcel(p) => {
                lemma_parcel_accepted(from, s, InboundView { parcel: p, routers }, link_id);
            },
            DecodedView::RouteClosed(x) => {
                lemma_closed_remotely(
                    from,
                    s,
                    s.owners[(link_id, x.sublink)],
                    x.sublink,
                    x.sequence_length,
                );
            },
            DecodedView::RouteDisconnected(x) => {
                lemma_disconnected(from, s, s.owners[(link_id, x.sublink)]);
            },
            DecodedView::BypassPeerWithLink(b) => {
                lemma_bypass_accepted(from, s, b, link_id);
            },
            DecodedView::StopProxyingToLocalPeer(x) => {
                lemma_local_proxying_stopped(
                    from,
                    s,
                    s.owners[(link_id, x.sublink)],
                    x.outbound_sequence_length,
                );
            },
            DecodedView::ProvideMemory(x) => {
                lemma_memory_provided(from, s, x.size, fds[0], buffer);
            },
            _ => {},
        },
    }
}

proof fn lemma_stepped(from: Journal, s: NodeView)
    requires
        sends_on(from, s.journal()),
    ensures
        sends_on(from, s.stepped().0.journal()),
{
    broadcast use {lemma_message, lemma_message_on};

    let t = NodeView { tasks: s.tasks.drop_last(), ..s };
    match s.tasks.last() {
        TaskView::Flush(rid, force) => {
            lemma_flush_started(from, t, rid, force);
        },
        TaskView::FinishFlush(rid, force, a, b, c) => {
            lemma_flush_finished(from, t, rid, force, a, b, c);
        },
        TaskView::Transmit(link, parcel) => {
            lemma_transmitted(from, t, link, parcel);
        },
        TaskView::DeliverClosed(link, length) => {
            lemma_closure_delivered(from, t, link, length);
        },
        TaskView::WakePeer(rid) => {
            lemma_peer_woken(from, t, rid);
        },
        TaskView::BridgeBypass(rid) => {
            lemma_bridge_bypass(from, t, rid);
        },
        TaskView::BeginProxying(rid, d, link_id) => {
            lemma_proxying_begun(from, t, rid, d, link_id);
        },
        TaskView::Accept(p, link_id) => {
            lemma_parcel_accepted(from, t, p, link_id);
        },
        TaskView::Deserialize(d, link_id) => {
            lemma_deserialized(from, t, d, link_id);
        },
        TaskView::BypassPeer(rid, requestor, node, sublink) => {
            lemma_peer_bypassed(from, t, rid, requestor, node, sublink);
        },
        TaskView::Route(p, data, link_id) => {
            lemma_parcel_routed(from, t, p, data, link_id);
        },
    }
}

proof fn lemma_settled(from: Journal, s: NodeView, n: nat)
    requires
        sends_on(from, s.journal()),
    ensures
        sends_on(from, s.settled(n).0.journal()),
    decreases n,
{
    broadcast use {lemma_message, lemma_message_on};

    if n > 0 && s.tasks.len() > 0 {
        lemma_stepped(from, s);
        if s.stepped().1 is Ok {
            lemma_settled(from, s.stepped().0, (n - 1) as nat);
        }
    }
}

proof fn lemma_with_initial_portals(from: Journal, s: NodeView, n: nat)
    requires
        sends_on(from, s.journal()),
    ensures
        sends_on(from, s.with_initial_portals(n).journal()),
    decreases n,
{
    broadcast use {lemma_message, lemma_message_on};

    if n > 0 {
        lemma_with_initial_portals(from, s, (n - 1) as nat);
    }
}

proof fn lemma_with_bootstrap_bridge(from: Journal, s: NodeView)
    requires
        sends_on(from, s.journal()),
    ensures
        sends_on(from, s.with_bootstrap_bridge().0.journal()),
{
    broadcast use {lemma_message, lemma_message_on};

}

pub(crate) proof fn lemma_initial_links_marked(from: Journal, s: NodeView, n: nat)
    requires
        sends_on(from, s.journal()),
    ensures
        sends_on(from, s.initial_links_marked(n).0.journal()),
    decreases n,
{
    broadcast use {lemma_message, lemma_message_on};

    if n > 0 {
        lemma_initial_links_marked(from, s, (n - 1) as nat);
    }
}

pub(crate) proof fn lemma_parcel_worked(from: Journal, s: NodeView, p: InboundView)
    requires
        sends_on(from, s.journal()),
    ensures
        sends_on(from, s.parcel_worked(p).0.journal()),
{
    broadcast use {lemma_message, lemma_message_on};

    lemma_parcel_accepted(from, s, p, LINK_ID_BROKER);
    lemma_settled(from, s.parcel_accepted(p, LINK_ID_BROKER).0, WORK_LIMIT as nat);
}

proof fn lemma_put_worked(from: Journal, s: NodeView, rid: u64, data: Seq<u8>, objects: Seq<Object>)
    requires
        sends_on(from, s.journal()),
    ensures
        sends_on(from, s.put_worked(rid, data, objects).0.journal()),
{
    broadcast use {lemma_message, lemma_message_on};

    lemma_message_put(from, s, rid, data, objects);
    lemma_settled(from, s.message_put(rid, data, objects).0, WORK_LIMIT as nat);
}

broadcast proof fn lemma_event(a: Journal, b: Journal, s: NodeView, e: EventView)
    requires
        #[trigger] goes_on(a, b),
        b == s.journal(),
        e.seq == next_number(s.event_seq),
    ensures
        goes_on(a, (#[trigger] s.with_event(e)).journal()),
{
    reveal(goes_on);
    let n = a.events.len() as int;
    let t = s.with_event(e);
    assert(t.events.skip(n).drop_last() =~= s.events.skip(n));
    assert(t.events.skip(n).last() == e);
}

proof fn lemma_next_on_link(a: Seq<NumberedView>, b: Seq<NumberedView>, direct: bool, start: u64)
    requires
        next_on_link(a, direct, start) is Some,
    ensures
        next_on_link(a + b, direct, start) == next_on_link(
            b,
            direct,
            next_on_link(a, direct, start)->0,
        ),
    decreases b.len(),
{
    if b.len() == 0 {
        assert(a + b =~= a);
    } else {
        lemma_next_on_link(a, b.drop_last(), direct, start);
        assert((a + b).drop_last() =~= a + b.drop_last());
    }
}

proof fn lemma_last_event(a: Seq<EventView>, b: Seq<EventView>, start: u64)
    requires
        last_event(a, start) is Some,
    ensures
        last_event(a + b, start) == last_event(b, last_event(a, start)->0),
    decreases b.len(),
{
    if b.len() == 0 {
        assert(a + b =~= a);
    } else {
        lemma_last_event(a, b.drop_last(), start);
        assert((a + b).drop_last() =~= a + b.drop_last());
    }
}

/// Over any number of steps, the record goes on as it does over one.
pub proof fn law_records_add_up(a: Journal, b: Journal, c: Journal)
    requires
        goes_on(a, b),
        goes_on(b, c),
    ensures
        goes_on(a, c),
{
    reveal(goes_on);
    let n = a.outbox.len() as int;
    let m = b.outbox.len() as int;
    assert(c.outbox.skip(n) =~= b.outbox.skip(n) + c.outbox.skip(m));
    lemma_next_on_link(b.outbox.skip(n), c.outbox.skip(m), false, a.next_link_seq);
    lemma_next_on_link(b.outbox.skip(n), c.outbox.skip(m), true, a.direct_seq);
    let k = a.events.len() as int;
    let l = b.events.len() as int;
    assert(c.events.skip(k) =~= b.events.skip(k) + c.events.skip(l));
    lemma_last_event(b.events.skip(k), c.events.skip(l), a.event_seq);
    assert(a.outbox.is_prefix_of(c.outbox));
    assert(a.events.is_prefix_of(c.events));
}

/// Each piece of work, and any number of them, only adds messages, numbered in
/// order, and no event.
pub proof fn law_work_is_recorded_in_order(s: NodeView, n: nat)
    requires
        s.tasks.len() > 0,
    ensures
        sends_on(s.journal(), s.stepped().0.journal()),
        sends_on(s.journal(), s.settled(n).0.journal()),
{
    lemma_same(s.journal());
    lemma_stepped(s.journal(), s);
    lemma_settled(s.journal(), s, n);
}

/// A message of another node only adds messages, numbered in order, and no
/// event, whatever it is.
pub proof fn law_dispatch_is_recorded_in_order(
    s: NodeView,
    m: NodeMessageView,
    fds: Seq<i32>,
    buffer: Seq<u8>,
    link_id: u64,
)
    ensures
        sends_on(s.journal(), s.dispatched(m, fds, buffer, link_id).0.journal()),
{
    lemma_same(s.journal());
    lemma_dispatched(s.journal(), s, m, fds, buffer, link_id);
}

/// What the application does with its portals, to put a message into one, to
/// open a pair or to close one, only adds messages, numbered in order, and no
/// event.
pub proof fn law_portal_use_is_recorded_in_order(
    s: NodeView,
    rid: u64,
    data: Seq<u8>,
    objects: Seq<Object>,
)
    ensures
        sends_on(s.journal(), s.message_put(rid, data, objects).0.journal()),
        sends_on(s.journal(), s.portals_opened().journal()),
        sends_on(s.journal(), s.closed_here(rid).0.journal()),
{
    lemma_same(s.journal());
    lemma_message_put(s.journal(), s, rid, data, objects);
    lemma_portals_opened(s.journal(), s);
    lemma_closed_here(s.journal(), s, rid);
}

/// The record with the reply to the greeting, which has the number zero and is
/// not counted.
pub open spec fn with_reply(j: Journal) -> Journal {
    Journal {
        outbox: j.outbox.push(
            NumberedView {
                link_id: LINK_ID_BROKER,
                number: 0,
                message: LinkMessageView::ConnectReply(
                    crate::ipcz::acceptor::ACCEPTOR_INITIAL_PORTALS,
                ),
            },
        ),
        ..j
    }
}

/// The handshake adds the reply; what it adds after that are messages, numbered
/// in order, and no event.
pub proof fn law_handshake_is_recorded_in_order(
    s: NodeView,
    c: ConnectFromBrokerToNonBroker,
    contents: Seq<u8>,
)
    ensures
        sends_on(with_reply(s.journal()), s.connected(c, contents).0.journal()),
{
    broadcast use {lemma_message, lemma_message_on};

    let from = with_reply(s.journal());
    let t = NodeView {
        memory: Some(crate::ipcz::dispatch::adopted_memory(contents)),
        broker_name: c.broker_name,
        local_name: c.receiver_name,
        outbox: with_reply(s.journal()).outbox,
        ..s
    };
    lemma_same(from);
    assert(t.journal() == from);
    lemma_with_initial_portals(from, t, c.num_initial_portals as nat);
    let u = t.with_initial_portals(c.num_initial_portals as nat).with_message(
        LinkMessageView::SharedMemoryClient,
    ).with_message(LinkMessageView::RouteClosed(0, 1));
    lemma_with_bootstrap_bridge(from, u);
}

pub(crate) proof fn lemma_worked(from: Journal, s: NodeStep)
    requires
        sends_on(from, s.0.journal()),
    ensures
        sends_on(from, crate::ipcz::scenario::worked(s).0.journal()),
{
    lemma_settled(from, s.0, WORK_LIMIT as nat);
}

/// What is recorded by messages alone goes on.
pub proof fn law_sending_goes_on(a: Journal, b: Journal)
    requires
        sends_on(a, b),
    ensures
        goes_on(a, b),
{
    reveal(sends_on);
    reveal(goes_on);
    assert(b.events.skip(a.events.len() as int) =~= Seq::empty());
}

proof fn lemma_then_sends(from: Journal, a: Journal, b: Journal)
    requires
        goes_on(from, a),
        sends_on(a, b),
    ensures
        goes_on(from, b),
{
    law_sending_goes_on(a, b);
    law_records_add_up(from, a, b);
}

proof fn lemma_parcel_goes_on(from: Journal, s: NodeView, p: InboundView)
    requires
        goes_on(from, s.journal()),
    ensures
        goes_on(from, s.parcel_worked(p).0.journal()),
{
    lemma_same(s.journal());
    lemma_parcel_worked(s.journal(), s, p);
    lemma_then_sends(from, s.journal(), s.parcel_worked(p).0.journal());
}

proof fn lemma_put_goes_on(
    from: Journal,
    s: NodeView,
    rid: u64,
    data: Seq<u8>,
    objects: Seq<Object>,
)
    requires
        goes_on(from, s.journal()),
    ensures
        goes_on(from, s.put_worked(rid, data, objects).0.journal()),
{
    lemma_same(s.journal());
    lemma_put_worked(s.journal(), s, rid, data, objects);
    lemma_then_sends(from, s.journal(), s.put_worked(rid, data, objects).0.journal());
}

proof fn lemma_marks_go_on(from: Journal, s: NodeView)
    requires
        goes_on(from, s.journal()),
    ensures
        goes_on(from, s.initial_links_marked(2).0.journal()),
{
    lemma_same(s.journal());
    lemma_initial_links_marked(s.journal(), s, 2);
    lemma_then_sends(from, s.journal(), s.initial_links_marked(2).0.journal());
}

proof fn lemma_dispatch_goes_on(
    from: Journal,
    s: NodeView,
    m: NodeMessageView,
    fds: Seq<i32>,
    buffer: Seq<u8>,
)
    requires
        goes_on(from, s.journal()),
    ensures
        goes_on(
            from,
            crate::ipcz::scenario::worked(
                s.dispatched(m, fds, buffer, LINK_ID_BROKER),
            ).0.journal(),
        ),
{
    let x = s.dispatched(m, fds, buffer, LINK_ID_BROKER);
    lemma_same(s.journal());
    lemma_dispatched(s.journal(), s, m, fds, buffer, LINK_ID_BROKER);
    lemma_worked(s.journal(), x);
    lemma_then_sends(from, s.journal(), crate::ipcz::scenario::worked(x).0.journal());
}

proof fn lemma_close_goes_on(from: Journal, s: NodeView, rid: u64)
    requires
        goes_on(from, s.journal()),
    ensures
        goes_on(from, crate::ipcz::scenario::worked(s.closed_here(rid)).0.journal()),
{
    let x = s.closed_here(rid);
    lemma_same(s.journal());
    lemma_closed_here(s.journal(), s, rid);
    lemma_worked(s.journal(), x);
    lemma_then_sends(from, s.journal(), crate::ipcz::scenario::worked(x).0.journal());
}

proof fn lemma_memory_messages_put(from: Journal, s: NodeView, rid: u64, n: nat)
    requires
        goes_on(from, s.journal()),
    ensures
        goes_on(from, s.memory_messages_put(rid, n).0.journal()),
    decreases n,
{
    broadcast use lemma_event;

    if n > 0 {
        lemma_memory_messages_put(from, s, rid, (n - 1) as nat);
        lemma_put_goes_on(
            from,
            s.memory_messages_put(rid, (n - 1) as nat).0,
            rid,
            crate::ipcz::scenario::memory_payload_of((n - 1) as u32),
            Seq::empty(),
        );
    }
}

proof fn lemma_late_message_put(from: Journal, s: NodeView, i: u32, op_id: u64)
    requires
        goes_on(from, s.journal()),
    ensures
        goes_on(from, s.late_message_put(i, op_id).0.journal()),
{
    broadcast use lemma_event;

    lemma_put_goes_on(
        from,
        s,
        s.bootstrap_rid,
        crate::ipcz::scenario::memory_payload_of(i),
        Seq::empty(),
    );
}

proof fn lemma_bootstrap_put(
    from: Journal,
    s: NodeView,
    text: Seq<char>,
    objects: Seq<Object>,
    op_id: u64,
)
    requires
        goes_on(from, s.journal()),
    ensures
        goes_on(from, s.bootstrap_put(text, objects, op_id).0.journal()),
{
    broadcast use lemma_event;

    lemma_put_goes_on(from, s, s.bootstrap_rid, encode_utf8(text), objects);
}

proof fn lemma_transfer_came(from: Journal, v: ScenarioView, p: InboundView)
    requires
        goes_on(from, v.node.journal()),
    ensures
        goes_on(from, v.transfer_came(p).0.node.journal()),
{
    broadcast use lemma_event;

    lemma_marks_go_on(from, v.node);
    lemma_parcel_goes_on(from, v.node.initial_links_marked(2).0, p);
}

proof fn lemma_first_write_came(from: Journal, v: ScenarioView, p: InboundView)
    requires
        goes_on(from, v.node.journal()),
    ensures
        goes_on(from, v.first_write_came(p).0.node.journal()),
{
    broadcast use lemma_event;

    lemma_parcel_goes_on(from, v.node, p);
}

proof fn lemma_late_write_came(from: Journal, v: ScenarioView, p: InboundView)
    requires
        goes_on(from, v.node.journal()),
    ensures
        goes_on(from, v.late_write_came(p).0.node.journal()),
{
    broadcast use lemma_event;

    lemma_parcel_goes_on(from, v.node, p);
    let (s, r) = v.node.parcel_worked(p);
    if r is Ok {
        let t = s.message_noted(16, r->Ok_0.payload, 0);
        lemma_late_message_put(from, t, 9, 17);
        lemma_late_message_put(from, t.late_message_put(9, 17).0, 10, 18);
    }
}

proof fn lemma_flood_came(from: Journal, v: ScenarioView, p: InboundView, count: u32, first: bool)
    requires
        goes_on(from, v.node.journal()),
    ensures
        goes_on(from, v.flood_came(p, count, first).0.node.journal()),
{
    broadcast use lemma_event;

    lemma_parcel_goes_on(from, v.node, p);
    lemma_marks_go_on(from, v.node.parcel_worked(p).0);
}

proof fn lemma_portal_sent_back(from: Journal, v: ScenarioView)
    requires
        goes_on(from, v.node.journal()),
    ensures
        goes_on(from, v.portal_sent_back().0.node.journal()),
{
    broadcast use lemma_event;

    lemma_put_goes_on(from, v.node, v.transferred, encode_utf8("r1"@), Seq::empty());
    let s = v.node.put_worked(v.transferred, encode_utf8("r1"@), Seq::empty()).0.fine(
        5,
        EventKind::Result,
    );
    lemma_put_goes_on(
        from,
        s,
        s.bootstrap_rid,
        encode_utf8("transfer-back"@),
        seq![Object::Router(v.transferred)],
    );
}

proof fn lemma_memory_filled(from: Journal, v: ScenarioView)
    requires
        goes_on(from, v.node.journal()),
    ensures
        goes_on(from, v.memory_filled().0.node.journal()),
{
    lemma_memory_messages_put(from, v.node, v.transferred, 9);
    let s = v.node.memory_messages_put(v.transferred, 9).0;
    lemma_bootstrap_put(from, s, "sync"@, Seq::empty(), 14);
    lemma_bootstrap_put(
        from,
        s.bootstrap_put("sync"@, Seq::empty(), 14).0,
        "transfer-back"@,
        seq![Object::Router(v.transferred)],
        15,
    );
}

proof fn lemma_close_came(
    from: Journal,
    v: ScenarioView,
    m: NodeMessageView,
    fds: Seq<i32>,
    buffer: Seq<u8>,
)
    requires
        goes_on(from, v.node.journal()),
    ensures
        goes_on(from, v.close_came(m, fds, buffer).0.node.journal()),
{
    broadcast use lemma_event;

    let x = v.node.dispatched(m, fds, buffer, LINK_ID_BROKER);
    lemma_dispatch_goes_on(from, v.node, m, fds, buffer);
    let s = crate::ipcz::scenario::worked(x).0.emitted(
        v.last_events().0,
        EventKind::Message,
        "MOJO_RESULT_FAILED_PRECONDITION"@,
    );
    lemma_close_goes_on(from, s, s.bootstrap_rid);
}

proof fn lemma_transfer_made(from: Journal, v: ScenarioView, i: u32, expanded: bool)
    requires
        goes_on(from, v.node.journal()),
    ensures
        goes_on(from, v.transfer_made(i, expanded).0.node.journal()),
{
    let s = v.node.portals_opened();
    lemma_put_goes_on(
        from,
        s,
        s.bootstrap_rid,
        encode_utf8("transfer-"@ + crate::text::decimal(i as nat)),
        seq![Object::Router(next_number(v.node.next_rid))],
    );
}

proof fn lemma_transfer_settled(from: Journal, v: ScenarioView, i: u32, expanded: bool)
    requires
        goes_on(from, v.node.journal()),
    ensures
        goes_on(from, v.transfer_settled(i, expanded).0.node.journal()),
{
    broadcast use lemma_event;

    let w = v.at(v.node.fine((3 + i) as u64, EventKind::Result));
    lemma_transfer_made(from, w, (i + 1) as u32, expanded || v.expanded());
    lemma_bootstrap_put(from, w.node, "sync"@, Seq::empty(), 1523);
}

proof fn lemma_message_came(
    from: Journal,
    v: ScenarioView,
    m: NodeMessageView,
    fds: Seq<i32>,
    buffer: Seq<u8>,
)
    requires
        goes_on(from, v.node.journal()),
    ensures
        goes_on(from, v.message_came(m, fds, buffer).0.node.journal()),
{
    broadcast use lemma_event;

    let x = v.node.dispatched(m, fds, buffer, LINK_ID_BROKER);
    lemma_dispatch_goes_on(from, v.node, m, fds, buffer);
    let w = v.at(crate::ipcz::scenario::worked(x).0);
    lemma_memory_filled(from, w);
    lemma_portal_sent_back(from, w);
    lemma_close_came(from, v, m, fds, buffer);
    if m is Decoded && m->Decoded_0 is AcceptParcel {
        let p = InboundView {
            parcel: m->Decoded_0->AcceptParcel_0,
            routers: m->Decoded_1,
        };
        lemma_transfer_came(from, v, p);
        lemma_first_write_came(from, v, p);
        lemma_late_write_came(from, v, p);
        if v.phase is Flood {
            lemma_flood_came(from, v, p, v.phase->Flood_0, v.phase->Flood_1);
        }
    }
}

/// Whatever happens to a scenario, it only adds messages and events, and numbers
/// them in order; the reply to the greeting is not counted.
pub proof fn law_scenario_is_recorded_in_order(v: ScenarioView, e: ScenarioEvent)
    ensures
        goes_on(
            if e is Greeted {
                with_reply(v.node.journal())
            } else {
                v.node.journal()
            },
            v.advanced(e).0.node.journal(),
        ),
{
    broadcast use lemma_event;

    let from = v.node.journal();
    lemma_same(from);
    match e {
        ScenarioEvent::Greeted(c, contents) => {
            law_handshake_is_recorded_in_order(v.node, c, contents@);
            let x = v.node.connected(c, contents@);
            lemma_worked(with_reply(from), x);
            law_sending_goes_on(with_reply(from), crate::ipcz::scenario::worked(x).0.journal());
        },
        ScenarioEvent::Message(m, fds, buffer) => {
            lemma_message_came(from, v, m@, fds@, buffer@);
        },
        ScenarioEvent::Drained => {
            lemma_transfer_made(from, v, 0, false);
            if v.phase is Transfers {
                lemma_transfer_settled(from, v, v.phase->Transfers_0, v.phase->Transfers_1);
            }
        },
        _ => {},
    }
}

} // verus!
