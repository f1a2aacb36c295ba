//! What happens to the parcels of a route while its links change: each parcel
//! keeps going to the link that its number calls for, and both ends of a link
//! that decays agree on how many parcels it still carries.

use vstd::prelude::*;

#[allow(unused_imports)]
use crate::ipcz::bypass::{half_local_orders, local_orders, remote_orders};
#[allow(unused_imports)]
use crate::ipcz::dispatch::{first_request, NodeMessageView};
#[allow(unused_imports)]
use crate::ipcz::inbound::{described_router, has_link_at, objects_named};
#[allow(unused_imports)]
use crate::ipcz::link_memory::resolve;
#[allow(unused_imports)]
use crate::ipcz::locking::{law_lock_is_had_by_one_side, law_side_is_marked_stable, lock_state};
#[allow(unused_imports)]
use crate::ipcz::messages::{
    AddBlockBuffer, BypassPeerWithLink, DecodedView, FragmentDescriptor, NodeName, RouteClosed,
    StopProxyingToLocalPeer,
};
#[allow(unused_imports)]
use crate::ipcz::node::{
    Fault, InboundView, LinkMessageView, NodeView, RouterDescriptor, TaskView, LINK_ID_BROKER,
};
#[allow(unused_imports)]
use crate::ipcz::router::{
    collected, drained, law_collected_in_sequence, messages_of, sent_in_sequence, Edge, Link,
    LinkKind, LinkSide, Object, ParcelView, QueueView, RouterView,
};
#[allow(unused_imports)]
use crate::ipcz::routing::{closure_findings, transmissions, DecayOrder};

verus! {

/// Whether one more message is to be sent than before, on this link.
pub open spec fn sends(a: NodeView, b: NodeView, link_id: u64, m: LinkMessageView) -> bool {
    &&& b.outbox.len() == a.outbox.len() + 1
    &&& b.outbox.drop_last() == a.outbox
    &&& b.outbox.last().link_id == link_id
    &&& b.outbox.last().message == m
}

/// Whether the parcels with numbers below `n` go to one link, and all others to
/// another.
pub open spec fn splits_at(e: Edge, n: u64, below: Link, from: Option<Link>) -> bool {
    forall|k: u64| #[trigger]
        e.spec_link_for(k) == if k < n {
            Some(below)
        } else {
            from
        }
}

/// Whether a link that decays is done with exactly when so many parcels were
/// sent and so many received.
pub open spec fn decays_until(e: Edge, sent: u64, received: u64) -> bool {
    forall|x: u64, y: u64| #[trigger]
        e.spec_decay_over(x, y) == (x >= sent && y >= received)
}

/// Whether a link is the given one of another node.
pub open spec fn leads_to(
    l: Link,
    link_id: u64,
    sublink: u64,
    kind: LinkKind,
    side: LinkSide,
) -> bool {
    &&& l.link_id == link_id
    &&& l.sublink == sublink
    &&& l.kind == kind
    &&& l.side == side
    &&& l.local_peer is None
}

/// Whether two states have the same routers, but for the one named.
pub open spec fn others_kept(a: NodeView, b: NodeView, rid: u64) -> bool {
    forall|x: u64|
        x != rid && a.routers.contains_key(x) ==> b.routers.contains_key(x)
            && #[trigger] b.routers[x] == a.routers[x]
}

/// Whether the end of a queue, where it is known, is not before what was taken
/// from it.
pub open spec fn ends_ahead(q: QueueView) -> bool {
    q.final_length matches Some(n) ==> n >= q.current
}

/// The parcels that are kept for a sublink that nobody owns yet.
pub open spec fn kept_for(s: NodeView, key: (u64, u64)) -> Seq<InboundView> {
    if s.early.contains_key(key) {
        s.early[key]
    } else {
        Seq::empty()
    }
}

/// Whether parcels are accepted next, the first of them first, and then the work
/// goes on as before.
pub open spec fn accepts_next(
    before: Seq<TaskView>,
    after: Seq<TaskView>,
    queue: Seq<InboundView>,
    link_id: u64,
) -> bool {
    &&& after.len() == before.len() + queue.len()
    &&& after.take(before.len() as int) == before
    &&& forall|i: int|
        0 <= i < queue.len() ==> after[after.len() - 1 - i] == TaskView::Accept(
            #[trigger] queue[i],
            link_id,
        )
}

/// Whether two routers hold the same parcels, numbers and messages.
pub open spec fn same_cargo(a: RouterView, b: RouterView) -> bool {
    a.inbound == b.inbound && a.outbound == b.outbound && a.portal == b.portal
}

/// The link of an edge that a parcel goes to: the one that decays, as long as
/// its length is not reached or not known, and then the primary one.
pub proof fn law_edge_directs_parcels(e: Edge, k: u64, x: u64, y: u64)
    ensures
        e.decaying is None ==> e.spec_link_for(k) == e.primary && !e.spec_decay_over(x, y),
        e.decaying matches Some(d) ==> d.link matches Some(l) ==> {
            &&& d.outgoing_length is None ==> e.spec_link_for(k) == Some(l)
            &&& d.outgoing_length matches Some(n) ==> k < n ==> e.spec_link_for(k) == Some(l)
            &&& d.outgoing_length matches Some(n) ==> k >= n ==> e.spec_link_for(k) == e.primary
            &&& e.spec_decay_over(x, y) == (d.outgoing_length is Some && d.incoming_length is Some
                && x >= d.outgoing_length->0 && y >= d.incoming_length->0)
        },
        e.spec_is_decay_deferred() ==> e.spec_link_for(k) == e.primary && !e.spec_decay_over(x, y),
{
}

/// When the peer offers a new link (`BypassPeerWithLink`), the router adopts it
/// and tells the peer how many parcels it has put on the old one
/// (`StopProxyingToLocalPeer`): exactly those still go there, and all others to
/// the new link. The old link is done with once these were sent and as many
/// received as the peer said that it had sent.
pub proof fn law_offered_link_is_adopted(
    s: NodeView,
    b: BypassPeerWithLink,
    routers: Seq<RouterDescriptor>,
    fds: Seq<i32>,
    buffer: Seq<u8>,
    link_id: u64,
    rid: u64,
    old_link: Link,
)
    requires
        !b.new_link_state_fragment.spec_is_null(),
        s.memory is Some,
        resolve(s.memory->0, b.new_link_state_fragment) is Ok,
        s.owners.contains_key((link_id, b.sublink)),
        s.owners[(link_id, b.sublink)] == rid,
        s.routers.contains_key(rid),
        s.routers[rid].outward.primary == Some(old_link),
        s.routers[rid].outward.decaying is None,
        !s.routers[rid].disconnected,
        old_link.local_peer is None,
    ensures
        ({
            let (t, r) = s.dispatched(
                NodeMessageView::Decoded(DecodedView::BypassPeerWithLink(b), routers),
                fds,
                buffer,
                link_id,
            );
            let sent = s.routers[rid].outbound.current;
            let q = t.routers[rid];
            &&& r is Ok
            &&& sends(
                s,
                t,
                LINK_ID_BROKER,
                LinkMessageView::StopProxyingToLocalPeer(old_link.sublink, sent),
            )
            &&& t.routers.contains_key(rid)
            &&& same_cargo(q, s.routers[rid])
            &&& q.outward.primary is Some
            &&& leads_to(
                q.outward.primary->0,
                link_id,
                b.new_sublink,
                LinkKind::Central,
                LinkSide::B,
            )
            &&& q.outward.primary->0.link_state == Some(b.new_link_state_fragment)
            &&& splits_at(q.outward, sent, old_link, q.outward.primary)
            &&& decays_until(q.outward, sent, b.inbound_sequence_length)
            &&& t.owners.contains_key((link_id, b.new_sublink))
            &&& t.owners[(link_id, b.new_sublink)] == rid
            &&& t.owners.contains_key((link_id, b.sublink))
            &&& t.owners[(link_id, b.sublink)] == rid
            &&& !t.early.contains_key((link_id, b.new_sublink))
            &&& accepts_next(
                s.tasks.push(TaskView::Flush(rid, false)),
                t.tasks,
                kept_for(s, (link_id, b.new_sublink)),
                link_id,
            )
            &&& others_kept(s, t, rid)
        }),
{
    let (t, r) = s.bypass_accepted(b, link_id);
    assert(t.outbox.drop_last() =~= s.outbox);
    let key = (link_id, b.new_sublink);
    assert(t.tasks.take(s.tasks.len() as int + 1) =~= s.tasks.push(TaskView::Flush(rid, false)));
}

/// When a router leaves a proxy for the node behind it, that node is told
/// (`AcceptBypassLink`) how many parcels went to the proxy: exactly those still
/// go there, and all others over the new link.
pub proof fn law_proxy_is_left(
    s: NodeView,
    rid: u64,
    proxy: NodeName,
    sublink: u64,
    target: u64,
    d: FragmentDescriptor,
    new_sublink: u64,
    old_link: Link,
)
    requires
        s.routers.contains_key(rid),
        s.routers[rid].outward.primary == Some(old_link),
        s.routers[rid].outward.decaying is None,
        !s.routers[rid].disconnected,
        s.remote_link_taken(rid, proxy, sublink, target, d, new_sublink).1 is Ok,
    ensures
        ({
            let t = s.remote_link_taken(rid, proxy, sublink, target, d, new_sublink).0;
            let sent = s.routers[rid].outbound.current;
            let q = t.routers[rid];
            &&& sends(
                s,
                t,
                if target == crate::ipcz::node::LINK_ID_DIRECT {
                    target
                } else {
                    LINK_ID_BROKER
                },
                LinkMessageView::AcceptBypassLink(proxy, sublink, sent, new_sublink, d),
            )
            &&& same_cargo(q, s.routers[rid])
            &&& q.outward.primary is Some
            &&& leads_to(
                q.outward.primary->0,
                target,
                new_sublink,
                LinkKind::Central,
                LinkSide::A,
            )
            &&& q.outward.primary->0.link_state == Some(d)
            &&& splits_at(q.outward, sent, old_link, q.outward.primary)
            &&& q.outward.spec_length_from() is None
            &&& others_kept(s, t, rid)
        }),
{
    let t = s.remote_link_taken(rid, proxy, sublink, target, d, new_sublink).0;
    assert(t.outbox.drop_last() =~= s.outbox);
}

/// A proxy that is told to stop (`StopProxying`) forwards what came in up to the
/// one length and what goes out up to the other, on both of its sides alike.
pub proof fn law_proxy_stops(
    s: NodeView,
    sublink: u64,
    inbound: u64,
    outbound: u64,
    fds: Seq<i32>,
    buffer: Seq<u8>,
    link_id: u64,
    rid: u64,
    out_link: Link,
    in_link: Link,
)
    requires
        s.owners.contains_key((link_id, sublink)),
        s.owners[(link_id, sublink)] == rid,
        s.routers.contains_key(rid),
        s.routers[rid].outward.spec_decaying_link() == Some(out_link),
        s.routers[rid].inward is Some,
        s.routers[rid].inward->0.spec_decaying_link() == Some(in_link),
        s.dispatched(
            NodeMessageView::StopProxying(sublink, inbound, outbound),
            fds,
            buffer,
            link_id,
        ).1 is Ok,
    ensures
        ({
            let t = s.dispatched(
                NodeMessageView::StopProxying(sublink, inbound, outbound),
                fds,
                buffer,
                link_id,
            ).0;
            let r = s.routers[rid];
            let q = t.routers[rid];
            &&& same_cargo(q, r)
            &&& q.inward is Some
            &&& splits_at(q.outward, outbound, out_link, r.outward.primary)
            &&& decays_until(q.outward, outbound, inbound)
            &&& splits_at(q.inward->0, inbound, in_link, r.inward->0.primary)
            &&& decays_until(q.inward->0, inbound, outbound)
            &&& t.tasks == s.tasks.push(TaskView::Flush(rid, false))
            &&& t.outbox == s.outbox
            &&& others_kept(s, t, rid)
        }),
{
}

/// A proxy to a local router that is told to stop (`StopProxyingToLocalPeer`)
/// takes `n` parcels from the far side and hands them to the local router, which
/// expects as many from it.
pub proof fn law_local_proxy_stops(
    s: NodeView,
    x: StopProxyingToLocalPeer,
    routers: Seq<RouterDescriptor>,
    fds: Seq<i32>,
    buffer: Seq<u8>,
    link_id: u64,
    rid: u64,
    peer: u64,
)
    requires
        s.owners.contains_key((link_id, x.sublink)),
        s.owners[(link_id, x.sublink)] == rid,
        s.routers.contains_key(rid),
        s.routers.contains_key(peer),
        rid != peer,
        s.routers[rid].bridge is None,
        s.routers[rid].outward.spec_decaying_local_peer() == Some(peer),
        s.routers[peer].outward.spec_decaying_link() is Some,
        s.dispatched(
            NodeMessageView::Decoded(DecodedView::StopProxyingToLocalPeer(x), routers),
            fds,
            buffer,
            link_id,
        ).1 is Ok,
    ensures
        ({
            let t = s.dispatched(
                NodeMessageView::Decoded(DecodedView::StopProxyingToLocalPeer(x), routers),
                fds,
                buffer,
                link_id,
            ).0;
            let n = x.outbound_sequence_length;
            let p = t.routers[rid];
            let q = t.routers[peer];
            &&& same_cargo(p, s.routers[rid])
            &&& same_cargo(q, s.routers[peer])
            &&& q.outward.spec_length_from() == Some(n)
            &&& q.outward.spec_length_to() == s.routers[peer].outward.spec_length_to()
            &&& p.outward.spec_length_to() == Some(n)
            &&& p.outward.spec_length_from() == s.routers[rid].outward.spec_length_from()
            &&& p.inward is Some
            &&& s.routers[rid].inward->0.decaying is Some ==> p.inward->0.spec_length_from()
                == Some(n)
            &&& p.inward->0.spec_length_to() == s.routers[rid].inward->0.spec_length_to()
            &&& p.outward.primary == s.routers[rid].outward.primary
            &&& q.outward.primary == s.routers[peer].outward.primary
            &&& t.outbox == s.outbox
            &&& t.tasks == s.tasks.push(TaskView::Flush(peer, false)).push(
                TaskView::Flush(rid, false),
            )
            &&& forall|y: u64|
                y != rid && y != peer && s.routers.contains_key(y) ==> #[trigger] t.routers[y]
                    == s.routers[y]
        }),
{
}

/// A bridge to a local router that is told to stop (`StopProxyingToLocalPeer`)
/// takes `n` parcels from the far side, hands them over the bridge and on to the
/// local router, which expects as many.
pub proof fn law_bridge_proxy_stops(
    s: NodeView,
    x: StopProxyingToLocalPeer,
    routers: Seq<RouterDescriptor>,
    fds: Seq<i32>,
    buffer: Seq<u8>,
    link_id: u64,
    rid: u64,
    other: u64,
    peer: u64,
)
    requires
        s.owners.contains_key((link_id, x.sublink)),
        s.owners[(link_id, x.sublink)] == rid,
        s.routers.contains_key(rid),
        s.routers.contains_key(other),
        s.routers.contains_key(peer),
        rid != other && rid != peer && other != peer,
        s.routers[rid].bridge is Some,
        s.routers[rid].bridge->0.spec_decaying_local_peer() == Some(other),
        s.routers[other].outward.spec_decaying_local_peer() == Some(peer),
        s.routers[other].bridge is Some,
        s.routers[other].bridge->0.decaying is Some,
        s.dispatched(
            NodeMessageView::Decoded(DecodedView::StopProxyingToLocalPeer(x), routers),
            fds,
            buffer,
            link_id,
        ).1 is Ok,
    ensures
        ({
            let t = s.dispatched(
                NodeMessageView::Decoded(DecodedView::StopProxyingToLocalPeer(x), routers),
                fds,
                buffer,
                link_id,
            ).0;
            let n = x.outbound_sequence_length;
            &&& same_cargo(t.routers[rid], s.routers[rid])
            &&& same_cargo(t.routers[other], s.routers[other])
            &&& same_cargo(t.routers[peer], s.routers[peer])
            &&& t.routers[rid].outward.spec_length_from() == Some(n)
            &&& t.routers[rid].bridge is Some
            &&& t.routers[rid].bridge->0.spec_length_to() == Some(n)
            &&& t.routers[other].bridge is Some
            &&& t.routers[other].bridge->0.spec_length_from() == Some(n)
            &&& t.routers[other].outward.spec_length_to() == Some(n)
            &&& t.routers[peer].outward.spec_length_from() == Some(n)
            &&& t.routers[rid].outward.spec_length_to()
                == s.routers[rid].outward.spec_length_to()
            &&& t.routers[peer].outward.spec_length_to()
                == s.routers[peer].outward.spec_length_to()
            &&& t.outbox == s.outbox
        }),
{
}

/// Closing a route here ends it after the parcels that were sent. The end that
/// the far side closed (`RouteClosed`) comes after as many as it says. Neither
/// drops a parcel.
pub proof fn law_closes_have_lengths(
    s: NodeView,
    rid: u64,
    x: RouteClosed,
    routers: Seq<RouterDescriptor>,
    fds: Seq<i32>,
    buffer: Seq<u8>,
    link_id: u64,
)
    requires
        s.routers.contains_key(rid),
    ensures
        ({
            let (t, r) = s.closed_here(rid);
            let q = t.routers[rid];
            &&& r is Ok == s.routers[rid].inward is None
            &&& r is Ok ==> q.outbound.final_length == Some(s.routers[rid].outbound.current)
            &&& r is Ok ==> q.outbound.parcels == s.routers[rid].outbound.parcels
            &&& r is Ok ==> q.outbound.current == s.routers[rid].outbound.current
            &&& r is Ok ==> q.inbound == s.routers[rid].inbound
            &&& r is Ok ==> q.portal == s.routers[rid].portal
            &&& others_kept(s, t, rid)
        }),
        s.owners.contains_key((link_id, x.sublink)) && s.owners[(link_id, x.sublink)] == rid ==> ({
            let (t, r) = s.dispatched(
                NodeMessageView::Decoded(DecodedView::RouteClosed(x), routers),
                fds,
                buffer,
                link_id,
            );
            let p = s.routers[rid];
            let q = t.routers[rid];
            let outward = (p.outward.primary matches Some(l) && l.sublink == x.sublink) || (
            p.outward.spec_decaying_link() matches Some(l) && l.sublink == x.sublink);
            &&& r is Ok == (x.sequence_length >= if outward {
                p.inbound.current
            } else {
                p.outbound.current
            })
            &&& r is Ok && outward ==> q.peer_closed && q.inbound.final_length == Some(
                x.sequence_length,
            ) && q.inbound.parcels == p.inbound.parcels && q.outbound == p.outbound
            &&& r is Ok && !outward ==> q.outbound.final_length == Some(x.sequence_length)
                && q.outbound.parcels == p.outbound.parcels && q.inbound == p.inbound
            &&& q.portal == p.portal
            &&& q.inbound.current == p.inbound.current
            &&& q.outbound.current == p.outbound.current
            &&& t.outbox == s.outbox
            &&& others_kept(s, t, rid)
        }),
{
}

/// The end of a route is told to the other end of a link with its length: to
/// another node by `RouteClosed`, to a local router at once.
pub proof fn law_end_of_route_is_told(s: NodeView, link: Link, length: u64)
    ensures
        link.local_peer is None ==> {
            let (t, r) = s.closure_delivered(link, length);
            &&& r is Ok
            &&& sends(s, t, LINK_ID_BROKER, LinkMessageView::RouteClosed(link.sublink, length))
            &&& t.routers == s.routers
        },
        link.local_peer matches Some(peer) ==> s.routers.contains_key(peer) ==> {
            let (t, r) = s.closure_delivered(link, length);
            let p = s.routers[peer];
            let q = t.routers[peer];
            let outward = link.kind is Central || link.kind is PeripheralOutward;
            &&& t.outbox == s.outbox
            &&& r is Ok == (length >= if outward {
                p.inbound.current
            } else {
                p.outbound.current
            })
            &&& r is Ok && outward ==> q.inbound.final_length == Some(length) && q.outbound
                == p.outbound
            &&& r is Ok && !outward ==> q.outbound.final_length == Some(length) && q.inbound
                == p.inbound
            &&& q.inbound.parcels == p.inbound.parcels
            &&& q.outbound.parcels == p.outbound.parcels
        },
{
    if link.local_peer is None {
        assert(s.closure_delivered(link, length).0.outbox.drop_last() =~= s.outbox);
    }
}

/// A parcel that comes on a sublink of a router is kept under its number until
/// its turn, on the side that the sublink belongs to; one whose turn is over is
/// refused. No other parcel of the router is touched.
pub proof fn law_arriving_parcel_is_kept(
    s: NodeView,
    rid: u64,
    link_id: u64,
    sublink: u64,
    p: ParcelView,
)
    requires
        s.routers.contains_key(rid),
    ensures
        ({
            let (t, res) = s.parcel_queued(rid, link_id, sublink, p);
            let r = s.routers[rid];
            let q = t.routers[rid];
            let n = p.sequence_number;
            let outward = has_link_at(r.outward, link_id, sublink);
            let inward = r.inward is Some && has_link_at(r.inward->0, link_id, sublink);
            &&& res is Ok == ((outward && n >= r.inbound.current) || (!outward && inward && n
                >= r.outbound.current))
            &&& res is Err ==> t == s
            &&& res is Ok && outward ==> {
                &&& q.inbound.parcels.contains_key(n)
                &&& q.inbound.parcels[n] == p
                &&& q.inbound.parcels.remove(n) == r.inbound.parcels.remove(n)
                &&& q.inbound.current == r.inbound.current
                &&& q.outbound == r.outbound
            }
            &&& res is Ok && !outward ==> {
                &&& q.outbound.parcels.contains_key(n)
                &&& q.outbound.parcels[n] == p
                &&& q.outbound.parcels.remove(n) == r.outbound.parcels.remove(n)
                &&& q.outbound.current == r.outbound.current
                &&& q.inbound == r.inbound
            }
            &&& q.portal == r.portal
            &&& res is Ok ==> t.tasks == s.tasks.push(TaskView::Flush(rid, false))
            &&& others_kept(s, t, rid)
        }),
{
    let (t, res) = s.parcel_queued(rid, link_id, sublink, p);
    let r = s.routers[rid];
    let q = t.routers[rid];
    let n = p.sequence_number;
    if res is Ok {
        assert(q.inbound.parcels.remove(n) =~= r.inbound.parcels.remove(n));
        assert(q.outbound.parcels.remove(n) =~= r.outbound.parcels.remove(n));
    }
}

/// Collecting what can be sent loses nothing: each parcel of the queue is either
/// among what is sent, under its own number, or still in the queue.
pub proof fn law_collecting_loses_nothing(q: QueueView, e: Edge, n: u64)
    requires
        q.parcels.dom().finite(),
        q.parcels.contains_key(n),
        q.current + collected(q, e).0.len() <= u64::MAX,
    ensures
        ({
            let (list, left) = collected(q, e);
            let i = n - q.current;
            if 0 <= i < list.len() {
                list[i].1 == q.parcels[n] && e.spec_link_for(n) == Some(list[i].0)
            } else {
                left.parcels.contains_key(n) && left.parcels[n] == q.parcels[n]
            }
        }),
    decreases q.parcels.dom().len(),
{
    let (list, left) = collected(q, e);
    law_collected_in_sequence(q, e);
    if 0 <= n - q.current < list.len() {
        assert(sent_in_sequence(q, e, n - q.current, list[n - q.current]));
    } else if e.spec_link_for(q.current) is Some && q.has_next() {
        let rest = collected(q.popped(), e).0;
        assert(q.popped().parcels.dom() =~= q.parcels.dom().remove(q.current));
        assert(list.len() == rest.len() + 1);
        assert(n != q.current);
        law_collecting_loses_nothing(q.popped(), e, n);
    }
}

/// A flush sends what can be sent in the order of the numbers: the first of the
/// parcels that go out is sent next, and then the others in turn.
pub proof fn law_flush_sends_in_order(s: NodeView, rid: u64, force: bool, i: int)
    requires
        s.routers.contains_key(rid),
    ensures
        ({
            let (t, res) = s.flush_started(rid, force);
            let (out, left) = collected(s.routers[rid].outbound, s.routers[rid].outward);
            let n = t.tasks.len();
            &&& res is Ok
            &&& t.routers[rid].outbound == left
            &&& 0 <= i < out.len() ==> n - 1 - i >= 0 && t.tasks[n - 1 - i]
                == TaskView::Transmit(out[i].0, out[i].1)
            &&& s.tasks.is_prefix_of(t.tasks)
            &&& t.routers[rid].portal == s.routers[rid].portal
            &&& t.routers[rid].outward == s.routers[rid].outward
            &&& t.outbox == s.outbox
        }),
{
    let r = s.routers[rid];
    let (t, res) = s.flush_started(rid, force);
    let out = collected(r.outbound, r.outward).0;
    let all = r.sendable().0;
    if 0 <= i < out.len() {
        assert(all[i] == out[i]);
        let rest = transmissions(all);
        assert(rest[all.len() - 1 - i] == TaskView::Transmit(all[i].0, all[i].1));
    }
    assert(s.tasks.is_prefix_of(t.tasks));
}

/// What a portal gets is what came in, in the order of the numbers, and nothing
/// twice: the messages that it had, then the next ones in sequence.
pub proof fn law_portal_gets_next_in_sequence(q: QueueView, i: int)
    requires
        q.parcels.dom().finite(),
        q.current + drained(q).0.len() <= u64::MAX,
    ensures
        ({
            let (list, left) = drained(q);
            &&& 0 <= i < list.len() ==> q.parcels.contains_key((q.current + i) as u64) && list[i]
                == q.parcels[(q.current + i) as u64] && messages_of(list)[i] == (
                list[i].data,
                list[i].objects,
            )
            &&& left.current == q.current + list.len()
            &&& left.final_length == q.final_length
            &&& !left.has_next()
        }),
    decreases q.parcels.dom().len(),
{
    if q.has_next() {
        let (rest, left) = drained(q.popped());
        assert(q.popped().parcels.dom() =~= q.parcels.dom().remove(q.current));
        assert(drained(q).0.len() == rest.len() + 1);
        assert(q.current < u64::MAX);
        law_portal_gets_next_in_sequence(q.popped(), i - 1);
    }
}

/// A parcel that is sent to another node goes out on the sublink of its link,
/// with its number, its data and where that is, and the descriptions of its
/// routers. Over a local link it comes to the peer under the same number.
pub proof fn law_parcel_is_transmitted(s: NodeView, link: Link, p: ParcelView)
    ensures
        link.local_peer is None && p.objects.len() == 0 ==> {
            let (t, res) = s.transmitted(link, p);
            &&& res is Ok
            &&& sends(
                s,
                t,
                LINK_ID_BROKER,
                LinkMessageView::Parcel(
                    link.sublink,
                    p.sequence_number,
                    p.fragment,
                    p.data,
                    Seq::empty(),
                ),
            )
            &&& t.routers == s.routers
            &&& t.tasks == s.tasks
        },
        link.local_peer matches Some(peer) ==> s.routers.contains_key(peer) && (link.kind is Central
            || link.kind is Bridge) ==> {
            let (t, res) = s.transmitted(link, p);
            let r = s.routers[peer];
            let q = t.routers[peer];
            let n = p.sequence_number;
            &&& link.kind is Central ==> {
                &&& res is Ok == (n >= r.inbound.current)
                &&& res is Ok ==> q.inbound.parcels == r.inbound.parcels.insert(n, p)
                &&& q.inbound.current == r.inbound.current
                &&& q.outbound == r.outbound
            }
            &&& link.kind is Bridge ==> {
                &&& res is Ok == (n >= r.outbound.current)
                &&& res is Ok ==> q.outbound.parcels == r.outbound.parcels.insert(n, p)
                &&& q.outbound.current == r.outbound.current
                &&& q.inbound == r.inbound
            }
            &&& t.outbox == s.outbox
            &&& others_kept(s, t, peer)
        },
{
    if link.local_peer is None && p.objects.len() == 0 {
        let t = s.transmitted(link, p).0;
        assert(t.outbox.drop_last() =~= s.outbox);
        assert(crate::ipcz::transfer::descriptors_of(Seq::empty()) =~= Seq::empty());
        assert(t.tasks =~= s.tasks);
    }
}

/// A decaying link is let go of exactly when the parcels that it still carries
/// were sent and received; the primary link and the parcels stay.
pub proof fn law_decay_ends_when_met(r: RouterView)
    ensures
        ({
            let q = r.decays_finished();
            let sent = r.outbound.current;
            let received = r.inbound.current;
            &&& same_cargo(q, r)
            &&& q.bridge == r.bridge
            &&& q.outward.primary == r.outward.primary
            &&& q.outward.decaying == if r.outward.spec_decay_over(sent, received) {
                None
            } else {
                r.outward.decaying
            }
            &&& r.inward is None ==> q.inward is None
            &&& r.inward matches Some(e) ==> q.inward is Some && q.inward->0.primary == e.primary
                && q.inward->0.decaying == if e.spec_decay_over(received, sent) {
                None
            } else {
                e.decaying
            }
            &&& r.bridge matches Some(e) ==> r.bridge_decay_over() == e.spec_decay_over(
                received,
                sent,
            )
        }),
{
}

/// When a bridge between two local routers is collapsed, each of the two keeps
/// sending what it has numbered so far over the bridge and the rest to the
/// other one. Every part of the bridge carries exactly that much each way.
#[verifier::spinoff_prover]
#[verifier::rlimit(60)]
pub proof fn law_bridge_collapses_between_local_routers(
    s: NodeView,
    first: u64,
    second: u64,
    a: u64,
    b: u64,
    la: Link,
    lb: Link,
    lf: Link,
    ls: Link,
    bf: Link,
    bs: Link,
)
    requires
        first != second && first != a && first != b && second != a && second != b && a != b,
        s.routers.contains_key(first) && s.routers.contains_key(second),
        s.routers.contains_key(a) && s.routers.contains_key(b),
        s.routers[a].outward == (Edge { primary: Some(la), decaying: None }),
        s.routers[b].outward == (Edge { primary: Some(lb), decaying: None }),
        s.routers[first].outward == (Edge { primary: Some(lf), decaying: None }),
        s.routers[second].outward == (Edge { primary: Some(ls), decaying: None }),
        s.routers[first].bridge == Some(Edge { primary: Some(bf), decaying: None }),
        s.routers[second].bridge == Some(Edge { primary: Some(bs), decaying: None }),
        lf.local_peer == Some(a),
        ls.local_peer == Some(b),
    ensures
        ({
            let (t, r) = s.bridge_bypassed(first, second, lf, ls);
            let n = s.routers[a].outbound.current;
            let m = s.routers[b].outbound.current;
            let qa = t.routers[a].outward;
            let qb = t.routers[b].outward;
            &&& r is Ok
            &&& t.outbox == s.outbox
            &&& t.routers.dom() == s.routers.dom()
            &&& qa.primary is Some && qa.primary->0.local_peer == Some(b)
            &&& qb.primary is Some && qb.primary->0.local_peer == Some(a)
            &&& qa.primary->0.kind is Central && qb.primary->0.kind is Central
            &&& qa.primary->0.side != qb.primary->0.side
            &&& splits_at(qa, n, la, qa.primary) && decays_until(qa, n, m)
            &&& splits_at(qb, m, lb, qb.primary) && decays_until(qb, m, n)
            &&& splits_at(t.routers[first].outward, m, lf, None)
            &&& decays_until(t.routers[first].outward, m, n)
            &&& splits_at(t.routers[second].outward, n, ls, None)
            &&& decays_until(t.routers[second].outward, n, m)
            &&& t.routers[first].bridge is Some && t.routers[second].bridge is Some
            &&& splits_at(t.routers[first].bridge->0, n, bf, None)
            &&& decays_until(t.routers[first].bridge->0, n, m)
            &&& splits_at(t.routers[second].bridge->0, m, bs, None)
            &&& decays_until(t.routers[second].bridge->0, m, n)
            &&& same_cargo(t.routers[a], s.routers[a])
            &&& same_cargo(t.routers[b], s.routers[b])
            &&& same_cargo(t.routers[first], s.routers[first])
            &&& same_cargo(t.routers[second], s.routers[second])
        }),
{
    reveal_with_fuel(NodeView::decays_ordered, 7);
    let n = s.sent_by(a);
    let m = s.sent_by(b);
    let o = local_orders(first, second, a, b, n, m);
    lemma_skips(o);
    let t = s.bridge_bypassed(first, second, lf, ls).0;
    assert(t.routers.dom() =~= s.routers.dom());
}

proof fn lemma_skips(o: Seq<DecayOrder>)
    ensures
        forall|i: int, j: int|
            0 <= i <= o.len() && 0 <= j <= o.len() - i ==> #[trigger] o.skip(i).skip(j) == o.skip(
                i + j,
            ),
        forall|i: int| 0 <= i < o.len() ==> #[trigger] o.skip(i)[0] == o[i],
{
    assert forall|i: int, j: int|
        0 <= i <= o.len() && 0 <= j <= o.len() - i implies #[trigger] o.skip(i).skip(j) == o.skip(
        i + j,
    ) by {
        assert(o.skip(i).skip(j) =~= o.skip(i + j));
    }
}

/// When a bridge between a local and a remote router is collapsed, the remote
/// node is told how many parcels the local one has sent so far
/// (`BypassPeerWithLink`): exactly those still go over the bridge, and the rest
/// over the new link.
#[verifier::spinoff_prover]
#[verifier::rlimit(60)]
pub proof fn law_bridge_collapses_towards_remote_node(
    s: NodeView,
    rid: u64,
    other: u64,
    local: u64,
    d: FragmentDescriptor,
    llocal: Link,
    lr: Link,
    lo: Link,
    br: Link,
    bo: Link,
)
    requires
        rid != other && rid != local && other != local,
        s.memory is Some,
        s.routers.contains_key(rid) && s.routers.contains_key(other) && s.routers.contains_key(
            local,
        ),
        !s.routers[local].disconnected,
        s.routers[local].outward == (Edge { primary: Some(llocal), decaying: None }),
        s.routers[rid].outward == (Edge { primary: Some(lr), decaying: None }),
        s.routers[other].outward == (Edge { primary: Some(lo), decaying: None }),
        s.routers[rid].bridge == Some(Edge { primary: Some(br), decaying: None }),
        s.routers[other].bridge == Some(Edge { primary: Some(bo), decaying: None }),
        lr.local_peer == Some(local),
        lo.local_peer is None,
        br.local_peer == Some(other),
        !d.spec_is_null(),
    ensures
        ({
            let (t, r) = s.bypass_from_local_peer(rid, d);
            let n = s.routers[local].outbound.current;
            let q = t.routers[local].outward;
            let new = q.primary->0;
            &&& r is Ok
            &&& q.primary is Some
            &&& leads_to(new, LINK_ID_BROKER, new.sublink, LinkKind::Central, LinkSide::A)
            &&& new.link_state == Some(d)
            &&& sends(
                s,
                t,
                LINK_ID_BROKER,
                LinkMessageView::BypassPeerWithLink(lo.sublink, new.sublink, d, n),
            )
            &&& t.owners == s.owners.insert((LINK_ID_BROKER, new.sublink), local)
            &&& splits_at(q, n, llocal, q.primary) && q.spec_length_from() is None
            &&& splits_at(t.routers[other].outward, n, lo, None)
            &&& t.routers[other].outward.spec_length_from() is None
            &&& t.routers[rid].bridge is Some && splits_at(t.routers[rid].bridge->0, n, br, None)
            &&& t.routers[rid].bridge->0.spec_length_from() is None
            &&& t.routers[rid].outward.spec_length_from() == Some(n)
            &&& t.routers[rid].outward.spec_length_to() is None
            &&& t.routers[rid].outward.spec_decaying_link() == Some(lr)
            &&& t.routers[other].bridge is Some
            &&& t.routers[other].bridge->0.spec_length_from() == Some(n)
            &&& t.routers[other].bridge->0.spec_length_to() is None
            &&& t.routers[other].bridge->0.spec_decaying_link() == Some(bo)
            &&& same_cargo(t.routers[local], s.routers[local])
            &&& same_cargo(t.routers[rid], s.routers[rid])
            &&& same_cargo(t.routers[other], s.routers[other])
        }),
{
    reveal_with_fuel(NodeView::decays_ordered, 6);
    let n = s.sent_by(local);
    lemma_skips(half_local_orders(rid, other, local, n));
    let t = s.bypass_from_local_peer(rid, d).0;
    assert(t.outbox.drop_last() =~= s.outbox);
}

/// When a bridge between two remote routes is collapsed, the one node is told
/// of the other (`BypassPeer`), and until the lengths are known everything goes
/// on over the bridge.
#[verifier::spinoff_prover]
#[verifier::rlimit(60)]
pub proof fn law_bridge_collapses_between_remote_nodes(
    s: NodeView,
    first: u64,
    second: u64,
    lf: Link,
    ls: Link,
    bf: Link,
    bs: Link,
    k: u64,
)
    requires
        first != second,
        s.routers.contains_key(first) && s.routers.contains_key(second),
        s.routers[first].outward == (Edge { primary: Some(lf), decaying: None }),
        s.routers[second].outward == (Edge { primary: Some(ls), decaying: None }),
        s.routers[first].bridge == Some(Edge { primary: Some(bf), decaying: None }),
        s.routers[second].bridge == Some(Edge { primary: Some(bs), decaying: None }),
        lf.local_peer is None && ls.local_peer is None,
    ensures
        ({
            let (t, r) = s.bridge_bypassed(first, second, lf, ls);
            &&& r is Ok
            &&& sends(
                s,
                t,
                LINK_ID_BROKER,
                LinkMessageView::BypassPeer(lf.sublink, s.broker_name, ls.sublink),
            )
            &&& t.routers[first].bridge is Some && t.routers[second].bridge is Some
            &&& t.routers[first].outward.spec_link_for(k) == Some(lf)
            &&& t.routers[second].outward.spec_link_for(k) == Some(ls)
            &&& t.routers[first].bridge->0.spec_link_for(k) == Some(bf)
            &&& t.routers[second].bridge->0.spec_link_for(k) == Some(bs)
            &&& t.routers[first].outward.primary is None
            &&& t.routers[second].outward.primary is None
            &&& t.routers[first].outward.spec_decaying_link() == Some(lf)
            &&& t.routers[second].outward.spec_decaying_link() == Some(ls)
            &&& same_cargo(t.routers[first], s.routers[first])
            &&& same_cargo(t.routers[second], s.routers[second])
        }),
{
    reveal_with_fuel(NodeView::decays_ordered, 5);
    lemma_skips(remote_orders(first, second));
    let t = s.bridge_bypassed(first, second, lf, ls).0;
    assert(t.outbox.drop_last() =~= s.outbox);
}

/// A router that moves to another node goes on there with the numbers that it
/// had here: the next parcel that it sends and the next that it awaits are the
/// same. The one that stays behind keeps every parcel, and owns the sublink
/// between the two.
pub proof fn law_moved_router_goes_on(s: NodeView, rid: u64, link_id: u64, locked: bool, there: u64)
    requires
        s.memory is Some,
        s.routers.contains_key(rid),
        ends_ahead(s.routers[rid].inbound),
        s.serialized_as_proxy(rid, link_id, locked).1 is Ok,
    ensures
        ({
            let (t, res) = s.serialized_as_proxy(rid, link_id, locked);
            let d = res->Ok_0;
            let r = s.routers[rid];
            let q = t.routers[rid];
            let moved = described_router(d, there);
            &&& moved.outbound.current == r.outbound.current
            &&& moved.inbound.current == r.inbound.current
            &&& moved.outbound.parcels == Map::<u64, ParcelView>::empty()
            &&& moved.inbound.parcels == Map::<u64, ParcelView>::empty()
            &&& moved.peer_closed == r.peer_closed
            &&& r.peer_closed && r.inbound.final_length is Some ==> moved.inbound.final_length
                == r.inbound.final_length
            &&& !r.peer_closed ==> moved.inbound.final_length is None
            &&& moved.outward.decaying is None
            &&& moved.outward.primary is Some
            &&& leads_to(
                moved.outward.primary->0,
                there,
                d.new_sublink,
                LinkKind::PeripheralOutward,
                LinkSide::B,
            )
            &&& same_cargo(q, r)
            &&& q.inward is Some && q.inward->0.primary is None
            &&& t.owners == s.owners.insert((link_id, d.new_sublink), rid)
            &&& t.outbox == s.outbox
            &&& others_kept(s, t, rid)
            &&& r.peer_closed ==> q.inward->0.spec_length_from() == Some(r.outbound.current)
                && q.outward == r.outward
            &&& !r.peer_closed && !locked ==> q.inward->0.decaying is None && q.outward
                == r.outward
            &&& !r.peer_closed && locked && r.outward.spec_local_peer() is None ==> {
                &&& d.proxy_peer_node_name == s.broker_name
                &&& r.outward.primary matches Some(l) && d.proxy_peer_sublink == l.sublink
                &&& q.inward->0.spec_is_decay_deferred()
            }
            &&& !r.peer_closed && locked && r.outward.spec_local_peer() is None
                && r.outward.decaying is None ==> forall|k: u64| #[trigger]
                q.outward.spec_link_for(k) == r.outward.primary
        }),
{
}

/// A router that is split from its local peer goes on at the other node with
/// its numbers: what it has sent went over the decaying link, the rest goes
/// over the central one, and it expects over the decaying link what the peer had
/// sent. The router that stays behind carries as much.
pub proof fn law_split_router_goes_on(
    s: NodeView,
    rid: u64,
    peer: u64,
    link_id: u64,
    state: FragmentDescriptor,
    n: u64,
    sublink: u64,
    there: u64,
)
    requires
        s.routers.contains_key(rid),
        ends_ahead(s.routers[rid].inbound),
        sublink != u64::MAX,
    ensures
        ({
            let (t, res) = s.split_off(rid, peer, link_id, state, n, sublink);
            let d = res->Ok_0;
            let r = s.routers[rid];
            let q = t.routers[rid];
            let moved = described_router(d, there);
            let e = moved.outward;
            let old = e.spec_decaying_link();
            let sent = r.outbound.current;
            &&& res is Ok
            &&& moved.outbound.current == sent
            &&& moved.inbound.current == r.inbound.current
            &&& r.inbound.final_length is Some ==> moved.inbound.final_length
                == r.inbound.final_length
            &&& r.inbound.final_length is None ==> moved.inbound.final_length is None
            &&& e.primary is Some && old is Some
            &&& leads_to(e.primary->0, there, d.new_sublink, LinkKind::Central, LinkSide::B)
            &&& e.primary->0.link_state == Some(state)
            &&& leads_to(
                old->0,
                there,
                d.new_decaying_sublink,
                LinkKind::PeripheralOutward,
                LinkSide::B,
            )
            &&& d.new_sublink != d.new_decaying_sublink
            &&& splits_at(e, sent, old->0, e.primary)
            &&& n > 0 ==> decays_until(e, sent, n)
            &&& n == 0 ==> decays_until(e, sent, r.inbound.current)
            &&& q.inward is Some && q.inward->0.spec_length_to() == Some(n)
            &&& q.inward->0.spec_length_from() == Some(sent)
            &&& q.inward->0.spec_is_decay_deferred()
            &&& same_cargo(q, r)
            &&& t.owners.contains_key((link_id, d.new_sublink))
            &&& t.owners[(link_id, d.new_sublink)] == peer
            &&& t.owners.contains_key((link_id, d.new_decaying_sublink))
            &&& t.owners[(link_id, d.new_decaying_sublink)] == rid
            &&& others_kept(s, t, rid)
        }),
{
}

/// A proxy puts the parcels that come in on the link to the router that moved
/// on: all of them, where it stays; where it is to be bypassed, until it learns
/// how many.
pub proof fn law_proxy_serves_moved_router(s: NodeView, rid: u64, d: RouterDescriptor, link_id: u64)
    requires
        s.routers.contains_key(rid),
        s.routers[rid].inward is Some,
        s.routers[rid].inward->0.primary is None,
        s.routers[rid].inward->0.spec_decaying_link() is None,
        s.routers[rid].outbound.final_length is None,
        !s.routers[rid].disconnected,
        s.plain_proxying_begun(rid, d, link_id).1 is Ok,
    ensures
        ({
            let t = s.plain_proxying_begun(rid, d, link_id).0;
            let e = s.routers[rid].inward->0;
            let q = t.routers[rid];
            let link = q.inward->0.spec_link_for(s.routers[rid].inbound.current);
            &&& same_cargo(q, s.routers[rid])
            &&& q.outward == s.routers[rid].outward
            &&& q.inward is Some
            &&& (e.decaying is None || e.spec_length_to() is None) ==> link is Some && leads_to(
                link->0,
                link_id,
                d.new_sublink,
                LinkKind::PeripheralInward,
                LinkSide::A,
            ) && forall|k: u64| #[trigger] q.inward->0.spec_link_for(k) == link
            &&& e.spec_length_to() matches Some(n) ==> {
                &&& q.inward->0.spec_decaying_link() is Some
                &&& leads_to(
                    q.inward->0.spec_decaying_link()->0,
                    link_id,
                    d.new_sublink,
                    LinkKind::PeripheralInward,
                    LinkSide::A,
                )
                &&& splits_at(q.inward->0, n, q.inward->0.spec_decaying_link()->0, None)
            }
            &&& q.inward->0.spec_length_from() == e.spec_length_from()
            &&& others_kept(s, t, rid)
            &&& t.tasks == s.tasks.push(TaskView::Flush(rid, false))
            &&& t.outbox == s.outbox
        }),
{
}

/// A router that came with a parcel is there under both of its sublinks, with
/// the numbers that it was described with.
pub proof fn law_described_router_is_there(s: NodeView, d: RouterDescriptor, link_id: u64)
    requires
        s.deserialized(d, link_id).1 is Ok,
    ensures
        ({
            let t = s.deserialized(d, link_id).0;
            let rid = d.new_sublink;
            let q = t.routers[rid];
            &&& t.routers.contains_key(rid)
            &&& t.owners.contains_key((link_id, d.new_sublink))
            &&& t.owners[(link_id, d.new_sublink)] == rid
            &&& d.proxy_already_bypassed ==> t.owners.contains_key(
                (link_id, d.new_decaying_sublink),
            ) && t.owners[(link_id, d.new_decaying_sublink)] == rid
            &&& q.outbound.current == d.next_outgoing_sequence_number
            &&& q.inbound.current == d.next_incoming_sequence_number
            &&& q.peer_closed == d.peer_closed
            &&& d.peer_closed ==> q.inbound.final_length == Some(d.closed_peer_sequence_length)
                && d.closed_peer_sequence_length >= d.next_incoming_sequence_number
            &&& !d.peer_closed ==> q.inbound.final_length is None
            &&& has_link_at(q.outward, link_id, d.new_sublink)
            &&& d.proxy_already_bypassed ==> has_link_at(
                q.outward,
                link_id,
                d.new_decaying_sublink,
            )
            &&& d.new_sublink != d.new_decaying_sublink || !d.proxy_already_bypassed
            &&& others_kept(s, t, rid)
            &&& t.outbox == s.outbox
        }),
{
}

/// What a flush finds about the end of a route: a central link over which all
/// was sent is closed after as many parcels; an end that has come in is passed
/// on with its length; and no parcel is dropped.
pub proof fn law_end_is_found(r: RouterView, on_central: bool)
    requires
        ends_ahead(r.inbound),
        ends_ahead(r.outbound),
    ensures
        ({
            let f = closure_findings(r, on_central);
            let sent_all = r.outbound.final_length == Some(r.outbound.current);
            let got_all = r.inbound.final_length == Some(r.inbound.current);
            &&& same_cargo(f.router, r)
            &&& f.router.outward.decaying == r.outward.decaying
            &&& f.to_lock is Some == (on_central && sent_all && r.outward.primary is Some)
            &&& f.to_lock matches Some((link, n)) ==> r.outward.primary == Some(link) && n
                == r.outbound.current
            &&& f.dead_outward == (got_all && !(on_central && sent_all) && r.outward.primary is Some)
            &&& f.router.outward.primary == if f.dead_outward {
                None
            } else {
                r.outward.primary
            }
            &&& f.to_forward is Some == (got_all && match r.inward {
                Some(e) => e.primary is Some,
                None => r.spec_bridge_link() is Some,
            })
            &&& f.to_forward matches Some((link, n)) ==> n == r.inbound.current && match r.inward {
                Some(e) => e.primary == Some(link),
                None => r.spec_bridge_link() == Some(link),
            }
            &&& !got_all ==> f.router == r
        }),
{
}

/// A router whose route is lost is gone, and so are its sublinks; no parcel of
/// another router is.
pub proof fn law_lost_route_is_gone(s: NodeView, rid: u64, key: (u64, u64))
    requires
        s.routers.contains_key(rid),
    ensures
        ({
            let (t, r) = s.disconnected(rid);
            &&& r is Ok
            &&& !t.routers.contains_key(rid)
            &&& t.owners.contains_key(key) ==> s.owners.contains_key(key) && t.owners[key]
                == s.owners[key] && t.owners[key] != rid
        }),
{
    let t = s.disconnected(rid).0;
    crate::ipcz::binding::law_removed_router_owns_nothing(s, rid);
}

/// Where a router is split from its local peer, what the peer has sent so far is
/// what the moved router expects over the decaying link; the peer sends the rest
/// over the central one.
pub proof fn law_split_counts_parcels_of_peer(s: NodeView, rid: u64, peer: u64, link_id: u64)
    requires
        rid != peer,
        s.routers.contains_key(rid),
        s.split_from_local_peer(rid, peer, link_id).1 matches Ok(Some(_)),
    ensures
        ({
            let (t, res) = s.split_from_local_peer(rid, peer, link_id);
            let d = res->Ok_0->0;
            &&& s.routers.contains_key(peer)
            &&& d.proxy_already_bypassed
            &&& d.decaying_incoming_sequence_length == s.routers[peer].outbound.current
            &&& d.next_outgoing_sequence_number == s.routers[rid].outbound.current
            &&& d.next_incoming_sequence_number == s.routers[rid].inbound.current
            &&& t.routers[rid].inward is Some
            &&& t.routers[rid].inward->0.spec_length_to() == Some(s.routers[peer].outbound.current)
            &&& t.routers[rid].inward->0.spec_length_from() == Some(s.routers[rid].outbound.current)
            &&& t.routers[peer].outward.primary is None
            &&& t.routers[peer].outward.decaying == s.routers[peer].outward.decaying
            &&& same_cargo(t.routers[rid], s.routers[rid])
            &&& same_cargo(t.routers[peer], s.routers[peer])
            &&& t.outbox == s.outbox
        }),
{
}

/// Once a split router has gone out, its peer sends over the central link to it,
/// and what the router that stayed behind still has goes over the decaying one.
pub proof fn law_split_router_is_served(
    s: NodeView,
    rid: u64,
    peer: u64,
    d: RouterDescriptor,
    link_id: u64,
    n: u64,
)
    requires
        rid != peer,
        s.routers.contains_key(rid),
        s.routers.contains_key(peer),
        !s.routers[rid].disconnected,
        !s.routers[peer].disconnected,
        s.routers[rid].outward.spec_local_peer() == Some(peer),
        s.routers[rid].inward is Some,
        s.routers[rid].inward->0.primary is None,
        s.routers[rid].inward->0.spec_is_decay_deferred(),
        s.routers[rid].inward->0.spec_length_to() == Some(n),
        s.routers[peer].outward == (Edge { primary: None, decaying: None }),
        s.split_proxying_begun(rid, d, link_id).1 is Ok,
    ensures
        ({
            let t = s.split_proxying_begun(rid, d, link_id).0;
            let e = t.routers[rid].inward->0;
            let q = t.routers[peer].outward;
            &&& t.routers[rid].inward is Some
            &&& e.spec_decaying_link() is Some
            &&& leads_to(
                e.spec_decaying_link()->0,
                link_id,
                d.new_decaying_sublink,
                LinkKind::PeripheralInward,
                LinkSide::A,
            )
            &&& splits_at(e, n, e.spec_decaying_link()->0, None)
            &&& e.spec_length_from() == s.routers[rid].inward->0.spec_length_from()
            &&& q.primary is Some
            &&& leads_to(q.primary->0, link_id, d.new_sublink, LinkKind::Central, LinkSide::A)
            &&& q.primary->0.link_state == Some(d.new_link_state_fragment)
            &&& forall|k: u64| #[trigger] q.spec_link_for(k) == q.primary
            &&& t.routers[rid].outward.primary is None
            &&& same_cargo(t.routers[rid], s.routers[rid])
            &&& same_cargo(t.routers[peer], s.routers[peer])
            &&& t.outbox == s.outbox
        }),
{
}

/// What follows a flush of a route that goes on: this side of the link is marked
/// stable once nothing decays any more, the other side is then woken, and a
/// bridge that is left without decay is to be collapsed.
pub proof fn law_flush_of_open_route(
    s: NodeView,
    rid: u64,
    link: Link,
    force: bool,
    on_central: bool,
    over: (bool, bool),
    left: (bool, bool),
)
    requires
        s.routers.contains_key(rid),
        s.routers[rid].outward.primary == Some(link),
        s.routers[rid].outbound.final_length is None,
        s.routers[rid].inbound.final_length is None,
        lock_state(s, link) is Some,
    ensures
        ({
            let r = s.routers[rid];
            let (t, res) = s.flush_settled(rid, force, on_central, over.0, over.1, left.0, left.1);
            let stable = on_central && (over.0 || over.1) && !left.0 && (r.inward is None
                || !left.1);
            let wake = on_central && (stable || force);
            let bridge = r.bridge is Some && r.inward is None && !left.0 && !left.1;
            let woken = if wake {
                s.tasks.push(TaskView::WakePeer(rid))
            } else {
                s.tasks
            };
            &&& res is Ok
            &&& t.routers[rid] == r
            &&& t.routers.contains_key(rid)
            &&& t.outbox == s.outbox
            &&& t.tasks == if bridge {
                woken.push(TaskView::BridgeBypass(rid))
            } else {
                woken
            }
            &&& lock_state(t, link) == Some(
                if stable {
                    lock_state(s, link)->0 | if link.side is A {
                        1u32
                    } else {
                        2u32
                    }
                } else {
                    lock_state(s, link)->0
                },
            )
        }),
{
    reveal(NodeView::closures_found);
    law_side_is_marked_stable(s, link);
}

/// A route that is closed here is closed at the other end once all of it was
/// sent and the central link could be locked: with the number of parcels that
/// were sent. The link is then let go of.
pub proof fn law_sent_route_is_closed(s: NodeView, rid: u64, link: Link, force: bool)
    requires
        s.routers.contains_key(rid),
        s.routers[rid].outward.primary == Some(link),
        s.routers[rid].outbound.final_length == Some(s.routers[rid].outbound.current),
        s.routers[rid].inbound.final_length is None,
        s.routers[rid].bridge is None,
        lock_state(s, link) is Some,
    ensures
        ({
            let r = s.routers[rid];
            let st = lock_state(s, link)->0;
            let free = st & 3 == 3 && st & 48 == 0;
            let (t, res) = s.flush_settled(rid, force, true, false, false, false, false);
            &&& res is Ok
            &&& same_cargo(t.routers[rid], r)
            &&& t.outbox == s.outbox
            &&& free ==> t.routers[rid].outward.primary is None && t.tasks == s.tasks.push(
                TaskView::DeliverClosed(link, r.outbound.current),
            )
            &&& !free ==> t.routers[rid] == r && forall|i: int|
                0 <= i < t.tasks.len() && !(#[trigger] t.tasks[i] is WakePeer) ==> i
                    < s.tasks.len() && t.tasks[i] == s.tasks[i]
        }),
{
    reveal(NodeView::closures_found);
    let f = closure_findings(s.routers[rid], true);
    assert(s.with_router(rid, f.router).routers =~= s.routers);
    law_lock_is_had_by_one_side(s, link, link);
}

/// A parcel for a sublink that nobody owns is kept behind those that are kept
/// for it already; once somebody owns the sublink, all of them are accepted
/// next, in order, and none is kept any longer.
pub proof fn law_kept_parcels_are_accepted(
    s: NodeView,
    p: InboundView,
    data: Seq<u8>,
    link_id: u64,
)
    requires
        !s.owners.contains_key((link_id, p.parcel.sublink)),
        p.parcel.handle_types.len() == 0,
        p.parcel.driver_objects.len() == 0,
    ensures
        ({
            let key = (link_id, p.parcel.sublink);
            let (t, r) = s.parcel_routed(p, data, link_id);
            let u = t.early_accepted(key);
            &&& r is Ok
            &&& kept_for(t, key) == kept_for(s, key).push(p)
            &&& t.routers == s.routers
            &&& t.tasks == s.tasks
            &&& accepts_next(s.tasks, u.tasks, kept_for(s, key).push(p), link_id)
            &&& !u.early.contains_key(key)
            &&& u.early.remove(key) == s.early.remove(key)
            &&& u.routers == s.routers
        }),
{
    let key = (link_id, p.parcel.sublink);
    let t = s.parcel_routed(p, data, link_id).0;
    let u = t.early_accepted(key);
    assert(kept_for(t, key) =~= kept_for(s, key).push(p));
    assert(u.tasks.take(s.tasks.len() as int) =~= s.tasks);
    assert(u.early.remove(key) =~= s.early.remove(key));
}

/// A parcel whose data is in a buffer that is not there waits for it; once the
/// buffer is added, all that wait for it are accepted next, in order.
pub proof fn law_buffer_lets_parcels_go(
    s: NodeView,
    b: AddBlockBuffer,
    num_fds: nat,
    buffer: Seq<u8>,
    queue: Seq<InboundView>,
)
    requires
        s.memory is Some,
        b.buffer_index < num_fds,
        b.buffer_id != crate::ipcz::link_memory::PRIMARY_BUFFER_ID,
        s.pending_fragments.contains_key(b.buffer_id) ==> queue == s.pending_fragments[b.buffer_id],
        !s.pending_fragments.contains_key(b.buffer_id) ==> queue.len() == 0,
    ensures
        ({
            let (t, r) = s.buffer_added(b, num_fds, buffer);
            &&& r is Ok
            &&& accepts_next(s.tasks, t.tasks, queue, LINK_ID_BROKER)
            &&& !t.pending_fragments.contains_key(b.buffer_id)
            &&& t.pending_fragments.remove(b.buffer_id) == s.pending_fragments.remove(b.buffer_id)
            &&& t.memory is Some
            &&& t.memory->0.buffers.contains_key(b.buffer_id)
            &&& t.memory->0.buffers[b.buffer_id] == buffer
            &&& t.routers == s.routers
            &&& t.outbox == s.outbox
        }),
{
    let t = s.buffer_added(b, num_fds, buffer).0;
    assert(t.tasks.take(s.tasks.len() as int) =~= s.tasks);
    assert(t.pending_fragments.remove(b.buffer_id) =~= s.pending_fragments.remove(b.buffer_id));
}

/// The routers that a parcel brings are set up first, in order, and then the
/// parcel is routed.
pub proof fn law_routers_are_set_up_first(
    s: NodeView,
    p: InboundView,
    data: Seq<u8>,
    link_id: u64,
    i: int,
)
    requires
        s.parcel_opened(p, data, link_id).1 is Ok,
    ensures
        ({
            let t = s.parcel_opened(p, data, link_id).0;
            let n = s.tasks.len();
            &&& t.tasks.len() == n + 1 + p.routers.len()
            &&& t.tasks.take(n as int) == s.tasks
            &&& t.tasks[n as int] == TaskView::Route(p, data, link_id)
            &&& 0 <= i < p.routers.len() ==> t.tasks[t.tasks.len() - 1 - i]
                == TaskView::Deserialize(p.routers[i], link_id)
            &&& t.routers == s.routers
        }),
{
    let t = s.parcel_opened(p, data, link_id).0;
    assert(t.tasks.take(s.tasks.len() as int) =~= s.tasks);
}

/// The portals of a parcel are the routers that came with it, in order.
pub proof fn law_portals_are_named_in_order(types: Seq<u32>, ids: Seq<u64>, boxed: bool)
    requires
        types.len() <= ids.len(),
        forall|i: int| 0 <= i < types.len() ==> #[trigger] types[i] == 0,
    ensures
        ({
            let r = objects_named(types, ids, boxed);
            &&& r is Ok
            &&& !r->Ok_0.1
            &&& r->Ok_0.0.len() == types.len()
            &&& forall|i: int|
                0 <= i < types.len() ==> #[trigger] r->Ok_0.0[i] == Object::Router(ids[i])
        }),
    decreases types.len(),
{
    if types.len() > 0 {
        let init = types.drop_last();
        assert forall|i: int| 0 <= i < init.len() implies #[trigger] init[i] == 0 by {
            assert(init[i] == types[i]);
        }
        law_portals_are_named_in_order(init, ids, boxed);
        assert(types[types.len() - 1] == 0);
    }
}

/// The routers among the objects of a parcel go with it: the message describes
/// each of them, in order, and then each takes the link that its description
/// gives, the first of them first.
pub proof fn law_routers_go_with_parcel(s: NodeView, link: Link, p: ParcelView, i: int)
    requires
        link.local_peer is None,
        s.transmitted(link, p).1 is Ok,
    ensures
        ({
            let t = s.transmitted(link, p).0;
            let m = t.outbox.last().message;
            &&& t.outbox.len() > 0
            &&& t.outbox.last().link_id == LINK_ID_BROKER
            &&& m matches LinkMessageView::Parcel(sublink, number, fragment, data, routers)
            &&& sublink == link.sublink
            &&& number == p.sequence_number
            &&& fragment == p.fragment
            &&& data == p.data
            &&& routers.len() == p.objects.len()
            &&& 0 <= i < p.objects.len() ==> p.objects[i] is Router && t.tasks.len() > i
                && t.tasks[t.tasks.len() - 1 - i] == TaskView::BeginProxying(
                p.objects[i]->Router_0,
                routers[i],
                link.link_id,
            )
        }),
{
    lemma_objects_described(s, p.objects, link.link_id, i);
}

proof fn lemma_objects_described(s: NodeView, objects: Seq<Object>, link_id: u64, i: int)
    ensures
        ({
            let r = s.objects_serialized(objects, link_id).1;
            r is Ok ==> {
                &&& r->Ok_0.len() == objects.len()
                &&& 0 <= i < objects.len() ==> objects[i] == Object::Router(r->Ok_0[i].0)
            }
        }),
    decreases objects.len(),
{
    if objects.len() > 0 {
        lemma_objects_described(s, objects.drop_last(), link_id, i);
    }
}

/// Whether a request is the first for a buffer of its size.
pub open spec fn first_for(
    requests: Seq<crate::ipcz::node::PendingMemoryRequest>,
    size: u32,
    i: int,
) -> bool {
    &&& 0 <= i < requests.len()
    &&& requests[i].buffer_size == size
    &&& forall|j: int| 0 <= j < i ==> (#[trigger] requests[j]).buffer_size != size
}

/// A buffer that the broker provides answers the first request for its size,
/// and is shared with the broker under the next id. Capacity for blocks of that
/// kind can then be asked for again.
pub proof fn law_provided_memory_answers_request(
    s: NodeView,
    size: u32,
    fd: i32,
    buffer: Seq<u8>,
    i: int,
)
    requires
        s.memory is Some,
        first_for(s.requests, size, i),
    ensures
        ({
            let (t, r) = s.memory_provided(size, fd, buffer);
            let block_size = s.requests[i].block_size;
            let id = crate::bytes::le64(
                s.memory->0.buffers[crate::ipcz::link_memory::PRIMARY_BUFFER_ID],
                0,
            );
            &&& r is Ok
            &&& sends(
                s,
                t,
                LINK_ID_BROKER,
                LinkMessageView::AddBlockBuffer(id, block_size, size, fd),
            )
            &&& t.requests == s.requests.remove(i)
            &&& !t.capacity_pending.contains(block_size)
            &&& id != crate::ipcz::link_memory::PRIMARY_BUFFER_ID ==> t.memory is Some
                && t.memory->0.buffers.contains_key(id) && t.memory->0.buffers[id].len()
                == buffer.len()
            &&& t.routers == s.routers
            &&& t.tasks == s.tasks
        }),
{
    lemma_first_request(s.requests, size, 0, i);
    let t = s.memory_provided(size, fd, buffer).0;
    assert(t.outbox.drop_last() =~= s.outbox);
}

/// A buffer that nobody asked for is refused, and nothing changes.
pub proof fn law_unasked_memory_is_refused(s: NodeView, size: u32, fd: i32, buffer: Seq<u8>)
    requires
        forall|j: int|
            0 <= j < s.requests.len() ==> (#[trigger] s.requests[j]).buffer_size != size,
    ensures
        s.memory_provided(size, fd, buffer).1 is Err,
        s.memory_provided(size, fd, buffer).0 == s,
{
    lemma_first_request(s.requests, size, 0, 0);
}

proof fn lemma_first_request(
    requests: Seq<crate::ipcz::node::PendingMemoryRequest>,
    size: u32,
    k: int,
    i: int,
)
    requires
        0 <= k,
    ensures
        k <= i < requests.len() && requests[i].buffer_size == size && (forall|j: int|
            k <= j < i ==> (#[trigger] requests[j]).buffer_size != size) ==> first_request(
            requests,
            size,
            k,
        ) == Some(i),
        (forall|j: int| k <= j < requests.len() ==> (#[trigger] requests[j]).buffer_size != size)
            ==> first_request(requests, size, k) is None,
    decreases requests.len() - k,
{
    if k < requests.len() {
        lemma_first_request(requests, size, k + 1, i);
    }
}

/// The edge over which a router sends on what comes in to it: the inward one of
/// a proxy, or its bridge.
pub open spec fn onward(r: RouterView) -> Option<Edge> {
    if r.inward is Some {
        r.inward
    } else {
        r.bridge
    }
}

/// A flush also sends on what has come in, over the inward edge of a proxy or
/// over a bridge, in the order of the numbers and behind what goes out; a router
/// with neither keeps it. The rest of the flush follows when all is sent.
pub proof fn law_flush_sends_onward(s: NodeView, rid: u64, force: bool, i: int)
    requires
        s.routers.contains_key(rid),
    ensures
        ({
            let r = s.routers[rid];
            let t = s.flush_started(rid, force).0;
            let out = collected(r.outbound, r.outward).0;
            let n = t.tasks.len();
            &&& t.tasks[s.tasks.len() as int] is FinishFlush
            &&& onward(r) matches Some(e) ==> {
                let (list, left) = collected(r.inbound, e);
                &&& t.routers[rid].inbound == left
                &&& n == s.tasks.len() + 1 + out.len() + list.len()
                &&& 0 <= i < list.len() ==> t.tasks[n - 1 - out.len() - i] == TaskView::Transmit(
                    list[i].0,
                    list[i].1,
                )
            }
            &&& onward(r) is None ==> t.routers[rid].inbound == r.inbound && n == s.tasks.len() + 1
                + out.len()
        }),
{
    let r = s.routers[rid];
    let out = collected(r.outbound, r.outward).0;
    let all = r.sendable().0;
    if onward(r) is Some {
        let list = collected(r.inbound, onward(r)->0).0;
        if 0 <= i < list.len() {
            let k = out.len() + i;
            assert(all[k] == list[i]);
            assert(transmissions(all)[all.len() - 1 - k] == TaskView::Transmit(
                all[k].0,
                all[k].1,
            ));
        }
    }
}

/// A peer that was waiting and is told to go on (`FlushRouter`) flushes the
/// router of that sublink, and wakes the other side in its turn. A message for a
/// sublink that nobody owns is ignored.
pub proof fn law_told_router_is_flushed(
    s: NodeView,
    x: crate::ipcz::messages::FlushRouter,
    routers: Seq<RouterDescriptor>,
    fds: Seq<i32>,
    buffer: Seq<u8>,
    link_id: u64,
)
    ensures
        ({
            let (t, r) = s.dispatched(
                NodeMessageView::Decoded(DecodedView::FlushRouter(x), routers),
                fds,
                buffer,
                link_id,
            );
            let key = (link_id, x.sublink);
            &&& r is Ok
            &&& t.routers == s.routers
            &&& t.outbox == s.outbox
            &&& s.owners.contains_key(key) ==> t.tasks == s.tasks.push(
                TaskView::Flush(s.owners[key], true),
            )
            &&& !s.owners.contains_key(key) ==> t == s
        }),
{
}

/// A message about the end of a route, or a new link for it, that comes for a
/// sublink that nobody owns changes nothing.
pub proof fn law_unowned_sublink_is_ignored(
    s: NodeView,
    x: RouteClosed,
    y: StopProxyingToLocalPeer,
    z: crate::ipcz::messages::RouteDisconnected,
    routers: Seq<RouterDescriptor>,
    fds: Seq<i32>,
    buffer: Seq<u8>,
    link_id: u64,
    inbound: u64,
    outbound: u64,
)
    requires
        !s.owners.contains_key((link_id, x.sublink)),
        x.sublink == y.sublink,
        x.sublink == z.sublink,
    ensures
        s.dispatched(
            NodeMessageView::Decoded(DecodedView::RouteClosed(x), routers),
            fds,
            buffer,
            link_id,
        ) == (s, Ok::<(), Fault>(())),
        s.dispatched(
            NodeMessageView::Decoded(DecodedView::StopProxyingToLocalPeer(y), routers),
            fds,
            buffer,
            link_id,
        ) == (s, Ok::<(), Fault>(())),
        s.dispatched(
            NodeMessageView::Decoded(DecodedView::RouteDisconnected(z), routers),
            fds,
            buffer,
            link_id,
        ) == (s, Ok::<(), Fault>(())),
        s.dispatched(
            NodeMessageView::StopProxying(x.sublink, inbound, outbound),
            fds,
            buffer,
            link_id,
        ) == (s, Ok::<(), Fault>(())),
{
}

/// A route that another node lost (`RouteDisconnected`) is gone here too.
pub proof fn law_told_route_is_gone(
    s: NodeView,
    x: crate::ipcz::messages::RouteDisconnected,
    routers: Seq<RouterDescriptor>,
    fds: Seq<i32>,
    buffer: Seq<u8>,
    link_id: u64,
)
    requires
        s.owners.contains_key((link_id, x.sublink)),
        s.routers.contains_key(s.owners[(link_id, x.sublink)]),
    ensures
        ({
            let (t, r) = s.dispatched(
                NodeMessageView::Decoded(DecodedView::RouteDisconnected(x), routers),
                fds,
                buffer,
                link_id,
            );
            &&& r is Ok
            &&& !t.routers.contains_key(s.owners[(link_id, x.sublink)])
            &&& !t.owners.contains_key((link_id, x.sublink))
        }),
{
    law_lost_route_is_gone(s, s.owners[(link_id, x.sublink)], (link_id, x.sublink));
}

/// A router that is told to bypass its proxy asks the node at the proxy's other
/// end for a link: it names the node that the proxy is on, the proxy's sublink
/// there and how many parcels went to the proxy. Only the peer that the router's
/// link leads to can tell it to.
pub proof fn law_bypass_names_proxy(
    s: NodeView,
    rid: u64,
    requestor: u64,
    name: NodeName,
    sublink: u64,
    old_link: Link,
)
    requires
        s.routers.contains_key(rid),
        s.routers[rid].outward.primary == Some(old_link),
        s.routers[rid].outward.decaying is None,
        !s.routers[rid].disconnected,
    ensures
        old_link.link_id != requestor ==> s.peer_bypassed(rid, requestor, name, sublink).1 is Err
            && s.peer_bypassed(rid, requestor, name, sublink).0 == s,
        s.peer_bypassed(rid, requestor, name, sublink).1 is Ok && s.peer_bypassed(
            rid,
            requestor,
            name,
            sublink,
        ).0.outbox != s.outbox ==> ({
            let t = s.peer_bypassed(rid, requestor, name, sublink).0;
            let direct = crate::ipcz::node::LINK_ID_DIRECT;
            let target = if name == s.broker_name {
                LINK_ID_BROKER
            } else {
                direct
            };
            let new = t.routers[rid].outward.primary->0;
            &&& name != s.local_name
            &&& name == s.broker_name || name == s.referrer_name
            &&& t.routers[rid].outward.primary is Some
            &&& leads_to(new, target, new.sublink, LinkKind::Central, LinkSide::A)
            &&& new.link_state is Some
            &&& sends(
                s,
                t,
                target,
                LinkMessageView::AcceptBypassLink(
                    if requestor == direct {
                        s.direct_name
                    } else {
                        s.broker_name
                    },
                    sublink,
                    s.routers[rid].outbound.current,
                    new.sublink,
                    new.link_state->0,
                ),
            )
            &&& splits_at(
                t.routers[rid].outward,
                s.routers[rid].outbound.current,
                old_link,
                Some(new),
            )
            &&& same_cargo(t.routers[rid], s.routers[rid])
        }),
{
    let (t, r) = s.peer_bypassed(rid, requestor, name, sublink);
    if r is Ok && t.outbox != s.outbox {
        let target = s.link_to(name)->Ok_0;
        let proxy = s.name_behind(requestor)->Ok_0;
        let (s1, r1) = s.state_allocated(target);
        let d = r1->Ok_0->0;
        let (s2, r2) = s1.sublinks_allocated(target, 1);
        assert(s2.routers == s.routers && s2.outbox == s.outbox);
        law_proxy_is_left(s2, rid, proxy, sublink, target, d, r2->Ok_0, old_link);
    }
}

} // verus!
