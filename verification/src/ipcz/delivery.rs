//! What becomes of a message that is put into a portal: it comes out at the
//! other end of the route.

use vstd::prelude::*;

#[allow(unused_imports)]
use crate::bytes::next_number;
#[allow(unused_imports)]
use crate::ipcz::inbound::{has_link_at, identities_of, objects_named};
#[allow(unused_imports)]
use crate::ipcz::messages::FragmentDescriptor;
#[allow(unused_imports)]
use crate::ipcz::node::{
    Fault, InboundView, LinkMessageView, NodeView, NumberedView, RouterDescriptor, TaskView,
    LINK_ID_BROKER,
};
#[allow(unused_imports)]
use crate::ipcz::router::{
    collected, drained, messages_of, Link, Object, ParcelView, QueueView, RouterView,
};
#[allow(unused_imports)]
use crate::ipcz::routing::transmissions;

verus! {

/// Whether a router is a portal at the end of a route, with one central outward
/// link, and has nothing queued.
pub open spec fn idle(r: RouterView, link: Link) -> bool {
    &&& r.outward.primary == Some(link)
    &&& r.outward.decaying is None
    &&& link.kind is Central
    &&& r.inward is None
    &&& r.bridge is None
    &&& r.portal is Some
    &&& r.inbound.parcels == Map::<u64, ParcelView>::empty()
    &&& r.outbound.parcels == Map::<u64, ParcelView>::empty()
    &&& r.inbound.final_length is None
    &&& r.outbound.final_length is None
}

/// The router after its portal got a message.
pub open spec fn given(r: RouterView, data: Seq<u8>, objects: Seq<Object>) -> RouterView {
    RouterView {
        portal: Some(r.portal->0.push((data, objects))),
        inbound: QueueView { current: next_number(r.inbound.current), ..r.inbound },
        ..r
    }
}

/// The router after it sent a parcel.
pub open spec fn having_sent(r: RouterView) -> RouterView {
    RouterView {
        outbound: QueueView { current: next_number(r.outbound.current), ..r.outbound },
        ..r
    }
}

proof fn lemma_one_collected(r: RouterView, link: Link, p: ParcelView)
    requires
        idle(r, link),
        p.sequence_number == r.outbound.current,
    ensures
        ({
            let q = r.outbound.pushed(p);
            &&& collected(q, r.outward).0 == seq![(link, p)]
            &&& collected(q, r.outward).1 == having_sent(r).outbound
        }),
{
    let q = r.outbound.pushed(p);
    assert(q.parcels.dom() =~= set![r.outbound.current]);
    assert(q.popped().parcels =~= Map::empty());
    assert(collected(q.popped(), r.outward).0 =~= Seq::empty());
    assert(seq![(link, p)] + Seq::<(Link, ParcelView)>::empty() =~= seq![(link, p)]);
}

proof fn lemma_one_drained(r: RouterView, link: Link, p: ParcelView)
    requires
        idle(r, link),
        p.sequence_number == r.inbound.current,
    ensures
        (RouterView { inbound: r.inbound.pushed(p), ..r }).portal_filled() == given(
            r,
            p.data,
            p.objects,
        ),
{
    let q = r.inbound.pushed(p);
    assert(q.parcels.dom() =~= set![r.inbound.current]);
    assert(q.popped().parcels =~= Map::empty());
    assert(drained(q.popped()).0 =~= Seq::empty());
    assert(seq![p] + Seq::<ParcelView>::empty() =~= seq![p]);
    assert(messages_of(seq![p]) =~= seq![(p.data, p.objects)]);
    assert(r.portal->0 + seq![(p.data, p.objects)] =~= r.portal->0.push((p.data, p.objects)));
}

proof fn lemma_nothing_drained(r: RouterView, link: Link)
    requires
        idle(r, link),
    ensures
        r.portal_filled() == r,
        collected(r.outbound, r.outward) == (Seq::<(Link, ParcelView)>::empty(), r.outbound),
{
    assert(messages_of(Seq::empty()) =~= Seq::empty());
    assert(r.portal->0 + Seq::empty() =~= r.portal->0);
}

/// The rest of the flush of a router that has nothing queued, or just one parcel
/// that came in.
proof fn lemma_flush_ends(s: NodeView, rid: u64, r: RouterView, link: Link)
    requires
        s.tasks.len() > 0,
        s.tasks.last() == TaskView::FinishFlush(rid, false, true, false, false),
        s.routers.contains_key(rid),
        s.routers[rid].portal_filled() == r,
        s.routers[rid].outward == r.outward,
        s.routers[rid].inward is None,
        s.routers[rid].bridge is None,
        idle(r, link),
    ensures
        s.stepped() == (
            NodeView { tasks: s.tasks.drop_last(), routers: s.routers.insert(rid, r), ..s },
            Ok::<(), Fault>(()),
        ),
{
    reveal(NodeView::decays_ended);
    reveal(NodeView::closures_found);
    let t = NodeView { tasks: s.tasks.drop_last(), ..s };
    let q = s.routers[rid];
    let u = t.decays_ended(rid).0;
    assert(u.routers[rid] == q);
    let v = u.with_router(rid, r);
    assert(v.routers =~= s.routers.insert(rid, r));
    let w = v.closures_found(rid, true);
    assert(w.0.routers =~= v.routers);
    assert(w.0 == v);
}

/// The start of the flush of a router that has nothing to send.
proof fn lemma_flush_sends_nothing(s: NodeView, rid: u64, link: Link, q: RouterView)
    requires
        s.tasks.len() > 0,
        s.tasks.last() == TaskView::Flush(rid, false),
        s.routers.contains_key(rid),
        idle(q, link),
        s.routers[rid] == (RouterView { inbound: s.routers[rid].inbound, ..q }),
    ensures
        s.stepped() == (
            NodeView {
                tasks: s.tasks.drop_last().push(
                    TaskView::FinishFlush(rid, false, true, false, false),
                ),
                ..s
            },
            Ok::<(), Fault>(()),
        ),
{
    lemma_nothing_drained(q, link);
    let r = s.routers[rid];
    assert(r.sendable().0 =~= Seq::empty());
    assert(r.sendable().1 == r);
    assert(transmissions(Seq::empty()) =~= Seq::empty());
    assert(s.routers.insert(rid, r) =~= s.routers);
    let rest = TaskView::FinishFlush(rid, false, true, false, false);
    assert(s.tasks.drop_last().push(rest) + Seq::empty() =~= s.tasks.drop_last().push(rest));
}

/// The start of the flush of a router that has one parcel to send.
proof fn lemma_flush_sends_one(s: NodeView, rid: u64, r: RouterView, link: Link, p: ParcelView)
    requires
        s.tasks.len() > 0,
        s.tasks.last() == TaskView::Flush(rid, false),
        s.routers.contains_key(rid),
        idle(r, link),
        p.sequence_number == r.outbound.current,
        s.routers[rid] == (RouterView { outbound: r.outbound.pushed(p), ..r }),
    ensures
        s.stepped() == (
            NodeView {
                tasks: s.tasks.drop_last().push(
                    TaskView::FinishFlush(rid, false, true, false, false),
                ).push(TaskView::Transmit(link, p)),
                routers: s.routers.insert(rid, having_sent(r)),
                ..s
            },
            Ok::<(), Fault>(()),
        ),
{
    lemma_one_collected(r, link, p);
    let q = s.routers[rid];
    assert(q.sendable().0 =~= seq![(link, p)]);
    assert(q.sendable().1 == having_sent(r));
    assert(transmissions(seq![(link, p)]) =~= seq![TaskView::Transmit(link, p)]);
    let rest = TaskView::FinishFlush(rid, false, true, false, false);
    assert(s.tasks.drop_last().push(rest) + seq![TaskView::Transmit(link, p)]
        =~= s.tasks.drop_last().push(rest).push(TaskView::Transmit(link, p)));
}

/// One more piece of work, where the first of them succeeds.
proof fn lemma_settles(s: NodeView, t: NodeView, n: nat)
    requires
        n > 0,
        s.tasks.len() > 0,
        s.stepped() == (t, Ok::<(), Fault>(())),
    ensures
        s.settled(n) == t.settled((n - 1) as nat),
{
}

/// A message that is put into one of two portals that are linked to each other
/// comes out of the other, behind what came out before, with its objects. Both
/// portals are then as they were, each a message further on; so any number of
/// messages come out in the order in which they were put.
pub proof fn law_local_message_arrives(
    s: NodeView,
    a: u64,
    b: u64,
    to_b: Link,
    to_a: Link,
    data: Seq<u8>,
    objects: Seq<Object>,
    n: nat,
)
    requires
        s.tasks.len() == 0,
        a != b,
        s.routers.contains_key(a),
        s.routers.contains_key(b),
        idle(s.routers[a], to_b),
        idle(s.routers[b], to_a),
        to_b.local_peer == Some(b),
        s.routers[a].outbound.current == s.routers[b].inbound.current,
        n >= 5,
    ensures
        ({
            let put = s.message_put(a, data, objects);
            let t = NodeView {
                routers: s.routers.insert(a, having_sent(s.routers[a])).insert(
                    b,
                    given(s.routers[b], data, objects),
                ),
                ..s
            };
            &&& put.1 == Ok::<Option<FragmentDescriptor>, Fault>(None)
            &&& put.0.settled(n) == (t, Ok::<(), Fault>(()))
            &&& idle(t.routers[a], to_b)
            &&& idle(t.routers[b], to_a)
            &&& t.routers[a].outbound.current == t.routers[b].inbound.current
        }),
{
    let ra = s.routers[a];
    let rb = s.routers[b];
    let p = ParcelView {
        sequence_number: ra.outbound.current,
        data,
        objects,
        fragment: None,
    };
    let s0 = s.message_put(a, data, objects).0;
    let fin_a = TaskView::FinishFlush(a, false, true, false, false);
    let fin_b = TaskView::FinishFlush(b, false, true, false, false);
    assert(s0.tasks.drop_last() =~= s.tasks);
    lemma_flush_sends_one(s0, a, ra, to_b, p);
    let s1 = s0.stepped().0;
    assert(s1.routers =~= s.routers.insert(a, having_sent(ra)));
    lemma_settles(s0, s1, n);

    assert(s1.tasks.last() == TaskView::Transmit(to_b, p));
    assert(s1.tasks.drop_last() =~= seq![fin_a]);
    let rb1 = RouterView { inbound: rb.inbound.pushed(p), ..rb };
    let s2 = NodeView {
        tasks: seq![fin_a].push(TaskView::Flush(b, false)),
        routers: s1.routers.insert(b, rb1),
        ..s1
    };
    assert(s1.stepped() == (s2, Ok::<(), Fault>(())));
    lemma_settles(s1, s2, (n - 1) as nat);

    lemma_flush_sends_nothing(s2, b, to_a, rb);
    let s3 = s2.stepped().0;
    assert(s2.tasks.drop_last() =~= seq![fin_a]);
    lemma_settles(s2, s3, (n - 2) as nat);

    lemma_one_drained(rb, to_a, p);
    let rb2 = given(rb, data, objects);
    lemma_flush_ends(s3, b, rb2, to_a);
    let s4 = s3.stepped().0;
    assert(s3.tasks.drop_last() =~= seq![fin_a]);
    lemma_settles(s3, s4, (n - 3) as nat);

    let ra1 = having_sent(ra);
    lemma_nothing_drained(ra1, to_b);
    lemma_flush_ends(s4, a, ra1, to_b);
    let s5 = s4.stepped().0;
    assert(s4.tasks.drop_last() =~= s.tasks);
    lemma_settles(s4, s5, (n - 4) as nat);
    assert(s5.routers =~= s.routers.insert(a, ra1).insert(b, rb2));
}

/// A pair of portals that is opened is linked, both ends idle and the state of
/// the link stable on both sides; nothing else changes. So what is put into one
/// of them comes out of the other.
pub proof fn law_opened_portals_are_linked(s: NodeView)
    ensures
        ({
            let a = s.next_rid;
            let b = next_number(a);
            let t = s.portals_opened();
            &&& a != b
            &&& t.routers.contains_key(a) && t.routers[a].outward.primary is Some
            &&& t.routers.contains_key(b) && t.routers[b].outward.primary is Some
            &&& idle(t.routers[a], t.routers[a].outward.primary->0)
            &&& idle(t.routers[b], t.routers[b].outward.primary->0)
            &&& t.routers[a].outward.spec_local_peer() == Some(b)
            &&& t.routers[b].outward.spec_local_peer() == Some(a)
            &&& t.routers[a].outbound.current == t.routers[b].inbound.current
            &&& t.routers[b].outbound.current == t.routers[a].inbound.current
            &&& t.local_states.last().status == 3
            &&& t.tasks == s.tasks
            &&& t.outbox == s.outbox
            &&& forall|rid: u64|
                rid != a && rid != b && s.routers.contains_key(rid) ==> t.routers.contains_key(rid)
                    && #[trigger] t.routers[rid] == s.routers[rid]
        }),
{
}

/// A message that is put into a portal whose route leads to another node is sent
/// there: one parcel goes out on the sublink of the portal's link, with the
/// number that is next on the route. Its data is in a fragment of the link
/// memory where there is room, and inline otherwise. The portal is then as it
/// was, a message further on.
pub proof fn law_remote_message_is_sent(s: NodeView, rid: u64, link: Link, data: Seq<u8>, n: nat)
    requires
        s.tasks.len() == 0,
        s.routers.contains_key(rid),
        idle(s.routers[rid], link),
        link.local_peer is None,
        s.memory is Some,
        n >= 3,
    ensures
        ({
            let put = s.message_put(rid, data, Seq::empty());
            let t = put.0.settled(n).0;
            let placed = if data.len() > 0 {
                s.data_placed(data).1
            } else {
                Ok(None)
            };
            &&& put.1 == placed
            &&& placed is Ok
            &&& put.0.settled(n).1 is Ok
            &&& t.outbox == s.outbox.push(
                NumberedView {
                    link_id: LINK_ID_BROKER,
                    number: s.next_link_seq,
                    message: LinkMessageView::Parcel(
                        link.sublink,
                        s.routers[rid].outbound.current,
                        placed->Ok_0,
                        data,
                        Seq::empty(),
                    ),
                },
            )
            &&& t.tasks == s.tasks
            &&& t.routers == s.routers.insert(rid, having_sent(s.routers[rid]))
        }),
{
    let r = s.routers[rid];
    let (s0, placed) = s.message_put(rid, data, Seq::empty());
    let p = ParcelView {
        sequence_number: r.outbound.current,
        data,
        objects: Seq::empty(),
        fragment: placed->Ok_0,
    };
    let fin = TaskView::FinishFlush(rid, false, true, false, false);
    assert(s0.tasks.drop_last() =~= s.tasks);
    lemma_flush_sends_one(s0, rid, r, link, p);
    let s1 = s0.stepped().0;
    assert(s1.routers =~= s.routers.insert(rid, having_sent(r)));
    lemma_settles(s0, s1, n);

    assert(s1.tasks.drop_last() =~= seq![fin]);
    let none = Seq::<(u64, RouterDescriptor)>::empty();
    assert(crate::ipcz::transfer::descriptors_of(none) =~= Seq::empty());
    assert(crate::ipcz::transfer::proxy_starts(none, link.link_id) =~= Seq::empty());
    let s2 = NodeView { tasks: seq![fin], ..s1 }.with_message(
        LinkMessageView::Parcel(
            link.sublink,
            p.sequence_number,
            p.fragment,
            data,
            Seq::empty(),
        ),
    );
    assert(seq![fin] + Seq::<TaskView>::empty() =~= seq![fin]);
    assert(s1.stepped() == (s2, Ok::<(), Fault>(())));
    lemma_settles(s1, s2, (n - 1) as nat);

    let q = having_sent(r);
    lemma_nothing_drained(q, link);
    lemma_flush_ends(s2, rid, q, link);
    let s3 = s2.stepped().0;
    assert(s2.tasks.drop_last() =~= s.tasks);
    lemma_settles(s2, s3, (n - 2) as nat);
    assert(s3.routers =~= s.routers.insert(rid, q));
}

/// A parcel that another node sends comes out of the portal that owns its
/// sublink, behind what came out before, where it has the number that is next on
/// the route. The portal is then as it was, a message further on.
pub proof fn law_received_parcel_reaches_portal(
    s: NodeView,
    p: InboundView,
    link_id: u64,
    rid: u64,
    link: Link,
    n: nat,
)
    requires
        s.tasks.len() == 0,
        s.owners.contains_key((link_id, p.parcel.sublink)),
        s.owners[(link_id, p.parcel.sublink)] == rid,
        s.routers.contains_key(rid),
        idle(s.routers[rid], link),
        has_link_at(s.routers[rid].outward, link_id, p.parcel.sublink),
        p.parcel.num_subparcels == 1,
        p.parcel.subparcel_index == 0,
        p.parcel.parcel_fragment.spec_is_null(),
        p.parcel.handle_types.len() == 0,
        p.parcel.new_routers.len() == 0,
        p.parcel.driver_objects.len() == 0,
        p.routers.len() == 0,
        p.parcel.sequence_number == s.routers[rid].inbound.current,
        n >= 3,
    ensures
        ({
            let taken = s.parcel_accepted(p, link_id);
            let t = NodeView {
                routers: s.routers.insert(
                    rid,
                    given(s.routers[rid], p.parcel.parcel_data, Seq::empty()),
                ),
                ..s
            };
            &&& taken.1 is Ok
            &&& taken.0.settled(n) == (t, Ok::<(), Fault>(()))
            &&& idle(t.routers[rid], link)
        }),
{
    let r = s.routers[rid];
    let data = p.parcel.parcel_data;
    let route = TaskView::Route(p, data, link_id);
    let (s0, _) = s.parcel_accepted(p, link_id);
    assert(crate::ipcz::inbound::deserializations(p.routers, link_id) =~= Seq::empty());
    assert(s0.tasks =~= s.tasks.push(route));
    assert(s0.tasks.drop_last() =~= s.tasks);
    assert(identities_of(p.routers) =~= Seq::empty());
    let q = ParcelView {
        sequence_number: p.parcel.sequence_number,
        data,
        objects: Seq::empty(),
        fragment: None,
    };
    assert(objects_named(p.parcel.handle_types, identities_of(p.routers), false) == Ok::<
        (Seq<Object>, bool),
        Fault,
    >((Seq::empty(), false)));
    let r1 = RouterView { inbound: r.inbound.pushed(q), ..r };
    let s1 = NodeView {
        tasks: s.tasks.push(TaskView::Flush(rid, false)),
        routers: s.routers.insert(rid, r1),
        ..s
    };
    assert(s0.stepped() == (s1, Ok::<(), Fault>(())));
    lemma_settles(s0, s1, n);

    lemma_flush_sends_nothing(s1, rid, link, r);
    let s2 = s1.stepped().0;
    assert(s1.tasks.drop_last() =~= s.tasks);
    lemma_settles(s1, s2, (n - 1) as nat);

    lemma_one_drained(r, link, q);
    let r2 = given(r, data, Seq::empty());
    lemma_flush_ends(s2, rid, r2, link);
    let s3 = s2.stepped().0;
    assert(s2.tasks.drop_last() =~= s.tasks);
    lemma_settles(s2, s3, (n - 2) as nat);
    assert(s3.routers =~= s.routers.insert(rid, r2));
}

/// A parcel that comes too early for its sublink waits: once a router owns the
/// sublink, it is accepted before anything else is done.
pub proof fn law_early_parcel_is_accepted(
    s: NodeView,
    key: (u64, u64),
    p: InboundView,
)
    requires
        !s.early.contains_key(key),
    ensures
        ({
            let t = s.with_early(key, p).early_accepted(key);
            &&& t.tasks == s.tasks.push(TaskView::Accept(p, key.0))
            &&& t.early == s.early
        }),
{
    let kept = s.with_early(key, p);
    assert(kept.early[key] =~= seq![p]);
    assert(crate::ipcz::bypass::acceptances(seq![p], key.0) =~= seq![
        TaskView::Accept(p, key.0),
    ]);
    assert(kept.early_accepted(key).tasks =~= s.tasks.push(TaskView::Accept(p, key.0)));
    assert(kept.early_accepted(key).early =~= s.early);
}

/// The broker is asked for capacity once, until it has answered.
pub proof fn law_capacity_is_asked_once(s: NodeView, block_size: u32)
    ensures
        ({
            let t = s.capacity_requested(block_size).0;
            t.capacity_requested(block_size) == (t, Ok::<(), Fault>(()))
        }),
{
}

/// Work that fails drops what was still to be done.
pub proof fn law_failed_work_is_dropped(s: NodeView, n: nat)
    ensures
        s.settled(n).1 is Err ==> s.settled(n).0.tasks.len() == 0,
    decreases n,
{
    if n > 0 && s.tasks.len() > 0 && s.stepped().1 is Ok {
        law_failed_work_is_dropped(s.stepped().0, (n - 1) as nat);
    }
}

/// What is asked for as capacity is whole pages of 64 KiB with room for 8
/// blocks, and not a page more than that takes. The request is kept until it is
/// answered.
pub proof fn law_capacity_has_room(s: NodeView, block_size: u32)
    requires
        !s.capacity_pending.contains(block_size),
        s.capacity_requested(block_size).1 is Ok,
    ensures
        ({
            let t = s.capacity_requested(block_size).0;
            let r = t.requests.last();
            &&& t.requests.len() == s.requests.len() + 1
            &&& t.requests.drop_last() == s.requests
            &&& r.block_size == block_size
            &&& r.buffer_size % 65536 == 0
            &&& r.buffer_size >= 8 * block_size
            &&& r.buffer_size >= 65536
            &&& r.buffer_size > 65536 ==> r.buffer_size - 65536 < 8 * block_size
            &&& t.capacity_pending.contains(block_size)
            &&& t.outbox.len() == s.outbox.len() + 1
            &&& t.outbox.last().message == LinkMessageView::RequestMemory(r.buffer_size)
            &&& t.routers == s.routers
        }),
{
    let t = s.capacity_requested(block_size).0;
    assert(t.requests.drop_last() =~= s.requests);
}

} // verus!
