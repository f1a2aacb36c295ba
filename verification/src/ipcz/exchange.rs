//! What the peer of an acceptor learns: how many parcels go over a link that
//! decays, and where a route ends.

use vstd::prelude::*;

#[allow(unused_imports)]
use crate::ipcz::acceptor::{
    bypassed, decay_settled, delivered, delivered_all, finished, link_adopted, owner, received_on,
    replied, route_closed, AcceptorView, RunOutcome,
};
#[allow(unused_imports)]
use crate::ipcz::channel::IncomingView;
#[allow(unused_imports)]
use crate::ipcz::link_memory::{link_status, status_of};
#[allow(unused_imports)]
use crate::ipcz::messages::{
    decoded, law_route_closed_round_trip, law_stop_proxying_round_trip, two_words,
    BypassPeerWithLink, DecodedView, RouteClosed, StopProxyingToLocalPeer, MSG_ID_ROUTE_CLOSED,
    MSG_ID_STOP_PROXYING_TO_LOCAL_PEER,
};
#[allow(unused_imports)]
use crate::ipcz::outgoing::lemma_plain_numbered;
#[allow(unused_imports)]
use crate::ipcz::wire::WireError;

verus! {

/// Whether one more message was sent than before, which the peer decodes to
/// this.
pub open spec fn tells(a: AcceptorView, b: AcceptorView, m: DecodedView) -> bool {
    &&& b.outbox.len() == a.outbox.len() + 1
    &&& b.outbox.drop_last() == a.outbox
    &&& decoded(b.outbox.last().payload, 0) == Ok::<DecodedView, WireError>(m)
    &&& b.outbox.last().file is None
}

proof fn lemma_delivery_sends_nothing(
    s: AcceptorView,
    sublink: u64,
    queue: Seq<(u64, IncomingView)>,
)
    ensures
        delivered_all(s, sublink, queue).0.outbox == s.outbox,
    decreases queue.len(),
{
    if queue.len() > 0 {
        let (t, r) = delivered(s, sublink, queue[0].0, queue[0].1);
        if r is Ok {
            lemma_delivery_sends_nothing(t, sublink, queue.skip(1));
        }
    }
}

/// When a route adopts the link that the peer offers, the peer is told how many
/// parcels the route has sent so far, on the sublink that they went over.
pub proof fn law_peer_learns_length(s: AcceptorView, b: BypassPeerWithLink)
    requires
        bypassed(s, b).1 is Ok,
    ensures
        ({
            let t = bypassed(s, b).0;
            let key = owner(s, b.sublink)->0;
            let route = s.routers[key];
            &&& owner(s, b.sublink) is Some
            &&& tells(
                s,
                t,
                DecodedView::StopProxyingToLocalPeer(
                    StopProxyingToLocalPeer {
                        sublink: route.primary.sublink,
                        outbound_sequence_length: route.outbound_seq,
                    },
                ),
            )
        }),
{
    let key = owner(s, b.sublink)->0;
    let route = s.routers[key];
    let adopted = link_adopted(s, key, b);
    lemma_plain_numbered(
        MSG_ID_STOP_PROXYING_TO_LOCAL_PEER,
        two_words(route.primary.sublink, route.outbound_seq),
        s.next_link_seq,
    );
    law_stop_proxying_round_trip(route.primary.sublink, route.outbound_seq, s.next_link_seq);
    let t = decay_settled(adopted, key).0;
    if t.early.contains_key(b.new_sublink) {
        lemma_delivery_sends_nothing(
            AcceptorView { early: t.early.remove(b.new_sublink), ..t },
            b.new_sublink,
            t.early[b.new_sublink],
        );
    }
    assert(bypassed(s, b).0.outbox.drop_last() =~= s.outbox);
}

/// The link that a route leaves decays until as many parcels have come over it
/// as the peer said, and not before. This side of the new link is then marked
/// stable. Nothing else about the route changes.
pub proof fn law_left_link_decays(s: AcceptorView, key: u64, b: BypassPeerWithLink)
    requires
        s.routers.contains_key(key),
        s.memory is Some,
        link_status(s.memory->0, b.new_link_state_fragment) is Ok,
    ensures
        ({
            let old = s.routers[key];
            let adopted = link_adopted(s, key, b);
            let (t, r) = decay_settled(adopted, key);
            let q = t.routers[key];
            let done = received_on(old, old.primary.sublink) >= b.inbound_sequence_length;
            &&& r is Ok
            &&& q.primary.sublink == b.new_sublink
            &&& q.primary.link_state == b.new_link_state_fragment
            &&& q.decaying == if done {
                None
            } else {
                Some(old.primary)
            }
            &&& !done ==> q.decaying_length == b.inbound_sequence_length && t.memory == s.memory
            &&& done ==> t.memory is Some && t.memory->0 == crate::ipcz::link_memory::with_status(
                s.memory->0,
                b.new_link_state_fragment,
                status_of(s.memory->0, b.new_link_state_fragment) | 2,
            )
            &&& q.outbound_seq == old.outbound_seq
            &&& q.inbound_seq == old.inbound_seq
            &&& q.portal == old.portal
            &&& q.received == old.received
            &&& q.closed == old.closed
            &&& t.adopted == s.adopted.insert(b.new_sublink, key)
            &&& forall|k: u64|
                k != key && s.routers.contains_key(k) ==> #[trigger] t.routers[k] == s.routers[k]
        }),
{
}

/// A parcel is taken exactly if it is the next of its route, whichever of its
/// sublinks it comes on; it counts for that sublink, and no other route changes.
pub proof fn law_next_parcel_is_taken(
    s: AcceptorView,
    sublink: u64,
    key: u64,
    number: u64,
    m: IncomingView,
)
    requires
        owner(s, sublink) == Some(key),
        s.routers[key].decaying is None,
        s.routers[key].portal is Some,
        s.routers[key].inbound_seq < u64::MAX,
        received_on(s.routers[key], sublink) < u64::MAX,
    ensures
        ({
            let (t, r) = delivered(s, sublink, number, m);
            let old = s.routers[key];
            let q = t.routers[key];
            &&& r is Ok == (number == old.inbound_seq)
            &&& r is Err ==> t == s
            &&& r is Ok ==> {
                &&& q.inbound_seq == old.inbound_seq + 1
                &&& q.outbound_seq == old.outbound_seq
                &&& received_on(q, sublink) == received_on(old, sublink) + 1
                &&& q.portal == Some(old.portal->0.push(m))
                &&& q.primary == old.primary
                &&& t.reply_ready == (s.reply_ready || key == 1)
            }
            &&& t.outbox == s.outbox
            &&& forall|k: u64|
                k != key && s.routers.contains_key(k) ==> #[trigger] t.routers[k] == s.routers[k]
        }),
{
}

/// A route that the peer closed is marked so, and no other.
pub proof fn law_closed_route_is_marked(s: AcceptorView, sublink: u64, key: u64)
    requires
        owner(s, sublink) == Some(key),
    ensures
        ({
            let t = route_closed(s, sublink);
            &&& t.routers[key].closed
            &&& t.routers[key].portal == s.routers[key].portal
            &&& t.routers[key].inbound_seq == s.routers[key].inbound_seq
            &&& t.routers[key].outbound_seq == s.routers[key].outbound_seq
            &&& t.routers[key].primary == s.routers[key].primary
            &&& t.outbox == s.outbox
            &&& forall|k: u64|
                k != key && s.routers.contains_key(k) ==> #[trigger] t.routers[k] == s.routers[k]
        }),
{
}

/// At the end of an exchange the peer learns where the route ends, if the reply
/// went out and the peer is still there: after all parcels that were sent, on
/// the link that is in use then. A peer that is gone is told nothing; the
/// exchange has failed only if it was gone before the reply.
pub proof fn law_exchange_ends_route(s: AcceptorView, peer_closed: bool)
    ensures
        ({
            let (t, r) = finished(s, peer_closed);
            let route = s.routers[1];
            &&& s.reply_sent && !peer_closed && s.routers.contains_key(1) ==> tells(
                s,
                t,
                DecodedView::RouteClosed(
                    RouteClosed {
                        sublink: route.primary.sublink,
                        sequence_length: route.outbound_seq,
                    },
                ),
            )
            &&& peer_closed || !s.reply_sent ==> t.outbox == s.outbox
            &&& r == if peer_closed && !s.reply_sent {
                RunOutcome::PeerClosed
            } else {
                RunOutcome::Success
            }
            &&& t.routers == s.routers
        }),
{
    let route = s.routers[1];
    if s.reply_sent && !peer_closed && s.routers.contains_key(1) {
        lemma_plain_numbered(
            MSG_ID_ROUTE_CLOSED,
            two_words(route.primary.sublink, route.outbound_seq),
            s.next_link_seq,
        );
        law_route_closed_round_trip(route.primary.sublink, route.outbound_seq, s.next_link_seq);
        assert(finished(s, peer_closed).0.outbox.drop_last() =~= s.outbox);
    }
}

/// The reply counts: the route that it went out on ends one parcel later.
pub proof fn law_reply_is_counted(s: AcceptorView, content: Seq<u8>)
    requires
        replied(s, content).1 is Ok,
        s.routers[1].outbound_seq < u64::MAX,
    ensures
        ({
            let t = replied(s, content).0;
            let end = finished(t, false).0;
            let route = s.routers[1];
            &&& s.routers.contains_key(1)
            &&& t.reply_sent
            &&& t.routers[1].outbound_seq == route.outbound_seq + 1
            &&& t.routers[1].primary == route.primary
            &&& t.routers[1].inbound_seq == route.inbound_seq
            &&& t.routers[1].portal == route.portal
            &&& tells(
                t,
                end,
                DecodedView::RouteClosed(
                    RouteClosed {
                        sublink: route.primary.sublink,
                        sequence_length: (route.outbound_seq + 1) as u64,
                    },
                ),
            )
            &&& end.outbox.len() == s.outbox.len() + 2
        }),
{
    let t = replied(s, content).0;
    law_exchange_ends_route(t, false);
}

} // verus!
