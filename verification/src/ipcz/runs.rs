//! Whole runs of a scenario: what it recorded by the time that it is over.

use vstd::prelude::*;

#[allow(unused_imports)]
use crate::casefile::events::{plain_event, EventKind, EventView};
#[allow(unused_imports)]
use crate::ipcz::dispatch::NodeMessageView;
#[allow(unused_imports)]
use crate::ipcz::journal::{
    lemma_closed_here, lemma_dispatched, lemma_initial_links_marked, lemma_parcel_worked,
    lemma_same, lemma_worked, law_handshake_is_recorded_in_order, sends_on, with_reply,
};
#[allow(unused_imports)]
use crate::ipcz::messages::{ConnectFromBrokerToNonBroker, DecodedView};
#[allow(unused_imports)]
use crate::ipcz::node::{InboundView, NodeView, LINK_ID_BROKER};
#[allow(unused_imports)]
use crate::ipcz::scenario::{
    carries_portal, counted, fresh_scenario, message_event, transfer_event, worked, Phase,
    ScenarioAction, ScenarioEvent, ScenarioKind, ScenarioStep, ScenarioView, EXHAUST_TRANSFERS,
};
#[allow(unused_imports)]
use crate::text::decimal;
#[allow(unused_imports)]
use vstd::utf8::encode_utf8;

verus! {

/// A run of a scenario: what happened, one thing after the other, and the state
/// in which the scenario was before each.
pub struct Run {
    /// The state before each step.
    pub starts: Seq<ScenarioView>,
    /// What happened in each step.
    pub events: Seq<ScenarioEvent>,
}

/// Whether a scenario in state `b` takes up where one in state `a` stopped. In
/// between, messages are sent, and what the link memories hold may change.
pub open spec fn resumed(a: ScenarioView, b: ScenarioView) -> bool {
    b == (ScenarioView {
        node: NodeView {
            memory: b.node.memory,
            direct_memory: b.node.direct_memory,
            outbox: b.node.outbox,
            ..a.node
        },
        ..a
    })
}

/// Whether a thing can happen when an action is done.
pub open spec fn answers(a: ScenarioAction, e: ScenarioEvent) -> bool {
    match a {
        ScenarioAction::Greet => e is Greeted || e is PeerClosed,
        ScenarioAction::Receive => e is Message || e is PeerClosed,
        ScenarioAction::Drain => e is Message || e is Drained || e is PeerClosed,
        ScenarioAction::Done => false,
    }
}

/// A parcel that the exhaustion scenario waits for.
pub enum Arrival {
    /// The transfer of a portal, with its number on the route.
    Transfer(u64),
    /// The first message on the portal that was transferred first.
    FirstWrite,
}

/// The parcel that comes in a step, if the exhaustion scenario waits for one.
pub open spec fn arrival(v: ScenarioView, e: ScenarioEvent) -> Option<Arrival> {
    match (v.phase, e) {
        (Phase::Flood(_, _), ScenarioEvent::Message(m, _, _)) => match m@ {
            NodeMessageView::Decoded(DecodedView::AcceptParcel(p), _) => Some(
                if carries_portal(p.handle_types) {
                    Arrival::Transfer(p.sequence_number)
                } else {
                    Arrival::FirstWrite
                },
            ),
            _ => None,
        },
        _ => None,
    }
}

/// Whether a parcel is one of those that the broker sends: a transfer that is
/// numbered among `EXHAUST_TRANSFERS`, or the first message.
pub open spec fn expected(a: Arrival) -> bool {
    match a {
        Arrival::Transfer(n) => n < EXHAUST_TRANSFERS,
        Arrival::FirstWrite => true,
    }
}

/// The number of the event of a parcel.
pub open spec fn arrival_event(a: Arrival) -> u64 {
    match a {
        Arrival::Transfer(n) => transfer_event(n),
        Arrival::FirstWrite => 4,
    }
}

/// The event of the exhaustion scenario for operation `op_id`.
pub open spec fn exhaustion_event(seq: u64, op_id: u64) -> EventView {
    let ok = "MOJO_RESULT_OK"@;
    if op_id == 0 || op_id == 1492 {
        plain_event(seq, op_id, EventKind::Lifecycle, ok)
    } else if op_id == 1 || op_id == 2 || op_id == 1491 {
        plain_event(seq, op_id, EventKind::Result, ok)
    } else if op_id == 3 {
        message_event(seq, op_id, encode_utf8("transfer-b1"@), 1)
    } else if op_id == 4 {
        message_event(seq, op_id, encode_utf8("w1"@), 0)
    } else if op_id == 1490 {
        plain_event(seq, op_id, EventKind::Message, "MOJO_RESULT_FAILED_PRECONDITION"@)
    } else {
        message_event(seq, op_id, encode_utf8("transfer-"@ + decimal((op_id - 3) as nat)), 1)
    }
}

/// The operations of events.
pub open spec fn op_ids(events: Seq<EventView>) -> Seq<u64> {
    events.map_values(|e: EventView| e.op_id)
}

impl Run {
    /// What a step comes to.
    #[verifier::opaque]
    pub open spec fn step(self, i: int) -> ScenarioStep {
        self.starts[i].advanced(self.events[i])
    }

    /// Whether a step follows the one before it: that one succeeded, what
    /// happens is what it asked for, and the scenario takes up where it stopped.
    pub open spec fn follows(self, i: int) -> bool {
        let (s, r) = self.step(i - 1);
        &&& r is Ok
        &&& answers(r->Ok_0, self.events[i])
        &&& resumed(s, self.starts[i])
    }

    /// Whether this is a run of a scenario, from the start on.
    pub open spec fn valid(self, kind: ScenarioKind) -> bool {
        &&& 0 < self.events.len() == self.starts.len()
        &&& self.events[0] is Start
        &&& resumed(fresh_scenario(kind), self.starts[0])
        &&& forall|i: int| 0 < i < self.events.len() ==> #[trigger] self.follows(i)
    }

    /// What the last step comes to.
    pub open spec fn end(self) -> ScenarioStep {
        self.step(self.events.len() - 1)
    }

    /// The parcels that came in the first `n` steps, in order.
    pub open spec fn arrivals(self, n: nat) -> Seq<Arrival>
        decreases n,
    {
        if n == 0 {
            Seq::empty()
        } else {
            let before = self.arrivals((n - 1) as nat);
            match arrival(self.starts[n - 1], self.events[n - 1]) {
                Some(a) => before.push(a),
                None => before,
            }
        }
    }
}

/// Whether the events of a node are those of the exhaustion scenario for the
/// operations `ids`, numbered from 1 on.
spec fn recorded(s: NodeView, ids: Seq<u64>) -> bool {
    &&& s.events.len() == ids.len()
    &&& s.event_seq == ids.len()
    &&& forall|i: int|
        0 <= i < ids.len() ==> #[trigger] s.events[i] == exhaustion_event((i + 1) as u64, ids[i])
}

proof fn lemma_recorded(s: NodeView, ids: Seq<u64>, op_id: u64)
    requires
        recorded(s, ids),
        ids.len() < 2000,
    ensures
        recorded(
            s.with_event(exhaustion_event(crate::bytes::next_number(s.event_seq), op_id)),
            ids.push(op_id),
        ),
{
    let t = s.with_event(exhaustion_event(crate::bytes::next_number(s.event_seq), op_id));
    assert forall|i: int| 0 <= i < ids.len() + 1 implies #[trigger] t.events[i]
        == exhaustion_event((i + 1) as u64, ids.push(op_id)[i]) by {
        if i < ids.len() {
            assert(t.events[i] == s.events[i]);
        }
    }
}

proof fn lemma_still_recorded(s: NodeView, t: NodeView, ids: Seq<u64>)
    requires
        recorded(s, ids),
        sends_on(s.journal(), t.journal()),
    ensures
        recorded(t, ids),
{
    reveal(sends_on);
    assert(t.journal().events == s.journal().events);
    assert(t.journal().event_seq == s.journal().event_seq);
    assert(t.events == s.events);
}

proof fn lemma_greeted(v: ScenarioView, c: ConnectFromBrokerToNonBroker, contents: Seq<u8>)
    requires
        v.kind is Exhaust,
        recorded(v.node, seq![0u64]),
        v.greeted(c, contents).1 is Ok,
    ensures
        v.greeted(c, contents).1 == Ok::<ScenarioAction, crate::ipcz::node::Fault>(
            ScenarioAction::Receive,
        ),
        v.greeted(c, contents).0.kind is Exhaust,
        v.greeted(c, contents).0.phase == Phase::Flood(0, false),
        recorded(v.greeted(c, contents).0.node, seq![0u64, 1, 2]),
{
    let x = v.node.connected(c, contents);
    law_handshake_is_recorded_in_order(v.node, c, contents);
    lemma_worked(with_reply(v.node.journal()), x);
    let s = worked(x).0;
    let w = NodeView { outbox: with_reply(v.node.journal()).outbox, ..v.node };
    assert(w.journal() == with_reply(v.node.journal()));
    lemma_still_recorded(w, s, seq![0u64]);
    lemma_recorded(s, seq![0u64], 1);
    let t = s.fine(1, EventKind::Result);
    assert(seq![0u64].push(1) =~= seq![0u64, 1]);
    lemma_recorded(t, seq![0u64, 1], 2);
    assert(seq![0u64, 1].push(2) =~= seq![0u64, 1, 2]);
}

proof fn lemma_flood_came(v: ScenarioView, p: InboundView, count: u32, first: bool, ids: Seq<u64>)
    requires
        v.kind is Exhaust,
        recorded(v.node, ids),
        ids.len() < 2000,
        v.flood_came(p, count, first).1 is Ok,
        carries_portal(p.parcel.handle_types) ==> p.parcel.sequence_number < EXHAUST_TRANSFERS,
    ensures
        ({
            let (t, r) = v.flood_came(p, count, first);
            let portal = carries_portal(p.parcel.handle_types);
            let a = if portal {
                Arrival::Transfer(p.parcel.sequence_number)
            } else {
                Arrival::FirstWrite
            };
            let c = if portal {
                counted(count)
            } else {
                count
            };
            let f = first || !portal;
            &&& r->Ok_0 is Receive
            &&& t.kind is Exhaust
            &&& recorded(t.node, ids.push(arrival_event(a)))
            &&& if c < EXHAUST_TRANSFERS || !f {
                t.phase == Phase::Flood(c, f)
            } else {
                t.phase is Closing
            }
        }),
{
    let (s, r) = v.node.parcel_worked(p);
    lemma_same(v.node.journal());
    lemma_parcel_worked(v.node.journal(), v.node, p);
    lemma_still_recorded(v.node, s, ids);
    if carries_portal(p.parcel.handle_types) {
        let n = p.parcel.sequence_number;
        let t = if count == 0 {
            s.initial_links_marked(2).0
        } else {
            s
        };
        lemma_same(s.journal());
        lemma_initial_links_marked(s.journal(), s, 2);
        lemma_still_recorded(s, t, ids);
        lemma_recorded(t, ids, transfer_event(n));
        assert(t.message_noted(transfer_event(n), r->Ok_0.payload, 1) == t.with_event(
            exhaustion_event(crate::bytes::next_number(t.event_seq), transfer_event(n)),
        ));
    } else {
        lemma_recorded(s, ids, 4);
        assert(s.message_noted(4, r->Ok_0.payload, 0) == s.with_event(
            exhaustion_event(crate::bytes::next_number(s.event_seq), 4),
        ));
    }
}

proof fn lemma_dispatch(
    v: ScenarioView,
    m: NodeMessageView,
    fds: Seq<i32>,
    buffer: Seq<u8>,
    ids: Seq<u64>,
)
    requires
        recorded(v.node, ids),
    ensures
        recorded(worked(v.node.dispatched(m, fds, buffer, LINK_ID_BROKER)).0, ids),
{
    let x = v.node.dispatched(m, fds, buffer, LINK_ID_BROKER);
    lemma_same(v.node.journal());
    lemma_dispatched(v.node.journal(), v.node, m, fds, buffer, LINK_ID_BROKER);
    lemma_worked(v.node.journal(), x);
    lemma_still_recorded(v.node, worked(x).0, ids);
}

proof fn lemma_close_came(
    v: ScenarioView,
    m: NodeMessageView,
    fds: Seq<i32>,
    buffer: Seq<u8>,
    ids: Seq<u64>,
)
    requires
        v.kind is Exhaust,
        recorded(v.node, ids),
        ids.len() < 1900,
        v.close_came(m, fds, buffer).1 is Ok,
    ensures
        v.close_came(m, fds, buffer).1->Ok_0 is Done,
        v.close_came(m, fds, buffer).0.kind is Exhaust,
        v.close_came(m, fds, buffer).0.phase is Over,
        recorded(v.close_came(m, fds, buffer).0.node, ids + seq![1490u64, 1491, 1492]),
{
    lemma_dispatch(v, m, fds, buffer, ids);
    let s1 = worked(v.node.dispatched(m, fds, buffer, LINK_ID_BROKER)).0;
    lemma_recorded(s1, ids, 1490);
    let s2 = s1.emitted(1490, EventKind::Message, "MOJO_RESULT_FAILED_PRECONDITION"@);
    let x = s2.closed_here(s2.bootstrap_rid);
    lemma_same(s2.journal());
    lemma_closed_here(s2.journal(), s2, s2.bootstrap_rid);
    lemma_worked(s2.journal(), x);
    lemma_still_recorded(s2, worked(x).0, ids.push(1490));
    lemma_recorded(worked(x).0, ids.push(1490), 1491);
    let s4 = worked(x).0.fine(1491, EventKind::Result);
    lemma_recorded(s4, ids.push(1490).push(1491), 1492);
    assert(ids.push(1490).push(1491).push(1492) =~= ids + seq![1490u64, 1491, 1492]);
}

/// The number of transfers among parcels.
spec fn transfers(arrivals: Seq<Arrival>) -> nat
    decreases arrivals.len(),
{
    if arrivals.len() == 0 {
        0
    } else {
        transfers(arrivals.drop_last()) + if arrivals.last() is Transfer {
            1nat
        } else {
            0
        }
    }
}

/// The operations of the events of the handshake and of parcels.
spec fn ids_so_far(arrivals: Seq<Arrival>) -> Seq<u64> {
    seq![0u64, 1, 2] + arrivals.map_values(|a: Arrival| arrival_event(a))
}

/// How far the exhaustion scenario is after parcels came, and what it recorded.
spec fn reached(v: ScenarioView, a: ScenarioAction, arrivals: Seq<Arrival>) -> bool {
    let all = transfers(arrivals) >= EXHAUST_TRANSFERS && arrivals.contains(Arrival::FirstWrite);
    &&& v.kind is Exhaust
    &&& match a {
        ScenarioAction::Greet => arrivals.len() == 0 && recorded(v.node, seq![0u64]),
        ScenarioAction::Receive => {
            &&& recorded(v.node, ids_so_far(arrivals))
            &&& match v.phase {
                Phase::Flood(c, f) => c == transfers(arrivals) && f == arrivals.contains(
                    Arrival::FirstWrite,
                ),
                Phase::Closing(_) => all,
                _ => false,
            }
        },
        ScenarioAction::Drain => false,
        ScenarioAction::Done => all && recorded(
            v.node,
            ids_so_far(arrivals) + seq![1490u64, 1491, 1492],
        ),
    }
}

proof fn lemma_arrived(arrivals: Seq<Arrival>, a: Arrival)
    ensures
        transfers(arrivals.push(a)) == transfers(arrivals) + if a is Transfer {
            1nat
        } else {
            0
        },
        arrivals.push(a).contains(Arrival::FirstWrite) == (arrivals.contains(Arrival::FirstWrite)
            || a is FirstWrite),
        ids_so_far(arrivals.push(a)) == ids_so_far(arrivals).push(arrival_event(a)),
{
    let b = arrivals.push(a);
    assert(b.drop_last() =~= arrivals);
    assert(ids_so_far(b) =~= ids_so_far(arrivals).push(arrival_event(a)));
    assert(b[arrivals.len() as int] == a);
    if arrivals.contains(Arrival::FirstWrite) {
        let i = choose|i: int| 0 <= i < arrivals.len() && arrivals[i] == Arrival::FirstWrite;
        assert(b[i] == Arrival::FirstWrite);
    }
    if b.contains(Arrival::FirstWrite) && !(a is FirstWrite) {
        let i = choose|i: int| 0 <= i < b.len() && b[i] == Arrival::FirstWrite;
        assert(arrivals[i] == Arrival::FirstWrite);
    }
}

proof fn lemma_message_step(
    v: ScenarioView,
    m: NodeMessageView,
    fds: Seq<i32>,
    buffer: Seq<u8>,
    arrivals: Seq<Arrival>,
    came: Option<Arrival>,
)
    requires
        reached(v, ScenarioAction::Receive, arrivals),
        v.message_came(m, fds, buffer).1 is Ok,
        arrivals.len() < 1487 || came is None && arrivals.len() <= 1487,
        came matches Some(a) ==> expected(a),
        came == match (v.phase, m) {
            (
                Phase::Flood(_, _),
                NodeMessageView::Decoded(DecodedView::AcceptParcel(p), _),
            ) => Some(
                if carries_portal(p.handle_types) {
                    Arrival::Transfer(p.sequence_number)
                } else {
                    Arrival::FirstWrite
                },
            ),
            _ => None,
        },
    ensures
        reached(
            v.message_came(m, fds, buffer).0,
            v.message_came(m, fds, buffer).1->Ok_0,
            match came {
                Some(a) => arrivals.push(a),
                None => arrivals,
            },
        ),
{
    let ids = ids_so_far(arrivals);
    match (v.phase, m) {
        (
            Phase::Flood(c, f),
            NodeMessageView::Decoded(DecodedView::AcceptParcel(parcel), routers),
        ) => {
            let p = InboundView { parcel, routers };
            let a = came->0;
            lemma_transfers_fit(arrivals);
            lemma_flood_came(v, p, c, f, ids);
            lemma_arrived(arrivals, a);
        },
        (
            Phase::Closing(n),
            NodeMessageView::Decoded(DecodedView::RouteClosed(x), routers),
        ) if x.sublink == n => {
            lemma_close_came(v, m, fds, buffer, ids);
        },
        _ => {
            lemma_dispatch(v, m, fds, buffer, ids);
        },
    }
}

proof fn lemma_transfers_fit(arrivals: Seq<Arrival>)
    ensures
        transfers(arrivals) + if arrivals.contains(Arrival::FirstWrite) {
            1nat
        } else {
            0
        } <= arrivals.len(),
    decreases arrivals.len(),
{
    if arrivals.len() > 0 {
        let before = arrivals.drop_last();
        lemma_transfers_fit(before);
        lemma_arrived(before, arrivals.last());
        assert(before.push(arrivals.last()) =~= arrivals);
    }
}

proof fn lemma_resumed(s: ScenarioView, v: ScenarioView, a: ScenarioAction, arrivals: Seq<Arrival>)
    requires
        resumed(s, v),
        reached(s, a, arrivals),
    ensures
        reached(v, a, arrivals),
{
    assert(v.node.events == s.node.events);
    assert(v.node.event_seq == s.node.event_seq);
    assert(forall|ids: Seq<u64>| recorded(s.node, ids) ==> recorded(v.node, ids));
}

proof fn lemma_step(
    v: ScenarioView,
    a: ScenarioAction,
    e: ScenarioEvent,
    before: Seq<Arrival>,
    after: Seq<Arrival>,
)
    requires
        reached(v, a, before),
        answers(a, e),
        v.advanced(e).1 is Ok,
        after == match arrival(v, e) {
            Some(x) => before.push(x),
            None => before,
        },
        after.len() <= 1487,
        arrival(v, e) matches Some(x) ==> expected(x),
    ensures
        reached(v.advanced(e).0, v.advanced(e).1->Ok_0, after),
{
    match e {
        ScenarioEvent::Greeted(c, contents) => {
            lemma_greeted(v, c, contents@);
            assert(ids_so_far(before) =~= seq![0u64, 1, 2]);
            if before.contains(Arrival::FirstWrite) {
                lemma_transfers_fit(before);
            }
        },
        ScenarioEvent::Message(m, fds, buffer) => {
            lemma_message_step(v, m@, fds@, buffer@, before, arrival(v, e));
        },
        _ => {},
    }
}

proof fn lemma_started(v: ScenarioView)
    requires
        resumed(fresh_scenario(ScenarioKind::Exhaust), v),
    ensures
        reached(
            v.advanced(ScenarioEvent::Start).0,
            v.advanced(ScenarioEvent::Start).1->Ok_0,
            Seq::empty(),
        ),
{
    assert(recorded(v.node, Seq::empty()));
    lemma_recorded(v.node, Seq::empty(), 0);
    assert(Seq::<u64>::empty().push(0) =~= seq![0u64]);
}

proof fn lemma_first_step(run: Run)
    requires
        run.valid(ScenarioKind::Exhaust),
    ensures
        reached(run.step(0).0, run.step(0).1->Ok_0, run.arrivals(1)),
{
    reveal(Run::step);
    lemma_started(run.starts[0]);
    assert(run.arrivals(0) =~= Seq::empty());
    assert(run.arrivals(1) =~= Seq::empty());
}

proof fn lemma_later_step(run: Run, n: nat)
    requires
        0 < n,
        run.follows(n as int),
        run.step(n as int).1 is Ok,
        reached(run.step(n - 1).0, run.step(n - 1).1->Ok_0, run.arrivals(n)),
        run.arrivals((n + 1) as nat).len() <= 1487,
        arrival(run.starts[n as int], run.events[n as int]) matches Some(x) ==> expected(x),
    ensures
        reached(run.step(n as int).0, run.step(n as int).1->Ok_0, run.arrivals((n + 1) as nat)),
{
    let v = run.starts[n as int];
    let a = run.step(n - 1).1->Ok_0;
    lemma_resumed(run.step(n - 1).0, v, a, run.arrivals(n));
    assert(run.step(n as int) == v.advanced(run.events[n as int])) by {
        reveal(Run::step);
    }
    lemma_step(v, a, run.events[n as int], run.arrivals(n), run.arrivals((n + 1) as nat));
}

proof fn lemma_reached(run: Run, n: nat)
    requires
        run.valid(ScenarioKind::Exhaust),
        0 < n <= run.events.len(),
        run.step(n - 1).1 is Ok,
        run.arrivals(n).len() <= 1487,
        forall|a: Arrival| #[trigger] run.arrivals(n).contains(a) ==> expected(a),
    ensures
        reached(run.step(n - 1).0, run.step(n - 1).1->Ok_0, run.arrivals(n)),
    decreases n,
{
    let v = run.starts[n - 1];
    let e = run.events[n - 1];
    if n == 1 {
        lemma_first_step(run);
    } else {
        let m = (n - 1) as nat;
        let before = run.arrivals(m);
        assert(run.follows(m as int));
        assert forall|a: Arrival| #[trigger] before.contains(a) implies expected(a) by {
            let i = choose|i: int| 0 <= i < before.len() && before[i] == a;
            assert(run.arrivals(n)[i] == a);
            assert(run.arrivals(n).contains(a));
        }
        lemma_reached(run, m);
        if arrival(v, e) is Some {
            assert(run.arrivals(n).last() == arrival(v, e)->0);
            assert(run.arrivals(n).contains(arrival(v, e)->0));
        }
        lemma_later_step(run, m);
    }
}

/// The numbers of the events of distinct parcels that are expected: they are
/// distinct and between those of the handshake and of the close, so that there
/// are no more than that; where there are as many, each number occurs.
proof fn lemma_numbers(arrivals: Seq<Arrival>)
    requires
        arrivals.no_duplicates(),
        forall|a: Arrival| #[trigger] arrivals.contains(a) ==> expected(a),
    ensures
        ({
            let ids = arrivals.map_values(|a: Arrival| arrival_event(a));
            &&& ids.no_duplicates()
            &&& forall|i: int| 0 <= i < ids.len() ==> 3 <= #[trigger] ids[i] <= 1489
            &&& arrivals.len() <= 1487
            &&& arrivals.len() == 1487 ==> forall|k: u64| 3 <= k <= 1489 ==> ids.contains(k)
        }),
{
    let ids = arrivals.map_values(|a: Arrival| arrival_event(a));
    assert forall|i: int| 0 <= i < ids.len() implies 3 <= #[trigger] ids[i] <= 1489 by {
        assert(arrivals.contains(arrivals[i]));
    }
    assert forall|i: int, j: int| 0 <= i < ids.len() && 0 <= j < ids.len() && i != j implies ids[i]
        != ids[j] by {
        assert(arrivals.contains(arrivals[i]));
        assert(arrivals.contains(arrivals[j]));
        assert(arrivals[i] != arrivals[j]);
    }
    let whole = Seq::new(ids.len(), |i: int| ids[i] as int);
    let range = vstd::set_lib::set_int_range(3, 1490);
    vstd::set_lib::lemma_int_range(3, 1490);
    assert forall|i: int, j: int| 0 <= i < whole.len() && 0 <= j < whole.len() && i != j implies
        whole[i] != whole[j] by {
        assert(ids[i] != ids[j]);
    }
    whole.unique_seq_to_set();
    assert(whole.to_set().subset_of(range)) by {
        assert forall|x: int| #[trigger] whole.to_set().contains(x) implies range.contains(x) by {
            let i = choose|i: int| 0 <= i < whole.len() && whole[i] == x;
            assert(ids[i] == x);
        }
    }
    vstd::set_lib::lemma_len_subset(whole.to_set(), range);
    if arrivals.len() == 1487 {
        vstd::set_lib::lemma_subset_equality(whole.to_set(), range);
        assert forall|k: u64| 3 <= k <= 1489 implies ids.contains(k) by {
            assert(range.contains(k as int));
            assert(whole.contains(k as int));
            let i = choose|i: int| 0 <= i < whole.len() && whole[i] == k as int;
            assert(ids[i] == k);
        }
    }
}

/// The exhaustion scenario, run to its end on transfers that come in any order,
/// each with a number of its own among `EXHAUST_TRANSFERS`, and one first
/// message: the operations of its events are those from 0 to 1492, each once.
/// The events count up from 1, and each is the one that its operation calls for.
pub proof fn law_exhaustion_run(run: Run)
    requires
        run.valid(ScenarioKind::Exhaust),
        run.end().1 is Ok,
        run.end().1->Ok_0 is Done,
        run.arrivals(run.events.len()).no_duplicates(),
        forall|a: Arrival| #[trigger]
            run.arrivals(run.events.len()).contains(a) ==> expected(a),
    ensures
        ({
            let events = run.end().0.node.events;
            &&& events.len() == 1493
            &&& forall|i: int|
                0 <= i < events.len() ==> (#[trigger] events[i]).seq == i + 1 && events[i]
                    == exhaustion_event(events[i].seq, events[i].op_id)
            &&& op_ids(events).no_duplicates()
            &&& forall|k: u64| #[trigger] op_ids(events).contains(k) <==> k <= 1492
        }),
{
    let arrivals = run.arrivals(run.events.len());
    let middle = arrivals.map_values(|a: Arrival| arrival_event(a));
    let events = run.end().0.node.events;
    lemma_numbers(arrivals);
    lemma_reached(run, run.events.len());
    lemma_transfers_fit(arrivals);
    let ids = ids_so_far(arrivals) + seq![1490u64, 1491, 1492];
    assert(recorded(run.end().0.node, ids));
    assert(arrivals.len() == 1487);
    assert(ids.len() == 1493);
    assert forall|i: int| 0 <= i < events.len() implies (#[trigger] events[i]).seq == i + 1
        && events[i] == exhaustion_event(events[i].seq, events[i].op_id) && events[i].op_id
        == ids[i] by {}
    assert(op_ids(events) =~= ids);
    assert(forall|i: int| 3 <= i < 1490 ==> #[trigger] ids[i] == middle[i - 3]);
    assert forall|i: int, j: int| 0 <= i < ids.len() && 0 <= j < ids.len() && i != j implies ids[i]
        != ids[j] by {
        if 3 <= i < 1490 && 3 <= j < 1490 {
            assert(middle[i - 3] != middle[j - 3]);
        }
    }
    assert forall|k: u64| #[trigger] ids.contains(k) <==> k <= 1492 by {
        if k <= 2 {
            assert(ids[k as int] == k);
        } else if k <= 1489 {
            assert(middle.contains(k));
            let i = choose|i: int| 0 <= i < middle.len() && middle[i] == k;
            assert(ids[i + 3] == k);
        } else if k <= 1492 {
            assert(ids[k as int] == k);
        }
    }
}

} // verus!
