//! Scenarios: what a routing node goes through with its broker, step by step.
//!
//! A scenario takes what the channel to the broker received and says what is to
//! be received next. Messages that a step does not wait for are dispatched to
//! the routers.

use vstd::prelude::*;
use vstd::slice::slice_to_vec;
#[allow(unused_imports)]
use vstd::utf8::encode_utf8;

#[allow(unused_imports)]
use crate::bytes::next_number;
use crate::bytes::{following, same_bytes};
#[allow(unused_imports)]
use crate::casefile::events::{plain_event, EventView};
use crate::casefile::events::{Event, EventKind};
use crate::digest::digest_text;
#[allow(unused_imports)]
use crate::digest::hex_text;
#[allow(unused_imports)]
use crate::ipcz::dispatch::NodeMessageView;
use crate::ipcz::dispatch::NodeMessage;
#[allow(unused_imports)]
use crate::ipcz::inbound::{processed, ProcessedView};
use crate::ipcz::inbound::{ProcessedParcel, BOOTSTRAP_SUBLINK};
#[allow(unused_imports)]
use crate::ipcz::link_memory::has_extra;
use crate::ipcz::link_memory::{MAX_INITIAL_PORTALS, PRIMARY_BUFFER_ID, PRIMARY_BUFFER_SIZE};
use crate::ipcz::messages::{ConnectFromBrokerToNonBroker, DecodedMessage, FragmentDescriptor};
#[allow(unused_imports)]
use crate::ipcz::messages::DecodedView;
use crate::ipcz::node::{
    InboundParcel, RoutingAcceptor, RoutingError, HANDLE_PORTAL, LINK_ID_BROKER,
};
#[allow(unused_imports)]
use crate::ipcz::node::{fate, Fault, InboundView, NodeStep, NodeView};
use crate::ipcz::router::Object;
#[allow(unused_imports)]
use crate::text::{decimal, texts};
use crate::text::labelled;

verus! {

/// The number of transfers that exhaust the broker's link states.
pub const EXHAUST_TRANSFERS: u32 = 1486;

/// The number of transfers that exhaust the node's link states.
pub const BYPASS_TRANSFERS: u32 = 1520;

/// The most pieces of work that one step does.
pub const WORK_LIMIT: u64 = u64::MAX;

/// The number of the event of a transfer in the exhaustion scenario: 3 for the
/// first on the route, then 5 and on, as 4 is that of the first write.
pub open spec fn transfer_event(number: u64) -> u64 {
    if number == 0 {
        3
    } else {
        crate::bytes::wrapped64(number, 4)
    }
}

/// The event of a message with handles.
pub open spec fn message_event(seq: u64, op_id: u64, payload: Seq<u8>, handles: nat) -> EventView {
    EventView {
        payload_hex: Some(hex_text(payload)),
        handles: Some(Seq::new(handles, |i: int| "h"@ + decimal(i as nat))),
        ..plain_event(seq, op_id, EventKind::Message, "MOJO_RESULT_OK"@)
    }
}

/// Bytes cut or filled up with `x` to a length.
pub open spec fn padded(b: Seq<u8>, n: nat) -> Seq<u8> {
    Seq::new(
        n,
        |k: int|
            if k < b.len() {
                b[k]
            } else {
                120
            },
    )
}

/// The payload of message `i` of the memory scenario: its number, in two digits
/// at least, and padding to 200 bytes.
pub open spec fn memory_payload_of(i: u32) -> Seq<u8> {
    padded(
        encode_utf8(
            if i < 10 {
                "m0"@
            } else {
                "m"@
            } + decimal(i as nat),
        ),
        200,
    )
}

/// The payload of the memory scenario's message `i`.
pub fn memory_payload(i: u32) -> (out: Vec<u8>)
    ensures
        out@ == memory_payload_of(i),
{
    let text = labelled(
        if i < 10 {
            "m0"
        } else {
            "m"
        },
        i as u64,
    );
    let b = text.as_str().as_bytes();
    let mut out: Vec<u8> = Vec::new();
    let mut k: usize = 0;
    while k < 200
        invariant
            k <= 200,
            out@ == padded(b@, k as nat),
        decreases 200 - k,
    {
        if k < b.len() {
            out.push(b[k]);
        } else {
            out.push(120);
        }
        k = k + 1;
        assert(out@ =~= padded(b@, k as nat));
    }
    out
}

/// A step, and the work that it leads to.
pub open spec fn worked(x: NodeStep) -> NodeStep {
    if x.1 is Err {
        x
    } else {
        x.0.settled(WORK_LIMIT as nat)
    }
}

impl NodeView {
    /// The state after a parcel from the broker is accepted and the work that
    /// it leads to is done, and what came of it.
    pub open spec fn parcel_worked(self, p: InboundView) -> (NodeView, Result<ProcessedView, Fault>) {
        let (s, r) = self.parcel_accepted(p, LINK_ID_BROKER);
        match r {
            Err(e) => (s, Err(e)),
            Ok(q) => {
                let (t, done) = s.settled(WORK_LIMIT as nat);
                (
                    t,
                    match done {
                        Err(e) => Err(e),
                        Ok(_) => Ok(q),
                    },
                )
            },
        }
    }

    /// The state after a message is put into a portal and the work that it
    /// leads to is done, and the fragment that its data is in, if any.
    pub open spec fn put_worked(self, rid: u64, data: Seq<u8>, objects: Seq<Object>) -> (
        NodeView,
        Result<Option<FragmentDescriptor>, Fault>,
    ) {
        let (s, r) = self.message_put(rid, data, objects);
        match r {
            Err(e) => (s, Err(e)),
            Ok(f) => {
                let (t, done) = s.settled(WORK_LIMIT as nat);
                (
                    t,
                    match done {
                        Err(e) => Err(e),
                        Ok(_) => Ok(f),
                    },
                )
            },
        }
    }

    /// The state with the event of a message.
    pub open spec fn message_noted(self, op_id: u64, payload: Seq<u8>, handles: nat) -> NodeView {
        self.with_event(message_event(next_number(self.event_seq), op_id, payload, handles))
    }

    /// The state with an event that says that all went well.
    pub open spec fn fine(self, op_id: u64, kind: EventKind) -> NodeView {
        self.emitted(op_id, kind, "MOJO_RESULT_OK"@)
    }
}

impl RoutingAcceptor {
    fn emit_message(&mut self, op_id: u64, payload: &[u8], handles: usize)
        requires
            old(self).wf(),
        ensures
            final(self).wf(),
            final(self)@ == old(self)@.message_noted(op_id, payload@, handles as nat),
    {
        let mut names: Vec<String> = Vec::new();
        let mut i: usize = 0;
        while i < handles
            invariant
                i <= handles,
                texts(names@) == Seq::new(i as nat, |k: int| "h"@ + decimal(k as nat)),
            decreases handles - i,
        {
            let name = labelled("h", i as u64);
            let ghost before = names@;
            names.push(name);
            i = i + 1;
            assert(texts(names@) =~= texts(before).push("h"@ + decimal((i - 1) as nat)));
            assert(texts(names@) =~= Seq::new(i as nat, |k: int| "h"@ + decimal(k as nat)));
        }
        let mut e = Event::plain(
            following(self.event_seq),
            op_id,
            EventKind::Message,
            "MOJO_RESULT_OK",
        );
        e.payload_hex = Some(digest_text(payload));
        e.handles = Some(names);
        self.note(e);
    }

    fn accept_and_work(&mut self, p: InboundParcel) -> (r: Result<ProcessedParcel, RoutingError>)
        requires
            old(self).wf(),
        ensures
            final(self).wf(),
            (final(self)@, processed(r)) == old(self)@.parcel_worked(p@),
    {
        match self.process_accept_parcel(p, LINK_ID_BROKER) {
            Err(e) => Err(e),
            Ok(q) => match self.settle(WORK_LIMIT) {
                Ok(_) => Ok(q),
                Err(e) => Err(e),
            },
        }
    }

    fn put_and_work(&mut self, rid: u64, data: Vec<u8>, objects: Vec<Object>) -> (r: Result<
        Option<FragmentDescriptor>,
        RoutingError,
    >)
        requires
            old(self).wf(),
        ensures
            final(self).wf(),
            (final(self)@, fate(r)) == old(self)@.put_worked(rid, data@, objects@),
    {
        match self.put(rid, data, objects) {
            Err(e) => Err(e),
            Ok(f) => match self.settle(WORK_LIMIT) {
                Ok(_) => Ok(f),
                Err(e) => Err(e),
            },
        }
    }

    fn dispatch_and_work(&mut self, m: NodeMessage, fds: &Vec<i32>, buffer: Vec<u8>) -> (r: Result<
        (),
        RoutingError,
    >)
        requires
            old(self).wf(),
        ensures
            final(self).wf(),
            (final(self)@, fate(r)) == worked(
                old(self)@.dispatched(m@, fds@, buffer@, LINK_ID_BROKER),
            ),
    {
        match self.dispatch(m, fds, buffer, LINK_ID_BROKER) {
            Err(e) => Err(e),
            Ok(_) => self.settle(WORK_LIMIT),
        }
    }
}

/// The scenarios.
#[derive(Debug, Clone, Copy, PartialEq, Eq, Structural)]
pub enum ScenarioKind {
    /// A portal is transferred in both directions, and the proxy bypassed.
    Routing,
    /// Parcel data through fragments, until they run out and are used again.
    Memory,
    /// The broker runs out of link states and adds a buffer.
    Exhaust,
    /// The node runs out of link states and asks for memory.
    Bypass,
}

/// Where a scenario is.
#[derive(Debug, Clone, Copy, PartialEq, Eq)]
pub enum Phase {
    /// The greeting is awaited.
    Greeting,
    /// The transferred portal is awaited.
    Transfer,
    /// The first message on the transferred portal is awaited, on one of the
    /// sublinks of its router.
    FirstWrite(Option<u64>, Option<u64>),
    /// What is available is dispatched before the broker's bypass is awaited.
    Settling,
    /// The broker's bypass of a sublink is awaited.
    Bypass(u64),
    /// What is available is dispatched before the transfers.
    Resettling,
    /// The end of proxying is awaited.
    Stop,
    /// A message on the bootstrap pipe is awaited.
    LateWrite(u64),
    /// Transfers are awaited: how many came, and whether the first message did.
    Flood(u32, bool),
    /// Transfers are made: how many were, and whether a buffer was added.
    Transfers(u32, bool),
    /// The close of a sublink is awaited.
    Closing(u64),
    /// The scenario is over.
    Over,
}

/// What happened on the channel to the broker.
pub enum ScenarioEvent {
    /// Nothing yet.
    Start,
    /// The greeting came and is in order; the link memory holds these bytes.
    Greeted(ConnectFromBrokerToNonBroker, Vec<u8>),
    /// A message came, with its descriptors and what the shared memory among
    /// them holds.
    Message(NodeMessage, Vec<i32>, Vec<u8>),
    /// Nothing more is available for now.
    Drained,
    /// The broker closed the channel.
    PeerClosed,
}

/// What is to be done next.
#[derive(Debug, Clone, Copy, PartialEq, Eq, Structural)]
pub enum ScenarioAction {
    /// Receive the greeting.
    Greet,
    /// Wait for a message.
    Receive,
    /// Receive what is available.
    Drain,
    /// The scenario is over.
    Done,
}

/// A scenario under way.
pub struct Scenario {
    /// Which one it is.
    pub kind: ScenarioKind,
    /// Where it is.
    pub phase: Phase,
    /// The router of the transferred portal.
    pub transferred: u64,
    /// The node.
    pub node: RoutingAcceptor,
}

/// The state of a scenario.
#[verifier::ext_equal]
pub struct ScenarioView {
    /// Which one it is.
    pub kind: ScenarioKind,
    /// Where it is.
    pub phase: Phase,
    /// The router of the transferred portal.
    pub transferred: u64,
    /// The node.
    pub node: NodeView,
}

impl View for Scenario {
    type V = ScenarioView;

    open spec fn view(&self) -> ScenarioView {
        ScenarioView {
            kind: self.kind,
            phase: self.phase,
            transferred: self.transferred,
            node: self.node@,
        }
    }
}

/// The state of a scenario that has not started.
pub open spec fn fresh_scenario(kind: ScenarioKind) -> ScenarioView {
    ScenarioView {
        kind,
        phase: Phase::Greeting,
        transferred: 0,
        node: crate::ipcz::node::fresh_node(),
    }
}

/// A state of a scenario, and what is to be done next.
pub type ScenarioStep = (ScenarioView, Result<ScenarioAction, Fault>);

/// One more than `n`, as far as that can be counted.
pub open spec fn counted(n: u32) -> u32 {
    if n == u32::MAX {
        n
    } else {
        (n + 1) as u32
    }
}

/// Whether a parcel carries a portal.
pub open spec fn carries_portal(types: Seq<u32>) -> bool {
    types.contains(HANDLE_PORTAL)
}

/// Whether a phase waits for a message.
pub open spec fn awaited(phase: Phase, transferred: u64, m: NodeMessageView) -> bool {
    match (phase, m) {
        (Phase::Stop, NodeMessageView::StopProxying(sublink, _, _)) => sublink == transferred,
        (_, NodeMessageView::Decoded(d, _)) => match (phase, d) {
            (Phase::Transfer, DecodedView::AcceptParcel(p)) => p.sublink == BOOTSTRAP_SUBLINK
                && carries_portal(p.handle_types),
            (Phase::FirstWrite(a, b), DecodedView::AcceptParcel(p)) => p.handle_types.len() == 0 && (
            a == Some(p.sublink) || b == Some(p.sublink)),
            (Phase::Bypass(n), DecodedView::BypassPeerWithLink(x)) => x.sublink == n,
            (Phase::LateWrite(n), DecodedView::AcceptParcel(p)) => p.sublink == n
                && p.handle_types.len() == 0,
            (Phase::Flood(_, _), DecodedView::AcceptParcel(_)) => true,
            (Phase::Closing(n), DecodedView::RouteClosed(x)) => x.sublink == n,
            _ => false,
        },
        _ => false,
    }
}

impl ScenarioView {
    /// The scenario with the node in a state.
    pub open spec fn at(self, node: NodeView) -> ScenarioView {
        ScenarioView { node, ..self }
    }

    /// The scenario in a phase, with the node in a state.
    pub open spec fn into(self, phase: Phase, node: NodeView) -> ScenarioView {
        ScenarioView { phase, node, ..self }
    }

    /// The scenario that now waits for something on the sublink that the
    /// bootstrap pipe is on.
    pub open spec fn waits_on_bootstrap(self, closing: bool, late: bool) -> ScenarioStep {
        match self.node.bootstrap_now() {
            Err(e) => (self, Err(e)),
            Ok(n) => (
                ScenarioView {
                    phase: if closing {
                        Phase::Closing(n)
                    } else if late {
                        Phase::LateWrite(n)
                    } else {
                        Phase::Bypass(n)
                    },
                    ..self
                },
                Ok(ScenarioAction::Receive),
            ),
        }
    }

    /// The scenario after the handshake.
    pub open spec fn greeted(self, c: ConnectFromBrokerToNonBroker, contents: Seq<u8>)
        -> ScenarioStep {
        let (s, r) = worked(self.node.connected(c, contents));
        match r {
            Err(e) => (self.at(s), Err(e)),
            Ok(_) => (
                self.into(
                    if self.kind is Exhaust {
                        Phase::Flood(0, false)
                    } else {
                        Phase::Transfer
                    },
                    s.fine(1, EventKind::Result).fine(2, EventKind::Result),
                ),
                Ok(ScenarioAction::Receive),
            ),
        }
    }

    /// The scenario after the transferred portal came.
    pub open spec fn transfer_came(self, p: InboundView) -> ScenarioStep {
        let (s1, r1) = self.node.initial_links_marked(2);
        match r1 {
            Err(e) => (self.at(s1), Err(e)),
            Ok(_) => {
                let (s2, r2) = s1.parcel_worked(p);
                match r2 {
                    Err(e) => (self.at(s2), Err(e)),
                    Ok(q) => if q.identities.len() != 1 {
                        (
                            self.at(s2),
                            Err(Fault::BadParcel("expected exactly one transferred portal"@)),
                        )
                    } else if q.payload != encode_utf8("transfer-b1"@) {
                        (self.at(s2), Err(Fault::BadParcel("unexpected transfer payload"@)))
                    } else {
                        let rid = q.identities[0];
                        let v = ScenarioView {
                            transferred: rid,
                            ..self.at(s2.message_noted(3, q.payload, 1))
                        };
                        if !s2.routers.contains_key(rid) {
                            (v, Err(Fault::BadParcel("b1 router missing"@)))
                        } else {
                            let e = s2.routers[rid].outward;
                            (
                                ScenarioView {
                                    phase: Phase::FirstWrite(
                                        match e.primary {
                                            Some(l) => Some(l.sublink),
                                            None => None,
                                        },
                                        match e.spec_decaying_link() {
                                            Some(l) => Some(l.sublink),
                                            None => None,
                                        },
                                    ),
                                    ..v
                                },
                                Ok(ScenarioAction::Receive),
                            )
                        }
                    },
                }
            },
        }
    }

    /// The scenario after the first message on the transferred portal came.
    pub open spec fn first_write_came(self, p: InboundView) -> ScenarioStep {
        let (s, r) = self.node.parcel_worked(p);
        match r {
            Err(e) => (self.at(s), Err(e)),
            Ok(q) => if q.payload != encode_utf8("w1"@) {
                (self.at(s), Err(Fault::BadParcel("unexpected w1 payload"@)))
            } else {
                let v = self.at(s.message_noted(4, q.payload, 0));
                if self.kind is Memory {
                    v.waits_on_bootstrap(false, false)
                } else {
                    (ScenarioView { phase: Phase::Settling, ..v }, Ok(ScenarioAction::Drain))
                }
            },
        }
    }

    /// The scenario after the broker's bypass of the bootstrap pipe.
    pub open spec fn bypass_came(self, m: NodeMessageView, fds: Seq<i32>, buffer: Seq<u8>)
        -> ScenarioStep {
        let (s, r) = worked(self.node.dispatched(m, fds, buffer, LINK_ID_BROKER));
        match r {
            Err(e) => (self.at(s), Err(e)),
            Ok(_) => match self.kind {
                ScenarioKind::Memory => self.at(s).memory_filled(),
                ScenarioKind::Bypass => (
                    self.into(Phase::Resettling, s),
                    Ok(ScenarioAction::Drain),
                ),
                _ => self.at(s).portal_sent_back(),
            },
        }
    }

    /// The scenario after a reply on the transferred portal and the transfer of
    /// the portal back.
    pub open spec fn portal_sent_back(self) -> ScenarioStep {
        let (s1, r1) = self.node.put_worked(
            self.transferred,
            encode_utf8("r1"@),
            Seq::empty(),
        );
        match r1 {
            Err(e) => (self.at(s1), Err(e)),
            Ok(_) => {
                let s2 = s1.fine(5, EventKind::Result);
                let (s3, r3) = s2.put_worked(
                    s2.bootstrap_rid,
                    encode_utf8("transfer-back"@),
                    seq![Object::Router(self.transferred)],
                );
                match r3 {
                    Err(e) => (self.at(s3), Err(e)),
                    Ok(_) => (
                        self.into(Phase::Stop, s3.fine(6, EventKind::Result)),
                        Ok(ScenarioAction::Receive),
                    ),
                }
            },
        }
    }

    /// The scenario after the end of proxying.
    pub open spec fn stop_came(self, m: NodeMessageView, fds: Seq<i32>, buffer: Seq<u8>)
        -> ScenarioStep {
        let (s, r) = worked(self.node.dispatched(m, fds, buffer, LINK_ID_BROKER));
        match r {
            Err(e) => (self.at(s), Err(e)),
            Ok(_) => self.at(s.fine(7, EventKind::Result)).waits_on_bootstrap(true, false),
        }
    }

    /// The numbers of the last events: that the peer closed, that the pipe is
    /// closed here, where that is an event of its own, and the end.
    pub open spec fn last_events(self) -> (u64, Option<u64>, u64) {
        match self.kind {
            ScenarioKind::Routing => (8, None, 9),
            ScenarioKind::Memory => (19, Some(20), 21),
            ScenarioKind::Exhaust => (1490, Some(1491), 1492),
            ScenarioKind::Bypass => (1524, Some(1525), 1526),
        }
    }

    /// The scenario after the broker closed its end of the bootstrap pipe.
    pub open spec fn close_came(self, m: NodeMessageView, fds: Seq<i32>, buffer: Seq<u8>)
        -> ScenarioStep {
        let (closed, here, over) = self.last_events();
        let (s1, r1) = worked(self.node.dispatched(m, fds, buffer, LINK_ID_BROKER));
        match r1 {
            Err(e) => (self.at(s1), Err(e)),
            Ok(_) => {
                let s2 = s1.emitted(
                    closed,
                    EventKind::Message,
                    "MOJO_RESULT_FAILED_PRECONDITION"@,
                );
                let (s3, r3) = worked(s2.closed_here(s2.bootstrap_rid));
                match r3 {
                    Err(e) => (self.at(s3), Err(e)),
                    Ok(_) => {
                        let s4 = match here {
                            Some(n) => s3.fine(n, EventKind::Result),
                            None => s3,
                        };
                        (
                            self.into(Phase::Over, s4.fine(over, EventKind::Lifecycle)),
                            Ok(ScenarioAction::Done),
                        )
                    },
                }
            },
        }
    }
}

/// What is wrong with the fragment of message `i` of the memory scenario: the
/// first eight come from the primary buffer, the ninth finds no block free.
pub open spec fn early_fragment_fault(i: int, f: Option<FragmentDescriptor>) -> Option<Fault> {
    if i < 8 {
        match f {
            None => Some(Fault::BadParcel("pre-exhaustion parcel unexpectedly inline"@)),
            Some(d) => if d.buffer_id != PRIMARY_BUFFER_ID {
                Some(Fault::BadParcel("pre-exhaustion parcel not from the primary buffer"@))
            } else {
                None
            },
        }
    } else if f is Some {
        Some(Fault::BadParcel("exhaustion parcel unexpectedly fragment-backed"@))
    } else {
        None
    }
}

/// What is wrong with the fragment of a message of the memory scenario once
/// blocks are free again.
pub open spec fn late_fragment_fault(f: Option<FragmentDescriptor>) -> Option<Fault> {
    match f {
        None => Some(Fault::BadParcel("post-read parcel unexpectedly inline"@)),
        Some(d) => if d.buffer_id != PRIMARY_BUFFER_ID {
            Some(Fault::BadParcel("post-read parcel not from the primary buffer"@))
        } else if d.size != 256 {
            Some(Fault::BadParcel("post-read parcel has the wrong block size"@))
        } else {
            None
        },
    }
}

impl NodeView {
    /// The state after the first `n` messages of the memory scenario are put
    /// into the transferred portal.
    pub open spec fn memory_messages_put(self, rid: u64, n: nat) -> NodeStep
        decreases n,
    {
        if n == 0 {
            (self, Ok(()))
        } else {
            let (s, r) = self.memory_messages_put(rid, (n - 1) as nat);
            if r is Err {
                (s, r)
            } else {
                let i = n - 1;
                let (t, f) = s.put_worked(rid, memory_payload_of(i as u32), Seq::empty());
                match f {
                    Err(e) => (t, Err(e)),
                    Ok(f) => match early_fragment_fault(i, f) {
                        Some(e) => (t, Err(e)),
                        None => (t.fine((5 + i) as u64, EventKind::Result), Ok(())),
                    },
                }
            }
        }
    }

    /// The state after a message of the memory scenario is put into the
    /// bootstrap pipe once blocks are free again.
    pub open spec fn late_message_put(self, i: u32, op_id: u64) -> NodeStep {
        let (s, f) = self.put_worked(self.bootstrap_rid, memory_payload_of(i), Seq::empty());
        match f {
            Err(e) => (s, Err(e)),
            Ok(f) => match late_fragment_fault(f) {
                Some(e) => (s, Err(e)),
                None => (s.fine(op_id, EventKind::Result), Ok(())),
            },
        }
    }

    /// The state after a message is put into the bootstrap pipe.
    pub open spec fn bootstrap_put(self, text: Seq<char>, objects: Seq<Object>, op_id: u64)
        -> NodeStep {
        let (s, r) = self.put_worked(self.bootstrap_rid, encode_utf8(text), objects);
        match r {
            Err(e) => (s, Err(e)),
            Ok(_) => (s.fine(op_id, EventKind::Result), Ok(())),
        }
    }
}

impl ScenarioView {
    /// The memory scenario after its messages, a marker and the transfer back.
    pub open spec fn memory_filled(self) -> ScenarioStep {
        let (s1, r1) = self.node.memory_messages_put(self.transferred, 9);
        let (s2, r2) = s1.bootstrap_put("sync"@, Seq::empty(), 14);
        let (s3, r3) = s2.bootstrap_put(
            "transfer-back"@,
            seq![Object::Router(self.transferred)],
            15,
        );
        match (r1, r2, r3) {
            (Err(e), _, _) => (self.at(s1), Err(e)),
            (Ok(_), Err(e), _) => (self.at(s2), Err(e)),
            (Ok(_), Ok(_), Err(e)) => (self.at(s3), Err(e)),
            (Ok(_), Ok(_), Ok(_)) => self.at(s3).waits_on_bootstrap(false, true),
        }
    }

    /// The memory scenario after the broker's message that it has read all.
    pub open spec fn late_write_came(self, p: InboundView) -> ScenarioStep {
        let (s, r) = self.node.parcel_worked(p);
        match r {
            Err(e) => (self.at(s), Err(e)),
            Ok(q) => if q.payload != encode_utf8("w3"@) {
                (self.at(s), Err(Fault::BadParcel("unexpected w3 payload"@)))
            } else {
                let (s1, r1) = s.message_noted(16, q.payload, 0).late_message_put(9, 17);
                let (s2, r2) = s1.late_message_put(10, 18);
                match (r1, r2) {
                    (Err(e), _) => (self.at(s1), Err(e)),
                    (Ok(_), Err(e)) => (self.at(s2), Err(e)),
                    (Ok(_), Ok(_)) => self.at(s2).waits_on_bootstrap(true, false),
                }
            },
        }
    }

    /// The exhaustion scenario after a parcel of the broker, of which `count`
    /// transfers came before; `first` says whether the first message on the
    /// transferred portal did.
    pub open spec fn flood_came(self, p: InboundView, count: u32, first: bool) -> ScenarioStep {
        let (s, r) = self.node.parcel_worked(p);
        let number = p.parcel.sequence_number;
        match r {
            Err(e) => (self.at(s), Err(e)),
            Ok(q) => if !carries_portal(p.parcel.handle_types) {
                if q.payload != encode_utf8("w1"@) {
                    (self.at(s), Err(Fault::BadParcel("unexpected w1 payload"@)))
                } else {
                    self.at(s.message_noted(4, q.payload, 0)).flood_goes_on(count, true)
                }
            } else {
                let expected = if number == 0 {
                    "transfer-b1"@
                } else {
                    "transfer-"@ + decimal(next_number(number) as nat)
                };
                let v = if number == 0 && q.identities.len() == 1 {
                    ScenarioView { transferred: q.identities[0], ..self }
                } else {
                    self
                };
                let (t, marked) = if count == 0 {
                    s.initial_links_marked(2)
                } else {
                    (s, Ok(()))
                };
                if q.payload != encode_utf8(expected) {
                    (self.at(s), Err(Fault::BadParcel("unexpected transfer payload"@)))
                } else if number == 0 && q.identities.len() != 1 {
                    (
                        self.at(s),
                        Err(Fault::BadParcel("expected exactly one transferred portal"@)),
                    )
                } else {
                    match marked {
                        Err(e) => (v.at(t), Err(e)),
                        Ok(_) => v.at(
                            t.message_noted(transfer_event(number), q.payload, 1),
                        ).flood_goes_on(counted(count), first),
                    }
                }
            },
        }
    }

    /// The exhaustion scenario, which waits for more parcels until all came.
    pub open spec fn flood_goes_on(self, count: u32, first: bool) -> ScenarioStep {
        if count < EXHAUST_TRANSFERS || !first {
            (
                ScenarioView { phase: Phase::Flood(count, first), ..self },
                Ok(ScenarioAction::Receive),
            )
        } else {
            self.waits_on_bootstrap(true, false)
        }
    }

    /// The bypass scenario after transfer `i` is made.
    pub open spec fn transfer_made(self, i: u32, expanded: bool) -> ScenarioStep {
        let far = next_number(self.node.next_rid);
        let s = self.node.portals_opened();
        let (t, r) = s.put_worked(
            s.bootstrap_rid,
            encode_utf8("transfer-"@ + decimal(i as nat)),
            seq![Object::Router(far)],
        );
        match r {
            Err(e) => (self.at(t), Err(e)),
            Ok(_) => (self.into(Phase::Transfers(i, expanded), t), Ok(ScenarioAction::Drain)),
        }
    }

    /// Whether the link memory was given another buffer.
    pub open spec fn expanded(self) -> bool {
        self.node.memory matches Some(m) && has_extra(m)
    }

    /// The bypass scenario after what was available after transfer `i` is
    /// dispatched: the next transfer is made, or the last of them is followed
    /// by a marker.
    pub open spec fn transfer_settled(self, i: u32, expanded: bool) -> ScenarioStep {
        let seen = expanded || self.expanded();
        let v = self.at(self.node.fine((3 + i) as u64, EventKind::Result));
        if i + 1 < BYPASS_TRANSFERS {
            v.transfer_made((i + 1) as u32, seen)
        } else if !seen {
            (v, Err(Fault::Unexpected("no block-capacity expansion observed"@)))
        } else if !v.expanded() {
            (v, Err(Fault::BadParcel("expansion did not register a new buffer"@)))
        } else {
            let (s, r) = v.node.bootstrap_put("sync"@, Seq::empty(), 1523);
            match r {
                Err(e) => (self.at(s), Err(e)),
                Ok(_) => self.at(s).waits_on_bootstrap(true, false),
            }
        }
    }

    /// Whether the phase is one in which what is available is dispatched.
    pub open spec fn draining(self) -> bool {
        self.phase is Settling || self.phase is Resettling || self.phase is Transfers
    }

    /// The scenario after a message that its phase waits for.
    pub open spec fn awaited_came(self, m: NodeMessageView, fds: Seq<i32>, buffer: Seq<u8>)
        -> ScenarioStep {
        match (self.phase, m) {
            (
                Phase::Transfer,
                NodeMessageView::Decoded(DecodedView::AcceptParcel(parcel), routers),
            ) => self.transfer_came(InboundView { parcel, routers }),
            (
                Phase::FirstWrite(_, _),
                NodeMessageView::Decoded(DecodedView::AcceptParcel(parcel), routers),
            ) => self.first_write_came(InboundView { parcel, routers }),
            (
                Phase::LateWrite(_),
                NodeMessageView::Decoded(DecodedView::AcceptParcel(parcel), routers),
            ) => self.late_write_came(InboundView { parcel, routers }),
            (
                Phase::Flood(count, first),
                NodeMessageView::Decoded(DecodedView::AcceptParcel(parcel), routers),
            ) => self.flood_came(InboundView { parcel, routers }, count, first),
            (Phase::Bypass(_), _) => self.bypass_came(m, fds, buffer),
            (Phase::Stop, _) => self.stop_came(m, fds, buffer),
            (_, _) => self.close_came(m, fds, buffer),
        }
    }

    /// The scenario after a message of the broker.
    pub open spec fn message_came(self, m: NodeMessageView, fds: Seq<i32>, buffer: Seq<u8>)
        -> ScenarioStep {
        if awaited(self.phase, self.transferred, m) {
            self.awaited_came(m, fds, buffer)
        } else {
            let (s, r) = worked(self.node.dispatched(m, fds, buffer, LINK_ID_BROKER));
            match r {
                Err(e) => (self.at(s), Err(e)),
                Ok(_) => (
                    self.at(s),
                    Ok(
                        if self.draining() {
                            ScenarioAction::Drain
                        } else {
                            ScenarioAction::Receive
                        },
                    ),
                ),
            }
        }
    }

    /// The scenario after what was available is dispatched.
    pub open spec fn drained(self) -> ScenarioStep {
        match self.phase {
            Phase::Settling => self.waits_on_bootstrap(false, false),
            Phase::Resettling => self.transfer_made(0, false),
            Phase::Transfers(i, expanded) => self.transfer_settled(i, expanded),
            _ => (self, Ok(ScenarioAction::Receive)),
        }
    }

    /// The scenario after an event, and what is to be done next.
    pub open spec fn advanced(self, e: ScenarioEvent) -> ScenarioStep {
        match e {
            ScenarioEvent::Start => (
                self.at(self.node.fine(0, EventKind::Lifecycle)),
                Ok(ScenarioAction::Greet),
            ),
            ScenarioEvent::Greeted(c, contents) => self.greeted(c, contents@),
            ScenarioEvent::Message(m, fds, buffer) => self.message_came(m@, fds@, buffer@),
            ScenarioEvent::Drained => self.drained(),
            ScenarioEvent::PeerClosed => (
                self,
                Err(
                    if self.phase is Greeting {
                        Fault::Unexpected("peer closed before Connect"@)
                    } else if self.draining() {
                        Fault::Unexpected("peer closed"@)
                    } else {
                        Fault::Unexpected("peer closed during exchange"@)
                    },
                ),
            ),
        }
    }
}

fn has_portal(types: &Vec<u32>) -> (r: bool)
    ensures
        r == carries_portal(types@),
{
    let mut i: usize = 0;
    while i < types.len()
        invariant
            i <= types.len(),
            forall|j: int| 0 <= j < i ==> types@[j] != HANDLE_PORTAL,
        decreases types.len() - i,
    {
        if types[i] == HANDLE_PORTAL {
            assert(types@[i as int] == HANDLE_PORTAL);
            return true;
        }
        i = i + 1;
    }
    false
}

fn is_number(o: Option<u64>, n: u64) -> (r: bool)
    ensures
        r == (o == Some(n)),
{
    match o {
        Some(x) => x == n,
        None => false,
    }
}

fn is_awaited(phase: &Phase, transferred: u64, m: &NodeMessage) -> (r: bool)
    ensures
        r == awaited(*phase, transferred, m@),
{
    match m {
        NodeMessage::StopProxying { sublink, .. } => match phase {
            Phase::Stop => *sublink == transferred,
            _ => false,
        },
        NodeMessage::Decoded(d, _) => match d {
            DecodedMessage::AcceptParcel(p) => match phase {
                Phase::Transfer => p.sublink == BOOTSTRAP_SUBLINK && has_portal(&p.handle_types),
                Phase::FirstWrite(a, b) => p.handle_types.len() == 0 && (is_number(*a, p.sublink)
                    || is_number(*b, p.sublink)),
                Phase::LateWrite(n) => p.sublink == *n && p.handle_types.len() == 0,
                Phase::Flood(_, _) => true,
                _ => false,
            },
            DecodedMessage::BypassPeerWithLink(x) => match phase {
                Phase::Bypass(n) => x.sublink == *n,
                _ => false,
            },
            DecodedMessage::RouteClosed(x) => match phase {
                Phase::Closing(n) => x.sublink == *n,
                _ => false,
            },
            _ => false,
        },
    }
}

fn text_bytes(text: &str) -> (v: Vec<u8>)
    ensures
        v@ == encode_utf8(text@),
{
    slice_to_vec(text.as_bytes())
}

fn is_text(v: &Vec<u8>, text: &str) -> (r: bool)
    ensures
        r == (v@ == encode_utf8(text@)),
{
    same_bytes(v.as_slice(), text.as_bytes())
}

fn one_router(rid: u64) -> (v: Vec<Object>)
    ensures
        v@ == seq![Object::Router(rid)],
{
    let mut v: Vec<Object> = Vec::new();
    v.push(Object::Router(rid));
    assert(v@ =~= seq![Object::Router(rid)]);
    v
}

fn no_objects() -> (v: Vec<Object>)
    ensures
        v@ == Seq::<Object>::empty(),
{
    let v: Vec<Object> = Vec::new();
    assert(v@ =~= Seq::<Object>::empty());
    v
}

impl RoutingAcceptor {
    fn report(&mut self, op_id: u64, kind: EventKind)
        requires
            old(self).wf(),
        ensures
            final(self).wf(),
            final(self)@ == old(self)@.fine(op_id, kind),
    {
        self.emit(op_id, kind, "MOJO_RESULT_OK");
    }

    fn put_memory_messages(&mut self, rid: u64, n: u32) -> (r: Result<(), RoutingError>)
        requires
            old(self).wf(),
            n <= 100,
        ensures
            final(self).wf(),
            (final(self)@, fate(r)) == old(self)@.memory_messages_put(rid, n as nat),
    {
        let mut i: u32 = 0;
        while i < n
            invariant
                i <= n <= 100,
                self.wf(),
                old(self)@.memory_messages_put(rid, i as nat) == (self@, Ok::<(), Fault>(())),
            decreases n - i,
        {
            proof {
                lemma_memory_put_fails(old(self)@, rid, (i + 1) as nat, n as nat);
            }
            let f = match self.put_and_work(rid, memory_payload(i), no_objects()) {
                Ok(f) => f,
                Err(e) => {
                    return Err(e);
                },
            };
            if i < 8 {
                match f {
                    None => {
                        return Err(
                            RoutingError::BadParcel("pre-exhaustion parcel unexpectedly inline"),
                        );
                    },
                    Some(d) => {
                        if d.buffer_id != PRIMARY_BUFFER_ID {
                            return Err(
                                RoutingError::BadParcel(
                                    "pre-exhaustion parcel not from the primary buffer",
                                ),
                            );
                        }
                    },
                }
            } else if f.is_some() {
                return Err(
                    RoutingError::BadParcel("exhaustion parcel unexpectedly fragment-backed"),
                );
            }
            self.report(5 + i as u64, EventKind::Result);
            i = i + 1;
        }
        Ok(())
    }

    fn put_late_message(&mut self, i: u32, op_id: u64) -> (r: Result<(), RoutingError>)
        requires
            old(self).wf(),
        ensures
            final(self).wf(),
            (final(self)@, fate(r)) == old(self)@.late_message_put(i, op_id),
    {
        let rid: u64 = self.bootstrap_rid;
        let f = match self.put_and_work(rid, memory_payload(i), no_objects()) {
            Ok(f) => f,
            Err(e) => {
                return Err(e);
            },
        };
        match f {
            None => {
                return Err(RoutingError::BadParcel("post-read parcel unexpectedly inline"));
            },
            Some(d) => {
                if d.buffer_id != PRIMARY_BUFFER_ID {
                    return Err(
                        RoutingError::BadParcel("post-read parcel not from the primary buffer"),
                    );
                }
                if d.size != 256 {
                    return Err(
                        RoutingError::BadParcel("post-read parcel has the wrong block size"),
                    );
                }
            },
        }
        self.report(op_id, EventKind::Result);
        Ok(())
    }

    fn put_on_bootstrap(&mut self, text: &str, objects: Vec<Object>, op_id: u64) -> (r: Result<
        (),
        RoutingError,
    >)
        requires
            old(self).wf(),
        ensures
            final(self).wf(),
            (final(self)@, fate(r)) == old(self)@.bootstrap_put(text@, objects@, op_id),
    {
        let rid: u64 = self.bootstrap_rid;
        match self.put_and_work(rid, text_bytes(text), objects) {
            Ok(_) => {
                self.report(op_id, EventKind::Result);
                Ok(())
            },
            Err(e) => Err(e),
        }
    }
}

/// Where one of the first messages fails, all of them do.
proof fn lemma_memory_put_fails(s: NodeView, rid: u64, i: nat, n: nat)
    requires
        i <= n,
    ensures
        s.memory_messages_put(rid, i).1 is Err ==> s.memory_messages_put(rid, n)
            == s.memory_messages_put(rid, i),
    decreases n,
{
    if i < n {
        lemma_memory_put_fails(s, rid, i, (n - 1) as nat);
    }
}

impl Scenario {
    /// The validity of a scenario.
    pub open spec fn wf(&self) -> bool {
        self.node.wf()
    }

    /// A scenario that has not started.
    pub fn new(kind: ScenarioKind) -> (r: Scenario)
        ensures
            r.wf(),
            r@ == fresh_scenario(kind),
    {
        Scenario { kind, phase: Phase::Greeting, transferred: 0, node: RoutingAcceptor::new() }
    }

    fn wait_on_bootstrap(&mut self, closing: bool, late: bool) -> (r: Result<
        ScenarioAction,
        RoutingError,
    >)
        requires
            old(self).wf(),
        ensures
            final(self).wf(),
            (final(self)@, fate(r)) == old(self)@.waits_on_bootstrap(closing, late),
    {
        let n: u64 = match self.node.bootstrap_sublink() {
            Ok(n) => n,
            Err(e) => {
                return Err(e);
            },
        };
        self.phase = if closing {
            Phase::Closing(n)
        } else if late {
            Phase::LateWrite(n)
        } else {
            Phase::Bypass(n)
        };
        Ok(ScenarioAction::Receive)
    }

    fn on_greeted(&mut self, c: ConnectFromBrokerToNonBroker, contents: Vec<u8>) -> (r: Result<
        ScenarioAction,
        RoutingError,
    >)
        requires
            old(self).wf(),
            c.num_initial_portals <= MAX_INITIAL_PORTALS,
            contents@.len() == PRIMARY_BUFFER_SIZE,
        ensures
            final(self).wf(),
            (final(self)@, fate(r)) == old(self)@.greeted(c, contents@),
    {
        match self.node.connect(&c, contents) {
            Ok(_) => {},
            Err(e) => {
                return Err(e);
            },
        }
        match self.node.settle(WORK_LIMIT) {
            Ok(_) => {},
            Err(e) => {
                return Err(e);
            },
        }
        self.node.report(1, EventKind::Result);
        self.node.report(2, EventKind::Result);
        self.phase = match self.kind {
            ScenarioKind::Exhaust => Phase::Flood(0, false),
            _ => Phase::Transfer,
        };
        Ok(ScenarioAction::Receive)
    }

    fn on_transfer(&mut self, p: InboundParcel) -> (r: Result<ScenarioAction, RoutingError>)
        requires
            old(self).wf(),
        ensures
            final(self).wf(),
            (final(self)@, fate(r)) == old(self)@.transfer_came(p@),
    {
        match self.node.mark_initial_links_stable() {
            Ok(_) => {},
            Err(e) => {
                return Err(e);
            },
        }
        let q = match self.node.accept_and_work(p) {
            Ok(q) => q,
            Err(e) => {
                return Err(e);
            },
        };
        if q.identities.len() != 1 {
            return Err(RoutingError::BadParcel("expected exactly one transferred portal"));
        }
        if !is_text(&q.payload, "transfer-b1") {
            return Err(RoutingError::BadParcel("unexpected transfer payload"));
        }
        let rid: u64 = q.identities[0];
        self.transferred = rid;
        self.node.emit_message(3, q.payload.as_slice(), 1);
        let edge = match self.node.routers.get(rid) {
            Some(router) => router.outward,
            None => {
                return Err(RoutingError::BadParcel("b1 router missing"));
            },
        };
        let a = match edge.primary {
            Some(l) => Some(l.sublink),
            None => None,
        };
        let b = match edge.decaying_link() {
            Some(l) => Some(l.sublink),
            None => None,
        };
        self.phase = Phase::FirstWrite(a, b);
        Ok(ScenarioAction::Receive)
    }

    fn on_first_write(&mut self, p: InboundParcel) -> (r: Result<ScenarioAction, RoutingError>)
        requires
            old(self).wf(),
        ensures
            final(self).wf(),
            (final(self)@, fate(r)) == old(self)@.first_write_came(p@),
    {
        let q = match self.node.accept_and_work(p) {
            Ok(q) => q,
            Err(e) => {
                return Err(e);
            },
        };
        if !is_text(&q.payload, "w1") {
            return Err(RoutingError::BadParcel("unexpected w1 payload"));
        }
        self.node.emit_message(4, q.payload.as_slice(), 0);
        match self.kind {
            ScenarioKind::Memory => self.wait_on_bootstrap(false, false),
            _ => {
                self.phase = Phase::Settling;
                Ok(ScenarioAction::Drain)
            },
        }
    }

    fn on_bypass(&mut self, m: NodeMessage, fds: &Vec<i32>, buffer: Vec<u8>) -> (r: Result<
        ScenarioAction,
        RoutingError,
    >)
        requires
            old(self).wf(),
        ensures
            final(self).wf(),
            (final(self)@, fate(r)) == old(self)@.bypass_came(m@, fds@, buffer@),
    {
        match self.node.dispatch_and_work(m, fds, buffer) {
            Ok(_) => {},
            Err(e) => {
                return Err(e);
            },
        }
        match self.kind {
            ScenarioKind::Memory => self.fill_memory(),
            ScenarioKind::Bypass => {
                self.phase = Phase::Resettling;
                Ok(ScenarioAction::Drain)
            },
            _ => self.send_portal_back(),
        }
    }

    fn send_portal_back(&mut self) -> (r: Result<ScenarioAction, RoutingError>)
        requires
            old(self).wf(),
        ensures
            final(self).wf(),
            (final(self)@, fate(r)) == old(self)@.portal_sent_back(),
    {
        let transferred: u64 = self.transferred;
        match self.node.put_and_work(transferred, text_bytes("r1"), no_objects()) {
            Ok(_) => {},
            Err(e) => {
                return Err(e);
            },
        }
        self.node.report(5, EventKind::Result);
        match self.node.put_on_bootstrap("transfer-back", one_router(transferred), 6) {
            Ok(_) => {},
            Err(e) => {
                return Err(e);
            },
        }
        self.phase = Phase::Stop;
        Ok(ScenarioAction::Receive)
    }

    fn fill_memory(&mut self) -> (r: Result<ScenarioAction, RoutingError>)
        requires
            old(self).wf(),
        ensures
            final(self).wf(),
            (final(self)@, fate(r)) == old(self)@.memory_filled(),
    {
        let transferred: u64 = self.transferred;
        match self.node.put_memory_messages(transferred, 9) {
            Ok(_) => {},
            Err(e) => {
                return Err(e);
            },
        }
        match self.node.put_on_bootstrap("sync", no_objects(), 14) {
            Ok(_) => {},
            Err(e) => {
                return Err(e);
            },
        }
        match self.node.put_on_bootstrap("transfer-back", one_router(transferred), 15) {
            Ok(_) => {},
            Err(e) => {
                return Err(e);
            },
        }
        self.wait_on_bootstrap(false, true)
    }

    fn on_late_write(&mut self, p: InboundParcel) -> (r: Result<ScenarioAction, RoutingError>)
        requires
            old(self).wf(),
        ensures
            final(self).wf(),
            (final(self)@, fate(r)) == old(self)@.late_write_came(p@),
    {
        let q = match self.node.accept_and_work(p) {
            Ok(q) => q,
            Err(e) => {
                return Err(e);
            },
        };
        if !is_text(&q.payload, "w3") {
            return Err(RoutingError::BadParcel("unexpected w3 payload"));
        }
        self.node.emit_message(16, q.payload.as_slice(), 0);
        match self.node.put_late_message(9, 17) {
            Ok(_) => {},
            Err(e) => {
                return Err(e);
            },
        }
        match self.node.put_late_message(10, 18) {
            Ok(_) => {},
            Err(e) => {
                return Err(e);
            },
        }
        self.wait_on_bootstrap(true, false)
    }

    fn on_flood(&mut self, p: InboundParcel, count: u32, first: bool) -> (r: Result<
        ScenarioAction,
        RoutingError,
    >)
        requires
            old(self).wf(),
        ensures
            final(self).wf(),
            (final(self)@, fate(r)) == old(self)@.flood_came(p@, count, first),
    {
        let number: u64 = p.parcel.sequence_number;
        let portal = has_portal(&p.parcel.handle_types);
        let q = match self.node.accept_and_work(p) {
            Ok(q) => q,
            Err(e) => {
                return Err(e);
            },
        };
        if !portal {
            if !is_text(&q.payload, "w1") {
                return Err(RoutingError::BadParcel("unexpected w1 payload"));
            }
            self.node.emit_message(4, q.payload.as_slice(), 0);
            return self.continue_flood(count, true);
        }
        let expected = if number == 0 {
            "transfer-b1".to_owned()
        } else {
            labelled("transfer-", following(number))
        };
        if !is_text(&q.payload, expected.as_str()) {
            return Err(RoutingError::BadParcel("unexpected transfer payload"));
        }
        if number == 0 {
            if q.identities.len() != 1 {
                return Err(RoutingError::BadParcel("expected exactly one transferred portal"));
            }
            self.transferred = q.identities[0];
        }
        if count == 0 {
            match self.node.mark_initial_links_stable() {
                Ok(_) => {},
                Err(e) => {
                    return Err(e);
                },
            }
        }
        let op_id: u64 = if number == 0 {
            3
        } else if number <= u64::MAX - 4 {
            number + 4
        } else {
            number - (u64::MAX - 4) - 1
        };
        self.node.emit_message(op_id, q.payload.as_slice(), 1);
        let more: u32 = if count == u32::MAX {
            count
        } else {
            count + 1
        };
        self.continue_flood(more, first)
    }

    fn continue_flood(&mut self, count: u32, first: bool) -> (r: Result<
        ScenarioAction,
        RoutingError,
    >)
        requires
            old(self).wf(),
        ensures
            final(self).wf(),
            (final(self)@, fate(r)) == old(self)@.flood_goes_on(count, first),
    {
        if count < EXHAUST_TRANSFERS || !first {
            self.phase = Phase::Flood(count, first);
            return Ok(ScenarioAction::Receive);
        }
        self.wait_on_bootstrap(true, false)
    }

    fn make_transfer(&mut self, i: u32, expanded: bool) -> (r: Result<ScenarioAction, RoutingError>)
        requires
            old(self).wf(),
        ensures
            final(self).wf(),
            (final(self)@, fate(r)) == old(self)@.transfer_made(i, expanded),
    {
        let (_near, far): (u64, u64) = self.node.open_portals();
        let rid: u64 = self.node.bootstrap_rid;
        let text = labelled("transfer-", i as u64);
        match self.node.put_and_work(rid, text_bytes(text.as_str()), one_router(far)) {
            Ok(_) => {},
            Err(e) => {
                return Err(e);
            },
        }
        self.phase = Phase::Transfers(i, expanded);
        Ok(ScenarioAction::Drain)
    }

    fn has_expanded(&self) -> (r: bool)
        ensures
            r == self@.expanded(),
    {
        match &self.node.link_memory {
            Some(m) => m.has_extra_buffers(),
            None => false,
        }
    }

    fn settle_transfer(&mut self, i: u32, expanded: bool) -> (r: Result<
        ScenarioAction,
        RoutingError,
    >)
        requires
            old(self).wf(),
        ensures
            final(self).wf(),
            (final(self)@, fate(r)) == old(self)@.transfer_settled(i, expanded),
    {
        let seen = expanded || self.has_expanded();
        self.node.report(3 + i as u64, EventKind::Result);
        if i < BYPASS_TRANSFERS - 1 {
            return self.make_transfer(i + 1, seen);
        }
        if !seen {
            return Err(RoutingError::Unexpected("no block-capacity expansion observed"));
        }
        if !self.has_expanded() {
            return Err(RoutingError::BadParcel("expansion did not register a new buffer"));
        }
        match self.node.put_on_bootstrap("sync", no_objects(), 1523) {
            Ok(_) => {},
            Err(e) => {
                return Err(e);
            },
        }
        self.wait_on_bootstrap(true, false)
    }

    fn on_stop(&mut self, m: NodeMessage, fds: &Vec<i32>, buffer: Vec<u8>) -> (r: Result<
        ScenarioAction,
        RoutingError,
    >)
        requires
            old(self).wf(),
        ensures
            final(self).wf(),
            (final(self)@, fate(r)) == old(self)@.stop_came(m@, fds@, buffer@),
    {
        match self.node.dispatch_and_work(m, fds, buffer) {
            Ok(_) => {},
            Err(e) => {
                return Err(e);
            },
        }
        self.node.report(7, EventKind::Result);
        self.wait_on_bootstrap(true, false)
    }

    fn on_close(&mut self, m: NodeMessage, fds: &Vec<i32>, buffer: Vec<u8>) -> (r: Result<
        ScenarioAction,
        RoutingError,
    >)
        requires
            old(self).wf(),
        ensures
            final(self).wf(),
            (final(self)@, fate(r)) == old(self)@.close_came(m@, fds@, buffer@),
    {
        let (closed, here, over): (u64, Option<u64>, u64) = match self.kind {
            ScenarioKind::Routing => (8, None, 9),
            ScenarioKind::Memory => (19, Some(20), 21),
            ScenarioKind::Exhaust => (1490, Some(1491), 1492),
            ScenarioKind::Bypass => (1524, Some(1525), 1526),
        };
        match self.node.dispatch_and_work(m, fds, buffer) {
            Ok(_) => {},
            Err(e) => {
                return Err(e);
            },
        }
        self.node.emit(closed, EventKind::Message, "MOJO_RESULT_FAILED_PRECONDITION");
        let rid: u64 = self.node.bootstrap_rid;
        match self.node.close_route(rid) {
            Ok(_) => {},
            Err(e) => {
                return Err(e);
            },
        }
        match self.node.settle(WORK_LIMIT) {
            Ok(_) => {},
            Err(e) => {
                return Err(e);
            },
        }
        match here {
            Some(n) => {
                self.node.report(n, EventKind::Result);
            },
            None => {},
        }
        self.node.report(over, EventKind::Lifecycle);
        self.phase = Phase::Over;
        Ok(ScenarioAction::Done)
    }

    fn on_awaited(&mut self, m: NodeMessage, fds: &Vec<i32>, buffer: Vec<u8>) -> (r: Result<
        ScenarioAction,
        RoutingError,
    >)
        requires
            old(self).wf(),
        ensures
            final(self).wf(),
            (final(self)@, fate(r)) == old(self)@.awaited_came(m@, fds@, buffer@),
    {
        match self.phase {
            Phase::Bypass(_) => {
                return self.on_bypass(m, fds, buffer);
            },
            Phase::Stop => {
                return self.on_stop(m, fds, buffer);
            },
            _ => {},
        }
        match m {
            NodeMessage::Decoded(DecodedMessage::AcceptParcel(p), routers) => match self.phase {
                Phase::Transfer => self.on_transfer(InboundParcel { parcel: p, routers }),
                Phase::FirstWrite(_, _) => self.on_first_write(
                    InboundParcel { parcel: p, routers },
                ),
                Phase::LateWrite(_) => self.on_late_write(InboundParcel { parcel: p, routers }),
                Phase::Flood(count, first) => self.on_flood(
                    InboundParcel { parcel: p, routers },
                    count,
                    first,
                ),
                _ => self.on_close(
                    NodeMessage::Decoded(DecodedMessage::AcceptParcel(p), routers),
                    fds,
                    buffer,
                ),
            },
            other => self.on_close(other, fds, buffer),
        }
    }

    fn is_draining(&self) -> (r: bool)
        ensures
            r == self@.draining(),
    {
        match self.phase {
            Phase::Settling => true,
            Phase::Resettling => true,
            Phase::Transfers(_, _) => true,
            _ => false,
        }
    }

    fn on_message(&mut self, m: NodeMessage, fds: &Vec<i32>, buffer: Vec<u8>) -> (r: Result<
        ScenarioAction,
        RoutingError,
    >)
        requires
            old(self).wf(),
        ensures
            final(self).wf(),
            (final(self)@, fate(r)) == old(self)@.message_came(m@, fds@, buffer@),
    {
        if is_awaited(&self.phase, self.transferred, &m) {
            return self.on_awaited(m, fds, buffer);
        }
        match self.node.dispatch_and_work(m, fds, buffer) {
            Ok(_) => {},
            Err(e) => {
                return Err(e);
            },
        }
        if self.is_draining() {
            Ok(ScenarioAction::Drain)
        } else {
            Ok(ScenarioAction::Receive)
        }
    }

    /// Take what happened on the channel, and say what is to be done next.
    pub fn advance(&mut self, event: ScenarioEvent) -> (r: Result<ScenarioAction, RoutingError>)
        requires
            old(self).wf(),
            event matches ScenarioEvent::Greeted(c, contents) ==> c.num_initial_portals
                <= MAX_INITIAL_PORTALS && contents@.len() == PRIMARY_BUFFER_SIZE,
        ensures
            final(self).wf(),
            (final(self)@, fate(r)) == old(self)@.advanced(event),
    {
        match event {
            ScenarioEvent::Start => {
                self.node.report(0, EventKind::Lifecycle);
                Ok(ScenarioAction::Greet)
            },
            ScenarioEvent::Greeted(c, contents) => self.on_greeted(c, contents),
            ScenarioEvent::Message(m, fds, buffer) => self.on_message(m, &fds, buffer),
            ScenarioEvent::Drained => match self.phase {
                Phase::Settling => self.wait_on_bootstrap(false, false),
                Phase::Resettling => self.make_transfer(0, false),
                Phase::Transfers(i, expanded) => self.settle_transfer(i, expanded),
                _ => Ok(ScenarioAction::Receive),
            },
            ScenarioEvent::PeerClosed => {
                let greeting = match self.phase {
                    Phase::Greeting => true,
                    _ => false,
                };
                Err(
                    if greeting {
                        RoutingError::Unexpected("peer closed before Connect")
                    } else if self.is_draining() {
                        RoutingError::Unexpected("peer closed")
                    } else {
                        RoutingError::Unexpected("peer closed during exchange")
                    },
                )
            },
        }
    }
}

} // verus!
