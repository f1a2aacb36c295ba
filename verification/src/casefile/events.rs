//! Events: what a run of a case emits, one line for each.

use vstd::prelude::*;

#[allow(unused_imports)]
use crate::text::{opt_text, opt_texts, texts};
use crate::text::{
    copy_opt_text, copy_opt_texts, copy_texts, same_opt_text, same_opt_texts, same_texts,
};

verus! {

/// Event kinds.
#[derive(Debug, Clone, Copy, PartialEq, Eq, Structural)]
pub enum EventKind {
    /// An operation result.
    Result,
    /// A signal-state query result.
    Signals,
    /// A message was read or written.
    Message,
    /// A handle operation.
    Handle,
    /// A trap event.
    Trap,
    /// A data-pipe operation.
    Data,
    /// A shared-buffer operation.
    Buffer,
    /// An invitation operation.
    Invitation,
    /// A process lifecycle event.
    Process,
    /// Informational.
    Info,
    /// An error.
    Error,
    /// Harness lifecycle (init or shutdown).
    Lifecycle,
}

/// A signal state, by names.
#[derive(Debug, PartialEq, Eq)]
pub struct SignalState {
    /// Satisfied signal names.
    pub satisfied: Vec<String>,
    /// Satisfiable signal names.
    pub satisfiable: Vec<String>,
}

/// The names in a signal state.
pub struct SignalNames {
    /// Satisfied signal names.
    pub satisfied: Seq<Seq<char>>,
    /// Satisfiable signal names.
    pub satisfiable: Seq<Seq<char>>,
}

impl View for SignalState {
    type V = SignalNames;

    open spec fn view(&self) -> SignalNames {
        SignalNames { satisfied: texts(self.satisfied@), satisfiable: texts(self.satisfiable@) }
    }
}

/// The names in a signal state that is there, if any.
pub open spec fn opt_names(o: Option<SignalState>) -> Option<SignalNames> {
    match o {
        Some(s) => Some(s@),
        None => None,
    }
}

/// One event.
#[derive(Debug, PartialEq, Eq)]
pub struct Event {
    /// Monotonic sequence number (per process).
    pub seq: u64,
    /// The operation id that produced this event (0 = lifecycle).
    pub op_id: u64,
    /// Event kind.
    pub event: EventKind,
    /// The name of the result.
    pub result: String,
    /// Handle token involved.
    pub handle: Option<String>,
    /// Payload bytes (hex).
    pub payload_hex: Option<String>,
    /// Handle tokens attached or extracted.
    pub handles: Option<Vec<String>>,
    /// Signal state (for `Signals` events).
    pub signals: Option<SignalState>,
    /// Trap trigger context (for `Trap` events).
    pub trigger_context: Option<u64>,
    /// Signal state at a trap event.
    pub signals_state: Option<SignalState>,
    /// Extra outputs, as a JSON object with sorted keys.
    pub outputs: Option<String>,
    /// The process that emitted this event.
    pub process: Option<String>,
    /// Process id.
    pub pid: Option<u32>,
    /// Descriptor number.
    pub fd: Option<i32>,
    /// Byte count of a data-pipe operation.
    pub num_bytes: Option<u32>,
    /// Size of a buffer.
    pub size: Option<u64>,
    /// Note.
    pub note: Option<String>,
}

/// What an event says.
pub struct EventView {
    /// Monotonic sequence number.
    pub seq: u64,
    /// The operation id that produced this event.
    pub op_id: u64,
    /// Event kind.
    pub event: EventKind,
    /// The name of the result.
    pub result: Seq<char>,
    /// Handle token involved.
    pub handle: Option<Seq<char>>,
    /// Payload bytes (hex).
    pub payload_hex: Option<Seq<char>>,
    /// Handle tokens attached or extracted.
    pub handles: Option<Seq<Seq<char>>>,
    /// Signal state.
    pub signals: Option<SignalNames>,
    /// Trap trigger context.
    pub trigger_context: Option<u64>,
    /// Signal state at a trap event.
    pub signals_state: Option<SignalNames>,
    /// Extra outputs.
    pub outputs: Option<Seq<char>>,
    /// The process that emitted this event.
    pub process: Option<Seq<char>>,
    /// Process id.
    pub pid: Option<u32>,
    /// Descriptor number.
    pub fd: Option<i32>,
    /// Byte count of a data-pipe operation.
    pub num_bytes: Option<u32>,
    /// Size of a buffer.
    pub size: Option<u64>,
    /// Note.
    pub note: Option<Seq<char>>,
}

impl View for Event {
    type V = EventView;

    open spec fn view(&self) -> EventView {
        EventView {
            seq: self.seq,
            op_id: self.op_id,
            event: self.event,
            result: self.result@,
            handle: opt_text(self.handle),
            payload_hex: opt_text(self.payload_hex),
            handles: opt_texts(self.handles),
            signals: opt_names(self.signals),
            trigger_context: self.trigger_context,
            signals_state: opt_names(self.signals_state),
            outputs: opt_text(self.outputs),
            process: opt_text(self.process),
            pid: self.pid,
            fd: self.fd,
            num_bytes: self.num_bytes,
            size: self.size,
            note: opt_text(self.note),
        }
    }
}

/// The events of a list.
pub open spec fn event_views(v: Seq<Event>) -> Seq<EventView> {
    v.map_values(|e: Event| e@)
}

/// An event of which only the first four parts are there.
pub open spec fn plain_event(seq: u64, op_id: u64, event: EventKind, result: Seq<char>) -> EventView {
    EventView {
        seq,
        op_id,
        event,
        result,
        handle: None,
        payload_hex: None,
        handles: None,
        signals: None,
        trigger_context: None,
        signals_state: None,
        outputs: None,
        process: None,
        pid: None,
        fd: None,
        num_bytes: None,
        size: None,
        note: None,
    }
}

impl EventView {
    /// Whether two events agree in all that is compared: everything but the
    /// sequence number, the operation, the process id and the sizes.
    pub open spec fn agrees(self, o: EventView) -> bool {
        &&& self.event == o.event
        &&& self.result == o.result
        &&& self.handle == o.handle
        &&& self.payload_hex == o.payload_hex
        &&& self.handles == o.handles
        &&& self.signals == o.signals
        &&& self.trigger_context == o.trigger_context
        &&& self.signals_state == o.signals_state
        &&& self.outputs == o.outputs
        &&& self.process == o.process
        &&& self.fd == o.fd
        &&& self.note == o.note
    }
}

impl SignalState {
    /// The same state once more.
    pub fn duplicate(&self) -> (r: SignalState)
        ensures
            r@ == self@,
    {
        SignalState {
            satisfied: copy_texts(&self.satisfied),
            satisfiable: copy_texts(&self.satisfiable),
        }
    }
}

fn copy_opt_names(a: &Option<SignalState>) -> (r: Option<SignalState>)
    ensures
        opt_names(r) == opt_names(*a),
{
    match a {
        Some(s) => Some(s.duplicate()),
        None => None,
    }
}

fn same_opt_names(a: &Option<SignalState>, b: &Option<SignalState>) -> (r: bool)
    ensures
        r == (opt_names(*a) == opt_names(*b)),
{
    match a {
        Some(x) => match b {
            Some(y) => same_texts(&x.satisfied, &y.satisfied) && same_texts(
                &x.satisfiable,
                &y.satisfiable,
            ),
            None => false,
        },
        None => b.is_none(),
    }
}

fn same_opt_u64(a: Option<u64>, b: Option<u64>) -> (r: bool)
    ensures
        r == (a == b),
{
    match a {
        Some(x) => match b {
            Some(y) => x == y,
            None => false,
        },
        None => b.is_none(),
    }
}

fn same_opt_i32(a: Option<i32>, b: Option<i32>) -> (r: bool)
    ensures
        r == (a == b),
{
    match a {
        Some(x) => match b {
            Some(y) => x == y,
            None => false,
        },
        None => b.is_none(),
    }
}

impl Event {
    /// Create an event with nothing but a result of some kind.
    pub fn plain(seq: u64, op_id: u64, event: EventKind, result: &str) -> (r: Event)
        ensures
            r@ == plain_event(seq, op_id, event, result@),
    {
        Event {
            seq,
            op_id,
            event,
            result: result.to_owned(),
            handle: None,
            payload_hex: None,
            handles: None,
            signals: None,
            trigger_context: None,
            signals_state: None,
            outputs: None,
            process: None,
            pid: None,
            fd: None,
            num_bytes: None,
            size: None,
            note: None,
        }
    }

    /// Create a result event.
    pub fn result(seq: u64, op_id: u64, result: &str) -> (r: Event)
        ensures
            r@ == plain_event(seq, op_id, EventKind::Result, result@),
    {
        Event::plain(seq, op_id, EventKind::Result, result)
    }

    /// The same event once more.
    pub fn duplicate(&self) -> (r: Event)
        ensures
            r@ == self@,
    {
        Event {
            seq: self.seq,
            op_id: self.op_id,
            event: self.event,
            result: self.result.as_str().to_owned(),
            handle: copy_opt_text(&self.handle),
            payload_hex: copy_opt_text(&self.payload_hex),
            handles: copy_opt_texts(&self.handles),
            signals: copy_opt_names(&self.signals),
            trigger_context: self.trigger_context,
            signals_state: copy_opt_names(&self.signals_state),
            outputs: copy_opt_text(&self.outputs),
            process: copy_opt_text(&self.process),
            pid: self.pid,
            fd: self.fd,
            num_bytes: self.num_bytes,
            size: self.size,
            note: copy_opt_text(&self.note),
        }
    }

    /// Whether the event agrees with another in all that is compared.
    pub fn agrees_with(&self, other: &Event) -> (r: bool)
        ensures
            r == self@.agrees(other@),
    {
        self.event == other.event && self.result == other.result && same_opt_text(
            &self.handle,
            &other.handle,
        ) && same_opt_text(&self.payload_hex, &other.payload_hex) && same_opt_texts(
            &self.handles,
            &other.handles,
        ) && same_opt_names(&self.signals, &other.signals) && same_opt_u64(
            self.trigger_context,
            other.trigger_context,
        ) && same_opt_names(&self.signals_state, &other.signals_state) && same_opt_text(
            &self.outputs,
            &other.outputs,
        ) && same_opt_text(&self.process, &other.process) && same_opt_i32(self.fd, other.fd)
            && same_opt_text(&self.note, &other.note)
    }
}

} // verus!
