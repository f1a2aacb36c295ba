//! The harness: runs the operations of a case against a session and emits
//! events.
//!
//! What only the outside can do (making and reading descriptors, waiting) is
//! asked for: an operation then comes back with what it needs, and is finished
//! with what came of it.

use vstd::hash_map::StringHashMap;
use vstd::prelude::*;
#[allow(unused_imports)]
use vstd::utf8::encode_utf8;

#[allow(unused_imports)]
use crate::bytes::next_number;
use crate::casefile::case::{Expectation, OpArgs};
use crate::casefile::events::{Event, EventKind, SignalState};
#[allow(unused_imports)]
use crate::casefile::events::{event_views, plain_event, EventView, SignalNames};
use crate::digest::{decode_hex, digest_text, HexError};
#[allow(unused_imports)]
use crate::digest::{hex_decoded, hex_text};
use crate::runtime::dispatcher::DispatcherRef;
use crate::runtime::error::CoreError;
use crate::runtime::handle::Handle;
use crate::runtime::message::Message;
#[allow(unused_imports)]
use crate::runtime::message::MessageView;
use crate::runtime::pipe::{End, ReadOutcome};
#[allow(unused_imports)]
use crate::runtime::pipe::{fresh_pipe, ReadResult};
use crate::runtime::session::Session;
#[allow(unused_imports)]
use crate::runtime::session::SessionView;
use crate::runtime::signal::{Signals, SignalsState};
use crate::runtime::trap::TrapEvent;
#[allow(unused_imports)]
use crate::runtime::trap::{cancelled_event, find_trigger, immediate_events, TrapView, Trigger};
#[allow(unused_imports)]
use crate::runtime::watch::WatchTarget;
#[allow(unused_imports)]
use crate::text::{decimal, opt_text, texts};
use crate::text::{joined, labelled, same_text};

verus! {

/// Where the content of a wrapped descriptor comes from.
#[derive(Debug, Clone, Copy, PartialEq, Eq, Structural)]
pub enum Source {
    /// An anonymous memory file with the content.
    Memfd,
    /// The reading end of a pipe, which does not block.
    Pipe,
}

/// How far an operation has come.
#[derive(Debug)]
pub enum Progress {
    /// It is done.
    Done,
    /// It needs a descriptor; see [`Harness::finish_wrap`].
    CreateDescriptor {
        /// What kind of descriptor.
        source: Source,
        /// Its content.
        content: Vec<u8>,
    },
    /// It needs the content of a descriptor; see [`Harness::finish_unwrap`].
    ReadDescriptor {
        /// The descriptor.
        fd: i32,
        /// The handle that owns it.
        handle: Handle,
    },
    /// It waits; see [`Harness::finish_wait`].
    Wait {
        /// The object to wait on.
        dispatcher: DispatcherRef,
        /// The signals to wait for.
        signals: Signals,
        /// The deadline, if there is one.
        deadline_ms: Option<u64>,
    },
}

/// What [`Progress`] says.
pub enum Step {
    /// The operation is done.
    Done,
    /// It needs a descriptor.
    CreateDescriptor(Source, Seq<u8>),
    /// It needs the content of a descriptor.
    ReadDescriptor(i32, Handle),
    /// It waits.
    Wait(DispatcherRef, Signals, Option<u64>),
}

impl View for Progress {
    type V = Step;

    open spec fn view(&self) -> Step {
        match *self {
            Progress::Done => Step::Done,
            Progress::CreateDescriptor { source, content } => Step::CreateDescriptor(
                source,
                content@,
            ),
            Progress::ReadDescriptor { fd, handle } => Step::ReadDescriptor(fd, handle),
            Progress::Wait { dispatcher, signals, deadline_ms } => Step::Wait(
                dispatcher,
                signals,
                deadline_ms,
            ),
        }
    }
}

/// Why an operation cannot be run.
#[derive(Debug)]
pub enum HarnessError {
    /// A message.
    Text(String),
    /// A text that should be hexadecimal is not.
    Hex {
        /// Which text, as a prefix of the message.
        what: &'static str,
        /// What is wrong with it.
        error: HexError,
    },
}

/// What a [`HarnessError`] says.
pub enum Failure {
    /// A message.
    Text(Seq<char>),
    /// A text that should be hexadecimal is not.
    Hex(Seq<char>, HexError),
}

impl View for HarnessError {
    type V = Failure;

    open spec fn view(&self) -> Failure {
        match *self {
            HarnessError::Text(s) => Failure::Text(s@),
            HarnessError::Hex { what, error } => Failure::Hex(what@, error),
        }
    }
}

/// What an operation comes to.
pub open spec fn op_result(r: Result<Progress, HarnessError>) -> Result<Step, Failure> {
    match r {
        Ok(p) => Ok(p@),
        Err(e) => Err(e@),
    }
}

/// The harness.
pub struct Harness {
    /// The handles, pipes and traps.
    pub session: Session,
    /// The handle of each token.
    pub tokens: StringHashMap<Handle>,
    /// The trap of each trap token.
    pub traps: StringHashMap<u64>,
    /// The trap of each trap token, closed ones too.
    pub sinks: StringHashMap<u64>,
    /// The events emitted so far.
    pub events: Vec<Event>,
    /// The sequence number of the last event.
    pub seq: u64,
}

/// What a harness holds.
#[verifier::ext_equal]
pub struct HarnessView {
    /// The handles, pipes and traps.
    pub session: SessionView,
    /// The handle of each token.
    pub tokens: Map<Seq<char>, Handle>,
    /// The trap of each trap token.
    pub traps: Map<Seq<char>, u64>,
    /// The trap of each trap token, closed ones too.
    pub sinks: Map<Seq<char>, u64>,
    /// The events emitted so far.
    pub events: Seq<EventView>,
    /// The sequence number of the last event.
    pub seq: u64,
}

impl View for Harness {
    type V = HarnessView;

    open spec fn view(&self) -> HarnessView {
        HarnessView {
            session: self.session@,
            tokens: self.tokens@,
            traps: self.traps@,
            sinks: self.sinks@,
            events: event_views(self.events@),
            seq: self.seq,
        }
    }
}

/// What comes of an operation: its result, and the harness after it.
pub type Outcome = (Result<Step, Failure>, HarnessView);

/// An optional text, or another one in its place.
pub open spec fn text_or(o: Option<String>, other: Seq<char>) -> Seq<char> {
    match o {
        Some(s) => s@,
        None => other,
    }
}

/// An optional number, or another one in its place.
pub open spec fn number_or(o: Option<u64>, other: u64) -> u64 {
    match o {
        Some(n) => n,
        None => other,
    }
}

/// The tokens that an operation is to produce.
pub open spec fn produced(expect: Option<Expectation>) -> Seq<Seq<char>> {
    match expect {
        Some(e) => texts(e.produce@),
        None => Seq::empty(),
    }
}

/// Whether the operation is expected to find its handle invalid.
pub open spec fn expects_invalid(expect: Option<Expectation>) -> bool {
    match expect {
        Some(e) => opt_text(e.result) == Some("MOJO_RESULT_INVALID_ARGUMENT"@),
        None => false,
    }
}

/// An event with a handle token; its sequence number is still to come.
pub open spec fn op_event(
    op_id: u64,
    kind: EventKind,
    result: Seq<char>,
    token: Option<Seq<char>>,
) -> EventView {
    EventView { handle: token, ..plain_event(0, op_id, kind, result) }
}

/// The names of the signals in a set.
pub open spec fn names_of(s: Signals) -> Seq<Seq<char>> {
    name_if(s, Signals::readable(), "READABLE"@) + name_if(s, Signals::writable(), "WRITABLE"@)
        + name_if(s, Signals::peer_closed(), "PEER_CLOSED"@) + name_if(
        s,
        Signals::new_data_readable(),
        "NEW_DATA_READABLE"@,
    ) + name_if(s, Signals::peer_remote(), "PEER_REMOTE"@) + name_if(
        s,
        Signals::quota_exceeded(),
        "QUOTA_EXCEEDED"@,
    )
}

/// The name, if the set has the signal.
pub open spec fn name_if(s: Signals, signal: Signals, name: Seq<char>) -> Seq<Seq<char>> {
    if s.has(signal) {
        seq![name]
    } else {
        Seq::empty()
    }
}

/// The names in a signal state.
pub open spec fn state_names(st: SignalsState) -> SignalNames {
    SignalNames { satisfied: names_of(st.satisfied), satisfiable: names_of(st.satisfiable) }
}

/// The signal of a name, if it is one.
pub open spec fn signal_named(name: Seq<char>) -> Option<Signals> {
    if name == "READABLE"@ {
        Some(Signals::readable())
    } else if name == "WRITABLE"@ {
        Some(Signals::writable())
    } else if name == "PEER_CLOSED"@ {
        Some(Signals::peer_closed())
    } else if name == "NEW_DATA_READABLE"@ {
        Some(Signals::new_data_readable())
    } else if name == "PEER_REMOTE"@ {
        Some(Signals::peer_remote())
    } else if name == "QUOTA_EXCEEDED"@ {
        Some(Signals::quota_exceeded())
    } else {
        None
    }
}

/// The set of the named signals; the first unknown name is an error.
pub open spec fn signals_named(names: Seq<Seq<char>>) -> Result<Signals, Failure>
    decreases names.len(),
{
    if names.len() == 0 {
        Ok(Signals::none())
    } else {
        match signals_named(names.drop_last()) {
            Err(e) => Err(e),
            Ok(s) => match signal_named(names.last()) {
                Some(x) => Ok(s.with(x)),
                None => Err(Failure::Text("unknown signal: "@ + names.last())),
            },
        }
    }
}

/// The flat event of a trap event.
pub open spec fn trap_payload(op_id: u64, e: TrapEvent) -> EventView {
    EventView {
        trigger_context: Some(e.trigger_context),
        signals_state: Some(state_names(e.signals_state)),
        ..op_event(op_id, EventKind::Trap, e.result.spec_name(), None)
    }
}

/// The name of a result.
pub open spec fn result_text(r: Result<(), CoreError>) -> Seq<char> {
    match r {
        Ok(_) => "MOJO_RESULT_OK"@,
        Err(e) => e.spec_name(),
    }
}

/// The token of the `i`-th handle of a message read at `token`.
pub open spec fn extracted_token(token: Seq<char>, i: int) -> Seq<char> {
    (token + "_handle_"@) + decimal(i as nat)
}

impl HarnessView {
    /// With one more event.
    pub open spec fn posted(self, e: EventView) -> HarnessView {
        let seq = next_number(self.seq);
        HarnessView { events: self.events.push(EventView { seq, ..e }), seq, ..self }
    }

    /// After an event with a handle token.
    pub open spec fn emitted(
        self,
        op_id: u64,
        kind: EventKind,
        result: Seq<char>,
        token: Option<Seq<char>>,
    ) -> HarnessView {
        self.posted(op_event(op_id, kind, result, token))
    }

    /// With the session after some handles were closed.
    pub open spec fn closing(self, handles: Seq<Handle>) -> HarnessView {
        HarnessView { session: self.session.all_closed(handles), ..self }
    }

    /// With a handle bound to a token; a handle that was bound to it is closed.
    pub open spec fn bound(self, token: Seq<char>, h: Handle) -> HarnessView {
        let after = HarnessView { tokens: self.tokens.insert(token, h), ..self };
        if self.tokens.contains_key(token) {
            after.closing(seq![self.tokens[token]])
        } else {
            after
        }
    }

    /// Without a token.
    pub open spec fn unbound(self, token: Seq<char>) -> HarnessView {
        HarnessView { tokens: self.tokens.remove(token), ..self }
    }

    /// The object behind a token.
    pub open spec fn object(self, token: Seq<char>) -> Option<DispatcherRef> {
        self.session.table.resolved(self.tokens[token].value)
    }

    /// The message pipe behind an object, if it is one.
    pub open spec fn as_pipe(self, d: DispatcherRef) -> Option<(usize, End)> {
        match d {
            DispatcherRef::MessagePipe { pipe, end } => if pipe < self.session.objects.pipes.len() {
                Some((pipe, end))
            } else {
                None
            },
            _ => None,
        }
    }

    /// The number of a trap that is not closed.
    pub open spec fn trap_numbered(self, token: Seq<char>) -> Option<u64> {
        if self.traps.contains_key(token) && self.traps[token] < self.session.traps.len()
            && self.session.traps[self.traps[token] as int] is Some {
            Some(self.traps[token])
        } else {
            None
        }
    }

    /// The number of a trap whose events are kept.
    pub open spec fn sink_numbered(self, token: Seq<char>) -> Option<u64> {
        if self.sinks.contains_key(token) && self.sinks[token] < self.session.sinks.len() {
            Some(self.sinks[token])
        } else {
            None
        }
    }

    /// With an object added to the handle table.
    pub open spec fn with_handle(self, d: DispatcherRef) -> HarnessView {
        HarnessView {
            session: SessionView { table: self.session.table.added(d), ..self.session },
            ..self
        }
    }

    /// After flat events of trap events.
    pub open spec fn all_payloads(self, op_id: u64, events: Seq<TrapEvent>) -> HarnessView
        decreases events.len(),
    {
        if events.len() == 0 {
            self
        } else {
            self.all_payloads(op_id, events.drop_last()).posted(
                trap_payload(op_id, events.last()),
            )
        }
    }

    /// With the events of a trap taken.
    pub open spec fn drained(self, i: int) -> HarnessView {
        HarnessView {
            session: SessionView {
                sinks: self.session.sinks.update(i, Seq::empty()),
                ..self.session
            },
            ..self
        }
    }

    /// What becomes of an operation whose token is not bound.
    pub open spec fn unknown_token(
        self,
        id: u64,
        kind: EventKind,
        token: Seq<char>,
        expect: Option<Expectation>,
    ) -> Outcome {
        if expects_invalid(expect) {
            (
                Ok(Step::Done),
                self.emitted(id, kind, "MOJO_RESULT_INVALID_ARGUMENT"@, Some(token)),
            )
        } else {
            (Err(Failure::Text("unknown handle token: "@ + token)), self)
        }
    }

    /// `message_pipe_create`.
    pub open spec fn op_create(self, id: u64, expect: Option<Expectation>) -> Outcome {
        let pipe = self.session.objects.pipes.len() as usize;
        let a = DispatcherRef::MessagePipe { pipe, end: End::A };
        let b = DispatcherRef::MessagePipe { pipe, end: End::B };
        let h0 = HarnessView {
            session: SessionView {
                objects: crate::runtime::objects::ObjectsView {
                    pipes: self.session.objects.pipes.push(fresh_pipe()),
                    ..self.session.objects
                },
                ..self.session
            },
            ..self
        };
        let full = Failure::Text("MOJO_RESULT_RESOURCE_EXHAUSTED"@);
        if !h0.session.table.has_room() {
            (Err(full), h0)
        } else {
            let ha = h0.session.table.next_handle();
            let h1 = h0.with_handle(a);
            if !h1.session.table.has_room() {
                (Err(full), h1.closing(seq![ha]))
            } else {
                let hb = h1.session.table.next_handle();
                let h2 = h1.with_handle(b);
                let tokens = produced(expect);
                let h3 = if tokens.len() == 2 {
                    h2.bound(tokens[0], ha).bound(tokens[1], hb)
                } else {
                    h2.closing(seq![hb, ha])
                };
                (
                    Ok(Step::Done),
                    h3.emitted(id, EventKind::Result, "MOJO_RESULT_OK"@, None),
                )
            }
        }
    }

    /// The handles of tokens that are taken for a message, in order; the first
    /// token that is not bound is an error.
    pub open spec fn taken(self, tokens: Seq<Seq<char>>) -> (
        Result<Seq<Handle>, Failure>,
        HarnessView,
    )
        decreases tokens.len(),
    {
        if tokens.len() == 0 {
            (Ok(Seq::empty()), self)
        } else {
            let (r, h) = self.taken(tokens.drop_last());
            match r {
                Err(e) => (Err(e), h),
                Ok(handles) => {
                    let t = tokens.last();
                    if h.tokens.contains_key(t) {
                        (Ok(handles.push(h.tokens[t])), h.unbound(t))
                    } else {
                        (Err(Failure::Text("missing handle "@ + t)), h.closing(handles))
                    }
                },
            }
        }
    }

    /// `write_message`.
    pub open spec fn op_write(self, id: u64, args: OpArgs, expect: Option<Expectation>) -> Outcome {
        match args.handle {
            None => (Err(Failure::Text("write_message: handle"@)), self),
            Some(t) => match hex_decoded(encode_utf8(text_or(args.payload_hex, ""@))) {
                Err(e) => (Err(Failure::Hex("payload hex: "@, e)), self),
                Ok(payload) => {
                    let token = t@;
                    let (r, h) = self.taken(texts(args.handles@));
                    match r {
                        Err(e) => (Err(e), h),
                        Ok(handles) => if !h.tokens.contains_key(token) {
                            let (r, h) = h.unknown_token(id, EventKind::Result, token, expect);
                            (r, h.closing(handles))
                        } else {
                            match h.object(token) {
                                None => (
                                    Err(Failure::Text("MOJO_RESULT_INVALID_ARGUMENT"@)),
                                    h.closing(handles),
                                ),
                                Some(d) => match h.as_pipe(d) {
                                    None => (
                                        Err(Failure::Text("handle is not a message pipe"@)),
                                        h.closing(handles),
                                    ),
                                    Some((pipe, end)) => {
                                        let (w, s) = h.session.written(
                                            pipe,
                                            end,
                                            MessageView { data: payload, handles },
                                        );
                                        (
                                            Ok(Step::Done),
                                            HarnessView { session: s, ..h }.emitted(
                                                id,
                                                EventKind::Result,
                                                result_text(w),
                                                Some(token),
                                            ),
                                        )
                                    },
                                },
                            }
                        },
                    }
                },
            },
        }
    }

    /// With the handles of a message bound to tokens of their own; and these
    /// tokens.
    pub open spec fn extracted(self, token: Seq<char>, handles: Seq<Handle>) -> HarnessView
        decreases handles.len(),
    {
        if handles.len() == 0 {
            self
        } else {
            self.extracted(token, handles.drop_last()).bound(
                extracted_token(token, handles.len() - 1),
                handles.last(),
            )
        }
    }

    /// The tokens that the handles of a message are bound to.
    pub open spec fn extracted_tokens(token: Seq<char>, n: nat) -> Seq<Seq<char>> {
        Seq::new(n, |i: int| extracted_token(token, i))
    }

    /// `read_message`.
    pub open spec fn op_read(self, id: u64, args: OpArgs, expect: Option<Expectation>) -> Outcome {
        match args.handle {
            None => (Err(Failure::Text("read_message: handle"@)), self),
            Some(t) => {
                let token = t@;
                if !self.tokens.contains_key(token) {
                    self.unknown_token(id, EventKind::Message, token, expect)
                } else {
                    match self.object(token) {
                        None => (Err(Failure::Text("MOJO_RESULT_INVALID_ARGUMENT"@)), self),
                        Some(d) => match self.as_pipe(d) {
                            None => (
                                Err(Failure::Text("handle is not a message pipe"@)),
                                self,
                            ),
                            Some((pipe, end)) => {
                                let (r, s) = self.session.read(pipe, end);
                                let h = HarnessView { session: s, ..self };
                                (
                                    Ok(Step::Done),
                                    match r {
                                        ReadResult::Message(m) => h.extracted(
                                            token,
                                            m.handles,
                                        ).posted(
                                            EventView {
                                                payload_hex: Some(hex_text(m.data)),
                                                handles: Some(
                                                    HarnessView::extracted_tokens(
                                                        token,
                                                        m.handles.len(),
                                                    ),
                                                ),
                                                ..op_event(
                                                    id,
                                                    EventKind::Message,
                                                    "MOJO_RESULT_OK"@,
                                                    Some(token),
                                                )
                                            },
                                        ),
                                        ReadResult::TooLarge(size) => h.posted(
                                            EventView {
                                                note: Some(
                                                    "required_size="@ + decimal(size as nat),
                                                ),
                                                ..op_event(
                                                    id,
                                                    EventKind::Message,
                                                    "MOJO_RESULT_RESOURCE_EXHAUSTED"@,
                                                    Some(token),
                                                )
                                            },
                                        ),
                                        ReadResult::Failed(e) => h.emitted(
                                            id,
                                            EventKind::Message,
                                            e.spec_name(),
                                            Some(token),
                                        ),
                                    },
                                )
                            },
                        },
                    }
                }
            },
        }
    }

    /// `query_signals_state`.
    pub open spec fn op_query(self, id: u64, args: OpArgs, expect: Option<Expectation>) -> Outcome {
        match args.handle {
            None => (Err(Failure::Text("query_signals_state: handle"@)), self),
            Some(t) => {
                let token = t@;
                if !self.tokens.contains_key(token) {
                    self.unknown_token(id, EventKind::Signals, token, expect)
                } else {
                    match self.object(token) {
                        None => (Err(Failure::Text("MOJO_RESULT_INVALID_ARGUMENT"@)), self),
                        Some(d) => {
                            let (state, o) = self.session.objects.queried(d);
                            (
                                Ok(Step::Done),
                                HarnessView {
                                    session: SessionView { objects: o, ..self.session },
                                    ..self
                                }.posted(
                                    EventView {
                                        signals: Some(state_names(state)),
                                        ..op_event(
                                            id,
                                            EventKind::Signals,
                                            "MOJO_RESULT_OK"@,
                                            Some(token),
                                        )
                                    },
                                ),
                            )
                        },
                    }
                }
            },
        }
    }

    /// `close`.
    pub open spec fn op_close(self, id: u64, args: OpArgs) -> Outcome {
        match args.handle {
            None => (Err(Failure::Text("close: handle"@)), self),
            Some(t) => {
                let token = t@;
                (
                    Ok(Step::Done),
                    if self.tokens.contains_key(token) {
                        self.unbound(token).closing(seq![self.tokens[token]]).emitted(
                            id,
                            EventKind::Result,
                            "MOJO_RESULT_OK"@,
                            Some(token),
                        )
                    } else {
                        self.emitted(
                            id,
                            EventKind::Result,
                            "MOJO_RESULT_INVALID_ARGUMENT"@,
                            Some(token),
                        )
                    },
                )
            },
        }
    }

    /// `wait`, up to the wait itself.
    pub open spec fn op_wait(self, id: u64, args: OpArgs, expect: Option<Expectation>) -> Outcome {
        match args.handle {
            None => (Err(Failure::Text("wait: handle"@)), self),
            Some(t) => {
                let token = t@;
                if !self.tokens.contains_key(token) {
                    self.unknown_token(id, EventKind::Result, token, expect)
                } else {
                    match self.object(token) {
                        None => (Err(Failure::Text("MOJO_RESULT_INVALID_ARGUMENT"@)), self),
                        Some(d) => match signals_named(texts(args.signals@)) {
                            Err(e) => (Err(e), self),
                            Ok(signals) => (Ok(Step::Wait(d, signals, args.deadline_ms)), self),
                        },
                    }
                }
            },
        }
    }

    /// `platform_handle_wrap`, up to the making of the descriptor.
    pub open spec fn op_wrap(self, args: OpArgs) -> Outcome {
        let source = text_or(args.source, "memfd"@);
        match hex_decoded(encode_utf8(text_or(args.content_hex, ""@))) {
            Err(e) => (Err(Failure::Hex("content hex: "@, e)), self),
            Ok(content) => if source == "memfd"@ {
                (Ok(Step::CreateDescriptor(Source::Memfd, content)), self)
            } else if source == "pipe"@ {
                (Ok(Step::CreateDescriptor(Source::Pipe, content)), self)
            } else {
                (Err(Failure::Text("unknown platform handle source: "@ + source)), self)
            },
        }
    }

    /// `platform_handle_unwrap`, up to the reading of the descriptor.
    pub open spec fn op_unwrap(self, id: u64, args: OpArgs) -> Outcome {
        match args.handle {
            None => (Err(Failure::Text("platform_handle_unwrap: handle"@)), self),
            Some(t) => {
                let token = t@;
                if !self.tokens.contains_key(token) {
                    (
                        Ok(Step::Done),
                        self.emitted(
                            id,
                            EventKind::Handle,
                            "MOJO_RESULT_INVALID_ARGUMENT"@,
                            Some(token),
                        ),
                    )
                } else {
                    let handle = self.tokens[token];
                    let h = self.unbound(token);
                    match self.object(token) {
                        None => (
                            Err(Failure::Text("MOJO_RESULT_INVALID_ARGUMENT"@)),
                            h.closing(seq![handle]),
                        ),
                        Some(d) => match d {
                            DispatcherRef::PlatformHandle(fd) => (
                                Ok(Step::ReadDescriptor(fd, handle)),
                                h,
                            ),
                            _ => (
                                Err(Failure::Text("handle is not a platform handle"@)),
                                h.closing(seq![handle]),
                            ),
                        },
                    }
                }
            },
        }
    }

    /// `trap_create`: a trap that had the token is dropped.
    pub open spec fn op_trap_create(self, id: u64, args: OpArgs) -> Outcome {
        let token = text_or(args.produce, "t0"@);
        let n = self.session.traps.len() as u64;
        let made = HarnessView {
            session: self.session.trap_added(),
            traps: self.traps.insert(token, n),
            sinks: self.sinks.insert(token, n),
            ..self
        };
        let after = match self.trap_numbered(token) {
            Some(i) => HarnessView { session: made.session.trap_dropped(i as int), ..made },
            None => made,
        };
        (Ok(Step::Done), after.emitted(id, EventKind::Result, "MOJO_RESULT_OK"@, None))
    }

    /// `trap_add_trigger`.
    pub open spec fn op_add_trigger(self, id: u64, args: OpArgs) -> Outcome {
        match args.trap {
            None => (Err(Failure::Text("trap_add_trigger: trap"@)), self),
            Some(trap) => match args.handle {
                None => (Err(Failure::Text("trap_add_trigger: handle"@)), self),
                Some(token) => match signals_named(texts(args.signals@)) {
                    Err(e) => (Err(e), self),
                    Ok(signals) => match self.trap_numbered(trap@) {
                        None => (Err(Failure::Text("unknown trap"@)), self),
                        Some(i) => if !self.tokens.contains_key(token@) {
                            (Err(Failure::Text("unknown handle token: "@ + token@)), self)
                        } else {
                            match self.object(token@) {
                                None => (
                                    Err(Failure::Text("MOJO_RESULT_INVALID_ARGUMENT"@)),
                                    self,
                                ),
                                Some(d) => (
                                    Ok(Step::Done),
                                    self.triggering(
                                        i,
                                        d,
                                        signals,
                                        number_or(args.context, 0),
                                    ).emitted(id, EventKind::Result, "MOJO_RESULT_OK"@, None),
                                ),
                            }
                        },
                    },
                },
            },
        }
    }

    /// With one more trigger on a trap.
    pub open spec fn triggering(
        self,
        i: u64,
        d: DispatcherRef,
        signals: Signals,
        context: u64,
    ) -> HarnessView {
        let t = self.session.traps[i as int].unwrap();
        let (watch, o) = self.session.objects.watching(
            d,
            signals,
            WatchTarget::Trap { trap: i, context },
        );
        HarnessView {
            session: SessionView { objects: o, ..self.session }.with_trap(
                i as int,
                Some(
                    TrapView {
                        triggers: t.triggers.push(
                            Trigger { watch, dispatcher: d, signals, context, removed: false },
                        ),
                        ..t
                    },
                ),
                self.session.sinks[i as int],
            ),
            ..self
        }
    }

    /// `trap_arm`: what a refused trap delivered is emitted before the result.
    pub open spec fn op_arm(self, id: u64, args: OpArgs) -> Outcome {
        match args.trap {
            None => (Err(Failure::Text("trap_arm: trap"@)), self),
            Some(trap) => match self.trap_numbered(trap@) {
                None => (Err(Failure::Text("unknown trap"@)), self),
                Some(i) => {
                    let t = self.session.traps[i as int].unwrap();
                    let (now, o) = immediate_events(t.triggers, self.session.objects);
                    if t.armed {
                        (
                            Ok(Step::Done),
                            self.emitted(id, EventKind::Result, "MOJO_RESULT_OK"@, None),
                        )
                    } else if now.len() == 0 {
                        (
                            Ok(Step::Done),
                            HarnessView {
                                session: SessionView { objects: o, ..self.session }.with_trap(
                                    i as int,
                                    Some(TrapView { armed: true, ..t }),
                                    self.session.sinks[i as int],
                                ),
                                ..self
                            }.emitted(id, EventKind::Result, "MOJO_RESULT_OK"@, None),
                        )
                    } else {
                        let h = HarnessView {
                            session: SessionView { objects: o, ..self.session }.with_trap(
                                i as int,
                                Some(t),
                                self.session.sinks[i as int] + now,
                            ),
                            ..self
                        };
                        let (r, after) = h.emitting(id, trap@, 1);
                        match r {
                            Err(e) => (Err(e), after),
                            Ok(_) => (
                                Ok(Step::Done),
                                after.emitted(
                                    id,
                                    EventKind::Result,
                                    "MOJO_RESULT_FAILED_PRECONDITION"@,
                                    None,
                                ),
                            ),
                        }
                    }
                },
            },
        }
    }

    /// After the pending events of a trap were emitted, of which there must be
    /// at least `min`.
    pub open spec fn emitting(self, id: u64, trap: Seq<char>, min: int) -> Outcome {
        match self.sink_numbered(trap) {
            None => (Err(Failure::Text("unknown trap sink"@)), self),
            Some(i) => {
                let events = self.session.sinks[i as int];
                let h = self.drained(i as int);
                if events.len() < min {
                    (
                        Err(
                            Failure::Text(
                                ("trap sink has "@ + decimal(events.len())) + (
                                " events, expected at least "@ + decimal(min as nat)),
                            ),
                        ),
                        h,
                    )
                } else {
                    (Ok(Step::Done), h.all_payloads(id, events))
                }
            },
        }
    }

    /// `trap_remove_trigger`.
    pub open spec fn op_remove_trigger(self, id: u64, args: OpArgs) -> Outcome {
        match args.trap {
            None => (Err(Failure::Text("trap_remove_trigger: trap"@)), self),
            Some(trap) => match self.trap_numbered(trap@) {
                None => (Err(Failure::Text("unknown trap"@)), self),
                Some(i) => {
                    let context = number_or(args.context, 0);
                    let t = self.session.traps[i as int].unwrap();
                    match find_trigger(t.triggers, context) {
                        None => (
                            Ok(Step::Done),
                            self.emitted(id, EventKind::Result, "MOJO_RESULT_NOT_FOUND"@, None),
                        ),
                        Some(k) => (
                            Ok(Step::Done),
                            HarnessView {
                                session: SessionView {
                                    objects: self.session.objects.unwatching(
                                        t.triggers[k].dispatcher,
                                        t.triggers[k].watch,
                                    ),
                                    ..self.session
                                }.with_trap(
                                    i as int,
                                    Some(t.without(k)),
                                    self.session.sinks[i as int].push(cancelled_event(context)),
                                ),
                                ..self
                            }.emitted(id, EventKind::Result, "MOJO_RESULT_OK"@, None),
                        ),
                    }
                },
            },
        }
    }

    /// `trap_close`.
    pub open spec fn op_trap_close(self, id: u64, args: OpArgs) -> Outcome {
        match args.trap {
            None => (Err(Failure::Text("trap_close: trap"@)), self),
            Some(trap) => match self.trap_numbered(trap@) {
                None => (Err(Failure::Text("unknown trap"@)), self),
                Some(i) => (
                    Ok(Step::Done),
                    HarnessView {
                        session: self.session.trap_closed(i as int),
                        traps: self.traps.remove(trap@),
                        ..self
                    }.emitted(id, EventKind::Result, "MOJO_RESULT_OK"@, None),
                ),
            },
        }
    }

    /// `drain_trap_events`: with nothing else running, events that are not
    /// there do not come.
    pub open spec fn op_drain(self, id: u64, args: OpArgs) -> Outcome {
        match args.trap {
            None => (Err(Failure::Text("drain_trap_events: trap"@)), self),
            Some(trap) => match self.sink_numbered(trap@) {
                None => (Err(Failure::Text("unknown trap sink"@)), self),
                Some(i) => {
                    let count = number_or(args.count, 1);
                    let events = self.session.sinks[i as int];
                    if count == 0 {
                        (
                            Ok(Step::Done),
                            self.emitted(id, EventKind::Result, "MOJO_RESULT_OK"@, None),
                        )
                    } else if events.len() < count {
                        (
                            Err(
                                Failure::Text(
                                    ("drain_trap_events timeout ("@ + decimal(count as nat))
                                        + " events)"@,
                                ),
                            ),
                            self.drained(i as int),
                        )
                    } else {
                        (
                            Ok(Step::Done),
                            self.drained(i as int).all_payloads(id, events).emitted(
                                id,
                                EventKind::Result,
                                "MOJO_RESULT_OK"@,
                                None,
                            ),
                        )
                    }
                },
            },
        }
    }

    /// What an operation comes to, by its name.
    pub open spec fn op(
        self,
        id: u64,
        op: Seq<char>,
        args: OpArgs,
        expect: Option<Expectation>,
    ) -> Outcome {
        if op == "message_pipe_create"@ {
            self.op_create(id, expect)
        } else if op == "write_message"@ {
            self.op_write(id, args, expect)
        } else if op == "read_message"@ {
            self.op_read(id, args, expect)
        } else if op == "query_signals_state"@ {
            self.op_query(id, args, expect)
        } else if op == "close"@ {
            self.op_close(id, args)
        } else if op == "wait"@ {
            self.op_wait(id, args, expect)
        } else if op == "platform_handle_wrap"@ {
            self.op_wrap(args)
        } else if op == "platform_handle_unwrap"@ {
            self.op_unwrap(id, args)
        } else if op == "trap_create"@ {
            self.op_trap_create(id, args)
        } else if op == "trap_add_trigger"@ {
            self.op_add_trigger(id, args)
        } else if op == "trap_arm"@ {
            self.op_arm(id, args)
        } else if op == "trap_remove_trigger"@ {
            self.op_remove_trigger(id, args)
        } else if op == "trap_close"@ {
            self.op_trap_close(id, args)
        } else if op == "drain_trap_events"@ {
            self.op_drain(id, args)
        } else {
            (
                Err(Failure::Text("unsupported operation in candidate harness: "@ + op)),
                self,
            )
        }
    }

    /// The end of `platform_handle_wrap`: the descriptor gets a handle.
    pub open spec fn wrapped(self, id: u64, fd: i32, expect: Option<Expectation>) -> Outcome {
        let tokens = produced(expect);
        let token = if tokens.len() > 0 {
            tokens[0]
        } else {
            "p0"@
        };
        if self.session.table.has_room() {
            let handle = self.session.table.next_handle();
            (
                Ok(Step::Done),
                self.with_handle(DispatcherRef::PlatformHandle(fd)).bound(token, handle).emitted(
                    id,
                    EventKind::Handle,
                    "MOJO_RESULT_OK"@,
                    Some(token),
                ),
            )
        } else {
            (Err(Failure::Text("MOJO_RESULT_RESOURCE_EXHAUSTED"@)), self)
        }
    }

    /// The end of `platform_handle_unwrap`: the content is emitted, and the
    /// handle closed.
    pub open spec fn unwrapped(
        self,
        id: u64,
        token: Seq<char>,
        handle: Handle,
        content: Seq<u8>,
    ) -> HarnessView {
        self.posted(
            EventView {
                payload_hex: Some(hex_text(content)),
                ..op_event(id, EventKind::Handle, "MOJO_RESULT_OK"@, Some(token))
            },
        ).closing(seq![handle])
    }

    /// The end of `wait`: the result is emitted with the signals as they are
    /// then.
    pub open spec fn waited(
        self,
        id: u64,
        token: Seq<char>,
        d: DispatcherRef,
        r: Result<(), CoreError>,
    ) -> HarnessView {
        let (state, o) = self.session.objects.queried(d);
        HarnessView { session: SessionView { objects: o, ..self.session }, ..self }.posted(
            EventView {
                signals: Some(state_names(state)),
                ..op_event(id, EventKind::Result, result_text(r), Some(token))
            },
        )
    }
}

fn fail(text: &str) -> (r: Result<Progress, HarnessError>)
    ensures
        op_result(r) == Err::<Step, Failure>(Failure::Text(text@)),
{
    Err(HarnessError::Text(text.to_owned()))
}

fn fail_with(head: &str, tail: &str) -> (r: Result<Progress, HarnessError>)
    ensures
        op_result(r) == Err::<Step, Failure>(Failure::Text(head@ + tail@)),
{
    Err(HarnessError::Text(joined(head, tail)))
}

/// The names of the signals in a set.
pub fn signal_names(s: Signals) -> (r: Vec<String>)
    ensures
        texts(r@) == names_of(s),
{
    let mut out: Vec<String> = Vec::new();
    assert(texts(out@) =~= Seq::empty());
    push_name(&mut out, s, Signals::readable(), "READABLE");
    push_name(&mut out, s, Signals::writable(), "WRITABLE");
    push_name(&mut out, s, Signals::peer_closed(), "PEER_CLOSED");
    push_name(&mut out, s, Signals::new_data_readable(), "NEW_DATA_READABLE");
    push_name(&mut out, s, Signals::peer_remote(), "PEER_REMOTE");
    push_name(&mut out, s, Signals::quota_exceeded(), "QUOTA_EXCEEDED");
    assert(texts(out@) =~= names_of(s));
    out
}

fn push_name(out: &mut Vec<String>, s: Signals, signal: Signals, name: &str)
    ensures
        texts(final(out)@) == texts(old(out)@) + name_if(s, signal, name@),
{
    if s.contains(signal) {
        out.push(name.to_owned());
    }
    assert(texts(out@) =~= texts(old(out)@) + name_if(s, signal, name@));
}

/// The names in a signal state.
pub fn signal_state_of(st: SignalsState) -> (r: SignalState)
    ensures
        r@ == state_names(st),
{
    SignalState {
        satisfied: signal_names(st.satisfied),
        satisfiable: signal_names(st.satisfiable),
    }
}

/// The set of the named signals; the first unknown name is an error.
pub fn parse_signals(names: &Vec<String>) -> (r: Result<Signals, HarnessError>)
    ensures
        match r {
            Ok(s) => signals_named(texts(names@)) == Ok::<Signals, Failure>(s),
            Err(e) => signals_named(texts(names@)) == Err::<Signals, Failure>(e@),
        },
{
    let mut s = Signals::none();
    let mut i: usize = 0;
    let ghost all = texts(names@);
    assert(all.take(0) =~= Seq::empty());
    while i < names.len()
        invariant
            i <= names@.len(),
            all == texts(names@),
            signals_named(all.take(i as int)) == Ok::<Signals, Failure>(s),
        decreases names@.len() - i,
    {
        let n = &names[i];
        proof {
            let next = all.take(i as int + 1);
            assert(next.drop_last() =~= all.take(i as int));
            assert(next.last() == n@);
        }
        let x = if same_text(n, "READABLE") {
            Signals::readable()
        } else if same_text(n, "WRITABLE") {
            Signals::writable()
        } else if same_text(n, "PEER_CLOSED") {
            Signals::peer_closed()
        } else if same_text(n, "NEW_DATA_READABLE") {
            Signals::new_data_readable()
        } else if same_text(n, "PEER_REMOTE") {
            Signals::peer_remote()
        } else if same_text(n, "QUOTA_EXCEEDED") {
            Signals::quota_exceeded()
        } else {
            proof {
                lemma_signals_error(all, i as int + 1);
            }
            return Err(HarnessError::Text(joined("unknown signal: ", n.as_str())));
        };
        s = s | x;
        i = i + 1;
    }
    assert(all.take(i as int) =~= all);
    Ok(s)
}

proof fn lemma_signals_error(names: Seq<Seq<char>>, n: int)
    requires
        0 <= n <= names.len(),
        signals_named(names.take(n)) is Err,
    ensures
        signals_named(names) == signals_named(names.take(n)),
    decreases names.len() - n,
{
    if n < names.len() {
        assert(names.take(n + 1).drop_last() =~= names.take(n));
        lemma_signals_error(names, n + 1);
    } else {
        assert(names.take(n) =~= names);
    }
}

proof fn lemma_taken_error(h: HarnessView, tokens: Seq<Seq<char>>, n: int)
    requires
        0 <= n <= tokens.len(),
        h.taken(tokens.take(n)).0 is Err,
    ensures
        h.taken(tokens) == h.taken(tokens.take(n)),
    decreases tokens.len() - n,
{
    if n < tokens.len() {
        assert(tokens.take(n + 1).drop_last() =~= tokens.take(n));
        lemma_taken_error(h, tokens, n + 1);
    } else {
        assert(tokens.take(n) =~= tokens);
    }
}

/// An event with a handle token; its sequence number is still to come.
fn new_event(op_id: u64, kind: EventKind, result: &str, token: Option<&str>) -> (r: Event)
    ensures
        r@ == op_event(
            op_id,
            kind,
            result@,
            match token {
                Some(t) => Some(t@),
                None => None::<Seq<char>>,
            },
        ),
{
    let mut e = Event::plain(0, op_id, kind, result);
    if let Some(t) = token {
        e.handle = Some(t.to_owned());
    }
    e
}

fn expects_invalid_argument(expect: &Option<Expectation>) -> (r: bool)
    ensures
        r == expects_invalid(*expect),
{
    match expect {
        Some(e) => match &e.result {
            Some(t) => same_text(t, "MOJO_RESULT_INVALID_ARGUMENT"),
            None => false,
        },
        None => false,
    }
}

fn copy_handle(h: &Handle) -> (r: Handle)
    ensures
        r == *h,
{
    Handle { value: h.value, slot: h.slot }
}

impl Harness {
    /// A harness with nothing bound.
    pub fn new() -> (r: Harness)
        ensures
            r@.session.wf(),
            r@ == (HarnessView {
                session: crate::runtime::session::fresh_session(),
                tokens: Map::empty(),
                traps: Map::empty(),
                sinks: Map::empty(),
                events: Seq::empty(),
                seq: 0,
            }),
    {
        let r = Harness {
            session: Session::new(),
            tokens: StringHashMap::new(),
            traps: StringHashMap::new(),
            sinks: StringHashMap::new(),
            events: Vec::new(),
            seq: 0,
        };
        assert(r@.events =~= Seq::empty());
        r
    }

    fn post(&mut self, e: Event)
        ensures
            final(self)@ == old(self)@.posted(e@),
    {
        let mut e = e;
        self.seq = if self.seq == u64::MAX {
            0
        } else {
            self.seq + 1
        };
        e.seq = self.seq;
        let ghost view = e@;
        self.events.push(e);
        assert(self@.events =~= old(self)@.events.push(view));
    }

    /// Append an event.
    pub fn emit(&mut self, op_id: u64, kind: EventKind, result: &str, token: Option<&str>)
        ensures
            final(self)@ == old(self)@.emitted(
                op_id,
                kind,
                result@,
                match token {
                    Some(t) => Some(t@),
                    None => None::<Seq<char>>,
                },
            ),
    {
        let e = new_event(op_id, kind, result, token);
        self.post(e);
    }

    fn close_handles(&mut self, handles: Vec<Handle>)
        requires
            old(self)@.session.wf(),
        ensures
            final(self)@.session.wf(),
            final(self)@ == old(self)@.closing(handles@),
    {
        self.session.close_handles(handles);
    }

    fn close_one(&mut self, handle: Handle)
        requires
            old(self)@.session.wf(),
        ensures
            final(self)@.session.wf(),
            final(self)@ == old(self)@.closing(seq![handle]),
    {
        let ghost h = handle;
        let mut work: Vec<Handle> = Vec::new();
        work.push(handle);
        assert(work@ =~= seq![h]);
        self.close_handles(work);
    }

    fn bind(&mut self, token: String, handle: Handle)
        requires
            old(self)@.session.wf(),
        ensures
            final(self)@.session.wf(),
            final(self)@ == old(self)@.bound(token@, handle),
    {
        let replaced = match self.tokens.get(token.as_str()) {
            Some(h) => Some(copy_handle(h)),
            None => None,
        };
        self.tokens.insert(token, handle);
        if let Some(h) = replaced {
            self.close_one(h);
        }
    }

    /// Take the handle of a token, which is no longer bound then.
    fn take_token(&mut self, token: &str) -> (r: Option<Handle>)
        ensures
            match r {
                Some(h) => old(self)@.tokens.contains_key(token@) && h == old(self)@.tokens[token@]
                    && final(self)@ == old(self)@.unbound(token@),
                None => !old(self)@.tokens.contains_key(token@) && final(self)@ == old(self)@,
            },
    {
        let found = match self.tokens.get(token) {
            Some(h) => Some(copy_handle(h)),
            None => None,
        };
        if found.is_some() {
            self.tokens.remove(token);
        }
        found
    }

    /// The object behind a token that is bound.
    fn object_of(&self, token: &str) -> (r: Result<Option<DispatcherRef>, ()>)
        ensures
            match r {
                Ok(d) => self@.tokens.contains_key(token@) && d == self@.object(token@),
                Err(_) => !self@.tokens.contains_key(token@),
            },
    {
        match self.tokens.get(token) {
            None => Err(()),
            Some(h) => match self.session.table.get(h.value) {
                Ok(d) => Ok(Some(d)),
                Err(_) => Ok(None),
            },
        }
    }

    fn pipe_of(&self, d: DispatcherRef) -> (r: Option<(usize, End)>)
        ensures
            r == self@.as_pipe(d),
    {
        match d {
            DispatcherRef::MessagePipe { pipe, end } => {
                if pipe < self.session.objects.pipes.len() {
                    Some((pipe, end))
                } else {
                    None
                }
            },
            _ => None,
        }
    }

    fn trap_number(&self, token: &str) -> (r: Option<usize>)
        ensures
            match r {
                Some(i) => self@.trap_numbered(token@) == Some(i as u64) && i
                    < self@.session.traps.len() && self@.session.traps[i as int] is Some,
                None => self@.trap_numbered(token@) is None,
            },
    {
        match self.traps.get(token) {
            None => None,
            Some(n) => {
                if *n < self.session.traps.len() as u64 && self.session.traps[*n as usize].is_some() {
                    Some(*n as usize)
                } else {
                    None
                }
            },
        }
    }

    fn sink_number(&self, token: &str) -> (r: Option<usize>)
        ensures
            match r {
                Some(i) => self@.sink_numbered(token@) == Some(i as u64) && i
                    < self@.session.sinks.len(),
                None => self@.sink_numbered(token@) is None,
            },
    {
        match self.sinks.get(token) {
            None => None,
            Some(n) => {
                if *n < self.session.sinks.len() as u64 {
                    Some(*n as usize)
                } else {
                    None
                }
            },
        }
    }

    fn add_handle(&mut self, d: DispatcherRef) -> (r: Option<Handle>)
        requires
            old(self)@.session.wf(),
        ensures
            final(self)@.session.wf(),
            match r {
                Some(h) => old(self)@.session.table.has_room() && h
                    == old(self)@.session.table.next_handle() && final(self)@ == old(
                    self,
                )@.with_handle(d),
                None => !old(self)@.session.table.has_room() && final(self)@ == old(self)@,
            },
    {
        match self.session.table.add(d) {
            Ok(h) => Some(h),
            Err(_) => None,
        }
    }

    fn unknown_handle(
        &mut self,
        id: u64,
        kind: EventKind,
        token: &str,
        expect: &Option<Expectation>,
    ) -> (r: Result<Progress, HarnessError>)
        requires
            old(self)@.session.wf(),
        ensures
            final(self)@.session.wf(),
            (op_result(r), final(self)@) == old(self)@.unknown_token(id, kind, token@, *expect),
    {
        if expects_invalid_argument(expect) {
            self.emit(id, kind, "MOJO_RESULT_INVALID_ARGUMENT", Some(token));
            Ok(Progress::Done)
        } else {
            fail_with("unknown handle token: ", token)
        }
    }

    fn exec_create(&mut self, id: u64, expect: &Option<Expectation>) -> (r: Result<
        Progress,
        HarnessError,
    >)
        requires
            old(self)@.session.wf(),
        ensures
            final(self)@.session.wf(),
            (op_result(r), final(self)@) == old(self)@.op_create(id, *expect),
    {
        let ghost v0 = self@;
        let pipe: usize = self.session.objects.add_message_pipe();
        let ha = match self.add_handle(DispatcherRef::MessagePipe { pipe, end: End::A }) {
            Some(h) => h,
            None => {
                return fail("MOJO_RESULT_RESOURCE_EXHAUSTED");
            },
        };
        let hb = match self.add_handle(DispatcherRef::MessagePipe { pipe, end: End::B }) {
            Some(h) => h,
            None => {
                self.close_one(ha);
                return fail("MOJO_RESULT_RESOURCE_EXHAUSTED");
            },
        };
        let two = match expect {
            Some(e) => e.produce.len() == 2,
            None => false,
        };
        if two {
            if let Some(e) = expect {
                let first = e.produce[0].as_str().to_owned();
                let second = e.produce[1].as_str().to_owned();
                self.bind(first, ha);
                self.bind(second, hb);
            }
        } else {
            let ghost a = ha;
            let ghost b = hb;
            let mut work: Vec<Handle> = Vec::new();
            work.push(hb);
            work.push(ha);
            assert(work@ =~= seq![b, a]);
            self.close_handles(work);
        }
        self.emit(id, EventKind::Result, "MOJO_RESULT_OK", None);
        Ok(Progress::Done)
    }

    fn take_tokens(&mut self, tokens: &Vec<String>) -> (r: Result<Vec<Handle>, HarnessError>)
        requires
            old(self)@.session.wf(),
        ensures
            final(self)@.session.wf(),
            ({
                let (want, h) = old(self)@.taken(texts(tokens@));
                &&& final(self)@ == h
                &&& match r {
                    Ok(v) => want == Ok::<Seq<Handle>, Failure>(v@),
                    Err(e) => want == Err::<Seq<Handle>, Failure>(e@),
                }
            }),
    {
        let ghost v0 = self@;
        let ghost all = texts(tokens@);
        let mut out: Vec<Handle> = Vec::new();
        let mut i: usize = 0;
        assert(all.take(0) =~= Seq::empty());
        while i < tokens.len()
            invariant
                i <= tokens@.len(),
                v0 == old(self)@,
                all == texts(tokens@),
                self@.session.wf(),
                v0.taken(all.take(i as int)) == (Ok::<Seq<Handle>, Failure>(out@), self@),
            decreases tokens@.len() - i,
        {
            let t = tokens[i].as_str();
            proof {
                let next = all.take(i as int + 1);
                assert(next.drop_last() =~= all.take(i as int));
                assert(next.last() == t@);
            }
            match self.take_token(t) {
                Some(h) => {
                    out.push(h);
                },
                None => {
                    self.close_handles(out);
                    proof {
                        lemma_taken_error(v0, all, i as int + 1);
                    }
                    return Err(HarnessError::Text(joined("missing handle ", t)));
                },
            }
            i = i + 1;
        }
        assert(all.take(i as int) =~= all);
        Ok(out)
    }

    fn exec_write(&mut self, id: u64, args: &OpArgs, expect: &Option<Expectation>) -> (r: Result<
        Progress,
        HarnessError,
    >)
        requires
            old(self)@.session.wf(),
        ensures
            final(self)@.session.wf(),
            (op_result(r), final(self)@) == old(self)@.op_write(id, *args, *expect),
    {
        let token = match &args.handle {
            Some(t) => t.as_str(),
            None => {
                return fail("write_message: handle");
            },
        };
        let text = match &args.payload_hex {
            Some(t) => t.as_str(),
            None => "",
        };
        let payload = match decode_hex(text) {
            Ok(p) => p,
            Err(error) => {
                return Err(HarnessError::Hex { what: "payload hex: ", error });
            },
        };
        let handles = match self.take_tokens(&args.handles) {
            Ok(h) => h,
            Err(e) => {
                return Err(e);
            },
        };
        let object = match self.object_of(token) {
            Ok(o) => o,
            Err(_) => {
                let r = self.unknown_handle(id, EventKind::Result, token, expect);
                self.close_handles(handles);
                return r;
            },
        };
        let d = match object {
            Some(d) => d,
            None => {
                self.close_handles(handles);
                return fail("MOJO_RESULT_INVALID_ARGUMENT");
            },
        };
        let (pipe, end) = match self.pipe_of(d) {
            Some(p) => p,
            None => {
                self.close_handles(handles);
                return fail("handle is not a message pipe");
            },
        };
        let result = self.session.write(pipe, end, Message::new(payload, handles));
        let name = match result {
            Ok(_) => "MOJO_RESULT_OK",
            Err(e) => e.name(),
        };
        self.emit(id, EventKind::Result, name, Some(token));
        Ok(Progress::Done)
    }

    fn extract(&mut self, token: &str, handles: Vec<Handle>) -> (r: Vec<String>)
        requires
            old(self)@.session.wf(),
        ensures
            final(self)@.session.wf(),
            final(self)@ == old(self)@.extracted(token@, handles@),
            texts(r@) == HarnessView::extracted_tokens(token@, handles@.len()),
    {
        let ghost v0 = self@;
        let ghost all = handles@;
        let mut out: Vec<String> = Vec::new();
        let mut i: usize = 0;
        let n: usize = handles.len();
        assert(all.take(0) =~= Seq::empty());
        while i < n
            invariant
                i <= n,
                n == all.len(),
                all == handles@,
                self@.session.wf(),
                self@ == v0.extracted(token@, all.take(i as int)),
                out@.len() == i,
                forall|j: int|
                    0 <= j < i ==> (#[trigger] out@[j])@ == extracted_token(token@, j),
            decreases n - i,
        {
            let head = joined(token, "_handle_");
            let t = labelled(head.as_str(), i as u64);
            proof {
                let next = all.take(i as int + 1);
                assert(next.drop_last() =~= all.take(i as int));
                assert(next.last() == all[i as int]);
            }
            let h = copy_handle(&handles[i]);
            out.push(t.as_str().to_owned());
            self.bind(t, h);
            i = i + 1;
        }
        assert(all.take(i as int) =~= all);
        assert(texts(out@) =~= HarnessView::extracted_tokens(token@, all.len()));
        out
    }

    fn exec_read(&mut self, id: u64, args: &OpArgs, expect: &Option<Expectation>) -> (r: Result<
        Progress,
        HarnessError,
    >)
        requires
            old(self)@.session.wf(),
        ensures
            final(self)@.session.wf(),
            (op_result(r), final(self)@) == old(self)@.op_read(id, *args, *expect),
    {
        let token = match &args.handle {
            Some(t) => t.as_str(),
            None => {
                return fail("read_message: handle");
            },
        };
        let object = match self.object_of(token) {
            Ok(o) => o,
            Err(_) => {
                return self.unknown_handle(id, EventKind::Message, token, expect);
            },
        };
        let d = match object {
            Some(d) => d,
            None => {
                return fail("MOJO_RESULT_INVALID_ARGUMENT");
            },
        };
        let (pipe, end) = match self.pipe_of(d) {
            Some(p) => p,
            None => {
                return fail("handle is not a message pipe");
            },
        };
        match self.session.read(pipe, end) {
            Ok(ReadOutcome::Message { data, handles }) => {
                let extracted = self.extract(token, handles);
                let mut e = new_event(id, EventKind::Message, "MOJO_RESULT_OK", Some(token));
                e.payload_hex = Some(digest_text(data.as_slice()));
                e.handles = Some(extracted);
                self.post(e);
            },
            Ok(ReadOutcome::TooLarge { size }) => {
                let mut e = new_event(
                    id,
                    EventKind::Message,
                    "MOJO_RESULT_RESOURCE_EXHAUSTED",
                    Some(token),
                );
                e.note = Some(labelled("required_size=", size as u64));
                self.post(e);
            },
            Err(e) => {
                self.emit(id, EventKind::Message, e.name(), Some(token));
            },
        }
        Ok(Progress::Done)
    }

    fn exec_query(&mut self, id: u64, args: &OpArgs, expect: &Option<Expectation>) -> (r: Result<
        Progress,
        HarnessError,
    >)
        requires
            old(self)@.session.wf(),
        ensures
            final(self)@.session.wf(),
            (op_result(r), final(self)@) == old(self)@.op_query(id, *args, *expect),
    {
        let token = match &args.handle {
            Some(t) => t.as_str(),
            None => {
                return fail("query_signals_state: handle");
            },
        };
        let object = match self.object_of(token) {
            Ok(o) => o,
            Err(_) => {
                return self.unknown_handle(id, EventKind::Signals, token, expect);
            },
        };
        let d = match object {
            Some(d) => d,
            None => {
                return fail("MOJO_RESULT_INVALID_ARGUMENT");
            },
        };
        let state = self.session.objects.query_signals(d);
        let mut e = new_event(id, EventKind::Signals, "MOJO_RESULT_OK", Some(token));
        e.signals = Some(signal_state_of(state));
        self.post(e);
        Ok(Progress::Done)
    }

    fn exec_close(&mut self, id: u64, args: &OpArgs) -> (r: Result<Progress, HarnessError>)
        requires
            old(self)@.session.wf(),
        ensures
            final(self)@.session.wf(),
            (op_result(r), final(self)@) == old(self)@.op_close(id, *args),
    {
        let token = match &args.handle {
            Some(t) => t.as_str(),
            None => {
                return fail("close: handle");
            },
        };
        match self.take_token(token) {
            Some(h) => {
                self.close_one(h);
                self.emit(id, EventKind::Result, "MOJO_RESULT_OK", Some(token));
            },
            None => {
                self.emit(id, EventKind::Result, "MOJO_RESULT_INVALID_ARGUMENT", Some(token));
            },
        }
        Ok(Progress::Done)
    }

    fn exec_wait(&mut self, id: u64, args: &OpArgs, expect: &Option<Expectation>) -> (r: Result<
        Progress,
        HarnessError,
    >)
        requires
            old(self)@.session.wf(),
        ensures
            final(self)@.session.wf(),
            (op_result(r), final(self)@) == old(self)@.op_wait(id, *args, *expect),
    {
        let token = match &args.handle {
            Some(t) => t.as_str(),
            None => {
                return fail("wait: handle");
            },
        };
        let object = match self.object_of(token) {
            Ok(o) => o,
            Err(_) => {
                return self.unknown_handle(id, EventKind::Result, token, expect);
            },
        };
        let dispatcher = match object {
            Some(d) => d,
            None => {
                return fail("MOJO_RESULT_INVALID_ARGUMENT");
            },
        };
        match parse_signals(&args.signals) {
            Err(e) => Err(e),
            Ok(signals) => Ok(
                Progress::Wait { dispatcher, signals, deadline_ms: args.deadline_ms },
            ),
        }
    }

    fn exec_wrap(&mut self, args: &OpArgs) -> (r: Result<Progress, HarnessError>)
        ensures
            (op_result(r), final(self)@) == old(self)@.op_wrap(*args),
    {
        let source = match &args.source {
            Some(t) => t.as_str().to_owned(),
            None => "memfd".to_owned(),
        };
        let text = match &args.content_hex {
            Some(t) => t.as_str(),
            None => "",
        };
        let content = match decode_hex(text) {
            Ok(c) => c,
            Err(error) => {
                return Err(HarnessError::Hex { what: "content hex: ", error });
            },
        };
        if same_text(&source, "memfd") {
            Ok(Progress::CreateDescriptor { source: Source::Memfd, content })
        } else if same_text(&source, "pipe") {
            Ok(Progress::CreateDescriptor { source: Source::Pipe, content })
        } else {
            fail_with("unknown platform handle source: ", source.as_str())
        }
    }

    fn exec_unwrap(&mut self, id: u64, args: &OpArgs) -> (r: Result<Progress, HarnessError>)
        requires
            old(self)@.session.wf(),
        ensures
            final(self)@.session.wf(),
            (op_result(r), final(self)@) == old(self)@.op_unwrap(id, *args),
    {
        let token = match &args.handle {
            Some(t) => t.as_str(),
            None => {
                return fail("platform_handle_unwrap: handle");
            },
        };
        match self.take_token(token) {
            None => {
                self.emit(id, EventKind::Handle, "MOJO_RESULT_INVALID_ARGUMENT", Some(token));
                Ok(Progress::Done)
            },
            Some(handle) => match self.session.table.get(handle.value) {
                Err(_) => {
                    self.close_one(handle);
                    fail("MOJO_RESULT_INVALID_ARGUMENT")
                },
                Ok(DispatcherRef::PlatformHandle(fd)) => Ok(
                    Progress::ReadDescriptor { fd, handle },
                ),
                Ok(_) => {
                    self.close_one(handle);
                    fail("handle is not a platform handle")
                },
            },
        }
    }

    fn exec_trap_create(&mut self, id: u64, args: &OpArgs) -> (r: Result<Progress, HarnessError>)
        requires
            old(self)@.session.wf(),
        ensures
            final(self)@.session.wf(),
            (op_result(r), final(self)@) == old(self)@.op_trap_create(id, *args),
    {
        let token = match &args.produce {
            Some(t) => t.as_str(),
            None => "t0",
        };
        let replaced = self.trap_number(token);
        let n: u64 = self.session.add_trap();
        self.sinks.insert(token.to_owned(), n);
        self.traps.insert(token.to_owned(), n);
        if let Some(i) = replaced {
            self.session.drop_trap(i);
        }
        self.emit(id, EventKind::Result, "MOJO_RESULT_OK", None);
        Ok(Progress::Done)
    }

    fn exec_add_trigger(&mut self, id: u64, args: &OpArgs) -> (r: Result<Progress, HarnessError>)
        requires
            old(self)@.session.wf(),
        ensures
            final(self)@.session.wf(),
            (op_result(r), final(self)@) == old(self)@.op_add_trigger(id, *args),
    {
        let trap = match &args.trap {
            Some(t) => t.as_str(),
            None => {
                return fail("trap_add_trigger: trap");
            },
        };
        let token = match &args.handle {
            Some(t) => t.as_str(),
            None => {
                return fail("trap_add_trigger: handle");
            },
        };
        let context: u64 = match args.context {
            Some(c) => c,
            None => 0,
        };
        let signals = match parse_signals(&args.signals) {
            Ok(s) => s,
            Err(e) => {
                return Err(e);
            },
        };
        let i: usize = match self.trap_number(trap) {
            Some(i) => i,
            None => {
                return fail("unknown trap");
            },
        };
        let d = match self.object_of(token) {
            Err(_) => {
                return fail_with("unknown handle token: ", token);
            },
            Ok(None) => {
                return fail("MOJO_RESULT_INVALID_ARGUMENT");
            },
            Ok(Some(d)) => d,
        };
        let _r: Result<(), CoreError> = self.session.add_trigger(i, d, signals, context);
        self.emit(id, EventKind::Result, "MOJO_RESULT_OK", None);
        Ok(Progress::Done)
    }

    fn emit_payloads(&mut self, id: u64, events: &Vec<TrapEvent>)
        requires
            old(self)@.session.wf(),
        ensures
            final(self)@.session.wf(),
            final(self)@ == old(self)@.all_payloads(id, events@),
    {
        let ghost v0 = self@;
        let mut i: usize = 0;
        assert(events@.take(0) =~= Seq::empty());
        while i < events.len()
            invariant
                i <= events@.len(),
                self@.session.wf(),
                self@ == v0.all_payloads(id, events@.take(i as int)),
            decreases events@.len() - i,
        {
            let t = events[i];
            proof {
                let next = events@.take(i as int + 1);
                assert(next.drop_last() =~= events@.take(i as int));
                assert(next.last() == t);
            }
            let mut e = new_event(id, EventKind::Trap, t.result.name(), None);
            e.trigger_context = Some(t.trigger_context);
            e.signals_state = Some(signal_state_of(t.signals_state));
            self.post(e);
            i = i + 1;
        }
        assert(events@.take(i as int) =~= events@);
    }

    fn emit_trap_events(&mut self, id: u64, trap: &str, min_count: usize) -> (r: Result<
        Progress,
        HarnessError,
    >)
        requires
            old(self)@.session.wf(),
        ensures
            final(self)@.session.wf(),
            (op_result(r), final(self)@) == old(self)@.emitting(id, trap@, min_count as int),
    {
        let i: usize = match self.sink_number(trap) {
            Some(i) => i,
            None => {
                return fail("unknown trap sink");
            },
        };
        let drained = self.session.take_events(i);
        if drained.len() < min_count {
            let head = labelled("trap sink has ", drained.len() as u64);
            let tail = labelled(" events, expected at least ", min_count as u64);
            return fail_with(head.as_str(), tail.as_str());
        }
        self.emit_payloads(id, &drained);
        Ok(Progress::Done)
    }

    fn exec_arm(&mut self, id: u64, args: &OpArgs) -> (r: Result<Progress, HarnessError>)
        requires
            old(self)@.session.wf(),
        ensures
            final(self)@.session.wf(),
            (op_result(r), final(self)@) == old(self)@.op_arm(id, *args),
    {
        let trap = match &args.trap {
            Some(t) => t.as_str(),
            None => {
                return fail("trap_arm: trap");
            },
        };
        let i: usize = match self.trap_number(trap) {
            Some(i) => i,
            None => {
                return fail("unknown trap");
            },
        };
        match self.session.arm_trap(i) {
            Ok(_) => {
                self.emit(id, EventKind::Result, "MOJO_RESULT_OK", None);
            },
            Err(_) => {
                match self.emit_trap_events(id, trap, 1) {
                    Ok(_) => {},
                    Err(e) => {
                        return Err(e);
                    },
                }
                self.emit(id, EventKind::Result, "MOJO_RESULT_FAILED_PRECONDITION", None);
            },
        }
        Ok(Progress::Done)
    }

    fn exec_remove_trigger(&mut self, id: u64, args: &OpArgs) -> (r: Result<
        Progress,
        HarnessError,
    >)
        requires
            old(self)@.session.wf(),
        ensures
            final(self)@.session.wf(),
            (op_result(r), final(self)@) == old(self)@.op_remove_trigger(id, *args),
    {
        let trap = match &args.trap {
            Some(t) => t.as_str(),
            None => {
                return fail("trap_remove_trigger: trap");
            },
        };
        let context: u64 = match args.context {
            Some(c) => c,
            None => 0,
        };
        let i: usize = match self.trap_number(trap) {
            Some(i) => i,
            None => {
                return fail("unknown trap");
            },
        };
        match self.session.remove_trigger(i, context) {
            Ok(_) => {
                self.emit(id, EventKind::Result, "MOJO_RESULT_OK", None);
            },
            Err(_) => {
                self.emit(id, EventKind::Result, "MOJO_RESULT_NOT_FOUND", None);
            },
        }
        Ok(Progress::Done)
    }

    fn exec_trap_close(&mut self, id: u64, args: &OpArgs) -> (r: Result<Progress, HarnessError>)
        requires
            old(self)@.session.wf(),
        ensures
            final(self)@.session.wf(),
            (op_result(r), final(self)@) == old(self)@.op_trap_close(id, *args),
    {
        let trap = match &args.trap {
            Some(t) => t.as_str(),
            None => {
                return fail("trap_close: trap");
            },
        };
        let i: usize = match self.trap_number(trap) {
            Some(i) => i,
            None => {
                return fail("unknown trap");
            },
        };
        self.traps.remove(trap);
        self.session.close_trap(i);
        self.emit(id, EventKind::Result, "MOJO_RESULT_OK", None);
        Ok(Progress::Done)
    }

    fn exec_drain(&mut self, id: u64, args: &OpArgs) -> (r: Result<Progress, HarnessError>)
        requires
            old(self)@.session.wf(),
        ensures
            final(self)@.session.wf(),
            (op_result(r), final(self)@) == old(self)@.op_drain(id, *args),
    {
        let trap = match &args.trap {
            Some(t) => t.as_str(),
            None => {
                return fail("drain_trap_events: trap");
            },
        };
        let count: u64 = match args.count {
            Some(c) => c,
            None => 1,
        };
        let i: usize = match self.sink_number(trap) {
            Some(i) => i,
            None => {
                return fail("unknown trap sink");
            },
        };
        if count > 0 {
            let drained = self.session.take_events(i);
            if (drained.len() as u64) < count {
                let head = labelled("drain_trap_events timeout (", count);
                return fail_with(head.as_str(), " events)");
            }
            self.emit_payloads(id, &drained);
        }
        self.emit(id, EventKind::Result, "MOJO_RESULT_OK", None);
        Ok(Progress::Done)
    }

    /// Run an operation, as far as it goes without the outside.
    pub fn exec_op(
        &mut self,
        id: u64,
        op: &String,
        args: &OpArgs,
        expect: &Option<Expectation>,
    ) -> (r: Result<Progress, HarnessError>)
        requires
            old(self)@.session.wf(),
        ensures
            final(self)@.session.wf(),
            (op_result(r), final(self)@) == old(self)@.op(id, op@, *args, *expect),
    {
        if same_text(op, "message_pipe_create") {
            self.exec_create(id, expect)
        } else if same_text(op, "write_message") {
            self.exec_write(id, args, expect)
        } else if same_text(op, "read_message") {
            self.exec_read(id, args, expect)
        } else if same_text(op, "query_signals_state") {
            self.exec_query(id, args, expect)
        } else if same_text(op, "close") {
            self.exec_close(id, args)
        } else if same_text(op, "wait") {
            self.exec_wait(id, args, expect)
        } else if same_text(op, "platform_handle_wrap") {
            self.exec_wrap(args)
        } else if same_text(op, "platform_handle_unwrap") {
            self.exec_unwrap(id, args)
        } else if same_text(op, "trap_create") {
            self.exec_trap_create(id, args)
        } else if same_text(op, "trap_add_trigger") {
            self.exec_add_trigger(id, args)
        } else if same_text(op, "trap_arm") {
            self.exec_arm(id, args)
        } else if same_text(op, "trap_remove_trigger") {
            self.exec_remove_trigger(id, args)
        } else if same_text(op, "trap_close") {
            self.exec_trap_close(id, args)
        } else if same_text(op, "drain_trap_events") {
            self.exec_drain(id, args)
        } else {
            fail_with("unsupported operation in candidate harness: ", op.as_str())
        }
    }

    /// Finish `platform_handle_wrap` with the descriptor that was made.
    pub fn finish_wrap(&mut self, id: u64, fd: i32, expect: &Option<Expectation>) -> (r: Result<
        Progress,
        HarnessError,
    >)
        requires
            old(self)@.session.wf(),
        ensures
            final(self)@.session.wf(),
            (op_result(r), final(self)@) == old(self)@.wrapped(id, fd, *expect),
    {
        let handle = match self.add_handle(DispatcherRef::PlatformHandle(fd)) {
            Some(h) => h,
            None => {
                return fail("MOJO_RESULT_RESOURCE_EXHAUSTED");
            },
        };
        let token = match expect {
            Some(e) => if e.produce.len() > 0 {
                e.produce[0].as_str()
            } else {
                "p0"
            },
            None => "p0",
        };
        self.bind(token.to_owned(), handle);
        self.emit(id, EventKind::Handle, "MOJO_RESULT_OK", Some(token));
        Ok(Progress::Done)
    }

    /// Finish `platform_handle_unwrap` with the content of the descriptor.
    pub fn finish_unwrap(&mut self, id: u64, token: &str, handle: Handle, content: &[u8])
        requires
            old(self)@.session.wf(),
        ensures
            final(self)@.session.wf(),
            final(self)@ == old(self)@.unwrapped(id, token@, handle, content@),
    {
        let mut e = new_event(id, EventKind::Handle, "MOJO_RESULT_OK", Some(token));
        e.payload_hex = Some(digest_text(content));
        self.post(e);
        self.close_one(handle);
    }

    /// Finish `wait` with its result.
    pub fn finish_wait(
        &mut self,
        id: u64,
        token: &str,
        dispatcher: DispatcherRef,
        result: Result<(), CoreError>,
    )
        requires
            old(self)@.session.wf(),
        ensures
            final(self)@.session.wf(),
            final(self)@ == old(self)@.waited(id, token@, dispatcher, result),
    {
        let state = self.session.objects.query_signals(dispatcher);
        let name = match result {
            Ok(_) => "MOJO_RESULT_OK",
            Err(e) => e.name(),
        };
        let mut e = new_event(id, EventKind::Result, name, Some(token));
        e.signals = Some(signal_state_of(state));
        self.post(e);
    }
}

/// The message of a failed operation.
pub fn op_error_text(id: u64, op: &str, message: &str) -> (r: String)
    ensures
        r@ == ("op "@ + decimal(id as nat)) + (((" ("@ + op@) + "): "@) + message@),
{
    let head = labelled("op ", id);
    let name = joined(" (", op);
    let open = joined(name.as_str(), "): ");
    let tail = joined(open.as_str(), message);
    joined(head.as_str(), tail.as_str())
}

/// Every event that an operation emits carries the next sequence number: the
/// numbers of the events are their positions, counted from 1.
pub proof fn law_events_are_numbered(h: HarnessView, e: EventView)
    requires
        h.seq == h.events.len(),
        h.seq < u64::MAX,
        forall|i: int| 0 <= i < h.events.len() ==> (#[trigger] h.events[i]).seq == i + 1,
    ensures
        ({
            let after = h.posted(e);
            &&& after.seq == after.events.len()
            &&& forall|i: int|
                0 <= i < after.events.len() ==> (#[trigger] after.events[i]).seq == i + 1
        }),
{
}

/// A signal state read from its names is what was written into them, for the
/// signals that have names.
pub proof fn law_signal_names_round_trip(s: Signals)
    requires
        s.0 & 63 == s.0,
    ensures
        signals_named(names_of(s)) == Ok::<Signals, Failure>(s),
{
    let x = s.0;
    let c1 = name_if(s, Signals(1), "READABLE"@);
    let c2 = c1 + name_if(s, Signals(2), "WRITABLE"@);
    let c3 = c2 + name_if(s, Signals(4), "PEER_CLOSED"@);
    let c4 = c3 + name_if(s, Signals(8), "NEW_DATA_READABLE"@);
    let c5 = c4 + name_if(s, Signals(16), "PEER_REMOTE"@);
    lemma_literals();
    lemma_names_step(Seq::empty(), s, Signals(1), "READABLE"@, Signals(0));
    assert(Seq::<Seq<char>>::empty() + c1 =~= c1);
    let s1 = step_set(s, Signals(1), Signals(0));
    lemma_names_step(c1, s, Signals(2), "WRITABLE"@, s1);
    let s2 = step_set(s, Signals(2), s1);
    lemma_names_step(c2, s, Signals(4), "PEER_CLOSED"@, s2);
    let s3 = step_set(s, Signals(4), s2);
    lemma_names_step(c3, s, Signals(8), "NEW_DATA_READABLE"@, s3);
    let s4 = step_set(s, Signals(8), s3);
    lemma_names_step(c4, s, Signals(16), "PEER_REMOTE"@, s4);
    let s5 = step_set(s, Signals(16), s4);
    lemma_names_step(c5, s, Signals(32), "QUOTA_EXCEEDED"@, s5);
    let s6 = step_set(s, Signals(32), s5);
    lemma_bits_together(x);
    assert(s6.0 == x);
}

spec fn step_set(s: Signals, signal: Signals, so_far: Signals) -> Signals {
    if s.has(signal) {
        so_far.with(signal)
    } else {
        so_far
    }
}

proof fn lemma_names_step(
    names: Seq<Seq<char>>,
    s: Signals,
    signal: Signals,
    name: Seq<char>,
    so_far: Signals,
)
    requires
        signals_named(names) == Ok::<Signals, Failure>(so_far),
        signal_named(name) == Some(signal),
    ensures
        signals_named(names + name_if(s, signal, name)) == Ok::<Signals, Failure>(
            step_set(s, signal, so_far),
        ),
{
    let all = names + name_if(s, signal, name);
    if s.has(signal) {
        assert(all.drop_last() =~= names);
        assert(all.last() == name);
    } else {
        assert(all =~= names);
    }
}

proof fn lemma_literals()
    ensures
        signal_named("READABLE"@) == Some(Signals(1)),
        signal_named("WRITABLE"@) == Some(Signals(2)),
        signal_named("PEER_CLOSED"@) == Some(Signals(4)),
        signal_named("NEW_DATA_READABLE"@) == Some(Signals(8)),
        signal_named("PEER_REMOTE"@) == Some(Signals(16)),
        signal_named("QUOTA_EXCEEDED"@) == Some(Signals(32)),
{
    reveal_strlit("READABLE");
    reveal_strlit("WRITABLE");
    reveal_strlit("PEER_CLOSED");
    reveal_strlit("NEW_DATA_READABLE");
    reveal_strlit("PEER_REMOTE");
    reveal_strlit("QUOTA_EXCEEDED");
    assert("READABLE"@[0] == 'R');
    assert("WRITABLE"@[0] == 'W');
    assert("PEER_CLOSED"@.len() == 11);
    assert("PEER_REMOTE"@.len() == 11);
    assert("PEER_CLOSED"@[5] == 'C');
    assert("PEER_REMOTE"@[5] == 'R');
    assert("NEW_DATA_READABLE"@.len() == 17);
    assert("QUOTA_EXCEEDED"@.len() == 14);
}

proof fn lemma_bits_together(x: u32)
    requires
        x & 63 == x,
    ensures
        ({
            let b1 = if x & 1 == 1 { 0u32 | 1 } else { 0u32 };
            let b2 = if x & 2 == 2 { b1 | 2 } else { b1 };
            let b3 = if x & 4 == 4 { b2 | 4 } else { b2 };
            let b4 = if x & 8 == 8 { b3 | 8 } else { b3 };
            let b5 = if x & 16 == 16 { b4 | 16 } else { b4 };
            let b6 = if x & 32 == 32 { b5 | 32 } else { b5 };
            b6 == x
        }),
{
    assert({
        let b1 = if x & 1 == 1 { 0u32 | 1 } else { 0u32 };
        let b2 = if x & 2 == 2 { b1 | 2 } else { b1 };
        let b3 = if x & 4 == 4 { b2 | 4 } else { b2 };
        let b4 = if x & 8 == 8 { b3 | 8 } else { b3 };
        let b5 = if x & 16 == 16 { b4 | 16 } else { b4 };
        let b6 = if x & 32 == 32 { b5 | 32 } else { b5 };
        b6 == x
    }) by (bit_vector)
        requires
            x & 63 == x,
    ;
}

} // verus!
