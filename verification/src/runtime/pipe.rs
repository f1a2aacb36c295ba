//! Message pipes: the in-process message-passing state machine.
//!
//! * Two endpoints share one pipe; each endpoint has a FIFO queue.
//! * Writes enqueue on the peer endpoint; ordering is FIFO per direction.
//! * Signals: READABLE (queue non-empty), WRITABLE (peer open), PEER_CLOSED
//!   (peer closed).
//! * Local close is irreversible; the peer observes PEER_CLOSED.
//! * Watchers are notified on state changes, after the operation.

use std::collections::VecDeque;
use vstd::prelude::*;

use crate::runtime::dispatcher::{Dispatcher, DispatcherType};
use crate::runtime::error::CoreError;
use crate::runtime::handle::Handle;
use crate::runtime::message::Message;
#[allow(unused_imports)]
use crate::runtime::message::MessageView;
use crate::runtime::signal::{Signals, SignalsState};
use crate::runtime::watch::{
    cancel_all, cancel_one, post_fired, Notification, WatchId, WatchTarget, Watcher,
};
#[allow(unused_imports)]
use crate::runtime::watch::{
    alike, all_cancelled, cancellations, distinct_ids, fired, law_cancelled_never_fires,
    lemma_alike_cancelled, lemma_alike_report, lemma_all_cancelled, lemma_cancel_keeps_ids,
    lemma_cancelled_is_alike, lemma_silent, none_of, of_others, one_cancelled, silenced,
};

verus! {

/// One end of a message pipe pair.
#[derive(Debug, Clone, Copy, PartialEq, Eq, Structural)]
pub enum End {
    /// Endpoint A.
    A,
    /// Endpoint B.
    B,
}

impl End {
    /// The other end.
    pub open spec fn spec_peer(self) -> End {
        match self {
            End::A => End::B,
            End::B => End::A,
        }
    }

    /// The other end.
    pub fn peer(self) -> (r: End)
        ensures
            r == self.spec_peer(),
    {
        match self {
            End::A => End::B,
            End::B => End::A,
        }
    }
}

/// The state of one endpoint.
#[derive(Debug)]
pub struct EndpointState {
    /// Whether this endpoint was closed.
    pub local_closed: bool,
    /// Whether the other endpoint was closed.
    pub peer_closed: bool,
    /// The messages to be read here.
    pub queue: VecDeque<Message>,
    /// The watches on this endpoint.
    pub watchers: Vec<Watcher>,
}

/// What an endpoint holds.
#[verifier::ext_equal]
pub struct EndpointView {
    /// Whether this endpoint was closed.
    pub local_closed: bool,
    /// Whether the other endpoint was closed.
    pub peer_closed: bool,
    /// The messages to be read here.
    pub queue: Seq<MessageView>,
    /// The watches on this endpoint.
    pub watchers: Seq<Watcher>,
}

impl View for EndpointState {
    type V = EndpointView;

    open spec fn view(&self) -> EndpointView {
        EndpointView {
            local_closed: self.local_closed,
            peer_closed: self.peer_closed,
            queue: self.queue@.map_values(|m: Message| m@),
            watchers: self.watchers@,
        }
    }
}

/// The endpoint that is open, with an open peer, and has seen nothing.
pub open spec fn fresh_endpoint() -> EndpointView {
    EndpointView {
        local_closed: false,
        peer_closed: false,
        queue: Seq::empty(),
        watchers: Seq::empty(),
    }
}

impl EndpointView {
    /// The signals satisfied at this endpoint.
    pub open spec fn satisfied(self) -> Signals {
        if self.local_closed {
            Signals::none()
        } else {
            (if self.peer_closed {
                Signals::peer_closed()
            } else {
                Signals::writable()
            }).with(
                if self.queue.len() > 0 {
                    Signals::readable()
                } else {
                    Signals::none()
                },
            )
        }
    }

    /// The signals that can be satisfied at this endpoint: PEER_CLOSED and
    /// QUOTA_EXCEEDED always; WRITABLE and PEER_REMOTE while the peer is open;
    /// READABLE until the peer is closed and the queue empty.
    pub open spec fn satisfiable(self) -> Signals {
        if self.local_closed {
            Signals::none()
        } else {
            let base = Signals::peer_closed().with(Signals::quota_exceeded());
            let open = if self.peer_closed {
                base
            } else {
                base.with(Signals::writable()).with(Signals::peer_remote())
            };
            if self.peer_closed && self.queue.len() == 0 {
                open
            } else {
                open.with(Signals::readable())
            }
        }
    }

    /// The signal state of this endpoint.
    pub open spec fn signals(self) -> SignalsState {
        SignalsState { satisfied: self.satisfied(), satisfiable: self.satisfiable() }
    }

    /// The endpoint with one more message.
    pub open spec fn queued(self, m: MessageView) -> EndpointView {
        EndpointView { queue: self.queue.push(m), ..self }
    }

    /// The endpoint without its first message.
    pub open spec fn dequeued(self) -> EndpointView {
        EndpointView { queue: self.queue.drop_first(), ..self }
    }
}

/// Both endpoints of a message pipe.
#[derive(Debug)]
pub struct MessagePipe {
    /// Endpoint A.
    pub a: EndpointState,
    /// Endpoint B.
    pub b: EndpointState,
    /// The id of the next watch.
    pub next_watch: u64,
    /// The notifications that wait to be handed on.
    pub outbox: Vec<Notification>,
}

/// What a message pipe holds.
#[verifier::ext_equal]
pub struct PipeView {
    /// Endpoint A.
    pub a: EndpointView,
    /// Endpoint B.
    pub b: EndpointView,
    /// The id of the next watch.
    pub next_watch: u64,
    /// The notifications that wait to be handed on.
    pub outbox: Seq<Notification>,
}

impl View for MessagePipe {
    type V = PipeView;

    open spec fn view(&self) -> PipeView {
        PipeView {
            a: self.a@,
            b: self.b@,
            next_watch: self.next_watch,
            outbox: self.outbox@,
        }
    }
}

/// What a read comes to.
pub enum ReadResult {
    /// It fails.
    Failed(CoreError),
    /// The next message is larger than the reader takes.
    TooLarge(int),
    /// It takes the next message.
    Message(MessageView),
}

/// What reading from an endpoint comes to: the next message, unless it is
/// larger than `max` and must not be cut.
pub open spec fn read_result(ep: EndpointView, max: Option<usize>, may_discard: bool) -> ReadResult {
    if ep.local_closed {
        ReadResult::Failed(CoreError::InvalidArgument)
    } else if ep.queue.len() == 0 {
        ReadResult::Failed(
            if ep.peer_closed {
                CoreError::FailedPrecondition
            } else {
                CoreError::ShouldWait
            },
        )
    } else {
        let m = ep.queue[0];
        if max is Some && m.data.len() > max.unwrap() && !may_discard {
            ReadResult::TooLarge(m.data.len() as int)
        } else {
            ReadResult::Message(m)
        }
    }
}

impl PipeView {
    /// The endpoint at an end.
    pub open spec fn at(self, end: End) -> EndpointView {
        match end {
            End::A => self.a,
            End::B => self.b,
        }
    }

    /// The pipe with another endpoint at an end.
    pub open spec fn put(self, end: End, ep: EndpointView) -> PipeView {
        match end {
            End::A => PipeView { a: ep, ..self },
            End::B => PipeView { b: ep, ..self },
        }
    }

    /// The pipe with more notifications to hand on.
    pub open spec fn posting(self, n: Seq<Notification>) -> PipeView {
        PipeView { outbox: self.outbox + n, ..self }
    }

    /// Why a write from an end is refused, if it is.
    pub open spec fn write_error(self, end: End) -> Option<CoreError> {
        if self.at(end).local_closed {
            Some(CoreError::InvalidArgument)
        } else if self.at(end).peer_closed {
            Some(CoreError::FailedPrecondition)
        } else {
            None
        }
    }

    /// The pipe after a message was written from an end: it is queued at the
    /// peer, whose watchers are told.
    pub open spec fn written(self, end: End, m: MessageView) -> PipeView {
        let ep = self.at(end.spec_peer()).queued(m);
        self.put(end.spec_peer(), ep).posting(fired(ep.watchers, ep.signals()))
    }

    /// The pipe after the next message was read at an end, whose watchers are
    /// told.
    pub open spec fn taken(self, end: End) -> PipeView {
        let ep = self.at(end).dequeued();
        self.put(end, ep).posting(fired(ep.watchers, ep.signals()))
    }

    /// The pipe after an end was closed: its watchers are cancelled, and those
    /// of the peer are told. Closing again changes nothing.
    pub open spec fn closed(self, end: End) -> PipeView {
        let ep = self.at(end);
        if ep.local_closed {
            self
        } else {
            let here = EndpointView {
                local_closed: true,
                watchers: all_cancelled(ep.watchers),
                ..ep
            };
            let there = EndpointView { peer_closed: true, ..self.at(end.spec_peer()) };
            self.put(end, here).put(end.spec_peer(), there).posting(
                cancellations(ep.watchers) + fired(there.watchers, there.signals()),
            )
        }
    }

    /// The pipe after a watch was registered at an end; at a closed one the
    /// watch is dropped.
    pub open spec fn watching(self, end: End, signals: Signals, target: WatchTarget) -> PipeView {
        let ep = self.at(end);
        let w = Watcher { id: WatchId(self.next_watch), signals, target, cancelled: false };
        let next = PipeView {
            next_watch: crate::bytes::next_number(self.next_watch),
            ..self
        };
        if ep.local_closed {
            next
        } else {
            next.put(end, EndpointView { watchers: ep.watchers.push(w), ..ep })
        }
    }

    /// The pipe after the watch with this id was cancelled at an end.
    pub open spec fn unwatching(self, end: End, id: WatchId) -> PipeView {
        let ep = self.at(end);
        self.put(end, EndpointView { watchers: one_cancelled(ep.watchers, id), ..ep })
    }
}

/// A pipe of two fresh endpoints.
pub open spec fn fresh_pipe() -> PipeView {
    PipeView {
        a: fresh_endpoint(),
        b: fresh_endpoint(),
        next_watch: 1,
        outbox: Seq::empty(),
    }
}

/// The outcome of a read.
#[derive(Debug)]
pub enum ReadOutcome {
    /// The message was consumed.
    Message {
        /// The payload bytes.
        data: Vec<u8>,
        /// Extracted handles (ownership transferred).
        handles: Vec<Handle>,
    },
    /// The message was too large for the reader and remains queued.
    TooLarge {
        /// The full payload size required.
        size: usize,
    },
}

/// A read's outcome as a [`ReadResult`].
pub open spec fn outcome_view(r: Result<ReadOutcome, CoreError>) -> ReadResult {
    match r {
        Ok(ReadOutcome::Message { data, handles }) => ReadResult::Message(
            MessageView { data: data@, handles: handles@ },
        ),
        Ok(ReadOutcome::TooLarge { size }) => ReadResult::TooLarge(size as int),
        Err(e) => ReadResult::Failed(e),
    }
}

impl EndpointState {
    /// An open endpoint with an open peer.
    pub fn new() -> (r: EndpointState)
        ensures
            r@ == fresh_endpoint(),
    {
        let r = EndpointState {
            local_closed: false,
            peer_closed: false,
            queue: VecDeque::new(),
            watchers: Vec::new(),
        };
        assert(r@.queue =~= Seq::empty());
        r
    }

    /// The signal state of this endpoint.
    pub fn signals(&self) -> (r: SignalsState)
        ensures
            r == self@.signals(),
    {
        if self.local_closed {
            return SignalsState::default();
        }
        let readable = self.queue.len() > 0;
        let base = Signals::peer_closed() | Signals::quota_exceeded();
        let satisfied = (if self.peer_closed {
            Signals::peer_closed()
        } else {
            Signals::writable()
        }) | (if readable {
            Signals::readable()
        } else {
            Signals::none()
        });
        let open = if self.peer_closed {
            base
        } else {
            base | Signals::writable() | Signals::peer_remote()
        };
        let satisfiable = if self.peer_closed && !readable {
            open
        } else {
            open | Signals::readable()
        };
        SignalsState { satisfied, satisfiable }
    }

    fn enqueue(&mut self, message: Message)
        ensures
            final(self)@ == old(self)@.queued(message@),
    {
        let ghost m = message;
        self.queue.push_back(message);
        assert(self@.queue =~= old(self)@.queue.push(m@));
    }

    fn dequeue(&mut self) -> (r: Message)
        requires
            old(self)@.queue.len() > 0,
        ensures
            r@ == old(self)@.queue[0],
            final(self)@ == old(self)@.dequeued(),
    {
        let r = self.queue.pop_front().unwrap();
        assert(self@.queue =~= old(self)@.queue.drop_first());
        r
    }
}

impl MessagePipe {
    /// Create a message pipe with both endpoints open.
    pub fn create() -> (r: MessagePipe)
        ensures
            r@ == fresh_pipe(),
    {
        MessagePipe {
            a: EndpointState::new(),
            b: EndpointState::new(),
            next_watch: 1,
            outbox: Vec::new(),
        }
    }

    /// Query the signal state of an endpoint.
    pub fn query_signals(&self, end: End) -> (r: SignalsState)
        ensures
            r == self@.at(end).signals(),
    {
        match end {
            End::A => self.a.signals(),
            End::B => self.b.signals(),
        }
    }

    fn notify(&mut self, end: End)
        ensures
            final(self)@ == old(self)@.posting(
                fired(old(self)@.at(end).watchers, old(self)@.at(end).signals()),
            ),
    {
        let state = self.query_signals(end);
        match end {
            End::A => post_fired(&self.a.watchers, state, &mut self.outbox),
            End::B => post_fired(&self.b.watchers, state, &mut self.outbox),
        }
    }

    /// Write a message from `end` to its peer. A refused message is handed
    /// back with the error.
    pub fn write(&mut self, end: End, message: Message) -> (r: Result<(), (CoreError, Message)>)
        ensures
            match old(self)@.write_error(end) {
                Some(e) => r is Err && r->Err_0.0 == e && r->Err_0.1@ == message@ && final(self)@
                    == old(self)@,
                None => r is Ok && final(self)@ == old(self)@.written(end, message@),
            },
    {
        let (local_closed, peer_closed) = match end {
            End::A => (self.a.local_closed, self.a.peer_closed),
            End::B => (self.b.local_closed, self.b.peer_closed),
        };
        if local_closed {
            return Err((CoreError::InvalidArgument, message));
        }
        if peer_closed {
            return Err((CoreError::FailedPrecondition, message));
        }
        match end {
            End::A => self.b.enqueue(message),
            End::B => self.a.enqueue(message),
        }
        self.notify(end.peer());
        Ok(())
    }

    /// Read a message from `end` (FIFO).
    ///
    /// If the next message's payload exceeds `max_num_bytes` and `may_discard`
    /// is false, the message is kept queued and its size reported. Otherwise
    /// the message is consumed.
    pub fn read(
        &mut self,
        end: End,
        max_num_bytes: Option<usize>,
        may_discard: bool,
    ) -> (r: Result<ReadOutcome, CoreError>)
        ensures
            outcome_view(r) == read_result(old(self)@.at(end), max_num_bytes, may_discard),
            final(self)@ == if read_result(
                old(self)@.at(end),
                max_num_bytes,
                may_discard,
            ) is Message {
                old(self)@.taken(end)
            } else {
                old(self)@
            },
    {
        let ghost before = self@;
        let (local_closed, peer_closed, count) = match end {
            End::A => (self.a.local_closed, self.a.peer_closed, self.a.queue.len()),
            End::B => (self.b.local_closed, self.b.peer_closed, self.b.queue.len()),
        };
        if local_closed {
            return Err(CoreError::InvalidArgument);
        }
        if count == 0 {
            if peer_closed {
                return Err(CoreError::FailedPrecondition);
            }
            return Err(CoreError::ShouldWait);
        }
        let data_len: usize = match end {
            End::A => self.a.queue[0].data.len(),
            End::B => self.b.queue[0].data.len(),
        };
        assert(data_len == before.at(end).queue[0].data.len());
        if let Some(max) = max_num_bytes {
            if data_len > max && !may_discard {
                return Ok(ReadOutcome::TooLarge { size: data_len });
            }
        }
        let message = match end {
            End::A => self.a.dequeue(),
            End::B => self.b.dequeue(),
        };
        let (data, handles) = message.into_parts();
        self.notify(end);
        Ok(ReadOutcome::Message { data, handles })
    }

    /// Close an endpoint locally. The peer observes PEER_CLOSED.
    pub fn close(&mut self, end: End)
        ensures
            final(self)@ == old(self)@.closed(end),
    {
        let ghost before = self@;
        let closed = match end {
            End::A => self.a.local_closed,
            End::B => self.b.local_closed,
        };
        if closed {
            return;
        }
        match end {
            End::A => {
                self.a.local_closed = true;
                cancel_all(&mut self.a.watchers, &mut self.outbox);
                self.b.peer_closed = true;
            },
            End::B => {
                self.b.local_closed = true;
                cancel_all(&mut self.b.watchers, &mut self.outbox);
                self.a.peer_closed = true;
            },
        }
        self.notify(end.peer());
        assert(self@.outbox =~= before.closed(end).outbox);
    }

    /// The number of queued messages on an endpoint (diagnostics).
    pub fn queued_count(&self, end: End) -> (r: usize)
        ensures
            r == self@.at(end).queue.len(),
    {
        match end {
            End::A => self.a.queue.len(),
            End::B => self.b.queue.len(),
        }
    }

    /// Register a watch at an endpoint. At a closed endpoint nothing is
    /// registered.
    pub fn register_watch(&mut self, end: End, signals: Signals, target: WatchTarget) -> (r: WatchId)
        ensures
            r == WatchId(old(self)@.next_watch),
            final(self)@ == old(self)@.watching(end, signals, target),
    {
        let id = WatchId::new(self.next_watch);
        self.next_watch = if self.next_watch == u64::MAX {
            0
        } else {
            self.next_watch + 1
        };
        let w = Watcher { id, signals, target, cancelled: false };
        match end {
            End::A => {
                if !self.a.local_closed {
                    self.a.watchers.push(w);
                }
            },
            End::B => {
                if !self.b.local_closed {
                    self.b.watchers.push(w);
                }
            },
        }
        id
    }

    /// Cancel a watch at an endpoint.
    pub fn cancel_registered_watch(&mut self, end: End, id: WatchId)
        ensures
            final(self)@ == old(self)@.unwatching(end, id),
    {
        match end {
            End::A => cancel_one(&mut self.a.watchers, id),
            End::B => cancel_one(&mut self.b.watchers, id),
        }
    }

    /// Take the notifications that wait to be handed on.
    pub fn take_notifications(&mut self) -> (r: Vec<Notification>)
        ensures
            r@ == old(self)@.outbox,
            final(self)@ == (PipeView { outbox: Seq::empty(), ..old(self)@ }),
    {
        let mut out: Vec<Notification> = Vec::new();
        out.append(&mut self.outbox);
        assert(out@ =~= old(self)@.outbox);
        assert(self.outbox@ =~= Seq::empty());
        out
    }
}

impl Dispatcher for MessagePipe {
    open spec fn kind(&self) -> DispatcherType {
        DispatcherType::MessagePipe
    }

    open spec fn duplicable(&self) -> bool {
        false
    }

    fn dispatcher_type(&self) -> (r: DispatcherType) {
        DispatcherType::MessagePipe
    }

    fn is_duplicable(&self) -> (r: bool) {
        false
    }
}

/// A single endpoint of a message pipe, by the number of the pipe: the object
/// behind a handle.
#[derive(Debug, Clone, Copy, PartialEq, Eq, Structural)]
pub struct MessagePipeDispatcher {
    /// The number of the pipe.
    pub pipe: usize,
    /// The end.
    pub end: End,
}

impl MessagePipeDispatcher {
    /// The pipe, among all pipes.
    pub fn pipe<'a>(&self, pipes: &'a Vec<MessagePipe>) -> (r: &'a MessagePipe)
        requires
            self.pipe < pipes@.len(),
        ensures
            *r == pipes@[self.pipe as int],
    {
        &pipes[self.pipe]
    }

    /// This dispatcher's endpoint.
    pub fn end(&self) -> (r: End)
        ensures
            r == self.end,
    {
        self.end
    }

    /// Close this endpoint (the peer observes PEER_CLOSED).
    pub fn close(&self, pipe: &mut MessagePipe)
        ensures
            final(pipe)@ == old(pipe)@.closed(self.end),
    {
        pipe.close(self.end);
    }
}

impl Dispatcher for MessagePipeDispatcher {
    open spec fn kind(&self) -> DispatcherType {
        DispatcherType::MessagePipe
    }

    open spec fn duplicable(&self) -> bool {
        false
    }

    fn dispatcher_type(&self) -> (r: DispatcherType) {
        DispatcherType::MessagePipe
    }

    fn is_duplicable(&self) -> (r: bool) {
        false
    }
}

proof fn lemma_signal_bits(a: bool, b: bool)
    ensures
        ({
            let open = 4u32 | 32 | 2 | 16;
            &&& (2u32 | 1) & 1 == 1 && (2u32 | 0) & 1 != 1 && (4u32 | 1) & 1 == 1 && (4u32 | 0) & 1
                != 1
            &&& (2u32 | 1) & 2 == 2 && (2u32 | 0) & 2 == 2 && (4u32 | 1) & 2 != 2 && (4u32 | 0) & 2
                != 2
            &&& (2u32 | 1) & 4 != 4 && (2u32 | 0) & 4 != 4 && (4u32 | 1) & 4 == 4 && (4u32 | 0) & 4
                == 4
            &&& (open | 1) & 1 == 1 && (open | 1) & 2 == 2 && (open | 1) & 4 == 4
            &&& (4u32 | 32) & 1 != 1 && (4u32 | 32) & 2 != 2 && (4u32 | 32) & 4 == 4
            &&& (4u32 | 32 | 1) & 1 == 1 && (4u32 | 32 | 1) & 2 != 2 && (4u32 | 32 | 1) & 4 == 4
            &&& 0u32 & 1 != 1 && 0u32 & 2 != 2 && 0u32 & 4 != 4
        }),
{
    assert({
        let open = 4u32 | 32 | 2 | 16;
        &&& (2u32 | 1) & 1 == 1 && (2u32 | 0) & 1 != 1 && (4u32 | 1) & 1 == 1 && (4u32 | 0) & 1 != 1
        &&& (2u32 | 1) & 2 == 2 && (2u32 | 0) & 2 == 2 && (4u32 | 1) & 2 != 2 && (4u32 | 0) & 2 != 2
        &&& (2u32 | 1) & 4 != 4 && (2u32 | 0) & 4 != 4 && (4u32 | 1) & 4 == 4 && (4u32 | 0) & 4 == 4
        &&& (open | 1) & 1 == 1 && (open | 1) & 2 == 2 && (open | 1) & 4 == 4
        &&& (4u32 | 32) & 1 != 1 && (4u32 | 32) & 2 != 2 && (4u32 | 32) & 4 == 4
        &&& (4u32 | 32 | 1) & 1 == 1 && (4u32 | 32 | 1) & 2 != 2 && (4u32 | 32 | 1) & 4 == 4
        &&& 0u32 & 1 != 1 && 0u32 & 2 != 2 && 0u32 & 4 != 4
    }) by (bit_vector);
}

/// What the signals of an open endpoint mean: READABLE is satisfied while
/// messages wait, WRITABLE while the peer is open, PEER_CLOSED once it is not;
/// READABLE stays satisfiable until the peer is closed and the queue empty,
/// WRITABLE while the peer is open, PEER_CLOSED always. A closed endpoint has
/// none.
pub proof fn law_endpoint_signals(ep: EndpointView)
    ensures
        ep.satisfied().has(Signals::readable()) == (!ep.local_closed && ep.queue.len() > 0),
        ep.satisfied().has(Signals::writable()) == (!ep.local_closed && !ep.peer_closed),
        ep.satisfied().has(Signals::peer_closed()) == (!ep.local_closed && ep.peer_closed),
        ep.satisfiable().has(Signals::readable()) == (!ep.local_closed && !(ep.peer_closed
            && ep.queue.len() == 0)),
        ep.satisfiable().has(Signals::writable()) == (!ep.local_closed && !ep.peer_closed),
        ep.satisfiable().has(Signals::peer_closed()) == !ep.local_closed,
{
    lemma_signal_bits(ep.peer_closed, ep.queue.len() > 0);
}

/// Messages come out at the peer in the order in which they were written: one
/// written message stands last in the peer's queue, and a read takes the first.
pub proof fn law_pipe_is_fifo(p: PipeView, end: End, m: MessageView)
    requires
        p.write_error(end) is None,
    ensures
        p.written(end, m).at(end.spec_peer()).queue == p.at(end.spec_peer()).queue.push(m),
        p.written(end, m).at(end) == p.at(end),
        p.at(end).queue.len() > 0 ==> p.at(end).queue == seq![p.at(end).queue[0]] + p.taken(end).at(
            end,
        ).queue,
{
    if p.at(end).queue.len() > 0 {
        assert(p.at(end).queue =~= seq![p.at(end).queue[0]] + p.at(end).queue.drop_first());
    }
}

/// A message written into an empty pipe is what the peer reads next, whole.
pub proof fn law_write_then_read(p: PipeView, end: End, m: MessageView)
    requires
        p.write_error(end) is None,
        p.at(end.spec_peer()).queue.len() == 0,
        !p.at(end.spec_peer()).local_closed,
    ensures
        read_result(p.written(end, m).at(end.spec_peer()), None, false) == ReadResult::Message(m),
        p.written(end, m).taken(end.spec_peer()).at(end.spec_peer()).queue == p.at(
            end.spec_peer(),
        ).queue,
{
    assert(p.written(end, m).at(end.spec_peer()).queue.drop_first() =~= Seq::empty());
}

/// Closing is irreversible and seen by the peer: whatever is done to the pipe
/// after an end was closed, that end stays closed, its peer sees it, and no
/// write of the peer succeeds.
pub proof fn law_close_is_seen(p: PipeView, end: End, other: End, m: MessageView)
    ensures
        p.closed(end).at(end).local_closed,
        !p.at(end).local_closed ==> p.closed(end).at(end.spec_peer()).peer_closed,
        !p.at(end).local_closed ==> p.closed(end).write_error(end.spec_peer()) is Some,
        p.closed(end).closed(end) == p.closed(end),
        p.at(end).local_closed ==> p.closed(other).at(end).local_closed && p.written(
            other,
            m,
        ).at(end).local_closed && p.taken(other).at(end).local_closed,
        p.at(end).peer_closed ==> p.closed(other).at(end).peer_closed && p.written(other, m).at(
            end,
        ).peer_closed && p.taken(other).at(end).peer_closed,
        p.closed(end).at(end.spec_peer()).queue == p.at(end.spec_peer()).queue,
{
}

/// Whether each watch of the pipe has an id of its own, given out before.
pub open spec fn watch_ids_ok(p: PipeView) -> bool {
    &&& distinct_ids(p.a.watchers)
    &&& distinct_ids(p.b.watchers)
    &&& forall|j: int| 0 <= j < p.a.watchers.len() ==> (#[trigger] p.a.watchers[j]).id.0
        < p.next_watch
    &&& forall|j: int| 0 <= j < p.b.watchers.len() ==> (#[trigger] p.b.watchers[j]).id.0
        < p.next_watch
    &&& forall|j: int, k: int|
        0 <= j < p.a.watchers.len() && 0 <= k < p.b.watchers.len() ==> (
        #[trigger] p.a.watchers[j]).id != (#[trigger] p.b.watchers[k]).id
}

/// Whether a watch is not registered, or is cancelled.
pub open spec fn watch_silent(p: PipeView, id: WatchId) -> bool {
    &&& silenced(p.a.watchers, id)
    &&& silenced(p.b.watchers, id)
}

/// Something that is done with a pipe.
pub enum PipeOp {
    /// A message is written from an end.
    Write(End, MessageView),
    /// The next message is read at an end, up to a size, cut or not.
    Read(End, Option<usize>, bool),
    /// An end is closed.
    Close(End),
    /// A watch is registered at an end.
    Watch(End, Signals, WatchTarget),
    /// A watch is cancelled at an end.
    Cancel(End, WatchId),
}

impl PipeView {
    /// The pipe after something is done with it; what is refused changes
    /// nothing.
    pub open spec fn after(self, op: PipeOp) -> PipeView {
        match op {
            PipeOp::Write(end, m) => if self.write_error(end) is None {
                self.written(end, m)
            } else {
                self
            },
            PipeOp::Read(end, max, cut) => if read_result(self.at(end), max, cut) is Message {
                self.taken(end)
            } else {
                self
            },
            PipeOp::Close(end) => self.closed(end),
            PipeOp::Watch(end, signals, target) => self.watching(end, signals, target),
            PipeOp::Cancel(end, id) => self.unwatching(end, id),
        }
    }

    /// The pipe after things are done with it, one after the other.
    pub open spec fn after_all(self, ops: Seq<PipeOp>) -> PipeView
        decreases ops.len(),
    {
        if ops.len() == 0 {
            self
        } else {
            self.after_all(ops.drop_last()).after(ops.last())
        }
    }

    /// Whether the id of a watch is given to another that is registered later.
    pub open spec fn reissued(self, ops: Seq<PipeOp>, id: WatchId) -> bool
        decreases ops.len(),
    {
        ops.len() > 0 && (self.reissued(ops.drop_last(), id) || (ops.last() is Watch
            && self.after_all(ops.drop_last()).next_watch == id.0))
    }
}

/// How many watches are registered.
pub open spec fn registrations(ops: Seq<PipeOp>) -> nat
    decreases ops.len(),
{
    if ops.len() == 0 {
        0
    } else {
        registrations(ops.drop_last()) + if ops.last() is Watch {
            1nat
        } else {
            0
        }
    }
}

/// A watch that is cancelled at its end is silent. One that is unknown at the
/// end, or cancelled already, is cancelled without any effect.
pub proof fn law_cancelled_watch_is_silent(p: PipeView, end: End, id: WatchId)
    requires
        watch_ids_ok(p),
        exists|j: int|
            0 <= j < p.at(end).watchers.len() && (#[trigger] p.at(end).watchers[j]).id == id,
    ensures
        watch_silent(p.unwatching(end, id), id),
        p.unwatching(end, id).outbox == p.outbox,
        silenced(p.at(end).watchers, id) ==> p.unwatching(end, id) == p,
{
    let ws = p.at(end).watchers;
    let j = choose|j: int| 0 <= j < ws.len() && (#[trigger] ws[j]).id == id;
    law_cancelled_never_fires(ws, id, p.at(end).signals());
    assert forall|k: int| 0 <= k < p.at(end.spec_peer()).watchers.len() implies (
    #[trigger] p.at(end.spec_peer()).watchers[k]).id != id by {
        assert(ws[j].id == id);
    }
    if silenced(ws, id) {
        assert(p.unwatching(end, id) =~= p);
    }
}

/// Cancelling a watch that is unknown at the end has no effect.
pub proof fn law_unknown_watch_is_ignored(p: PipeView, end: End, id: WatchId)
    requires
        watch_ids_ok(p),
        forall|j: int|
            0 <= j < p.at(end).watchers.len() ==> (#[trigger] p.at(end).watchers[j]).id != id,
    ensures
        p.unwatching(end, id) == p,
{
    law_cancelled_never_fires(p.at(end).watchers, id, p.at(end).signals());
    assert(p.unwatching(end, id) =~= p);
}

/// One step keeps a silent watch silent, and reports nothing of it.
proof fn lemma_step_is_silent(p: PipeView, op: PipeOp, id: WatchId)
    requires
        watch_silent(p, id),
        op is Watch ==> p.next_watch != id.0,
    ensures
        watch_silent(p.after(op), id),
        exists|n: Seq<Notification>|
            p.after(op).outbox == p.outbox + n && #[trigger] none_of(n, id),
{
    let t = p.after(op);
    let none = Seq::<Notification>::empty();
    assert(none_of(none, id));
    assert(p.outbox + none =~= p.outbox);
    match op {
        PipeOp::Write(end, m) => {
            let ep = p.at(end.spec_peer()).queued(m);
            lemma_silent(ep.watchers, id, ep.signals());
            if p.write_error(end) is None {
                assert(t.outbox == p.outbox + fired(ep.watchers, ep.signals()));
            }
        },
        PipeOp::Read(end, max, cut) => {
            let ep = p.at(end).dequeued();
            lemma_silent(ep.watchers, id, ep.signals());
            if read_result(p.at(end), max, cut) is Message {
                assert(t.outbox == p.outbox + fired(ep.watchers, ep.signals()));
            }
        },
        PipeOp::Close(end) => {
            let ep = p.at(end);
            let there = EndpointView { peer_closed: true, ..p.at(end.spec_peer()) };
            lemma_silent(ep.watchers, id, ep.signals());
            lemma_silent(there.watchers, id, there.signals());
            lemma_all_cancelled(ep.watchers);
            if !ep.local_closed {
                let n = cancellations(ep.watchers) + fired(there.watchers, there.signals());
                assert(t.outbox == p.outbox + n);
                assert(none_of(n, id));
            }
        },
        PipeOp::Watch(end, signals, target) => {
            assert(t.outbox == p.outbox + none);
        },
        PipeOp::Cancel(end, other) => {
            lemma_cancel_keeps_ids(p.at(end).watchers, other);
            assert(t.outbox == p.outbox + none);
        },
    }
}

/// A silent watch stays silent for good: whatever is written, read, closed,
/// watched and cancelled later, nothing that the pipe reports is of it, not
/// even a cancellation, as long as its id is not given to another watch.
pub proof fn law_silent_watch_never_reports(p: PipeView, id: WatchId, ops: Seq<PipeOp>)
    requires
        watch_silent(p, id),
        !p.reissued(ops, id),
    ensures
        watch_silent(p.after_all(ops), id),
        exists|n: Seq<Notification>|
            p.after_all(ops).outbox == p.outbox + n && #[trigger] none_of(n, id),
    decreases ops.len(),
{
    if ops.len() == 0 {
        let none = Seq::<Notification>::empty();
        assert(none_of(none, id));
        assert(p.outbox + none =~= p.outbox);
    } else {
        law_silent_watch_never_reports(p, id, ops.drop_last());
        let q = p.after_all(ops.drop_last());
        lemma_step_is_silent(q, ops.last(), id);
        let n1 = choose|n: Seq<Notification>|
            q.outbox == p.outbox + n && #[trigger] none_of(n, id);
        let n2 = choose|n: Seq<Notification>|
            q.after(ops.last()).outbox == q.outbox + n && #[trigger] none_of(n, id);
        assert(none_of(n1 + n2, id));
        assert(p.outbox + (n1 + n2) =~= (p.outbox + n1) + n2);
    }
}

/// The id of a watch is not given out again before all ids are used up.
pub proof fn law_ids_are_not_reissued(p: PipeView, id: WatchId, ops: Seq<PipeOp>)
    requires
        id.0 < p.next_watch,
        p.next_watch + registrations(ops) <= u64::MAX,
    ensures
        !p.reissued(ops, id),
        p.after_all(ops).next_watch == p.next_watch + registrations(ops),
    decreases ops.len(),
{
    if ops.len() > 0 {
        law_ids_are_not_reissued(p, id, ops.drop_last());
    }
}

/// A watch that is cancelled at its end never reports again, whatever is done
/// with the pipe later, as long as its id is not given to another watch.
pub proof fn law_cancelled_watch_never_reports(
    p: PipeView,
    end: End,
    id: WatchId,
    ops: Seq<PipeOp>,
)
    requires
        watch_ids_ok(p),
        exists|j: int|
            0 <= j < p.at(end).watchers.len() && (#[trigger] p.at(end).watchers[j]).id == id,
        !p.unwatching(end, id).reissued(ops, id),
    ensures
        exists|n: Seq<Notification>|
            p.unwatching(end, id).after_all(ops).outbox == p.outbox + n && #[trigger] none_of(
                n,
                id,
            ),
{
    law_cancelled_watch_is_silent(p, end, id);
    law_silent_watch_never_reports(p.unwatching(end, id), id, ops);
}

/// Whether pipes are the same but for one watch and what it reported.
pub open spec fn alike_pipes(p: PipeView, q: PipeView, id: WatchId) -> bool {
    &&& p.a == (EndpointView { watchers: p.a.watchers, ..q.a })
    &&& p.b == (EndpointView { watchers: p.b.watchers, ..q.b })
    &&& alike(p.a.watchers, q.a.watchers, id)
    &&& alike(p.b.watchers, q.b.watchers, id)
    &&& p.next_watch == q.next_watch
    &&& of_others(p.outbox, id) == of_others(q.outbox, id)
}

proof fn lemma_alike_posting(
    p: PipeView,
    q: PipeView,
    n: Seq<Notification>,
    m: Seq<Notification>,
    id: WatchId,
)
    requires
        alike_pipes(p, q, id),
        of_others(n, id) == of_others(m, id),
    ensures
        alike_pipes(p.posting(n), q.posting(m), id),
{
    let keep = |x: Notification| x.watch != id;
    Seq::filter_distributes_over_add(p.outbox, n, keep);
    Seq::filter_distributes_over_add(q.outbox, m, keep);
}

proof fn lemma_alike_step(p: PipeView, q: PipeView, op: PipeOp, id: WatchId)
    requires
        alike_pipes(p, q, id),
    ensures
        alike_pipes(p.after(op), q.after(op), id),
{
    match op {
        PipeOp::Write(end, m) => {
            let x = p.at(end.spec_peer()).queued(m);
            let y = q.at(end.spec_peer()).queued(m);
            lemma_alike_report(x.watchers, y.watchers, id, x.signals());
            lemma_alike_posting(
                p.put(end.spec_peer(), x),
                q.put(end.spec_peer(), y),
                fired(x.watchers, x.signals()),
                fired(y.watchers, y.signals()),
                id,
            );
        },
        PipeOp::Read(end, max, cut) => {
            let x = p.at(end).dequeued();
            let y = q.at(end).dequeued();
            lemma_alike_report(x.watchers, y.watchers, id, x.signals());
            lemma_alike_posting(
                p.put(end, x),
                q.put(end, y),
                fired(x.watchers, x.signals()),
                fired(y.watchers, y.signals()),
                id,
            );
        },
        PipeOp::Close(end) => {
            let keep = |x: Notification| x.watch != id;
            let x = p.at(end);
            let y = q.at(end);
            let c = cancellations(x.watchers);
            let d = cancellations(y.watchers);
            let there = EndpointView { peer_closed: true, ..p.at(end.spec_peer()) };
            let far = EndpointView { peer_closed: true, ..q.at(end.spec_peer()) };
            let n = fired(there.watchers, there.signals());
            let m = fired(far.watchers, far.signals());
            lemma_alike_report(x.watchers, y.watchers, id, there.signals());
            lemma_alike_report(there.watchers, far.watchers, id, there.signals());
            Seq::filter_distributes_over_add(c, n, keep);
            Seq::filter_distributes_over_add(d, m, keep);
            let here = EndpointView {
                local_closed: true,
                watchers: all_cancelled(x.watchers),
                ..x
            };
            let near = EndpointView {
                local_closed: true,
                watchers: all_cancelled(y.watchers),
                ..y
            };
            lemma_alike_posting(
                p.put(end, here).put(end.spec_peer(), there),
                q.put(end, near).put(end.spec_peer(), far),
                c + n,
                d + m,
                id,
            );
        },
        PipeOp::Watch(end, signals, target) => {},
        PipeOp::Cancel(end, other) => {
            lemma_alike_cancelled(p.at(end).watchers, q.at(end).watchers, id, other);
        },
    }
}

proof fn lemma_alike_all(p: PipeView, q: PipeView, ops: Seq<PipeOp>, id: WatchId)
    requires
        alike_pipes(p, q, id),
    ensures
        alike_pipes(p.after_all(ops), q.after_all(ops), id),
    decreases ops.len(),
{
    if ops.len() > 0 {
        lemma_alike_all(p, q, ops.drop_last(), id);
        lemma_alike_step(
            p.after_all(ops.drop_last()),
            q.after_all(ops.drop_last()),
            ops.last(),
            id,
        );
    }
}

/// The other watches report as they would have without the cancellation,
/// whatever is done with the pipe later.
pub proof fn law_other_watches_report_as_before(
    p: PipeView,
    end: End,
    id: WatchId,
    ops: Seq<PipeOp>,
)
    ensures
        of_others(p.unwatching(end, id).after_all(ops).outbox, id) == of_others(
            p.after_all(ops).outbox,
            id,
        ),
{
    lemma_cancelled_is_alike(p.at(end).watchers, id);
    lemma_alike_all(p.unwatching(end, id), p, ops, id);
}

/// The ids of a fresh pipe are in order, and every step keeps them so until all
/// ids are used up.
pub proof fn law_watch_ids_stay_distinct(p: PipeView, op: PipeOp)
    requires
        p == fresh_pipe() || watch_ids_ok(p),
        op is Watch ==> p.next_watch < u64::MAX,
    ensures
        watch_ids_ok(p),
        watch_ids_ok(p.after(op)),
{
    match op {
        PipeOp::Close(end) => {
            lemma_all_cancelled(p.at(end).watchers);
        },
        PipeOp::Cancel(end, other) => {
            lemma_cancel_keeps_ids(p.at(end).watchers, other);
        },
        _ => {},
    }
}

/// What a read comes to. At a closed end it is invalid; with nothing queued it
/// has to wait, or fails for good once the peer is closed. Otherwise it takes
/// the first message, whole, if that fits or may be cut short, and else only
/// says how large it is.
pub proof fn law_read_result(ep: EndpointView, max: Option<usize>, may_discard: bool)
    ensures
        ({
            let r = read_result(ep, max, may_discard);
            let first = ep.queue[0];
            let fits = max is None || first.data.len() <= max->0 || may_discard;
            &&& ep.local_closed ==> r == ReadResult::Failed(CoreError::InvalidArgument)
            &&& !ep.local_closed && ep.queue.len() == 0 && ep.peer_closed ==> r
                == ReadResult::Failed(CoreError::FailedPrecondition)
            &&& !ep.local_closed && ep.queue.len() == 0 && !ep.peer_closed ==> r
                == ReadResult::Failed(CoreError::ShouldWait)
            &&& !ep.local_closed && ep.queue.len() > 0 && fits ==> r == ReadResult::Message(first)
            &&& !ep.local_closed && ep.queue.len() > 0 && !fits ==> r == ReadResult::TooLarge(
                first.data.len() as int,
            )
        }),
{
}

/// A write is refused exactly at a closed end, as invalid, and to a closed
/// peer, for good.
pub proof fn law_write_refused(p: PipeView, end: End)
    ensures
        p.at(end).local_closed ==> p.write_error(end) == Some(CoreError::InvalidArgument),
        !p.at(end).local_closed && p.at(end).peer_closed ==> p.write_error(end) == Some(
            CoreError::FailedPrecondition,
        ),
        !p.at(end).local_closed && !p.at(end).peer_closed ==> p.write_error(end) is None,
{
}

/// Whoever watches an end is told when its state changes: the peer of a write,
/// the end of a read, the peer of a close; and the watchers of a closed end are
/// told that they are cancelled. What was to be handed on comes first.
pub proof fn law_pipe_moves_are_told(p: PipeView, end: End, m: MessageView)
    ensures
        ({
            let w = p.written(end, m);
            let peer = end.spec_peer();
            &&& w.outbox == p.outbox + fired(p.at(peer).watchers, w.at(peer).signals())
            &&& w.at(peer).watchers == p.at(peer).watchers
        }),
        ({
            let t = p.taken(end);
            &&& t.outbox == p.outbox + fired(p.at(end).watchers, t.at(end).signals())
            &&& t.at(end).watchers == p.at(end).watchers
            &&& t.at(end.spec_peer()) == p.at(end.spec_peer())
        }),
        ({
            let c = p.closed(end);
            let peer = end.spec_peer();
            !p.at(end).local_closed ==> {
                &&& c.outbox == p.outbox + (cancellations(p.at(end).watchers) + fired(
                    p.at(peer).watchers,
                    c.at(peer).signals(),
                ))
                &&& c.at(end).watchers == all_cancelled(p.at(end).watchers)
                &&& c.at(peer).watchers == p.at(peer).watchers
            }
        }),
{
}

/// A watch that is registered at an open end stands behind the others there,
/// with its signals and its target; at a closed end it is dropped. Its number
/// is not given out again.
pub proof fn law_watch_is_registered(p: PipeView, end: End, signals: Signals, target: WatchTarget)
    requires
        p.next_watch < u64::MAX,
    ensures
        ({
            let q = p.watching(end, signals, target);
            let ws = q.at(end).watchers;
            &&& q.next_watch == p.next_watch + 1
            &&& q.outbox == p.outbox
            &&& q.at(end.spec_peer()) == p.at(end.spec_peer())
            &&& q.at(end).queue == p.at(end).queue
            &&& p.at(end).local_closed ==> q.at(end) == p.at(end)
            &&& !p.at(end).local_closed ==> {
                &&& ws.len() == p.at(end).watchers.len() + 1
                &&& ws.drop_last() == p.at(end).watchers
                &&& ws.last().id == WatchId(p.next_watch)
                &&& ws.last().signals == signals
                &&& ws.last().target == target
                &&& !ws.last().cancelled
            }
        }),
{
    let q = p.watching(end, signals, target);
    if !p.at(end).local_closed {
        assert(q.at(end).watchers.drop_last() =~= p.at(end).watchers);
    }
}

} // verus!
