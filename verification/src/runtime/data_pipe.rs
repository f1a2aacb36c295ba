//! Data pipes: producer and consumer endpoints over a shared ring buffer.
//!
//! A pair shares one region plus a queue of control messages per direction. A
//! control message is a byte count: the producer sends the count of bytes it
//! wrote (the consumer extends its readable range when it flushes), and the
//! consumer sends the count of bytes it consumed (the producer gives up that
//! much of its range when it flushes). Messages with a zero count are not sent,
//! so that the presence of a pending message implies new data or new capacity.
//!
//! Signals:
//! * PEER_CLOSED is always satisfiable; PEER_REMOTE while the peer is open.
//! * Consumer: READABLE and NEW_DATA_READABLE are satisfied when new data
//!   arrived, READABLE also while data is buffered; both stay satisfiable
//!   while the peer is open.
//! * Producer: WRITABLE is satisfied when there is room or a pending message
//!   says so, and is satisfiable while the peer is open.

use std::collections::VecDeque;
use vstd::prelude::*;
use vstd::slice::slice_subrange;

#[allow(unused_imports)]
use crate::bytes::next_number;
use crate::runtime::dispatcher::{Dispatcher, DispatcherType};
use crate::runtime::error::CoreError;
use crate::runtime::ring_buffer::{Range, RingBuffer, Span};
#[allow(unused_imports)]
use crate::runtime::ring_buffer::{law_append, lesser, range_bytes, wrapped_at, RingView};
use crate::runtime::signal::{Signals, SignalsState};
use crate::runtime::watch::{
    cancel_all, cancel_one, post_fired, Notification, WatchId, WatchTarget, Watcher,
};
#[allow(unused_imports)]
use crate::runtime::watch::{
    all_cancelled, cancellations, distinct_ids, fired, law_cancelled_never_fires,
    lemma_all_cancelled, lemma_cancel_keeps_ids, lemma_silent, none_of, one_cancelled, silenced,
};

verus! {

/// Which endpoint of a data pipe pair.
#[derive(Debug, Clone, Copy, PartialEq, Eq, Structural)]
pub enum DataPipeEnd {
    /// The producer endpoint (writes data).
    Producer,
    /// The consumer endpoint (reads data).
    Consumer,
}

/// Flags for one-phase reads.
#[derive(Debug, Clone, Copy, PartialEq, Eq, Structural)]
pub struct ReadFlags {
    /// Require that all requested bytes can be read. Ignored when `query` is
    /// set.
    pub all_or_none: bool,
    /// Query the number of bytes available without reading. May not be
    /// combined with `discard` or `peek`.
    pub query: bool,
    /// Discard read data rather than copying. May not be combined with `query`
    /// or `peek`.
    pub discard: bool,
    /// Read data without removing it. May not be combined with `query` or
    /// `discard`.
    pub peek: bool,
}

impl Default for ReadFlags {
    fn default() -> (r: ReadFlags)
        ensures
            r == (ReadFlags { all_or_none: false, query: false, discard: false, peek: false }),
    {
        ReadFlags { all_or_none: false, query: false, discard: false, peek: false }
    }
}

/// The outcome of a one-phase read.
#[derive(Debug, PartialEq, Eq)]
pub struct ReadOutcome {
    /// The number of bytes read, peeked or discarded, or the available size
    /// for a query.
    pub num_bytes: u32,
    /// The bytes read (or peeked). Empty for query and discard.
    pub data: Vec<u8>,
}

/// What a one-phase read returns.
pub type ReadView = Result<(u32, Seq<u8>), CoreError>;

/// The view of what a one-phase read returns.
pub open spec fn read_view(r: Result<ReadOutcome, CoreError>) -> ReadView {
    match r {
        Ok(o) => Ok((o.num_bytes, o.data@)),
        Err(e) => Err(e),
    }
}

/// One endpoint's state.
#[derive(Debug)]
pub struct DataEndpoint {
    /// Whether this endpoint was closed.
    pub local_closed: bool,
    /// Whether the other endpoint was closed.
    pub peer_closed: bool,
    /// Pending control messages from the peer. Each value is a byte count.
    pub control: VecDeque<u32>,
    /// The span of an active two-phase write (producer) or read (consumer).
    pub two_phase: Option<Span>,
    /// New data arrived since the last read attempt (consumer only).
    pub has_new_data: bool,
    /// The watches on this endpoint.
    pub watchers: Vec<Watcher>,
}

/// What a data pipe endpoint holds.
#[verifier::ext_equal]
pub struct DataEndView {
    /// Whether this endpoint was closed.
    pub local_closed: bool,
    /// Whether the other endpoint was closed.
    pub peer_closed: bool,
    /// Pending control messages from the peer.
    pub control: Seq<u32>,
    /// The span of an active two-phase operation.
    pub two_phase: Option<Span>,
    /// New data arrived since the last read attempt.
    pub has_new_data: bool,
    /// The watches on this endpoint.
    pub watchers: Seq<Watcher>,
}

impl View for DataEndpoint {
    type V = DataEndView;

    open spec fn view(&self) -> DataEndView {
        DataEndView {
            local_closed: self.local_closed,
            peer_closed: self.peer_closed,
            control: self.control@,
            two_phase: self.two_phase,
            has_new_data: self.has_new_data,
            watchers: self.watchers@,
        }
    }
}

/// The sum of the byte counts.
pub open spec fn total(counts: Seq<u32>) -> nat
    decreases counts.len(),
{
    if counts.len() == 0 {
        0
    } else {
        counts[0] as nat + total(counts.drop_first())
    }
}

proof fn lemma_total_push(counts: Seq<u32>, n: u32)
    ensures
        total(counts.push(n)) == total(counts) + n,
    decreases counts.len(),
{
    let all = counts.push(n);
    reveal_with_fuel(total, 2);
    if counts.len() == 0 {
        assert(all.drop_first() =~= Seq::empty());
    } else {
        assert(all.drop_first() =~= counts.drop_first().push(n));
        lemma_total_push(counts.drop_first(), n);
    }
}

/// A data pipe pair: one region with the producer's and the consumer's range
/// of it, and the two endpoints.
#[derive(Debug)]
pub struct DataPipe {
    /// The region, with the producer's range.
    pub ring: RingBuffer,
    /// The consumer's range of the region.
    pub consumer_range: Range,
    /// The size of an element in bytes.
    pub element_size: u32,
    /// The producer endpoint.
    pub producer: DataEndpoint,
    /// The consumer endpoint.
    pub consumer: DataEndpoint,
    /// The id of the next watch.
    pub next_watch: u64,
    /// The notifications that wait to be handed on.
    pub outbox: Vec<Notification>,
}

/// What a data pipe pair holds.
#[verifier::ext_equal]
pub struct DataPipeView {
    /// The region, with the producer's range.
    pub ring: RingView,
    /// The consumer's range of the region.
    pub consumer_range: Range,
    /// The size of an element in bytes.
    pub element_size: u32,
    /// The producer endpoint.
    pub producer: DataEndView,
    /// The consumer endpoint.
    pub consumer: DataEndView,
    /// The id of the next watch.
    pub next_watch: u64,
    /// The notifications that wait to be handed on.
    pub outbox: Seq<Notification>,
}

impl View for DataPipe {
    type V = DataPipeView;

    open spec fn view(&self) -> DataPipeView {
        DataPipeView {
            ring: self.ring@,
            consumer_range: self.consumer_range,
            element_size: self.element_size,
            producer: self.producer@,
            consumer: self.consumer@,
            next_watch: self.next_watch,
            outbox: self.outbox@,
        }
    }
}

/// The endpoint that is open, with an open peer, and has seen nothing.
pub open spec fn fresh_data_end() -> DataEndView {
    DataEndView {
        local_closed: false,
        peer_closed: false,
        control: Seq::empty(),
        two_phase: None,
        has_new_data: false,
        watchers: Seq::empty(),
    }
}

impl DataPipeView {
    /// The invariant of the pair: each byte of the producer's range is consumed
    /// but not yet given up, readable, or written but not yet announced, in
    /// this order; and a two-phase span lies where the next byte is written or
    /// read.
    pub open spec fn wf(self) -> bool {
        let cap = self.ring.bytes.len();
        &&& self.ring.wf()
        &&& cap <= u32::MAX
        &&& self.element_size > 0
        &&& self.consumer_range.within(cap)
        &&& total(self.producer.control) + self.consumer_range.size + total(self.consumer.control)
            == self.ring.range.size
        &&& self.consumer_range.offset == wrapped_at(
            self.ring.range.offset as int,
            total(self.producer.control) as int,
            cap as int,
        )
        &&& self.producer.two_phase matches Some(s) ==> {
            &&& s.start == self.ring.free_start()
            &&& s.len <= self.ring.free_space()
            &&& s.start + s.len <= cap
        }
        &&& self.consumer.two_phase matches Some(s) ==> {
            &&& s.start == self.consumer_range.offset
            &&& s.len <= self.consumer_range.size
            &&& s.start + s.len <= cap
        }
    }

    /// The bytes that were written and not yet read, in order.
    pub open spec fn unread(self) -> Seq<u8> {
        range_bytes(
            self.ring.bytes,
            Range {
                offset: self.consumer_range.offset,
                size: (self.consumer_range.size + total(self.consumer.control)) as usize,
            },
        )
    }

    /// The consumer's view of the region.
    pub open spec fn readable(self) -> RingView {
        RingView { bytes: self.ring.bytes, range: self.consumer_range }
    }

    /// The pair after the producer took in its pending messages.
    pub open spec fn producer_flushed(self) -> DataPipeView {
        DataPipeView {
            ring: self.ring.dropped(total(self.producer.control) as int),
            producer: DataEndView { control: Seq::empty(), ..self.producer },
            ..self
        }
    }

    /// The pair after the consumer took in its pending messages.
    pub open spec fn consumer_flushed(self) -> DataPipeView {
        let n = total(self.consumer.control);
        DataPipeView {
            consumer_range: self.consumer_range.extended(n as int),
            consumer: DataEndView {
                control: Seq::empty(),
                has_new_data: self.consumer.has_new_data || n > 0,
                ..self.consumer
            },
            ..self
        }
    }

    /// Whether new data arrived at the consumer.
    pub open spec fn new_data(self) -> bool {
        self.consumer.has_new_data || self.consumer.control.len() > 0
    }

    /// The signals of the producer.
    pub open spec fn producer_signals(self) -> SignalsState {
        if self.producer.peer_closed {
            SignalsState {
                satisfied: Signals::peer_closed(),
                satisfiable: Signals::peer_closed(),
            }
        } else {
            SignalsState {
                satisfied: if self.ring.free_space() > 0 || self.producer.control.len() > 0 {
                    Signals::writable()
                } else {
                    Signals::none()
                },
                satisfiable: Signals::peer_closed().with(Signals::peer_remote()).with(
                    Signals::writable(),
                ),
            }
        }
    }

    /// The signals of the consumer.
    pub open spec fn consumer_signals(self) -> SignalsState {
        let closed = self.consumer.peer_closed;
        let new = if self.new_data() {
            Signals::new_data_readable()
        } else {
            Signals::none()
        };
        let any = if self.new_data() || self.consumer_range.size > 0 {
            Signals::readable()
        } else {
            Signals::none()
        };
        SignalsState {
            satisfied: (if closed {
                Signals::peer_closed()
            } else {
                Signals::none()
            }).with(new).with(any),
            satisfiable: if closed {
                Signals::peer_closed().with(new).with(any)
            } else {
                Signals::peer_closed().with(Signals::peer_remote()).with(
                    Signals::readable(),
                ).with(Signals::new_data_readable())
            },
        }
    }

    /// The pair with the news latched at the consumer.
    pub open spec fn latched(self) -> DataPipeView {
        DataPipeView {
            consumer: DataEndView { has_new_data: self.new_data(), ..self.consumer },
            ..self
        }
    }

    /// The pair after the watchers of an end were told.
    pub open spec fn told(self, end: DataPipeEnd) -> DataPipeView {
        match end {
            DataPipeEnd::Producer => DataPipeView {
                outbox: self.outbox + fired(self.producer.watchers, self.producer_signals()),
                ..self
            },
            DataPipeEnd::Consumer => DataPipeView {
                outbox: self.outbox + fired(self.consumer.watchers, self.consumer_signals()),
                ..self.latched()
            },
        }
    }

    /// The pair after `n` bytes were announced to the consumer.
    pub open spec fn announced(self, n: u32) -> DataPipeView {
        DataPipeView {
            consumer: DataEndView { control: self.consumer.control.push(n), ..self.consumer },
            ..self
        }.told(DataPipeEnd::Consumer)
    }

    /// The pair after `n` bytes were given back to the producer.
    pub open spec fn given_back(self, n: u32) -> DataPipeView {
        DataPipeView {
            producer: DataEndView { control: self.producer.control.push(n), ..self.producer },
            ..self
        }.told(DataPipeEnd::Producer)
    }

    /// The pair after the consumer took the first `n` bytes.
    pub open spec fn taken(self, n: u32) -> DataPipeView {
        if n == 0 {
            self
        } else {
            DataPipeView {
                consumer_range: self.consumer_range.without(n as int, self.ring.bytes.len()),
                ..self
            }.given_back(n)
        }
    }

    /// The pair after the producer appended `src`.
    pub open spec fn appended(self, src: Seq<u8>) -> DataPipeView {
        if src.len() == 0 {
            self
        } else {
            DataPipeView { ring: self.ring.appended(src), ..self }.announced(src.len() as u32)
        }
    }

    /// The pair with another two-phase span at the producer.
    pub open spec fn writing(self, span: Option<Span>) -> DataPipeView {
        DataPipeView { producer: DataEndView { two_phase: span, ..self.producer }, ..self }
    }

    /// The pair with the start of the producer's two-phase span filled.
    pub open spec fn filled(self, data: Seq<u8>) -> DataPipeView {
        let s = self.producer.two_phase.unwrap().start as int;
        let b = self.ring.bytes;
        DataPipeView {
            ring: RingView { bytes: b.take(s) + data + b.skip(s + data.len()), ..self.ring },
            ..self
        }
    }

    /// The pair with another two-phase span at the consumer.
    pub open spec fn reading(self, span: Option<Span>) -> DataPipeView {
        DataPipeView { consumer: DataEndView { two_phase: span, ..self.consumer }, ..self }
    }

    /// The pair with no news at the consumer.
    pub open spec fn old_news(self) -> DataPipeView {
        DataPipeView { consumer: DataEndView { has_new_data: false, ..self.consumer }, ..self }
    }

    /// The error for a consumer that finds too little data.
    pub open spec fn starved(self, otherwise: CoreError) -> CoreError {
        if self.consumer.peer_closed {
            CoreError::FailedPrecondition
        } else {
            otherwise
        }
    }
}

/// What a one-phase write of the first `n` bytes of `elements` comes to.
pub open spec fn write_outcome(
    v: DataPipeView,
    elements: Seq<u8>,
    n: u32,
    all_or_none: bool,
) -> (Result<u32, CoreError>, DataPipeView) {
    let f = v.producer_flushed();
    let k = lesser(n as int, f.ring.free_space());
    if n % v.element_size != 0 {
        (Err(CoreError::InvalidArgument), v)
    } else if f.producer.two_phase is Some {
        (Err(CoreError::Busy), f)
    } else if f.producer.peer_closed {
        (Err(CoreError::FailedPrecondition), f)
    } else if all_or_none && k < n {
        (Err(CoreError::OutOfRange), f)
    } else if !all_or_none && k == 0 && elements.len() > 0 {
        (Err(CoreError::ShouldWait), f)
    } else {
        (Ok(k as u32), f.appended(elements.take(k)))
    }
}

/// What a one-phase read of `n` bytes comes to.
pub open spec fn read_outcome(
    v: DataPipeView,
    has_buffer: bool,
    n: u32,
    flags: ReadFlags,
) -> (ReadView, DataPipeView) {
    let f = v.consumer_flushed();
    let o = f.old_news();
    let size = f.consumer_range.size;
    let k = lesser(n as int, size as int);
    let data = if flags.discard {
        Seq::empty()
    } else {
        f.readable().data().take(k)
    };
    if (flags.peek && flags.discard) || (flags.query && (flags.peek || flags.discard)) {
        (Err(CoreError::InvalidArgument), v)
    } else if !flags.discard && !flags.query && !has_buffer && n > 0 {
        (Err(CoreError::InvalidArgument), v)
    } else if f.consumer.two_phase is Some {
        (Err(CoreError::Busy), f)
    } else if flags.query {
        (Ok((size as u32, Seq::empty())), f)
    } else if n % v.element_size != 0 {
        (Err(CoreError::InvalidArgument), f)
    } else if flags.all_or_none && n > size {
        (Err(o.starved(CoreError::OutOfRange)), o)
    } else if !flags.all_or_none && size == 0 {
        (Err(o.starved(CoreError::ShouldWait)), o)
    } else if flags.peek {
        (Ok((k as u32, data)), o)
    } else {
        (Ok((k as u32, data)), o.taken(k as u32))
    }
}

/// What the start of a two-phase write comes to.
pub open spec fn begin_write_outcome(v: DataPipeView) -> (Result<Span, CoreError>, DataPipeView) {
    let f = v.producer_flushed();
    if f.producer.two_phase is Some {
        (Err(CoreError::Busy), f)
    } else if f.producer.peer_closed {
        (Err(CoreError::FailedPrecondition), f)
    } else if f.ring.free_span().len == 0 {
        (Err(CoreError::ShouldWait), f)
    } else {
        (Ok(f.ring.free_span()), f.writing(Some(f.ring.free_span())))
    }
}

/// What the end of a two-phase write comes to; the write is over in any case.
pub open spec fn end_write_outcome(v: DataPipeView, produced: u32) -> (
    Result<(), CoreError>,
    DataPipeView,
) {
    let f = v.writing(None);
    match v.producer.two_phase {
        None => (Err(CoreError::FailedPrecondition), v),
        Some(span) => if produced % v.element_size != 0 {
            (Err(CoreError::InvalidArgument), f)
        } else if produced == 0 {
            (Ok(()), f)
        } else if produced > span.len {
            (Err(CoreError::InvalidArgument), f)
        } else {
            (
                Ok(()),
                DataPipeView {
                    ring: f.ring.ranging(f.ring.range.extended(produced as int)),
                    ..f
                }.announced(produced),
            )
        },
    }
}

/// What the start of a two-phase read comes to.
pub open spec fn begin_read_outcome(v: DataPipeView) -> (Result<Span, CoreError>, DataPipeView) {
    let f = v.consumer_flushed();
    if f.consumer.two_phase is Some {
        (Err(CoreError::Busy), f)
    } else if f.readable().data_span().len == 0 {
        (Err(f.starved(CoreError::ShouldWait)), f)
    } else {
        (
            Ok(f.readable().data_span()),
            f.old_news().reading(Some(f.readable().data_span())),
        )
    }
}

/// What the end of a two-phase read comes to; the read is over in any case.
pub open spec fn end_read_outcome(v: DataPipeView, consumed: u32) -> (
    Result<(), CoreError>,
    DataPipeView,
) {
    let f = v.reading(None);
    match v.consumer.two_phase {
        None => (Err(CoreError::FailedPrecondition), v),
        Some(span) => if consumed % v.element_size != 0 {
            (Err(CoreError::InvalidArgument), f)
        } else if consumed == 0 {
            (Ok(()), f)
        } else if consumed > span.len {
            (Err(CoreError::InvalidArgument), f)
        } else {
            (Ok(()), f.taken(consumed))
        },
    }
}

/// The pair after an end was closed.
pub open spec fn close_outcome(v: DataPipeView, end: DataPipeEnd) -> DataPipeView {
    match end {
        DataPipeEnd::Producer => if v.producer.local_closed {
            v
        } else {
            DataPipeView {
                producer: DataEndView {
                    local_closed: true,
                    watchers: all_cancelled(v.producer.watchers),
                    ..v.producer
                },
                consumer: DataEndView { peer_closed: true, ..v.consumer },
                outbox: v.outbox + cancellations(v.producer.watchers),
                ..v
            }.told(DataPipeEnd::Consumer)
        },
        DataPipeEnd::Consumer => if v.consumer.local_closed {
            v
        } else {
            DataPipeView {
                consumer: DataEndView {
                    local_closed: true,
                    watchers: all_cancelled(v.consumer.watchers),
                    ..v.consumer
                },
                producer: DataEndView { peer_closed: true, ..v.producer },
                outbox: v.outbox + cancellations(v.consumer.watchers),
                ..v
            }.told(DataPipeEnd::Producer)
        },
    }
}

/// The pair after a watch was registered at an end; at a closed one the watch
/// is dropped.
pub open spec fn watch_outcome(
    v: DataPipeView,
    end: DataPipeEnd,
    signals: Signals,
    target: WatchTarget,
) -> DataPipeView {
    let w = Watcher { id: WatchId(v.next_watch), signals, target, cancelled: false };
    let n = DataPipeView { next_watch: next_number(v.next_watch), ..v };
    match end {
        DataPipeEnd::Producer => if v.producer.local_closed {
            n
        } else {
            DataPipeView {
                producer: DataEndView { watchers: v.producer.watchers.push(w), ..v.producer },
                ..n
            }
        },
        DataPipeEnd::Consumer => if v.consumer.local_closed {
            n
        } else {
            DataPipeView {
                consumer: DataEndView { watchers: v.consumer.watchers.push(w), ..v.consumer },
                ..n
            }
        },
    }
}

/// The pair after a watch was cancelled at an end.
pub open spec fn unwatch_outcome(v: DataPipeView, end: DataPipeEnd, id: WatchId) -> DataPipeView {
    match end {
        DataPipeEnd::Producer => DataPipeView {
            producer: DataEndView {
                watchers: one_cancelled(v.producer.watchers, id),
                ..v.producer
            },
            ..v
        },
        DataPipeEnd::Consumer => DataPipeView {
            consumer: DataEndView {
                watchers: one_cancelled(v.consumer.watchers, id),
                ..v.consumer
            },
            ..v
        },
    }
}

impl DataEndpoint {
    /// An open endpoint with an open peer.
    pub fn new() -> (r: DataEndpoint)
        ensures
            r@ == fresh_data_end(),
    {
        DataEndpoint {
            local_closed: false,
            peer_closed: false,
            control: VecDeque::new(),
            two_phase: None,
            has_new_data: false,
            watchers: Vec::new(),
        }
    }

    /// Take all pending messages, and return the sum of their counts.
    fn drain(&mut self) -> (r: usize)
        requires
            total(old(self)@.control) <= u32::MAX,
        ensures
            r == total(old(self)@.control),
            final(self)@ == (DataEndView { control: Seq::empty(), ..old(self)@ }),
    {
        let mut changed: usize = 0;
        let ghost start = self@;
        while self.control.len() > 0
            invariant
                changed + total(self.control@) == total(start.control),
                total(start.control) <= u32::MAX,
                self@ == (DataEndView { control: self.control@, ..start }),
            decreases self.control@.len(),
        {
            let ghost before = self.control@;
            let count: u32 = self.control.pop_front().unwrap();
            assert(self.control@ =~= before.drop_first());
            changed = changed + count as usize;
        }
        assert(self.control@ =~= Seq::empty());
        changed
    }
}

impl DataPipe {
    /// Create a data pipe pair with `element_size`-byte elements and
    /// `capacity` bytes in all.
    ///
    /// Returns `InvalidArgument` when `capacity == 0`, `element_size == 0`, or
    /// `capacity < element_size`.
    pub fn create_pair(element_size: u32, capacity: u32) -> (r: Result<DataPipe, CoreError>)
        ensures
            match r {
                Err(e) => e == CoreError::InvalidArgument && (capacity == 0 || element_size == 0
                    || capacity < element_size),
                Ok(p) => {
                    &&& capacity > 0 && element_size > 0 && capacity >= element_size
                    &&& p@.wf()
                    &&& p@.ring.bytes == Seq::new(capacity as nat, |i: int| 0u8)
                    &&& p@.ring.range == (Range { offset: 0, size: 0 })
                    &&& p@.consumer_range == (Range { offset: 0, size: 0 })
                    &&& p@.element_size == element_size
                    &&& p@.producer == fresh_data_end()
                    &&& p@.consumer == fresh_data_end()
                    &&& p@.next_watch == 1
                    &&& p@.outbox == Seq::<Notification>::empty()
                },
            },
    {
        if capacity == 0 || element_size == 0 || capacity < element_size {
            return Err(CoreError::InvalidArgument);
        }
        let mut region: Vec<u8> = Vec::new();
        region.resize(capacity as usize, 0);
        assert(region@ =~= Seq::new(capacity as nat, |i: int| 0u8));
        Ok(
            DataPipe {
                ring: RingBuffer::new(region),
                consumer_range: Range::empty(),
                element_size,
                producer: DataEndpoint::new(),
                consumer: DataEndpoint::new(),
                next_watch: 1,
                outbox: Vec::new(),
            },
        )
    }

    /// The element size of this pipe.
    pub fn element_size(&self) -> (r: u32)
        ensures
            r == self@.element_size,
    {
        self.element_size
    }

    /// Let the producer take in its pending messages.
    fn flush_producer(&mut self)
        requires
            old(self)@.wf(),
        ensures
            final(self)@ == old(self)@.producer_flushed(),
            final(self)@.wf(),
    {
        let changed: usize = self.producer.drain();
        let _ok: bool = self.ring.discard_all(changed);
        assert(total(Seq::<u32>::empty()) == 0);
    }

    /// Let the consumer take in its pending messages.
    fn flush_consumer(&mut self)
        requires
            old(self)@.wf(),
        ensures
            final(self)@ == old(self)@.consumer_flushed(),
            final(self)@.wf(),
    {
        let changed: usize = self.consumer.drain();
        self.consumer_range.size = self.consumer_range.size + changed;
        if changed > 0 {
            self.consumer.has_new_data = true;
        }
        assert(total(Seq::<u32>::empty()) == 0);
    }

    fn producer_state(&self) -> (r: SignalsState)
        requires
            self@.wf(),
        ensures
            r == self@.producer_signals(),
    {
        if self.producer.peer_closed {
            return SignalsState {
                satisfied: Signals::peer_closed(),
                satisfiable: Signals::peer_closed(),
            };
        }
        let room = self.ring.available_capacity() > 0 || self.producer.control.len() > 0;
        SignalsState {
            satisfied: if room {
                Signals::writable()
            } else {
                Signals::none()
            },
            satisfiable: Signals::peer_closed() | Signals::peer_remote() | Signals::writable(),
        }
    }

    /// The signals of the consumer; the news are latched.
    fn consumer_state(&mut self) -> (r: SignalsState)
        ensures
            r == old(self)@.consumer_signals(),
            final(self)@ == old(self)@.latched(),
    {
        let closed = self.consumer.peer_closed;
        let news = self.consumer.has_new_data || self.consumer.control.len() > 0;
        self.consumer.has_new_data = news;
        let new = if news {
            Signals::new_data_readable()
        } else {
            Signals::none()
        };
        let any = if news || self.consumer_range.size > 0 {
            Signals::readable()
        } else {
            Signals::none()
        };
        SignalsState {
            satisfied: (if closed {
                Signals::peer_closed()
            } else {
                Signals::none()
            }) | new | any,
            satisfiable: if closed {
                Signals::peer_closed() | new | any
            } else {
                Signals::peer_closed() | Signals::peer_remote() | Signals::readable()
                    | Signals::new_data_readable()
            },
        }
    }

    fn tell(&mut self, end: DataPipeEnd)
        requires
            old(self)@.wf(),
        ensures
            final(self)@ == old(self)@.told(end),
            final(self)@.wf(),
    {
        match end {
            DataPipeEnd::Producer => {
                let state = self.producer_state();
                post_fired(&self.producer.watchers, state, &mut self.outbox);
            },
            DataPipeEnd::Consumer => {
                let state = self.consumer_state();
                post_fired(&self.consumer.watchers, state, &mut self.outbox);
            },
        }
    }

    /// One-phase write of the first `num_bytes` bytes of `elements` by the
    /// producer. Returns the number of bytes written. The errors, in this
    /// order:
    /// 1. `num_bytes % element_size != 0`: `InvalidArgument` (no flush).
    /// 2. active two-phase write: `Busy`.
    /// 3. peer closed: `FailedPrecondition`.
    /// 4. all or none, without room for all: `OutOfRange`.
    /// 5. no room at all for a non-empty input: `ShouldWait`.
    pub fn write(&mut self, elements: &[u8], num_bytes: u32, all_or_none: bool) -> (r: Result<
        u32,
        CoreError,
    >)
        requires
            old(self)@.wf(),
            num_bytes <= elements@.len(),
        ensures
            final(self)@.wf(),
            (r, final(self)@) == write_outcome(old(self)@, elements@, num_bytes, all_or_none),
    {
        if num_bytes % self.element_size != 0 {
            return Err(CoreError::InvalidArgument);
        }
        self.flush_producer();
        if self.producer.two_phase.is_some() {
            return Err(CoreError::Busy);
        }
        if self.producer.peer_closed {
            return Err(CoreError::FailedPrecondition);
        }
        let free: usize = self.ring.available_capacity();
        let k: usize = if (num_bytes as usize) < free {
            num_bytes as usize
        } else {
            free
        };
        if all_or_none {
            if k < num_bytes as usize {
                return Err(CoreError::OutOfRange);
            }
        } else if k == 0 && elements.len() > 0 {
            return Err(CoreError::ShouldWait);
        }
        let ghost f = self@;
        let ghost src = elements@.take(k as int);
        if k == 0 {
            assert(f.appended(src) == f);
            return Ok(0);
        }
        let part = slice_subrange(elements, 0, k);
        assert(part@ =~= src);
        proof {
            law_append(f.ring, src);
        }
        let _ok: bool = self.ring.write_all(part);
        self.consumer.control.push_back(k as u32);
        proof {
            lemma_total_push(f.consumer.control, k as u32);
        }
        self.tell(DataPipeEnd::Consumer);
        Ok(k as u32)
    }

    /// Begin a two-phase write. Returns the writable span, which the producer
    /// fills before it calls `end_write`. The errors, in this order: active
    /// two-phase write, `Busy`; peer closed, `FailedPrecondition`; no room,
    /// `ShouldWait`.
    pub fn begin_write(&mut self) -> (r: Result<Span, CoreError>)
        requires
            old(self)@.wf(),
        ensures
            final(self)@.wf(),
            (r, final(self)@) == begin_write_outcome(old(self)@),
    {
        self.flush_producer();
        if self.producer.two_phase.is_some() {
            return Err(CoreError::Busy);
        }
        if self.producer.peer_closed {
            return Err(CoreError::FailedPrecondition);
        }
        let span = self.ring.begin_write().span();
        if span.is_empty() {
            return Err(CoreError::ShouldWait);
        }
        self.producer.two_phase = Some(span);
        Ok(span)
    }

    /// Fill the start of the span of the active two-phase write.
    pub fn fill(&mut self, data: &[u8])
        requires
            old(self)@.wf(),
            old(self)@.producer.two_phase matches Some(s) && data@.len() <= s.len,
        ensures
            final(self)@.wf(),
            final(self)@ == old(self)@.filled(data@),
    {
        if let Some(span) = self.producer.two_phase {
            span.fill(&mut self.ring, data);
        }
    }

    /// End a two-phase write. It is over on failure too. `produced` must be a
    /// multiple of the element size and no larger than the span returned by
    /// `begin_write`.
    pub fn end_write(&mut self, produced: u32) -> (r: Result<(), CoreError>)
        requires
            old(self)@.wf(),
        ensures
            final(self)@.wf(),
            (r, final(self)@) == end_write_outcome(old(self)@, produced),
    {
        let span = match self.producer.two_phase {
            None => {
                return Err(CoreError::FailedPrecondition);
            },
            Some(span) => span,
        };
        self.producer.two_phase = None;
        if produced % self.element_size != 0 {
            return Err(CoreError::InvalidArgument);
        }
        if produced == 0 {
            return Ok(());
        }
        if produced as usize > span.len {
            return Err(CoreError::InvalidArgument);
        }
        let _ok: bool = self.ring.extend_data_range(produced as usize);
        let ghost before = self.consumer@.control;
        self.consumer.control.push_back(produced);
        proof {
            lemma_total_push(before, produced);
        }
        self.tell(DataPipeEnd::Consumer);
        Ok(())
    }

    /// Let the consumer take the first `n` bytes, and give them back to the
    /// producer.
    fn take(&mut self, n: u32)
        requires
            old(self)@.wf(),
            n <= old(self)@.consumer_range.size,
            old(self)@.consumer.two_phase is None,
        ensures
            final(self)@.wf(),
            final(self)@ == old(self)@.taken(n),
    {
        if n == 0 {
            return;
        }
        let producer_range = self.ring.data_range;
        let ghost before = self.producer@.control;
        self.ring.data_range = self.consumer_range;
        let _ok: bool = self.ring.discard_all(n as usize);
        self.consumer_range = self.ring.data_range;
        self.ring.data_range = producer_range;
        self.producer.control.push_back(n);
        proof {
            lemma_total_push(before, n);
        }
        self.tell(DataPipeEnd::Producer);
    }

    /// The first `n` bytes that the consumer can read.
    fn front(&mut self, n: usize) -> (r: Vec<u8>)
        requires
            old(self)@.wf(),
            n <= old(self)@.consumer_range.size,
        ensures
            final(self)@ == old(self)@,
            r@ == old(self)@.readable().data().take(n as int),
    {
        let producer_range = self.ring.data_range;
        self.ring.data_range = self.consumer_range;
        let data = self.ring.front(n);
        self.ring.data_range = producer_range;
        data
    }

    fn starved(&self, otherwise: CoreError) -> (r: CoreError)
        ensures
            r == self@.starved(otherwise),
    {
        if self.consumer.peer_closed {
            CoreError::FailedPrecondition
        } else {
            otherwise
        }
    }

    /// One-phase read of up to `num_bytes` bytes by the consumer;
    /// `has_buffer` says whether the reader has room for them. The errors, in
    /// this order:
    /// 1. `peek` with `discard`, or `query` with either: `InvalidArgument` (no
    ///    flush).
    /// 2. neither `query` nor `discard`, no buffer and `num_bytes > 0`:
    ///    `InvalidArgument` (no flush).
    /// 3. active two-phase read: `Busy`.
    /// 4. `num_bytes % element_size != 0`, except for a query:
    ///    `InvalidArgument`.
    /// 5. all or none with too little data: `FailedPrecondition` (peer closed)
    ///    or `OutOfRange`.
    /// 6. no data: `FailedPrecondition` (peer closed) or `ShouldWait`.
    pub fn read(&mut self, has_buffer: bool, num_bytes: u32, flags: ReadFlags) -> (r: Result<
        ReadOutcome,
        CoreError,
    >)
        requires
            old(self)@.wf(),
        ensures
            final(self)@.wf(),
            (read_view(r), final(self)@) == read_outcome(old(self)@, has_buffer, num_bytes, flags),
    {
        if (flags.peek && flags.discard) || (flags.query && (flags.peek || flags.discard)) {
            return Err(CoreError::InvalidArgument);
        }
        if !(flags.discard || flags.query) && !has_buffer && num_bytes > 0 {
            return Err(CoreError::InvalidArgument);
        }
        self.flush_consumer();
        let ghost f = self@;
        if self.consumer.two_phase.is_some() {
            return Err(CoreError::Busy);
        }
        let size: usize = self.consumer_range.size;
        if flags.query {
            return Ok(ReadOutcome { num_bytes: size as u32, data: Vec::new() });
        }
        if num_bytes % self.element_size != 0 {
            return Err(CoreError::InvalidArgument);
        }
        self.consumer.has_new_data = false;
        assert(self@ =~= f.old_news());
        if flags.all_or_none {
            if num_bytes as usize > size {
                return Err(self.starved(CoreError::OutOfRange));
            }
        } else if size == 0 {
            return Err(self.starved(CoreError::ShouldWait));
        }
        let k: usize = if (num_bytes as usize) < size {
            num_bytes as usize
        } else {
            size
        };
        let data = if flags.discard {
            Vec::new()
        } else {
            self.front(k)
        };
        if !flags.peek {
            self.take(k as u32);
        }
        Ok(ReadOutcome { num_bytes: k as u32, data })
    }

    /// Begin a two-phase read. Returns the readable span. The errors, in this
    /// order: active two-phase read, `Busy`; no data, `FailedPrecondition`
    /// (peer closed) or `ShouldWait`.
    pub fn begin_read(&mut self) -> (r: Result<Span, CoreError>)
        requires
            old(self)@.wf(),
        ensures
            final(self)@.wf(),
            (r, final(self)@) == begin_read_outcome(old(self)@),
    {
        self.flush_consumer();
        if self.consumer.two_phase.is_some() {
            return Err(CoreError::Busy);
        }
        let producer_range = self.ring.data_range;
        self.ring.data_range = self.consumer_range;
        let span = self.ring.begin_read().span();
        self.ring.data_range = producer_range;
        if span.is_empty() {
            return Err(self.starved(CoreError::ShouldWait));
        }
        self.consumer.two_phase = Some(span);
        self.consumer.has_new_data = false;
        Ok(span)
    }

    /// The bytes of the span of the active two-phase read.
    pub fn span_bytes(&self) -> (r: &[u8])
        requires
            self@.wf(),
            self@.consumer.two_phase is Some,
        ensures
            r@ == ({
                let s = self@.consumer.two_phase.unwrap();
                self@.ring.bytes.subrange(s.start as int, s.start + s.len)
            }),
            r@ == self@.readable().data().take(r@.len() as int),
    {
        let span = self.consumer.two_phase.unwrap();
        let r = span.as_slice(&self.ring);
        assert(r@ =~= self@.readable().data().take(r@.len() as int));
        r
    }

    /// End a two-phase read. It is over on failure too.
    pub fn end_read(&mut self, consumed: u32) -> (r: Result<(), CoreError>)
        requires
            old(self)@.wf(),
        ensures
            final(self)@.wf(),
            (r, final(self)@) == end_read_outcome(old(self)@, consumed),
    {
        let span = match self.consumer.two_phase {
            None => {
                return Err(CoreError::FailedPrecondition);
            },
            Some(span) => span,
        };
        self.consumer.two_phase = None;
        if consumed % self.element_size != 0 {
            return Err(CoreError::InvalidArgument);
        }
        if consumed == 0 {
            return Ok(());
        }
        if consumed as usize > span.len {
            return Err(CoreError::InvalidArgument);
        }
        self.take(consumed);
        Ok(())
    }

    /// Query the current signal state of an end; its pending messages are
    /// taken in first.
    pub fn query_signals(&mut self, end: DataPipeEnd) -> (r: SignalsState)
        requires
            old(self)@.wf(),
        ensures
            final(self)@.wf(),
            match end {
                DataPipeEnd::Producer => r == old(self)@.producer_flushed().producer_signals()
                    && final(self)@ == old(self)@.producer_flushed(),
                DataPipeEnd::Consumer => r == old(self)@.consumer_flushed().consumer_signals()
                    && final(self)@ == old(self)@.consumer_flushed().latched(),
            },
    {
        match end {
            DataPipeEnd::Producer => {
                self.flush_producer();
                self.producer_state()
            },
            DataPipeEnd::Consumer => {
                self.flush_consumer();
                self.consumer_state()
            },
        }
    }

    /// Close an end. The peer observes PEER_CLOSED; the watchers of the closed
    /// end are cancelled.
    pub fn close(&mut self, end: DataPipeEnd)
        requires
            old(self)@.wf(),
        ensures
            final(self)@.wf(),
            final(self)@ == close_outcome(old(self)@, end),
    {
        match end {
            DataPipeEnd::Producer => {
                if self.producer.local_closed {
                    return;
                }
                self.producer.local_closed = true;
                cancel_all(&mut self.producer.watchers, &mut self.outbox);
                self.consumer.peer_closed = true;
                self.tell(DataPipeEnd::Consumer);
            },
            DataPipeEnd::Consumer => {
                if self.consumer.local_closed {
                    return;
                }
                self.consumer.local_closed = true;
                cancel_all(&mut self.consumer.watchers, &mut self.outbox);
                self.producer.peer_closed = true;
                self.tell(DataPipeEnd::Producer);
            },
        }
    }

    /// Register a watch for `signals` at an end.
    pub fn register_watch(
        &mut self,
        end: DataPipeEnd,
        signals: Signals,
        target: WatchTarget,
    ) -> (r: WatchId)
        ensures
            r == WatchId(old(self)@.next_watch),
            final(self)@ == watch_outcome(old(self)@, end, signals, target),
            old(self)@.wf() ==> final(self)@.wf(),
    {
        let id = WatchId::new(self.next_watch);
        self.next_watch = if self.next_watch == u64::MAX {
            0
        } else {
            self.next_watch + 1
        };
        let w = Watcher { id, signals, target, cancelled: false };
        match end {
            DataPipeEnd::Producer => {
                if !self.producer.local_closed {
                    self.producer.watchers.push(w);
                }
            },
            DataPipeEnd::Consumer => {
                if !self.consumer.local_closed {
                    self.consumer.watchers.push(w);
                }
            },
        }
        id
    }

    /// Cancel a watch at an end.
    pub fn cancel_registered_watch(&mut self, end: DataPipeEnd, id: WatchId)
        ensures
            final(self)@ == unwatch_outcome(old(self)@, end, id),
            old(self)@.wf() ==> final(self)@.wf(),
    {
        match end {
            DataPipeEnd::Producer => cancel_one(&mut self.producer.watchers, id),
            DataPipeEnd::Consumer => cancel_one(&mut self.consumer.watchers, id),
        }
    }

    /// Take the notifications that wait to be handed on.
    pub fn take_notifications(&mut self) -> (r: Vec<Notification>)
        ensures
            r@ == old(self)@.outbox,
            final(self)@ == (DataPipeView { outbox: Seq::empty(), ..old(self)@ }),
            old(self)@.wf() ==> final(self)@.wf(),
    {
        let mut out: Vec<Notification> = Vec::new();
        out.append(&mut self.outbox);
        assert(out@ =~= old(self)@.outbox);
        assert(self.outbox@ =~= Seq::empty());
        out
    }
}

impl Dispatcher for DataPipeEnd {
    open spec fn kind(&self) -> DispatcherType {
        match *self {
            DataPipeEnd::Producer => DispatcherType::DataPipeProducer,
            DataPipeEnd::Consumer => DispatcherType::DataPipeConsumer,
        }
    }

    open spec fn duplicable(&self) -> bool {
        false
    }

    fn dispatcher_type(&self) -> (r: DispatcherType) {
        match *self {
            DataPipeEnd::Producer => DispatcherType::DataPipeProducer,
            DataPipeEnd::Consumer => DispatcherType::DataPipeConsumer,
        }
    }

    fn is_duplicable(&self) -> (r: bool) {
        false
    }
}

/// The unread bytes are what the producer's range holds behind the bytes that
/// it has yet to give up.
proof fn lemma_unread(v: DataPipeView)
    requires
        v.wf(),
    ensures
        v.unread() == v.ring.data().skip(total(v.producer.control) as int),
{
    assert(v.unread() =~= v.ring.data().skip(total(v.producer.control) as int));
}

/// Taking in pending messages changes nothing about what is unread.
pub proof fn law_flush_keeps_unread(v: DataPipeView)
    requires
        v.wf(),
    ensures
        v.producer_flushed().unread() == v.unread(),
        v.consumer_flushed().unread() == v.unread(),
        v.consumer_flushed().readable().data() == v.unread(),
{
    assert(total(Seq::<u32>::empty()) == 0);
    assert(v.consumer_flushed().unread() =~= v.unread());
    assert(v.consumer_flushed().readable().data() =~= v.unread());
}

/// A write puts its bytes behind everything that is unread.
pub proof fn law_write_appends(v: DataPipeView, elements: Seq<u8>, n: u32, all_or_none: bool)
    requires
        v.wf(),
        n <= elements.len(),
    ensures
        ({
            let (r, after) = write_outcome(v, elements, n, all_or_none);
            after.unread() == match r {
                Ok(k) => v.unread() + elements.take(k as int),
                Err(_) => v.unread(),
            }
        }),
{
    let f = v.producer_flushed();
    let (r, after) = write_outcome(v, elements, n, all_or_none);
    assert(total(Seq::<u32>::empty()) == 0);
    assert(f.wf());
    law_flush_keeps_unread(v);
    if let Ok(k) = r {
        let src = elements.take(k as int);
        if k > 0 {
            lemma_total_push(f.consumer.control, k);
            law_append(f.ring, src);
            lemma_unread(f);
            assert(after.unread() =~= range_bytes(
                f.ring.appended(src).bytes,
                Range { offset: f.ring.range.offset, size: (f.ring.range.size + k) as usize },
            ));
            assert(f.ring.data().skip(0) =~= f.ring.data());
        } else {
            assert(v.unread() + src =~= v.unread());
        }
    }
}

/// A read returns the first unread bytes, and a read that is no peek takes
/// them away: each byte comes out once, in the order in which it was written.
pub proof fn law_read_takes_front(v: DataPipeView, has_buffer: bool, n: u32, flags: ReadFlags)
    requires
        v.wf(),
        !flags.query,
    ensures
        ({
            let (r, after) = read_outcome(v, has_buffer, n, flags);
            match r {
                Ok((k, data)) => {
                    &&& k <= v.unread().len()
                    &&& !flags.discard ==> data == v.unread().take(k as int)
                    &&& after.unread() == if flags.peek {
                        v.unread()
                    } else {
                        v.unread().skip(k as int)
                    }
                },
                Err(_) => after.unread() == v.unread(),
            }
        }),
{
    let f = v.consumer_flushed();
    let (r, after) = read_outcome(v, has_buffer, n, flags);
    assert(total(Seq::<u32>::empty()) == 0);
    law_flush_keeps_unread(v);
    if let Ok((k, data)) = r {
        if !flags.peek {
            assert(after.unread() =~= v.unread().skip(k as int));
        }
    }
}

/// The producer never fills more than the region holds, and what the consumer
/// reads was written before: the unread bytes always fit the region.
pub proof fn law_unread_fits(v: DataPipeView)
    requires
        v.wf(),
    ensures
        v.unread().len() <= v.ring.bytes.len(),
{
}

/// Something that is done with a data pipe.
pub enum DataPipeOp {
    /// A write of the first bytes of some elements.
    Write(Seq<u8>, u32, bool),
    /// A read.
    Read(bool, u32, ReadFlags),
    /// The start of a two-phase write.
    BeginWrite,
    /// The end of a two-phase write.
    EndWrite(u32),
    /// The start of a two-phase read.
    BeginRead,
    /// The end of a two-phase read.
    EndRead(u32),
    /// An end is closed.
    Close(DataPipeEnd),
    /// A watch is registered at an end.
    Watch(DataPipeEnd, Signals, WatchTarget),
    /// A watch is cancelled at an end.
    Cancel(DataPipeEnd, WatchId),
}

impl DataPipeView {
    /// The watchers at an end.
    pub open spec fn watchers_at(self, end: DataPipeEnd) -> Seq<Watcher> {
        match end {
            DataPipeEnd::Producer => self.producer.watchers,
            DataPipeEnd::Consumer => self.consumer.watchers,
        }
    }

    /// Whether a watch is not registered, or is cancelled.
    pub open spec fn watch_silent(self, id: WatchId) -> bool {
        &&& silenced(self.producer.watchers, id)
        &&& silenced(self.consumer.watchers, id)
    }

    /// The pair after something is done with it.
    pub open spec fn after(self, op: DataPipeOp) -> DataPipeView {
        match op {
            DataPipeOp::Write(elements, n, all_or_none) => write_outcome(
                self,
                elements,
                n,
                all_or_none,
            ).1,
            DataPipeOp::Read(has_buffer, n, flags) => read_outcome(self, has_buffer, n, flags).1,
            DataPipeOp::BeginWrite => begin_write_outcome(self).1,
            DataPipeOp::EndWrite(n) => end_write_outcome(self, n).1,
            DataPipeOp::BeginRead => begin_read_outcome(self).1,
            DataPipeOp::EndRead(n) => end_read_outcome(self, n).1,
            DataPipeOp::Close(end) => close_outcome(self, end),
            DataPipeOp::Watch(end, signals, target) => watch_outcome(self, end, signals, target),
            DataPipeOp::Cancel(end, id) => unwatch_outcome(self, end, id),
        }
    }

    /// The pair after things are done with it, one after the other.
    pub open spec fn after_all(self, ops: Seq<DataPipeOp>) -> DataPipeView
        decreases ops.len(),
    {
        if ops.len() == 0 {
            self
        } else {
            self.after_all(ops.drop_last()).after(ops.last())
        }
    }

    /// Whether the id of a watch is given to another that is registered later.
    pub open spec fn reissued(self, ops: Seq<DataPipeOp>, id: WatchId) -> bool
        decreases ops.len(),
    {
        ops.len() > 0 && (self.reissued(ops.drop_last(), id) || (ops.last() is Watch
            && self.after_all(ops.drop_last()).next_watch == id.0))
    }
}

/// How many watches are registered.
pub open spec fn registrations(ops: Seq<DataPipeOp>) -> nat
    decreases ops.len(),
{
    if ops.len() == 0 {
        0
    } else {
        registrations(ops.drop_last()) + if ops.last() is Watch {
            1nat
        } else {
            0
        }
    }
}

/// A watch that is cancelled at the one end where it is registered is silent.
pub proof fn law_cancelled_data_watch_is_silent(v: DataPipeView, end: DataPipeEnd, id: WatchId)
    requires
        distinct_ids(v.watchers_at(end)),
        end is Producer ==> silenced(v.consumer.watchers, id),
        end is Consumer ==> silenced(v.producer.watchers, id),
    ensures
        unwatch_outcome(v, end, id).watch_silent(id),
        unwatch_outcome(v, end, id).outbox == v.outbox,
{
    law_cancelled_never_fires(v.watchers_at(end), id, v.producer_signals());
}

/// Whether the watch stays silent over a step, and nothing that the step posts
/// is of it.
spec fn silent_over(v: DataPipeView, t: DataPipeView, id: WatchId) -> bool {
    &&& t.watch_silent(id)
    &&& exists|n: Seq<Notification>| t.outbox == v.outbox + n && #[trigger] none_of(n, id)
}

proof fn lemma_nothing_posted(v: DataPipeView, t: DataPipeView, id: WatchId)
    requires
        t.outbox == v.outbox,
    ensures
        exists|n: Seq<Notification>| t.outbox == v.outbox + n && #[trigger] none_of(n, id),
{
    let none = Seq::<Notification>::empty();
    assert(none_of(none, id));
    assert(v.outbox + none =~= v.outbox);
}

proof fn lemma_close_producer_is_silent(v: DataPipeView, id: WatchId)
    requires
        v.watch_silent(id),
    ensures
        silent_over(v, close_outcome(v, DataPipeEnd::Producer), id),
{
    let t = close_outcome(v, DataPipeEnd::Producer);
    if v.producer.local_closed {
        lemma_nothing_posted(v, t, id);
    } else {
        let c = cancellations(v.producer.watchers);
        let closed = DataPipeView {
            producer: DataEndView {
                local_closed: true,
                watchers: all_cancelled(v.producer.watchers),
                ..v.producer
            },
            consumer: DataEndView { peer_closed: true, ..v.consumer },
            outbox: v.outbox + c,
            ..v
        };
        let n = fired(closed.consumer.watchers, closed.consumer_signals());
        lemma_all_cancelled(v.producer.watchers);
        lemma_silent(v.producer.watchers, id, v.producer_signals());
        lemma_silent(closed.consumer.watchers, id, closed.consumer_signals());
        assert(none_of(c + n, id));
        assert(t.outbox =~= v.outbox + (c + n));
    }
}

proof fn lemma_close_consumer_is_silent(v: DataPipeView, id: WatchId)
    requires
        v.watch_silent(id),
    ensures
        silent_over(v, close_outcome(v, DataPipeEnd::Consumer), id),
{
    let t = close_outcome(v, DataPipeEnd::Consumer);
    if v.consumer.local_closed {
        lemma_nothing_posted(v, t, id);
    } else {
        let c = cancellations(v.consumer.watchers);
        let closed = DataPipeView {
            consumer: DataEndView {
                local_closed: true,
                watchers: all_cancelled(v.consumer.watchers),
                ..v.consumer
            },
            producer: DataEndView { peer_closed: true, ..v.producer },
            outbox: v.outbox + c,
            ..v
        };
        let n = fired(closed.producer.watchers, closed.producer_signals());
        lemma_all_cancelled(v.consumer.watchers);
        lemma_silent(v.consumer.watchers, id, v.consumer_signals());
        lemma_silent(closed.producer.watchers, id, closed.producer_signals());
        assert(none_of(c + n, id));
        assert(t.outbox =~= v.outbox + (c + n));
    }
}

/// Whether what was posted between two states is what the watchers of one end
/// report in a signal state.
spec fn reports_of(v: DataPipeView, t: DataPipeView, state: SignalsState) -> bool {
    t.outbox == v.outbox + fired(v.producer.watchers, state) || t.outbox == v.outbox + fired(
        v.consumer.watchers,
        state,
    )
}

/// Whether two states agree on the watchers and on their numbering.
spec fn same_watchers(v: DataPipeView, t: DataPipeView) -> bool {
    &&& t.producer.watchers == v.producer.watchers
    &&& t.consumer.watchers == v.consumer.watchers
    &&& t.next_watch == v.next_watch
}

/// Whether a step leaves the watchers as they are and at most tells those of
/// one end.
spec fn only_tells(v: DataPipeView, t: DataPipeView) -> bool {
    &&& same_watchers(v, t)
    &&& t.outbox == v.outbox || exists|state: SignalsState| #[trigger] reports_of(v, t, state)
}

proof fn lemma_only_tells_from(v: DataPipeView, w: DataPipeView, t: DataPipeView)
    requires
        same_watchers(v, w),
        w.outbox == v.outbox,
        only_tells(w, t),
    ensures
        only_tells(v, t),
{
    if t.outbox != v.outbox {
        let state = choose|state: SignalsState| #[trigger] reports_of(w, t, state);
        assert(reports_of(v, t, state));
    }
}

proof fn lemma_told_only_tells(v: DataPipeView, end: DataPipeEnd)
    ensures
        only_tells(v, v.told(end)),
{
    match end {
        DataPipeEnd::Producer => {
            assert(reports_of(v, v.told(end), v.producer_signals()));
        },
        DataPipeEnd::Consumer => {
            assert(reports_of(v, v.told(end), v.consumer_signals()));
        },
    }
}

proof fn lemma_announced_only_tells(v: DataPipeView, n: u32)
    ensures
        only_tells(v, v.announced(n)),
{
    let w = DataPipeView {
        consumer: DataEndView { control: v.consumer.control.push(n), ..v.consumer },
        ..v
    };
    lemma_told_only_tells(w, DataPipeEnd::Consumer);
    lemma_only_tells_from(v, w, v.announced(n));
}

proof fn lemma_taken_only_tells(v: DataPipeView, n: u32)
    ensures
        only_tells(v, v.taken(n)),
{
    if n != 0 {
        let w = DataPipeView {
            consumer_range: v.consumer_range.without(n as int, v.ring.bytes.len()),
            ..v
        };
        let g = DataPipeView {
            producer: DataEndView { control: w.producer.control.push(n), ..w.producer },
            ..w
        };
        lemma_told_only_tells(g, DataPipeEnd::Producer);
        lemma_only_tells_from(v, g, v.taken(n));
    }
}

proof fn lemma_write_only_tells(v: DataPipeView, elements: Seq<u8>, n: u32, all_or_none: bool)
    ensures
        only_tells(v, write_outcome(v, elements, n, all_or_none).1),
{
    let f = v.producer_flushed();
    let src = elements.take(lesser(n as int, f.ring.free_space()));
    if src.len() != 0 {
        let w = DataPipeView { ring: f.ring.appended(src), ..f };
        lemma_announced_only_tells(w, src.len() as u32);
        lemma_only_tells_from(v, w, f.appended(src));
    }
}

proof fn lemma_read_only_tells(v: DataPipeView, has_buffer: bool, n: u32, flags: ReadFlags)
    ensures
        only_tells(v, read_outcome(v, has_buffer, n, flags).1),
{
    let o = v.consumer_flushed().old_news();
    let k = lesser(n as int, o.consumer_range.size as int) as u32;
    lemma_taken_only_tells(o, k);
    lemma_only_tells_from(v, o, o.taken(k));
}

proof fn lemma_end_write_only_tells(v: DataPipeView, n: u32)
    ensures
        only_tells(v, end_write_outcome(v, n).1),
{
    let f = v.writing(None);
    let w = DataPipeView { ring: f.ring.ranging(f.ring.range.extended(n as int)), ..f };
    lemma_announced_only_tells(w, n);
    lemma_only_tells_from(v, w, w.announced(n));
}

proof fn lemma_end_read_only_tells(v: DataPipeView, n: u32)
    ensures
        only_tells(v, end_read_outcome(v, n).1),
{
    lemma_taken_only_tells(v.reading(None), n);
    lemma_only_tells_from(v, v.reading(None), v.reading(None).taken(n));
}

proof fn lemma_only_tells_is_silent(v: DataPipeView, t: DataPipeView, id: WatchId)
    requires
        v.watch_silent(id),
        only_tells(v, t),
    ensures
        silent_over(v, t, id),
{
    if t.outbox == v.outbox {
        lemma_nothing_posted(v, t, id);
    } else {
        let state = choose|state: SignalsState| #[trigger] reports_of(v, t, state);
        lemma_silent(v.producer.watchers, id, state);
        lemma_silent(v.consumer.watchers, id, state);
        if t.outbox == v.outbox + fired(v.producer.watchers, state) {
            assert(none_of(fired(v.producer.watchers, state), id));
        } else {
            assert(none_of(fired(v.consumer.watchers, state), id));
        }
    }
}

#[verifier::spinoff_prover]
proof fn lemma_data_step_is_silent(v: DataPipeView, op: DataPipeOp, id: WatchId)
    requires
        v.watch_silent(id),
        op is Watch ==> v.next_watch != id.0,
    ensures
        silent_over(v, v.after(op), id),
{
    match op {
        DataPipeOp::Close(DataPipeEnd::Producer) => {
            lemma_close_producer_is_silent(v, id);
        },
        DataPipeOp::Close(DataPipeEnd::Consumer) => {
            lemma_close_consumer_is_silent(v, id);
        },
        DataPipeOp::Watch(end, signals, target) => {
            lemma_nothing_posted(v, v.after(op), id);
        },
        DataPipeOp::Cancel(end, other) => {
            lemma_cancel_keeps_ids(v.watchers_at(end), other);
            lemma_nothing_posted(v, v.after(op), id);
        },
        DataPipeOp::Write(elements, n, all_or_none) => {
            lemma_write_only_tells(v, elements, n, all_or_none);
            lemma_only_tells_is_silent(v, v.after(op), id);
        },
        DataPipeOp::Read(has_buffer, n, flags) => {
            lemma_read_only_tells(v, has_buffer, n, flags);
            lemma_only_tells_is_silent(v, v.after(op), id);
        },
        DataPipeOp::EndWrite(n) => {
            lemma_end_write_only_tells(v, n);
            lemma_only_tells_is_silent(v, v.after(op), id);
        },
        DataPipeOp::EndRead(n) => {
            lemma_end_read_only_tells(v, n);
            lemma_only_tells_is_silent(v, v.after(op), id);
        },
        DataPipeOp::BeginWrite | DataPipeOp::BeginRead => {
            lemma_only_tells_is_silent(v, v.after(op), id);
        },
    }
}

/// A silent watch of a data pipe stays silent for good: whatever is done with
/// the pipe later, nothing that it reports is of that watch, not even a
/// cancellation, as long as its id is not given to another watch.
pub proof fn law_silent_data_watch_never_reports(
    v: DataPipeView,
    id: WatchId,
    ops: Seq<DataPipeOp>,
)
    requires
        v.watch_silent(id),
        !v.reissued(ops, id),
    ensures
        v.after_all(ops).watch_silent(id),
        exists|n: Seq<Notification>|
            v.after_all(ops).outbox == v.outbox + n && #[trigger] none_of(n, id),
    decreases ops.len(),
{
    if ops.len() == 0 {
        let none = Seq::<Notification>::empty();
        assert(none_of(none, id));
        assert(v.outbox + none =~= v.outbox);
    } else {
        law_silent_data_watch_never_reports(v, id, ops.drop_last());
        let q = v.after_all(ops.drop_last());
        lemma_data_step_is_silent(q, ops.last(), id);
        let n1 = choose|n: Seq<Notification>|
            q.outbox == v.outbox + n && #[trigger] none_of(n, id);
        let n2 = choose|n: Seq<Notification>|
            q.after(ops.last()).outbox == q.outbox + n && #[trigger] none_of(n, id);
        assert(none_of(n1 + n2, id));
        assert(v.outbox + (n1 + n2) =~= (v.outbox + n1) + n2);
    }
}

#[verifier::spinoff_prover]
proof fn lemma_data_numbering(v: DataPipeView, op: DataPipeOp)
    ensures
        v.after(op).next_watch == if op is Watch {
            next_number(v.next_watch)
        } else {
            v.next_watch
        },
{
    match op {
        DataPipeOp::Write(elements, n, all_or_none) => {
            lemma_write_only_tells(v, elements, n, all_or_none);
        },
        DataPipeOp::Read(has_buffer, n, flags) => {
            lemma_read_only_tells(v, has_buffer, n, flags);
        },
        DataPipeOp::EndWrite(n) => {
            lemma_end_write_only_tells(v, n);
        },
        DataPipeOp::EndRead(n) => {
            lemma_end_read_only_tells(v, n);
        },
        _ => {},
    }
}

/// The id of a watch of a data pipe is not given out again before all ids are
/// used up.
pub proof fn law_data_ids_are_not_reissued(v: DataPipeView, id: WatchId, ops: Seq<DataPipeOp>)
    requires
        id.0 < v.next_watch,
        v.next_watch + registrations(ops) <= u64::MAX,
    ensures
        !v.reissued(ops, id),
        v.after_all(ops).next_watch == v.next_watch + registrations(ops),
    decreases ops.len(),
{
    if ops.len() > 0 {
        law_data_ids_are_not_reissued(v, id, ops.drop_last());
        lemma_data_numbering(v.after_all(ops.drop_last()), ops.last());
    }
}

impl DataPipeView {
    /// How many more bytes the region can take.
    pub open spec fn room(self) -> int {
        self.ring.bytes.len() - self.unread().len()
    }
}

/// What comes of a write: how much is written, which is as much as there is room
/// for, or why nothing is. What is written is announced to the consumer.
pub proof fn law_write_result(v: DataPipeView, elements: Seq<u8>, n: u32, all_or_none: bool)
    requires
        v.wf(),
        n <= elements.len(),
    ensures
        ({
            let (r, after) = write_outcome(v, elements, n, all_or_none);
            &&& r == if n % v.element_size != 0 {
                Err::<u32, CoreError>(CoreError::InvalidArgument)
            } else if v.producer.two_phase is Some {
                Err(CoreError::Busy)
            } else if v.producer.peer_closed {
                Err(CoreError::FailedPrecondition)
            } else if all_or_none && n > v.room() {
                Err(CoreError::OutOfRange)
            } else if !all_or_none && elements.len() > 0 && (n == 0 || v.room() == 0) {
                Err(CoreError::ShouldWait)
            } else if n <= v.room() {
                Ok(n)
            } else {
                Ok(v.room() as u32)
            }
            &&& total(after.consumer.control) == total(v.consumer.control) + match r {
                Ok(k) => k,
                Err(_) => 0,
            }
        }),
{
    let f = v.producer_flushed();
    assert(total(Seq::<u32>::empty()) == 0);
    assert(f.ring.free_space() == v.room());
    let (r, after) = write_outcome(v, elements, n, all_or_none);
    if let Ok(k) = r {
        lemma_total_push(f.consumer.control, k);
    }
}

/// What comes of a read: how much is read, which is as much as there is, or why
/// nothing is. A query counts all that is unread. What is taken is given back to
/// the producer.
pub proof fn law_read_result(v: DataPipeView, has_buffer: bool, n: u32, flags: ReadFlags)
    requires
        v.wf(),
    ensures
        ({
            let (r, after) = read_outcome(v, has_buffer, n, flags);
            let there = v.unread().len();
            let starved = |e: CoreError|
                if v.consumer.peer_closed {
                    CoreError::FailedPrecondition
                } else {
                    e
                };
            &&& match r {
                Ok((k, data)) => {
                    &&& v.consumer.two_phase is None
                    &&& !(flags.peek && flags.discard)
                    &&& flags.query ==> {
                        &&& !flags.peek && !flags.discard
                        &&& k == there
                        &&& data.len() == 0
                        &&& after.unread() == v.unread()
                    }
                    &&& !flags.query ==> {
                        &&& flags.discard || has_buffer || n == 0
                        &&& n % v.element_size == 0
                        &&& k == if n <= there {
                            n as int
                        } else {
                            there as int
                        }
                        &&& flags.all_or_none ==> k == n
                        &&& !flags.all_or_none ==> there > 0
                        &&& flags.discard ==> data.len() == 0
                    }
                },
                Err(e) => if (flags.peek && flags.discard) || (flags.query && (flags.peek
                    || flags.discard)) {
                    e == CoreError::InvalidArgument
                } else if !flags.discard && !flags.query && !has_buffer && n > 0 {
                    e == CoreError::InvalidArgument
                } else if v.consumer.two_phase is Some {
                    e == CoreError::Busy
                } else {
                    &&& !flags.query
                    &&& e == if n % v.element_size != 0 {
                        CoreError::InvalidArgument
                    } else if flags.all_or_none && n > there {
                        starved(CoreError::OutOfRange)
                    } else {
                        starved(CoreError::ShouldWait)
                    }
                    &&& n % v.element_size == 0 && !flags.all_or_none ==> there == 0
                    &&& n % v.element_size == 0 && flags.all_or_none ==> n > there
                },
            }
            &&& total(after.producer.control) == total(v.producer.control) + match r {
                Ok((k, _)) => if flags.query || flags.peek {
                    0
                } else {
                    k
                },
                Err(_) => 0,
            }
        }),
{
    let f = v.consumer_flushed();
    assert(total(Seq::<u32>::empty()) == 0);
    law_flush_keeps_unread(v);
    let (r, after) = read_outcome(v, has_buffer, n, flags);
    if let Ok((k, data)) = r {
        lemma_total_push(f.producer.control, k);
    }
}

/// What the start of a two-phase write comes to: a span behind all that is
/// unread, as long as the room and the end of the region let it be. Nothing is
/// written yet.
pub proof fn law_begin_write(v: DataPipeView)
    requires
        v.wf(),
    ensures
        ({
            let (r, after) = begin_write_outcome(v);
            let cap = v.ring.bytes.len() as int;
            &&& after.unread() == v.unread()
            &&& match r {
                Ok(span) => {
                    &&& v.producer.two_phase is None && !v.producer.peer_closed
                    &&& after.producer.two_phase == Some(span)
                    &&& span.start == wrapped_at(
                        v.consumer_range.offset as int,
                        v.unread().len() as int,
                        cap,
                    )
                    &&& 0 < span.len <= v.room()
                    &&& span.start + span.len <= cap
                    &&& span.len == v.room() || span.start + span.len == cap
                },
                Err(e) => e == if v.producer.two_phase is Some {
                    CoreError::Busy
                } else if v.producer.peer_closed {
                    CoreError::FailedPrecondition
                } else {
                    CoreError::ShouldWait
                },
            }
            &&& r is Ok == (v.producer.two_phase is None && !v.producer.peer_closed && v.room()
                > 0)
        }),
{
    assert(total(Seq::<u32>::empty()) == 0);
    law_flush_keeps_unread(v);
    assert(v.producer_flushed().ring.free_space() == v.room());
}

/// Filling the span of a two-phase write changes nothing that is unread, and
/// puts the data at the start of the span.
pub proof fn law_fill(v: DataPipeView, data: Seq<u8>)
    requires
        v.wf(),
        v.producer.two_phase matches Some(s) && data.len() <= s.len,
    ensures
        ({
            let s = v.producer.two_phase.unwrap();
            let after = v.filled(data);
            &&& after.unread() == v.unread()
            &&& after.ring.bytes.subrange(s.start as int, s.start + data.len()) == data
            &&& after.ring.bytes.len() == v.ring.bytes.len()
            &&& after.producer == v.producer
            &&& after.consumer == v.consumer
        }),
{
    let s = v.producer.two_phase.unwrap();
    let after = v.filled(data);
    let cap = v.ring.bytes.len() as int;
    assert(after.ring.bytes.len() == cap);
    assert(after.ring.bytes.subrange(s.start as int, s.start + data.len()) =~= data);
    assert forall|i: int| 0 <= i < v.unread().len() implies after.unread()[i] == v.unread()[i] by {
        let k = wrapped_at(v.consumer_range.offset as int, i, cap);
        assert(!(s.start <= k < s.start + data.len())) by {
            assert(v.ring.free_start() == wrapped_at(
                v.consumer_range.offset as int,
                v.unread().len() as int,
                cap,
            ));
        }
    }
    assert(after.unread() =~= v.unread());
}

/// What the end of a two-phase write comes to: the first `n` bytes of the span
/// stand behind all that is unread, and are announced. The write is over in any
/// case.
pub proof fn law_end_write(v: DataPipeView, n: u32)
    requires
        v.wf(),
    ensures
        ({
            let (r, after) = end_write_outcome(v, n);
            &&& after.producer.two_phase is None
            &&& match v.producer.two_phase {
                None => r == Err::<(), CoreError>(CoreError::FailedPrecondition) && after == v,
                Some(s) => if n % v.element_size == 0 && n <= s.len {
                    &&& r is Ok
                    &&& after.unread() == v.unread() + v.ring.bytes.subrange(
                        s.start as int,
                        s.start + n,
                    )
                    &&& total(after.consumer.control) == total(v.consumer.control) + n
                } else {
                    &&& r == Err::<(), CoreError>(CoreError::InvalidArgument)
                    &&& after.unread() == v.unread()
                    &&& after.consumer.control == v.consumer.control
                },
            }
        }),
{
    let (r, after) = end_write_outcome(v, n);
    let cap = v.ring.bytes.len() as int;
    match v.producer.two_phase {
        Some(s) => {
            if r is Ok {
                let more = v.ring.bytes.subrange(s.start as int, s.start + n);
                lemma_total_push(v.consumer.control, n);
                assert(after.unread() =~= v.unread() + more) by {
                    assert(v.ring.free_start() == wrapped_at(
                        v.consumer_range.offset as int,
                        v.unread().len() as int,
                        cap,
                    ));
                    assert forall|i: int|
                        0 <= i < v.unread().len() + n implies after.unread()[i] == (v.unread()
                        + more)[i] by {
                        let k = wrapped_at(v.consumer_range.offset as int, i, cap);
                        if i >= v.unread().len() {
                            assert(k == s.start + (i - v.unread().len()));
                        }
                    }
                }
            } else {
                assert(after.unread() =~= v.unread());
            }
        },
        None => {},
    }
}

/// What the start of a two-phase read comes to: a span that holds the first
/// unread bytes, as many as the end of the region lets it. Nothing is taken yet.
pub proof fn law_begin_read(v: DataPipeView)
    requires
        v.wf(),
    ensures
        ({
            let (r, after) = begin_read_outcome(v);
            let cap = v.ring.bytes.len() as int;
            &&& after.unread() == v.unread()
            &&& total(after.producer.control) == total(v.producer.control)
            &&& r is Ok == (v.consumer.two_phase is None && v.unread().len() > 0)
            &&& match r {
                Ok(span) => {
                    &&& after.consumer.two_phase == Some(span)
                    &&& 0 < span.len <= v.unread().len()
                    &&& after.ring.bytes.subrange(span.start as int, span.start + span.len)
                        == v.unread().take(span.len as int)
                    &&& span.len == v.unread().len() || span.start + span.len == cap
                },
                Err(e) => e == if v.consumer.two_phase is Some {
                    CoreError::Busy
                } else if v.consumer.peer_closed {
                    CoreError::FailedPrecondition
                } else {
                    CoreError::ShouldWait
                },
            }
        }),
{
    let (r, after) = begin_read_outcome(v);
    assert(total(Seq::<u32>::empty()) == 0);
    law_flush_keeps_unread(v);
    assert(after.unread() =~= v.unread());
    if let Ok(span) = r {
        assert(after.ring.bytes.subrange(span.start as int, span.start + span.len)
            =~= v.unread().take(span.len as int));
    }
}

/// What the end of a two-phase read comes to: exactly the first `n` unread bytes
/// are gone, and given back to the producer. The read is over in any case.
pub proof fn law_end_read(v: DataPipeView, n: u32)
    requires
        v.wf(),
    ensures
        ({
            let (r, after) = end_read_outcome(v, n);
            &&& after.consumer.two_phase is None
            &&& match v.consumer.two_phase {
                None => r == Err::<(), CoreError>(CoreError::FailedPrecondition) && after == v,
                Some(s) => if n % v.element_size == 0 && n <= s.len {
                    &&& r is Ok
                    &&& after.unread() == v.unread().skip(n as int)
                    &&& total(after.producer.control) == total(v.producer.control) + n
                } else {
                    &&& r == Err::<(), CoreError>(CoreError::InvalidArgument)
                    &&& after.unread() == v.unread()
                    &&& after.producer.control == v.producer.control
                },
            }
        }),
{
    let (r, after) = end_read_outcome(v, n);
    match v.consumer.two_phase {
        Some(s) => {
            if r is Ok {
                lemma_total_push(v.producer.control, n);
                assert(after.unread() =~= v.unread().skip(n as int));
            } else {
                assert(after.unread() =~= v.unread());
            }
        },
        None => {},
    }
}

/// Closing an end is seen by the other, and loses nothing that is unread;
/// closing it again changes nothing.
pub proof fn law_data_close_is_seen(v: DataPipeView, end: DataPipeEnd)
    ensures
        ({
            let after = close_outcome(v, end);
            &&& after.unread() == v.unread()
            &&& end is Producer ==> after.producer.local_closed && (v.producer.local_closed
                || after.consumer.peer_closed)
            &&& end is Consumer ==> after.consumer.local_closed && (v.consumer.local_closed
                || after.producer.peer_closed)
            &&& close_outcome(after, end) == after
            &&& after.producer.control == v.producer.control
            &&& after.consumer.control == v.consumer.control
            &&& after.producer.two_phase == v.producer.two_phase
            &&& after.consumer.two_phase == v.consumer.two_phase
            &&& end is Producer ==> after.producer.peer_closed == v.producer.peer_closed
            &&& end is Consumer ==> after.consumer.peer_closed == v.consumer.peer_closed
        }),
{
}

proof fn lemma_data_signal_bits()
    ensures
        ({
            let open = 4u32 | 16 | 1 | 8;
            &&& forall|c: bool, x: bool, y: bool|
                #![trigger data_bits(c, x, y)]
                {
                    let b = data_bits(c, x, y);
                    (b & 4 == 4) == c && (b & 8 == 8) == x && (b & 1 == 1) == y
                }
            &&& open & 1 == 1 && open & 8 == 8 && open & 4 == 4
            &&& (4u32 | 16 | 2) & 2 == 2 && (4u32 | 16 | 2) & 4 == 4
            &&& 2u32 & 2 == 2 && 0u32 & 2 != 2 && 4u32 & 2 != 2 && 4u32 & 4 == 4 && 2u32 & 4 != 4
                && 0u32 & 4 != 4
        }),
{
    assert({
        let open = 4u32 | 16 | 1 | 8;
        &&& open & 1 == 1 && open & 8 == 8 && open & 4 == 4
        &&& (4u32 | 16 | 2) & 2 == 2 && (4u32 | 16 | 2) & 4 == 4
        &&& 2u32 & 2 == 2 && 0u32 & 2 != 2 && 4u32 & 2 != 2 && 4u32 & 4 == 4 && 2u32 & 4 != 4
            && 0u32 & 4 != 4
    }) by (bit_vector);
    assert forall|c: bool, x: bool, y: bool|
        #![trigger data_bits(c, x, y)]
        {
            let b = data_bits(c, x, y);
            (b & 4 == 4) == c && (b & 8 == 8) == x && (b & 1 == 1) == y
        } by {
        assert({
            let b = (if c { 4u32 } else { 0 }) | (if x { 8u32 } else { 0 }) | (if y { 1u32 } else {
                0
            });
            (b & 4 == 4) == c && (b & 8 == 8) == x && (b & 1 == 1) == y
        }) by (bit_vector);
    }
}

spec fn data_bits(c: bool, x: bool, y: bool) -> u32 {
    (if c { 4u32 } else { 0 }) | (if x { 8u32 } else { 0 }) | (if y { 1u32 } else { 0 })
}

/// What the signals of the consumer mean, once it took in what was announced:
/// READABLE while bytes are unread or news is there, NEW_DATA_READABLE while
/// news is there, PEER_CLOSED once the producer is closed. While the producer
/// is open all of these can come; afterwards, only what is there.
pub proof fn law_consumer_signals(v: DataPipeView)
    requires
        v.wf(),
    ensures
        ({
            let s = v.consumer_flushed().consumer_signals();
            let news = v.consumer.has_new_data || total(v.consumer.control) > 0;
            &&& s.satisfied.has(Signals::readable()) == (news || v.unread().len() > 0)
            &&& s.satisfied.has(Signals::new_data_readable()) == news
            &&& s.satisfied.has(Signals::peer_closed()) == v.consumer.peer_closed
            &&& s.satisfiable.has(Signals::peer_closed())
            &&& s.satisfiable.has(Signals::readable()) == (!v.consumer.peer_closed || news
                || v.unread().len() > 0)
            &&& s.satisfiable.has(Signals::new_data_readable()) == (!v.consumer.peer_closed || news)
        }),
{
    let f = v.consumer_flushed();
    assert(total(Seq::<u32>::empty()) == 0);
    law_flush_keeps_unread(v);
    lemma_data_signal_bits();
    let any = f.new_data() || f.consumer_range.size > 0;
    let b = data_bits(f.consumer.peer_closed, f.new_data(), any);
    assert(f.consumer_signals().satisfied.0 == b);
    assert(data_bits(true, f.new_data(), any) == (4u32 | (if f.new_data() { 8u32 } else { 0 }) | (
    if any { 1u32 } else { 0 })));
}

/// What the signals of the producer mean, once it took in what was given back:
/// WRITABLE while there is room and the consumer is open, PEER_CLOSED once it is
/// not.
pub proof fn law_producer_signals(v: DataPipeView)
    requires
        v.wf(),
    ensures
        ({
            let s = v.producer_flushed().producer_signals();
            &&& s.satisfied.has(Signals::writable()) == (!v.producer.peer_closed && v.room() > 0)
            &&& s.satisfied.has(Signals::peer_closed()) == v.producer.peer_closed
            &&& s.satisfiable.has(Signals::writable()) == !v.producer.peer_closed
            &&& s.satisfiable.has(Signals::peer_closed())
        }),
{
    assert(total(Seq::<u32>::empty()) == 0);
    law_flush_keeps_unread(v);
    lemma_data_signal_bits();
    assert(v.producer_flushed().ring.free_space() == v.room());
}

/// An operation that moves data tells the watchers of the other end, whom the
/// new state concerns, and nobody else.
pub proof fn law_data_moves_are_told(v: DataPipeView, n: u32)
    ensures
        ({
            let a = v.announced(n);
            let w = DataPipeView {
                consumer: DataEndView { control: v.consumer.control.push(n), ..v.consumer },
                ..v
            };
            &&& a.outbox == v.outbox + fired(v.consumer.watchers, w.consumer_signals())
            &&& a.consumer.has_new_data
            &&& a.consumer.control == v.consumer.control.push(n)
            &&& a.producer == v.producer
            &&& a.ring == v.ring
        }),
        ({
            let g = v.given_back(n);
            let w = DataPipeView {
                producer: DataEndView { control: v.producer.control.push(n), ..v.producer },
                ..v
            };
            &&& g.outbox == v.outbox + fired(v.producer.watchers, w.producer_signals())
            &&& g.producer.control == v.producer.control.push(n)
            &&& g.consumer == v.consumer
            &&& g.ring == v.ring
        }),
{
}

} // verus!
