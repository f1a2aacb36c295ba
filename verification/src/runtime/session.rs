//! A session: a handle table with the objects behind its handles and the traps
//! that watch them.
//!
//! A session hands notifications from pipes to traps, and closes what nobody
//! can reach any more: a handle that is dropped closes its end, and a pipe
//! whose ends are both closed and which no trap watches drops the messages
//! queued in it together with the handles they carry.

use std::collections::VecDeque;
use vstd::prelude::*;

use crate::runtime::dispatcher::DispatcherRef;
use crate::runtime::error::CoreError;
use crate::runtime::handle::{Handle, HandleTable};
#[allow(unused_imports)]
use crate::runtime::handle::{live, Entry, TableView};
use crate::runtime::message::Message;
#[allow(unused_imports)]
use crate::runtime::message::MessageView;
use crate::runtime::objects::Objects;
#[allow(unused_imports)]
use crate::runtime::objects::ObjectsView;
use crate::runtime::pipe::{End, MessagePipe, ReadOutcome};
#[allow(unused_imports)]
use crate::runtime::pipe::{
    law_endpoint_signals, outcome_view, read_result, EndpointView, PipeView, ReadResult,
};
use crate::runtime::signal::Signals;
use crate::runtime::trap::{Trap, TrapEvent, Trigger};
#[allow(unused_imports)]
use crate::runtime::trap::{
    answers, cancelled_event, close_events, delivered, find_trigger, immediate_events,
    law_change_event, TrapView,
};
use crate::runtime::watch::{Notification, WatchTarget};
#[allow(unused_imports)]
use crate::runtime::watch::{cancellations, fired, Watcher};

verus! {

/// A handle table with the objects behind its handles and the traps.
#[derive(Debug)]
pub struct Session {
    /// The handles.
    pub table: HandleTable,
    /// The pipes.
    pub objects: Objects,
    /// The traps by number; `None` for one that is closed.
    pub traps: Vec<Option<Trap>>,
    /// The events delivered to each trap and not yet taken.
    pub sinks: Vec<Vec<TrapEvent>>,
    /// The descriptors whose handles were closed.
    pub released: Vec<i32>,
}

/// What a session holds.
#[verifier::ext_equal]
pub struct SessionView {
    /// The handles.
    pub table: TableView,
    /// The pipes.
    pub objects: ObjectsView,
    /// The traps by number.
    pub traps: Seq<Option<TrapView>>,
    /// The events delivered to each trap and not yet taken.
    pub sinks: Seq<Seq<TrapEvent>>,
    /// The descriptors whose handles were closed.
    pub released: Seq<i32>,
}

/// The trap that is there, if any.
pub open spec fn opt_trap(o: Option<Trap>) -> Option<TrapView> {
    match o {
        Some(t) => Some(t@),
        None => None,
    }
}

impl View for Session {
    type V = SessionView;

    open spec fn view(&self) -> SessionView {
        SessionView {
            table: self.table@,
            objects: self.objects@,
            traps: self.traps@.map_values(|t: Option<Trap>| opt_trap(t)),
            sinks: self.sinks@.map_values(|s: Vec<TrapEvent>| s@),
            released: self.released@,
        }
    }
}

/// The handles that queued messages carry, in order.
pub open spec fn handles_in(queue: Seq<MessageView>) -> Seq<Handle>
    decreases queue.len(),
{
    if queue.len() == 0 {
        Seq::empty()
    } else {
        queue[0].handles + handles_in(queue.drop_first())
    }
}

/// Whether a trigger watches a message pipe.
pub open spec fn watches(t: Trigger, pipe: usize) -> bool {
    t.dispatcher matches DispatcherRef::MessagePipe { pipe: p, end: _ } && p == pipe
}

/// Whether one of the triggers watches a message pipe.
pub open spec fn any_watches(ts: Seq<Trigger>, pipe: usize) -> bool {
    exists|j: int| 0 <= j < ts.len() && #[trigger] watches(ts[j], pipe)
}

/// Whether a trap has a trigger, removed or not, on a message pipe.
pub open spec fn trap_holds(t: Option<TrapView>, pipe: usize) -> bool {
    match t {
        Some(t) => any_watches(t.triggers, pipe),
        None => false,
    }
}

/// The pipe without what is queued in it.
pub open spec fn emptied(p: PipeView) -> PipeView {
    PipeView {
        a: EndpointView { queue: Seq::empty(), ..p.a },
        b: EndpointView { queue: Seq::empty(), ..p.b },
        ..p
    }
}

impl SessionView {
    /// The invariant: the table and the pipes keep theirs, and each trap has
    /// its list of events.
    pub open spec fn wf(self) -> bool {
        &&& self.table.wf()
        &&& self.objects.wf()
        &&& self.traps.len() == self.sinks.len()
    }

    /// With another trap and other events under a number.
    pub open spec fn with_trap(self, i: int, t: Option<TrapView>, sink: Seq<TrapEvent>) -> SessionView {
        SessionView { traps: self.traps.update(i, t), sinks: self.sinks.update(i, sink), ..self }
    }

    /// After one notification was handed on.
    pub open spec fn notified(self, n: Notification) -> SessionView {
        match n.target {
            WatchTarget::Trap { trap, context } => if trap < self.traps.len() {
                match self.traps[trap as int] {
                    Some(t) => {
                        let (e, after) = t.watched(context, n.state, n.kind);
                        self.with_trap(
                            trap as int,
                            Some(after),
                            delivered(self.sinks[trap as int], e),
                        )
                    },
                    None => self,
                }
            } else {
                self
            },
            WatchTarget::Waiter(_) => self,
        }
    }

    /// After notifications were handed on, in order.
    pub open spec fn all_notified(self, ns: Seq<Notification>) -> SessionView
        decreases ns.len(),
    {
        if ns.len() == 0 {
            self
        } else {
            self.all_notified(ns.drop_last()).notified(ns.last())
        }
    }

    /// After the notifications of a message pipe were handed on.
    pub open spec fn pumped(self, pipe: usize) -> SessionView {
        if pipe < self.objects.pipes.len() {
            let p = self.objects.pipes[pipe as int];
            SessionView {
                objects: self.objects.with_pipe(
                    pipe as int,
                    PipeView { outbox: Seq::empty(), ..p },
                ),
                ..self
            }.all_notified(p.outbox)
        } else {
            self
        }
    }

    /// Whether a trap has a trigger on a message pipe.
    pub open spec fn held(self, pipe: usize) -> bool {
        exists|i: int| 0 <= i < self.traps.len() && trap_holds(#[trigger] self.traps[i], pipe)
    }

    /// Whether nobody can reach a message pipe any more.
    pub open spec fn unreachable(self, pipe: usize) -> bool {
        &&& pipe < self.objects.pipes.len()
        &&& self.objects.pipes[pipe as int].a.local_closed
        &&& self.objects.pipes[pipe as int].b.local_closed
        &&& !self.held(pipe)
    }

    /// With a message pipe emptied if nobody can reach it; and the handles that
    /// were queued in it.
    pub open spec fn swept(self, pipe: usize) -> (SessionView, Seq<Handle>) {
        if self.unreachable(pipe) {
            let p = self.objects.pipes[pipe as int];
            (
                SessionView { objects: self.objects.with_pipe(pipe as int, emptied(p)), ..self },
                handles_in(p.a.queue) + handles_in(p.b.queue),
            )
        } else {
            (self, Seq::empty())
        }
    }

    /// After a handle was closed; and the handles that are to be closed with
    /// it.
    pub open spec fn one_closed(self, h: Handle) -> (SessionView, Seq<Handle>) {
        match self.table.entry_for(h.slot.0 as int, h.value) {
            None => (self, Seq::empty()),
            Some(e) => {
                let s = SessionView {
                    table: self.table.closed(h.slot.0, h.value),
                    objects: self.objects.closing(e.dispatcher),
                    ..self
                };
                match e.dispatcher {
                    DispatcherRef::MessagePipe { pipe, .. } => s.pumped(pipe).swept(pipe),
                    DispatcherRef::PlatformHandle(fd) => (
                        SessionView { released: s.released.push(fd), ..s },
                        Seq::empty(),
                    ),
                    _ => (s, Seq::empty()),
                }
            },
        }
    }

    /// After handles were closed, in order; what a close sets free is closed
    /// before the next.
    pub open spec fn all_closed(self, work: Seq<Handle>) -> SessionView
        decreases live(self.table.entries), work.len(),
    {
        if work.len() == 0 {
            self
        } else {
            let (s, more) = self.one_closed(work[0]);
            if live(s.table.entries) < live(self.table.entries) {
                s.all_closed(more + work.drop_first())
            } else {
                self.all_closed(work.drop_first())
            }
        }
    }

    /// After the objects that triggers watched were let go, in order.
    pub open spec fn all_let_go(self, ts: Seq<Trigger>) -> SessionView
        decreases ts.len(),
    {
        if ts.len() == 0 {
            self
        } else {
            let s = self.all_let_go(ts.drop_last());
            match ts.last().dispatcher {
                DispatcherRef::MessagePipe { pipe, .. } => {
                    let (t, work) = s.swept(pipe);
                    t.all_closed(work)
                },
                _ => s,
            }
        }
    }

    /// After a trap was dropped without closing it.
    pub open spec fn trap_dropped(self, i: int) -> SessionView {
        match self.traps[i] {
            Some(t) => SessionView { traps: self.traps.update(i, None), ..self }.all_let_go(
                t.triggers,
            ),
            None => self,
        }
    }

    /// After a trap was closed.
    pub open spec fn trap_closed(self, i: int) -> SessionView {
        match self.traps[i] {
            Some(t) => {
                let (events, o) = close_events(t.triggers, self.objects);
                SessionView { objects: o, ..self }.with_trap(
                    i,
                    None,
                    self.sinks[i] + events,
                ).all_let_go(t.triggers)
            },
            None => self,
        }
    }

    /// After one more trap was made.
    pub open spec fn trap_added(self) -> SessionView {
        SessionView {
            traps: self.traps.push(Some(TrapView { triggers: Seq::empty(), armed: false })),
            sinks: self.sinks.push(Seq::empty()),
            ..self
        }
    }

    /// After a message was written into a message pipe: refused, its handles
    /// are closed.
    pub open spec fn written(self, pipe: usize, end: End, m: MessageView) -> (
        Result<(), CoreError>,
        SessionView,
    ) {
        let p = self.objects.pipes[pipe as int];
        match p.write_error(end) {
            Some(e) => (Err(e), self.all_closed(m.handles)),
            None => (
                Ok(()),
                SessionView {
                    objects: self.objects.with_pipe(pipe as int, p.written(end, m)),
                    ..self
                }.pumped(pipe),
            ),
        }
    }

    /// After a message was read from a message pipe.
    pub open spec fn read(self, pipe: usize, end: End) -> (ReadResult, SessionView) {
        let p = self.objects.pipes[pipe as int];
        let r = read_result(p.at(end), None, false);
        (
            r,
            if r is Message {
                SessionView {
                    objects: self.objects.with_pipe(pipe as int, p.taken(end)),
                    ..self
                }.pumped(pipe)
            } else {
                self
            },
        )
    }
}

proof fn lemma_live_update(s: Seq<Option<Entry>>, i: int)
    requires
        0 <= i < s.len(),
        s[i] is Some,
    ensures
        live(s.update(i, None)) + 1 == live(s),
    decreases s.len(),
{
    let t = s.update(i, None);
    if i == s.len() - 1 {
        assert(t.drop_last() =~= s.drop_last());
    } else {
        lemma_live_update(s.drop_last(), i);
        assert(t.drop_last() =~= s.drop_last().update(i, None));
    }
}

proof fn lemma_notified_keeps(v: SessionView, ns: Seq<Notification>)
    ensures
        v.all_notified(ns).table == v.table,
        v.all_notified(ns).objects == v.objects,
        v.all_notified(ns).released == v.released,
        v.all_notified(ns).traps.len() == v.traps.len(),
    decreases ns.len(),
{
    if ns.len() > 0 {
        lemma_notified_keeps(v, ns.drop_last());
    }
}

proof fn lemma_one_closed_live(v: SessionView, h: Handle)
    ensures
        match v.table.entry_for(h.slot.0 as int, h.value) {
            Some(_) => live(v.one_closed(h).0.table.entries) + 1 == live(v.table.entries),
            None => v.one_closed(h) == (v, Seq::<Handle>::empty()),
        },
{
    match v.table.entry_for(h.slot.0 as int, h.value) {
        Some(e) => {
            lemma_live_update(v.table.entries, h.slot.0 as int);
            let s = SessionView {
                table: v.table.closed(h.slot.0, h.value),
                objects: v.objects.closing(e.dispatcher),
                ..v
            };
            match e.dispatcher {
                DispatcherRef::MessagePipe { pipe, .. } => {
                    if pipe < s.objects.pipes.len() {
                        let p = s.objects.pipes[pipe as int];
                        lemma_notified_keeps(
                            SessionView {
                                objects: s.objects.with_pipe(
                                    pipe as int,
                                    PipeView { outbox: Seq::empty(), ..p },
                                ),
                                ..s
                            },
                            p.outbox,
                        );
                    }
                },
                _ => {},
            }
        },
        None => {},
    }
}

/// The handles that the messages of a queue carry; the queue is empty after.
fn take_queued(queue: &mut VecDeque<Message>) -> (r: Vec<Handle>)
    ensures
        r@ == handles_in(old(queue)@.map_values(|m: Message| m@)),
        final(queue)@.len() == 0,
{
    let mut out: Vec<Handle> = Vec::new();
    let ghost all = handles_in(queue@.map_values(|m: Message| m@));
    assert(out@ + all =~= all);
    while queue.len() > 0
        invariant
            out@ + handles_in(queue@.map_values(|m: Message| m@)) == all,
        decreases queue@.len(),
    {
        let ghost before = queue@.map_values(|m: Message| m@);
        let message = queue.pop_front().unwrap();
        let ghost out0 = out@;
        let ghost m = message@;
        let mut handles = message.into_handles();
        out.append(&mut handles);
        proof {
            assert(queue@.map_values(|m: Message| m@) =~= before.drop_first());
            assert(before[0] == m);
            assert(out@ =~= out0 + m.handles);
            let rest = handles_in(before.drop_first());
            assert((out0 + m.handles) + rest =~= out0 + (m.handles + rest));
        }
    }
    assert(out@ + Seq::<Handle>::empty() =~= out@);
    out
}

/// A session without handles, objects and traps.
pub open spec fn fresh_session() -> SessionView {
    SessionView {
        table: TableView { entries: Seq::empty(), generations: Seq::empty(), free: Seq::empty() },
        objects: ObjectsView { pipes: Seq::empty(), data_pipes: Seq::empty() },
        traps: Seq::empty(),
        sinks: Seq::empty(),
        released: Seq::empty(),
    }
}

impl Session {
    /// A session without handles, objects and traps.
    pub fn new() -> (r: Session)
        ensures
            r@.wf(),
            r@ == fresh_session(),
    {
        let r = Session {
            table: HandleTable::new(),
            objects: Objects::new(),
            traps: Vec::new(),
            sinks: Vec::new(),
            released: Vec::new(),
        };
        assert(r@.traps =~= Seq::empty());
        assert(r@.sinks =~= Seq::empty());
        r
    }

    fn notify(&mut self, n: Notification)
        requires
            old(self)@.wf(),
        ensures
            final(self)@.wf(),
            final(self)@ == old(self)@.notified(n),
    {
        let ghost before = self@;
        match n.target {
            WatchTarget::Trap { trap, context } => {
                if trap < self.traps.len() as u64 {
                    let i: usize = trap as usize;
                    if self.traps[i].is_some() {
                        let mut t = self.take_trap(i);
                        t.on_watch(context, n.state, n.kind, &mut self.sinks[i]);
                        self.put_trap(i, t);
                        assert(self@ =~= before.notified(n));
                    }
                }
            },
            WatchTarget::Waiter(_) => {},
        }
    }

    fn take_trap(&mut self, i: usize) -> (r: Trap)
        requires
            i < old(self)@.traps.len(),
            old(self)@.traps[i as int] is Some,
        ensures
            r@ == old(self)@.traps[i as int].unwrap(),
            final(self)@ == (SessionView { traps: old(self)@.traps.update(i as int, None), ..old(
                self,
            )@ }),
    {
        let mut slot: Option<Trap> = None;
        let ghost before = self.traps@;
        std::mem::swap(&mut slot, &mut self.traps[i]);
        assert(self@.traps =~= old(self)@.traps.update(i as int, None));
        slot.unwrap()
    }

    fn put_trap(&mut self, i: usize, t: Trap)
        requires
            i < old(self)@.traps.len(),
        ensures
            final(self)@ == (SessionView { traps: old(self)@.traps.update(i as int, Some(t@)), ..old(
                self,
            )@ }),
    {
        let ghost view = t@;
        self.traps.set(i, Some(t));
        assert(self@.traps =~= old(self)@.traps.update(i as int, Some(view)));
    }

    fn pump(&mut self, pipe: usize)
        requires
            old(self)@.wf(),
        ensures
            final(self)@.wf(),
            final(self)@ == old(self)@.pumped(pipe),
    {
        let ghost v0 = self@;
        if pipe >= self.objects.pipes.len() {
            return;
        }
        let ns = self.objects.pipes[pipe].take_notifications();
        let ghost v1 = SessionView {
            objects: v0.objects.with_pipe(
                pipe as int,
                PipeView { outbox: Seq::empty(), ..v0.objects.pipes[pipe as int] },
            ),
            ..v0
        };
        assert(self@ =~= v1);
        let mut i: usize = 0;
        assert(ns@.take(0) =~= Seq::empty());
        while i < ns.len()
            invariant
                i <= ns@.len(),
                self@.wf(),
                self@ == v1.all_notified(ns@.take(i as int)),
            decreases ns@.len() - i,
        {
            proof {
                let next = ns@.take(i as int + 1);
                assert(next.drop_last() =~= ns@.take(i as int));
                assert(next.last() == ns@[i as int]);
            }
            self.notify(ns[i]);
            i = i + 1;
        }
        assert(ns@.take(i as int) =~= ns@);
    }

    fn trap_watches(&self, i: usize, pipe: usize) -> (r: bool)
        requires
            i < self@.traps.len(),
        ensures
            r == trap_holds(self@.traps[i as int], pipe),
    {
        match &self.traps[i] {
            None => false,
            Some(t) => {
                let mut j: usize = 0;
                assert(self@.traps[i as int] == Some(t@));
                while j < t.triggers.len()
                    invariant
                        j <= t.triggers@.len(),
                        self@.traps[i as int] == Some(t@),
                        forall|k: int|
                            0 <= k < j ==> !(#[trigger] watches(t.triggers@[k], pipe)),
                    decreases t.triggers@.len() - j,
                {
                    let same = match t.triggers[j].dispatcher {
                        DispatcherRef::MessagePipe { pipe: p, .. } => p == pipe,
                        _ => false,
                    };
                    if same {
                        assert(0 <= j < t@.triggers.len() && watches(t@.triggers[j as int], pipe));
                        return true;
                    }
                    j = j + 1;
                }
                false
            },
        }
    }

    fn is_held(&self, pipe: usize) -> (r: bool)
        ensures
            r == self@.held(pipe),
    {
        let mut i: usize = 0;
        while i < self.traps.len()
            invariant
                i <= self.traps@.len(),
                forall|k: int| 0 <= k < i ==> !trap_holds(#[trigger] self@.traps[k], pipe),
            decreases self.traps@.len() - i,
        {
            if self.trap_watches(i, pipe) {
                assert(trap_holds(self@.traps[i as int], pipe));
                return true;
            }
            i = i + 1;
        }
        false
    }

    fn sweep(&mut self, pipe: usize) -> (r: Vec<Handle>)
        requires
            old(self)@.wf(),
        ensures
            final(self)@.wf(),
            (final(self)@, r@) == old(self)@.swept(pipe),
    {
        let ghost v0 = self@;
        if pipe >= self.objects.pipes.len() || !self.objects.pipes[pipe].a.local_closed
            || !self.objects.pipes[pipe].b.local_closed || self.is_held(pipe) {
            return Vec::new();
        }
        let mut out = take_queued(&mut self.objects.pipes[pipe].a.queue);
        let mut more = take_queued(&mut self.objects.pipes[pipe].b.queue);
        out.append(&mut more);
        proof {
            assert(self@.objects.pipes[pipe as int] =~= emptied(v0.objects.pipes[pipe as int]));
            assert(self@.objects.pipes =~= v0.swept(pipe).0.objects.pipes);
            assert(self@ =~= v0.swept(pipe).0);
        }
        out
    }

    /// Close one handle; returns the handles that are to be closed with it.
    fn close_one(&mut self, handle: Handle) -> (r: Vec<Handle>)
        requires
            old(self)@.wf(),
        ensures
            final(self)@.wf(),
            (final(self)@, r@) == old(self)@.one_closed(handle),
    {
        let ghost v0 = self@;
        match self.table.close(handle) {
            None => {
                assert(self@ =~= v0);
                Vec::new()
            },
            Some(d) => {
                self.objects.on_closed(d);
                match d {
                    DispatcherRef::MessagePipe { pipe, .. } => {
                        self.pump(pipe);
                        self.sweep(pipe)
                    },
                    DispatcherRef::PlatformHandle(fd) => {
                        self.released.push(fd);
                        Vec::new()
                    },
                    _ => Vec::new(),
                }
            },
        }
    }

    /// Close handles, in order; what a close sets free is closed before the
    /// next.
    pub fn close_handles(&mut self, handles: Vec<Handle>)
        requires
            old(self)@.wf(),
        ensures
            final(self)@.wf(),
            final(self)@ == old(self)@.all_closed(handles@),
    {
        let ghost want = self@.all_closed(handles@);
        let mut work: VecDeque<Handle> = VecDeque::new();
        let mut handles = handles;
        let ghost all = handles@;
        assert(handles@ + work@ =~= all);
        while handles.len() > 0
            invariant
                handles@ + work@ == all,
            decreases handles@.len(),
        {
            let ghost h0 = handles@;
            let ghost w0 = work@;
            let h = handles.pop().unwrap();
            work.push_front(h);
            assert(handles@ + work@ =~= h0 + w0);
        }
        assert(work@ =~= all);
        while work.len() > 0
            invariant
                self@.wf(),
                want == self@.all_closed(work@),
            decreases live(self@.table.entries), work@.len(),
        {
            let ghost v0 = self@;
            let ghost w0 = work@;
            let h = work.pop_front().unwrap();
            proof {
                lemma_one_closed_live(v0, w0[0]);
                assert(work@ =~= w0.drop_first());
            }
            let mut more = self.close_one(h);
            let ghost all_more = more@;
            let ghost rest = work@;
            assert(more@ + work@ =~= all_more + rest);
            while more.len() > 0
                invariant
                    more@ + work@ == all_more + rest,
                decreases more@.len(),
            {
                let ghost m0 = more@;
                let ghost w1 = work@;
                let x = more.pop().unwrap();
                work.push_front(x);
                assert(more@ + work@ =~= m0 + w1);
            }
            proof {
                assert(work@ =~= all_more + rest);
                if live(self@.table.entries) < live(v0.table.entries) {
                } else {
                    assert(all_more.len() == 0);
                    assert(work@ =~= rest);
                }
            }
        }
    }

    fn let_go(&mut self, triggers: Vec<Trigger>)
        requires
            old(self)@.wf(),
        ensures
            final(self)@.wf(),
            final(self)@ == old(self)@.all_let_go(triggers@),
    {
        let ghost v0 = self@;
        let mut i: usize = 0;
        assert(triggers@.take(0) =~= Seq::empty());
        while i < triggers.len()
            invariant
                i <= triggers@.len(),
                self@.wf(),
                self@ == v0.all_let_go(triggers@.take(i as int)),
            decreases triggers@.len() - i,
        {
            proof {
                let next = triggers@.take(i as int + 1);
                assert(next.drop_last() =~= triggers@.take(i as int));
                assert(next.last() == triggers@[i as int]);
            }
            match triggers[i].dispatcher {
                DispatcherRef::MessagePipe { pipe, .. } => {
                    let work = self.sweep(pipe);
                    self.close_handles(work);
                },
                _ => {},
            }
            i = i + 1;
        }
        assert(triggers@.take(i as int) =~= triggers@);
    }

    /// Make one more trap, and return its number.
    pub fn add_trap(&mut self) -> (r: u64)
        requires
            old(self)@.wf(),
        ensures
            final(self)@.wf(),
            r == old(self)@.traps.len(),
            final(self)@ == old(self)@.trap_added(),
    {
        let n: usize = self.traps.len();
        self.traps.push(Some(Trap::create()));
        self.sinks.push(Vec::new());
        assert(self@ =~= old(self)@.trap_added());
        n as u64
    }

    /// Drop a trap without closing it.
    pub fn drop_trap(&mut self, i: usize)
        requires
            old(self)@.wf(),
            i < old(self)@.traps.len(),
        ensures
            final(self)@.wf(),
            final(self)@ == old(self)@.trap_dropped(i as int),
    {
        if self.traps[i].is_some() {
            let t = self.take_trap(i);
            self.let_go(t.triggers);
        }
    }

    /// Close a trap: each of its triggers is cancelled.
    pub fn close_trap(&mut self, i: usize)
        requires
            old(self)@.wf(),
            i < old(self)@.traps.len(),
        ensures
            final(self)@.wf(),
            final(self)@ == old(self)@.trap_closed(i as int),
    {
        let ghost v0 = self@;
        if self.traps[i].is_some() {
            let mut t = self.take_trap(i);
            let mut triggers: Vec<Trigger> = Vec::new();
            let mut j: usize = 0;
            while j < t.triggers.len()
                invariant
                    j <= t.triggers@.len(),
                    triggers@ == t.triggers@.take(j as int),
                decreases t.triggers@.len() - j,
            {
                triggers.push(t.triggers[j]);
                assert(triggers@ =~= t.triggers@.take(j as int + 1));
                j = j + 1;
            }
            assert(triggers@ =~= t.triggers@);
            t.close(&mut self.objects, &mut self.sinks[i]);
            proof {
                let (events, o) = close_events(triggers@, v0.objects);
                assert(self@ =~= (SessionView { objects: o, ..v0 }).with_trap(
                    i as int,
                    None,
                    v0.sinks[i as int] + events,
                ));
            }
            self.let_go(triggers);
        }
    }

    /// Register a trigger with a trap.
    pub fn add_trigger(&mut self, i: usize, d: DispatcherRef, signals: Signals, context: u64) -> (r:
        Result<(), CoreError>)
        requires
            old(self)@.wf(),
            i < old(self)@.traps.len(),
            old(self)@.traps[i as int] is Some,
        ensures
            final(self)@.wf(),
            r is Ok,
            ({
                let t = old(self)@.traps[i as int].unwrap();
                let (watch, o) = old(self)@.objects.watching(
                    d,
                    signals,
                    WatchTarget::Trap { trap: i as u64, context },
                );
                final(self)@ == (SessionView { objects: o, ..old(self)@ }).with_trap(
                    i as int,
                    Some(
                        TrapView {
                            triggers: t.triggers.push(
                                Trigger { watch, dispatcher: d, signals, context, removed: false },
                            ),
                            ..t
                        },
                    ),
                    old(self)@.sinks[i as int],
                )
            }),
    {
        let ghost v0 = self@;
        let mut t = self.take_trap(i);
        let r = t.add_trigger(&mut self.objects, i as u64, d, signals, context);
        self.put_trap(i, t);
        assert(self@.sinks =~= v0.sinks.update(i as int, v0.sinks[i as int]));
        r
    }

    /// Remove a trigger from a trap.
    pub fn remove_trigger(&mut self, i: usize, context: u64) -> (r: Result<(), CoreError>)
        requires
            old(self)@.wf(),
            i < old(self)@.traps.len(),
            old(self)@.traps[i as int] is Some,
        ensures
            final(self)@.wf(),
            ({
                let t = old(self)@.traps[i as int].unwrap();
                match find_trigger(t.triggers, context) {
                    Some(k) => r is Ok && final(self)@ == (SessionView {
                        objects: old(self)@.objects.unwatching(
                            t.triggers[k].dispatcher,
                            t.triggers[k].watch,
                        ),
                        ..old(self)@
                    }).with_trap(
                        i as int,
                        Some(t.without(k)),
                        old(self)@.sinks[i as int].push(cancelled_event(context)),
                    ),
                    None => r == Err::<(), CoreError>(CoreError::NotFound) && final(self)@ == old(
                        self,
                    )@,
                }
            }),
    {
        let ghost v0 = self@;
        let mut t = self.take_trap(i);
        let r = t.remove_trigger(&mut self.objects, context, &mut self.sinks[i]);
        self.put_trap(i, t);
        proof {
            let t0 = v0.traps[i as int].unwrap();
            match find_trigger(t0.triggers, context) {
                Some(k) => {
                    assert(self@ =~= (SessionView {
                        objects: v0.objects.unwatching(
                            t0.triggers[k].dispatcher,
                            t0.triggers[k].watch,
                        ),
                        ..v0
                    }).with_trap(
                        i as int,
                        Some(t0.without(k)),
                        v0.sinks[i as int].push(cancelled_event(context)),
                    ));
                },
                None => {
                    assert(self@ =~= v0);
                },
            }
        }
        r
    }

    /// Arm a trap.
    pub fn arm_trap(&mut self, i: usize) -> (r: Result<(), CoreError>)
        requires
            old(self)@.wf(),
            i < old(self)@.traps.len(),
            old(self)@.traps[i as int] is Some,
        ensures
            final(self)@.wf(),
            ({
                let t = old(self)@.traps[i as int].unwrap();
                let (now, o) = immediate_events(t.triggers, old(self)@.objects);
                if t.armed {
                    r is Ok && final(self)@ == old(self)@
                } else if now.len() > 0 {
                    r == Err::<(), CoreError>(CoreError::FailedPrecondition) && final(self)@ == (
                    SessionView { objects: o, ..old(self)@ }).with_trap(
                        i as int,
                        Some(t),
                        old(self)@.sinks[i as int] + now,
                    )
                } else {
                    r is Ok && final(self)@ == (SessionView { objects: o, ..old(self)@ }).with_trap(
                        i as int,
                        Some(TrapView { armed: true, ..t }),
                        old(self)@.sinks[i as int],
                    )
                }
            }),
    {
        let ghost v0 = self@;
        let mut t = self.take_trap(i);
        let r = t.arm(&mut self.objects, &mut self.sinks[i]);
        self.put_trap(i, t);
        proof {
            let t0 = v0.traps[i as int].unwrap();
            let (now, o) = immediate_events(t0.triggers, v0.objects);
            if t0.armed {
                assert(self@ =~= v0);
            } else if now.len() > 0 {
                assert(self@ =~= (SessionView { objects: o, ..v0 }).with_trap(
                    i as int,
                    Some(t0),
                    v0.sinks[i as int] + now,
                ));
            } else {
                assert(v0.sinks[i as int] + now =~= v0.sinks[i as int]);
                assert(self@ =~= (SessionView { objects: o, ..v0 }).with_trap(
                    i as int,
                    Some(TrapView { armed: true, ..t0 }),
                    v0.sinks[i as int],
                ));
            }
        }
        r
    }

    /// Take the events delivered to a trap.
    pub fn take_events(&mut self, i: usize) -> (r: Vec<TrapEvent>)
        requires
            old(self)@.wf(),
            i < old(self)@.sinks.len(),
        ensures
            final(self)@.wf(),
            r@ == old(self)@.sinks[i as int],
            final(self)@ == (SessionView {
                sinks: old(self)@.sinks.update(i as int, Seq::empty()),
                ..old(self)@
            }),
    {
        let mut out: Vec<TrapEvent> = Vec::new();
        std::mem::swap(&mut out, &mut self.sinks[i]);
        assert(self@.sinks =~= old(self)@.sinks.update(i as int, Seq::empty()));
        out
    }

    /// Write a message from an end of a message pipe. A refused message is
    /// dropped, and its handles are closed.
    pub fn write(&mut self, pipe: usize, end: End, message: Message) -> (r: Result<(), CoreError>)
        requires
            old(self)@.wf(),
            pipe < old(self)@.objects.pipes.len(),
        ensures
            final(self)@.wf(),
            (r, final(self)@) == old(self)@.written(pipe, end, message@),
    {
        let ghost v0 = self@;
        match self.objects.pipes[pipe].write(end, message) {
            Err((e, refused)) => {
                assert(self@.objects.pipes =~= v0.objects.pipes);
                assert(self@ =~= v0);
                self.close_handles(refused.into_handles());
                Err(e)
            },
            Ok(_) => {
                assert(self@ =~= (SessionView {
                    objects: v0.objects.with_pipe(
                        pipe as int,
                        v0.objects.pipes[pipe as int].written(end, message@),
                    ),
                    ..v0
                }));
                self.pump(pipe);
                Ok(())
            },
        }
    }

    /// Read a message at an end of a message pipe.
    pub fn read(&mut self, pipe: usize, end: End) -> (r: Result<ReadOutcome, CoreError>)
        requires
            old(self)@.wf(),
            pipe < old(self)@.objects.pipes.len(),
        ensures
            final(self)@.wf(),
            (outcome_view(r), final(self)@) == old(self)@.read(pipe, end),
    {
        let ghost v0 = self@;
        let r = self.objects.pipes[pipe].read(end, None, false);
        let consumed = match &r {
            Ok(ReadOutcome::Message { .. }) => true,
            _ => false,
        };
        if consumed {
            assert(self@ =~= (SessionView {
                objects: v0.objects.with_pipe(
                    pipe as int,
                    v0.objects.pipes[pipe as int].taken(end),
                ),
                ..v0
            }));
            self.pump(pipe);
        } else {
            assert(self@.objects.pipes =~= v0.objects.pipes);
            assert(self@ =~= v0);
        }
        r
    }
}

/// Dropping the last handles of a pipe drops the handles queued in it: when the
/// close of an end leaves a pipe that nobody can reach, all handles that its
/// messages carry are closed next, in order.
pub proof fn law_queued_handles_are_closed(
    v: SessionView,
    h: Handle,
    rest: Seq<Handle>,
    pipe: usize,
    end: End,
)
    requires
        v.table.entry_for(h.slot.0 as int, h.value) matches Some(e) && e.dispatcher
            == (DispatcherRef::MessagePipe { pipe, end }),
        ({
            let closed = SessionView {
                table: v.table.closed(h.slot.0, h.value),
                objects: v.objects.closing(DispatcherRef::MessagePipe { pipe, end }),
                ..v
            }.pumped(pipe);
            closed.unreachable(pipe)
        }),
    ensures
        ({
            let closed = SessionView {
                table: v.table.closed(h.slot.0, h.value),
                objects: v.objects.closing(DispatcherRef::MessagePipe { pipe, end }),
                ..v
            }.pumped(pipe);
            let (s, queued) = closed.swept(pipe);
            v.all_closed(seq![h] + rest) == s.all_closed(queued + rest)
        }),
{
    lemma_one_closed_live(v, h);
    let work = seq![h] + rest;
    assert(work.drop_first() =~= rest);
}

/// Whether each end that was closed, or saw its peer close, still does.
pub open spec fn closes_kept(a: ObjectsView, b: ObjectsView) -> bool {
    &&& a.pipes.len() == b.pipes.len()
    &&& forall|i: int, end: End|
        0 <= i < a.pipes.len() ==> {
            &&& (#[trigger] a.pipes[i].at(end)).local_closed ==> b.pipes[i].at(end).local_closed
            &&& a.pipes[i].at(end).peer_closed ==> b.pipes[i].at(end).peer_closed
        }
}

pub(crate) proof fn lemma_pumped(v: SessionView, pipe: usize)
    ensures
        v.pumped(pipe).table == v.table,
        v.pumped(pipe).released == v.released,
        v.pumped(pipe).traps.len() == v.traps.len(),
        v.pumped(pipe).objects == if pipe < v.objects.pipes.len() {
            v.objects.with_pipe(
                pipe as int,
                PipeView { outbox: Seq::empty(), ..v.objects.pipes[pipe as int] },
            )
        } else {
            v.objects
        },
{
    if pipe < v.objects.pipes.len() {
        let p = v.objects.pipes[pipe as int];
        lemma_notified_keeps(
            SessionView {
                objects: v.objects.with_pipe(
                    pipe as int,
                    PipeView { outbox: Seq::empty(), ..p },
                ),
                ..v
            },
            p.outbox,
        );
    }
}

/// Closing a handle that is not stale: its entry is freed, and its object is
/// told. A message pipe is emptied if that leaves nobody who can reach it, and
/// only then are there more handles to close.
pub proof fn law_one_close(v: SessionView, h: Handle, e: Entry)
    requires
        v.table.entry_for(h.slot.0 as int, h.value) == Some(e),
    ensures
        ({
            let (s, more) = v.one_closed(h);
            &&& s.table == v.table.closed(h.slot.0, h.value)
            &&& closes_kept(v.objects, s.objects)
            &&& s.objects.data_pipes.len() == v.objects.data_pipes.len()
            &&& match e.dispatcher {
                DispatcherRef::MessagePipe { pipe, end } => pipe < v.objects.pipes.len() ==> {
                    let p = v.objects.pipes[pipe as int];
                    let q = s.objects.pipes[pipe as int];
                    &&& s.released == v.released
                    &&& q.at(end).local_closed
                    &&& !p.at(end).local_closed ==> q.at(end.spec_peer()).peer_closed
                    &&& q.at(end.spec_peer()).local_closed == p.at(end.spec_peer()).local_closed
                    &&& !p.at(end.spec_peer()).local_closed ==> {
                        &&& q.at(end.spec_peer()).queue == p.at(end.spec_peer()).queue
                        &&& q.at(end).queue == p.at(end).queue
                        &&& more.len() == 0
                    }
                    &&& q.outbox.len() == 0
                    &&& forall|i: int|
                        0 <= i < v.objects.pipes.len() && i != pipe ==> #[trigger] s.objects.pipes[i]
                            == v.objects.pipes[i]
                },
                DispatcherRef::DataPipe { pipe, end } => {
                    &&& s.objects.pipes == v.objects.pipes
                    &&& s.released == v.released
                    &&& more.len() == 0
                    &&& pipe < v.objects.data_pipes.len() ==> {
                        let q = s.objects.data_pipes[pipe as int];
                        &&& end is Producer ==> q.producer.local_closed
                        &&& end is Consumer ==> q.consumer.local_closed
                    }
                },
                DispatcherRef::PlatformHandle(fd) => {
                    &&& s.objects == v.objects
                    &&& s.released == v.released.push(fd)
                    &&& more.len() == 0
                },
                _ => s.objects == v.objects && s.released == v.released && more.len() == 0,
            }
        }),
{
    let t = SessionView {
        table: v.table.closed(h.slot.0, h.value),
        objects: v.objects.closing(e.dispatcher),
        ..v
    };
    match e.dispatcher {
        DispatcherRef::MessagePipe { pipe, end } => {
            lemma_pumped(t, pipe);
        },
        _ => {},
    }
}

proof fn lemma_stale_kept(t: TableView, slot: u32, value: u32, other: u32)
    requires
        t.stale(other),
    ensures
        t.closed(slot, value).stale(other),
        t.resolved(other) is None,
{
}

/// Whatever handles are closed, with all that is closed with them, what was
/// closed stays closed and what was stale stays stale.
pub proof fn law_closing_is_final(v: SessionView, work: Seq<Handle>, value: u32)
    ensures
        closes_kept(v.objects, v.all_closed(work).objects),
        v.table.stale(value) ==> v.all_closed(work).table.stale(value) && v.all_closed(
            work,
        ).table.resolved(value) is None,
    decreases live(v.table.entries), work.len(),
{
    if work.len() > 0 {
        let h = work[0];
        let (s, more) = v.one_closed(h);
        lemma_one_closed_live(v, h);
        match v.table.entry_for(h.slot.0 as int, h.value) {
            Some(e) => {
                law_one_close(v, h, e);
                if v.table.stale(value) {
                    lemma_stale_kept(v.table, h.slot.0, h.value, value);
                }
                law_closing_is_final(s, more + work.drop_first(), value);
                let last = s.all_closed(more + work.drop_first());
                assert forall|i: int, end: End| 0 <= i < v.objects.pipes.len() implies {
                    &&& (#[trigger] v.objects.pipes[i].at(end)).local_closed
                        ==> last.objects.pipes[i].at(end).local_closed
                    &&& v.objects.pipes[i].at(end).peer_closed
                        ==> last.objects.pipes[i].at(end).peer_closed
                } by {
                    assert(v.objects.pipes[i].at(end).local_closed ==> s.objects.pipes[i].at(
                        end,
                    ).local_closed);
                    let middle = s.objects.pipes[i].at(end);
                }
            },
            None => {
                law_closing_is_final(v, work.drop_first(), value);
            },
        }
    } else if v.table.stale(value) {
        lemma_stale_kept(v.table, 0, 0, value);
    }
}

/// Closing a handle closes what it stands for: its value resolves to nothing
/// from then on, an end of a pipe is closed and the other end sees that, and a
/// descriptor is released.
pub proof fn law_close_handle(v: SessionView, h: Handle, d: DispatcherRef)
    requires
        v.wf(),
        h.slot.0 == h.value % crate::runtime::handle::SLOT_RANGE,
        v.table.resolved(h.value) == Some(d),
    ensures
        ({
            let s = v.all_closed(seq![h]);
            &&& s.table.resolved(h.value) is None
            &&& closes_kept(v.objects, s.objects)
            &&& match d {
                DispatcherRef::MessagePipe { pipe, end } => pipe < v.objects.pipes.len() ==> {
                    let p = v.objects.pipes[pipe as int];
                    let q = s.objects.pipes[pipe as int];
                    &&& q.at(end).local_closed
                    &&& !p.at(end).local_closed ==> q.at(end.spec_peer()).peer_closed
                    &&& !p.at(end.spec_peer()).local_closed ==> {
                        &&& !q.at(end.spec_peer()).local_closed
                        &&& q.at(end.spec_peer()).queue == p.at(end.spec_peer()).queue
                        &&& s.released == v.released
                        &&& forall|other: u32|
                            other % crate::runtime::handle::SLOT_RANGE != h.value
                                % crate::runtime::handle::SLOT_RANGE
                                ==> #[trigger] s.table.resolved(other) == v.table.resolved(other)
                    }
                },
                DispatcherRef::PlatformHandle(fd) => s.released == v.released.push(fd),
                _ => s.released == v.released,
            }
        }),
{
    let e = v.table.entry_for(h.slot.0 as int, h.value)->0;
    let (s, more) = v.one_closed(h);
    lemma_one_closed_live(v, h);
    law_one_close(v, h, e);
    let rest = more + seq![h].drop_first();
    assert(seq![h].drop_first() =~= Seq::empty());
    assert(rest =~= more);
    assert(v.all_closed(seq![h]) == s.all_closed(more));
    assert(s.table.stale(h.value));
    law_closing_is_final(s, more, h.value);
    law_closing_is_final(v, seq![h], h.value);
    match d {
        DispatcherRef::MessagePipe { pipe, end } => {
            if pipe < v.objects.pipes.len() {
                let q = s.objects.pipes[pipe as int];
                assert(q.at(end).local_closed);
                let peer = q.at(end.spec_peer());
            }
        },
        _ => {},
    }
}

/// A notification for a trap reaches that trap and no other: what the trap makes
/// of it is its new state, and an event that it delivers comes behind those that
/// wait to be taken. Nothing else changes.
pub proof fn law_notification_reaches_its_trap(v: SessionView, n: Notification)
    requires
        v.wf(),
    ensures
        ({
            let s = v.notified(n);
            &&& s.table == v.table
            &&& s.objects == v.objects
            &&& s.released == v.released
            &&& s.traps.len() == v.traps.len()
            &&& s.sinks.len() == v.sinks.len()
            &&& n.target is Waiter ==> s == v
            &&& forall|i: int|
                #![trigger s.traps[i]]
                #![trigger s.sinks[i]]
                0 <= i < v.traps.len() && !(n.target matches WatchTarget::Trap { trap, context: _ }
                    && trap == i) ==> s.traps[i] == v.traps[i] && s.sinks[i] == v.sinks[i]
            &&& n.target matches WatchTarget::Trap { trap, context } ==> trap < v.traps.len()
                && v.traps[trap as int] is Some ==> {
                let (e, after) = v.traps[trap as int].unwrap().watched(context, n.state, n.kind);
                &&& s.traps[trap as int] == Some(after)
                &&& s.sinks[trap as int] == v.sinks[trap as int] + match e {
                    Some(e) => seq![e],
                    None => Seq::empty(),
                }
            }
        }),
{
    match n.target {
        WatchTarget::Trap { trap, context } => {
            if trap < v.traps.len() && v.traps[trap as int] is Some {
                let (e, after) = v.traps[trap as int].unwrap().watched(context, n.state, n.kind);
                let more = match e {
                    Some(e) => seq![e],
                    None => Seq::empty(),
                };
                assert(delivered(v.sinks[trap as int], e) =~= v.sinks[trap as int] + more);
            }
        },
        _ => {},
    }
}

/// Notifications are handed on in the order in which they were posted.
pub proof fn law_notifications_in_order(
    v: SessionView,
    first: Seq<Notification>,
    then: Seq<Notification>,
)
    ensures
        v.all_notified(first + then) == v.all_notified(first).all_notified(then),
    decreases then.len(),
{
    if then.len() == 0 {
        assert(first + then =~= first);
    } else {
        law_notifications_in_order(v, first, then.drop_last());
        assert((first + then).drop_last() =~= first + then.drop_last());
    }
}

/// What an armed trap gets to know when the peer of the end that it watches is
/// closed, with nothing left to read: one event, with the context of the
/// trigger. Where the trigger is for READABLE that never comes any more, and the
/// result is `FailedPrecondition`; where it is for PEER_CLOSED it is `Success`.
pub proof fn law_trap_sees_peer_close(
    v: SessionView,
    h: Handle,
    pipe: usize,
    end: End,
    trap: u64,
    t: Trigger,
)
    requires
        v.wf(),
        h.slot.0 == h.value % crate::runtime::handle::SLOT_RANGE,
        v.table.resolved(h.value) == Some(DispatcherRef::MessagePipe { pipe, end }),
        pipe < v.objects.pipes.len(),
        ({
            let p = v.objects.pipes[pipe as int];
            &&& p.outbox.len() == 0
            &&& !p.at(end).local_closed
            &&& p.at(end).watchers.len() == 0
            &&& !p.at(end.spec_peer()).local_closed
            &&& p.at(end.spec_peer()).queue.len() == 0
            &&& p.at(end.spec_peer()).watchers == seq![
                Watcher {
                    id: t.watch,
                    signals: t.signals,
                    target: WatchTarget::Trap { trap, context: t.context },
                    cancelled: false,
                },
            ]
        }),
        trap < v.traps.len(),
        v.traps[trap as int] == Some(TrapView { triggers: seq![t], armed: true }),
        !t.removed,
        t.signals == Signals::readable() || t.signals == Signals::peer_closed(),
    ensures
        ({
            let s = v.all_closed(seq![h]);
            let e = s.sinks[trap as int].last();
            &&& s.sinks[trap as int].len() == v.sinks[trap as int].len() + 1
            &&& s.sinks[trap as int].drop_last() == v.sinks[trap as int]
            &&& e.trigger_context == t.context
            &&& e.result == if t.signals == Signals::readable() {
                CoreError::FailedPrecondition
            } else {
                CoreError::Success
            }
            &&& e.signals_state.satisfied.has(Signals::peer_closed())
            &&& !e.signals_state.satisfiable.has(Signals::readable())
        }),
{
    let d = DispatcherRef::MessagePipe { pipe, end };
    let entry = v.table.entry_for(h.slot.0 as int, h.value)->0;
    let p = v.objects.pipes[pipe as int];
    let there = EndpointView { peer_closed: true, ..p.at(end.spec_peer()) };
    let w = p.at(end.spec_peer()).watchers[0];
    let state = there.signals();
    law_endpoint_signals(there);
    let n = Notification {
        watch: w.id,
        target: w.target,
        state,
        kind: crate::runtime::watch::WatchKind::Changed,
    };
    let closed = p.closed(end);
    let c = cancellations(p.at(end).watchers);
    let f = fired(there.watchers, state);
    assert(c =~= Seq::empty());
    assert(f =~= seq![n]) by {
        assert(there.watchers.drop_last() =~= Seq::empty());
        assert(fired(there.watchers.drop_last(), state) =~= Seq::empty());
    }
    assert(closed.outbox =~= seq![n]);
    let s0 = SessionView {
        table: v.table.closed(h.slot.0, h.value),
        objects: v.objects.closing(d),
        ..v
    };
    assert(s0.objects.pipes[pipe as int] == closed);
    let s1 = SessionView {
        objects: s0.objects.with_pipe(pipe as int, PipeView { outbox: Seq::empty(), ..closed }),
        ..s0
    };
    assert(seq![n].drop_last() =~= Seq::empty());
    assert(s1.all_notified(Seq::empty()) == s1);
    assert(s0.pumped(pipe) == s1.notified(n));
    let t0 = v.traps[trap as int].unwrap();
    assert(answers(t0.triggers, t.context, 0));
    law_change_event(t0, t.context, 0, state);
    let (s, more) = v.one_closed(h);
    lemma_one_closed_live(v, h);
    law_one_close(v, h, entry);
    assert(seq![h].drop_first() =~= Seq::empty());
    assert(more + seq![h].drop_first() =~= Seq::empty());
    assert(v.all_closed(seq![h]) == s.all_closed(Seq::empty()));
    assert(s.sinks == s1.notified(n).sinks);
    let e = t0.watched(t.context, state, crate::runtime::watch::WatchKind::Changed).0->0;
    assert(s.sinks[trap as int] == v.sinks[trap as int].push(e));
    assert(v.sinks[trap as int].push(e).drop_last() =~= v.sinks[trap as int]);
}

proof fn lemma_notified_passes_over(v: SessionView, ns: Seq<Notification>, n: int)
    requires
        0 <= n < v.traps.len(),
        v.traps[n] is None,
        v.traps.len() == v.sinks.len(),
    ensures
        v.all_notified(ns).traps.len() == v.traps.len(),
        v.all_notified(ns).sinks.len() == v.sinks.len(),
        v.all_notified(ns).traps[n] is None,
        v.all_notified(ns).sinks[n] == v.sinks[n],
    decreases ns.len(),
{
    if ns.len() > 0 {
        lemma_notified_passes_over(v, ns.drop_last(), n);
    }
}

proof fn lemma_pump_passes_over(v: SessionView, pipe: usize, n: int)
    requires
        0 <= n < v.traps.len(),
        v.traps[n] is None,
        v.traps.len() == v.sinks.len(),
    ensures
        v.pumped(pipe).traps.len() == v.traps.len(),
        v.pumped(pipe).sinks.len() == v.sinks.len(),
        v.pumped(pipe).traps[n] is None,
        v.pumped(pipe).sinks[n] == v.sinks[n],
{
    if pipe < v.objects.pipes.len() {
        let p = v.objects.pipes[pipe as int];
        lemma_notified_passes_over(
            SessionView {
                objects: v.objects.with_pipe(
                    pipe as int,
                    PipeView { outbox: Seq::empty(), ..p },
                ),
                ..v
            },
            p.outbox,
            n,
        );
    }
}

proof fn lemma_closing_passes_over(v: SessionView, work: Seq<Handle>, n: int)
    requires
        0 <= n < v.traps.len(),
        v.traps[n] is None,
        v.traps.len() == v.sinks.len(),
    ensures
        v.all_closed(work).traps.len() == v.traps.len(),
        v.all_closed(work).sinks.len() == v.sinks.len(),
        v.all_closed(work).traps[n] is None,
        v.all_closed(work).sinks[n] == v.sinks[n],
    decreases live(v.table.entries), work.len(),
{
    if work.len() > 0 {
        let h = work[0];
        let (s, more) = v.one_closed(h);
        lemma_one_closed_live(v, h);
        match v.table.entry_for(h.slot.0 as int, h.value) {
            Some(e) => {
                let t = SessionView {
                    table: v.table.closed(h.slot.0, h.value),
                    objects: v.objects.closing(e.dispatcher),
                    ..v
                };
                match e.dispatcher {
                    DispatcherRef::MessagePipe { pipe, .. } => {
                        lemma_pump_passes_over(t, pipe, n);
                    },
                    _ => {},
                }
                lemma_closing_passes_over(s, more + work.drop_first(), n);
            },
            None => {
                lemma_closing_passes_over(v, work.drop_first(), n);
            },
        }
    }
}

/// A trap that is gone gets no event while objects are let go of.
pub(crate) proof fn lemma_let_go_passes_over(v: SessionView, ts: Seq<Trigger>, n: int)
    requires
        0 <= n < v.traps.len(),
        v.traps[n] is None,
        v.traps.len() == v.sinks.len(),
    ensures
        v.all_let_go(ts).traps.len() == v.traps.len(),
        v.all_let_go(ts).sinks.len() == v.sinks.len(),
        v.all_let_go(ts).traps[n] is None,
        v.all_let_go(ts).sinks[n] == v.sinks[n],
    decreases ts.len(),
{
    if ts.len() > 0 {
        lemma_let_go_passes_over(v, ts.drop_last(), n);
        let s = v.all_let_go(ts.drop_last());
        match ts.last().dispatcher {
            DispatcherRef::MessagePipe { pipe, .. } => {
                let (t, work) = s.swept(pipe);
                lemma_closing_passes_over(t, work, n);
            },
            _ => {},
        }
    }
}

/// Whether a value of a handle stands for an object, or did before it was
/// closed.
pub open spec fn known_value(v: SessionView, value: u32) -> bool {
    v.table.resolved(value) is Some || v.table.stale(value)
}

/// Closing handles closes each of them: none of their values resolves any more.
pub proof fn law_every_handle_is_closed(v: SessionView, work: Seq<Handle>, i: int)
    requires
        v.table.wf(),
        0 <= i < work.len(),
        work[i].slot.0 == work[i].value % crate::runtime::handle::SLOT_RANGE,
        known_value(v, work[i].value),
    ensures
        v.all_closed(work).table.resolved(work[i].value) is None,
    decreases live(v.table.entries), work.len(),
{
    let h = work[0];
    let value = work[i].value;
    let (s, more) = v.one_closed(h);
    lemma_one_closed_live(v, h);
    match v.table.entry_for(h.slot.0 as int, h.value) {
        Some(e) => {
            law_one_close(v, h, e);
            crate::runtime::handle::lemma_closed_wf(v.table, h.slot.0, h.value);
            let next = more + work.drop_first();
            if i == 0 {
                if v.table.stale(value) {
                    lemma_stale_kept(v.table, h.slot.0, h.value, value);
                }
                assert(s.table.stale(value));
                law_closing_is_final(s, next, value);
            } else {
                if v.table.stale(value) {
                    lemma_stale_kept(v.table, h.slot.0, h.value, value);
                }
                assert(known_value(s, value));
                assert(next[more.len() + i - 1] == work[i]);
                law_every_handle_is_closed(s, next, more.len() + i - 1);
            }
        },
        None => {
            if i == 0 {
                if v.table.stale(value) {
                    law_closing_is_final(v, work.drop_first(), value);
                }
            } else {
                assert(work.drop_first()[i - 1] == work[i]);
                law_every_handle_is_closed(v, work.drop_first(), i - 1);
            }
        },
    }
}

/// A message that a pipe refuses is dropped with its handles: each of them is
/// closed. One that it takes keeps them open.
pub proof fn law_refused_message_closes_handles(
    v: SessionView,
    pipe: usize,
    end: End,
    m: MessageView,
    i: int,
)
    requires
        v.wf(),
        pipe < v.objects.pipes.len(),
        0 <= i < m.handles.len(),
        m.handles[i].slot.0 == m.handles[i].value % crate::runtime::handle::SLOT_RANGE,
        v.table.resolved(m.handles[i].value) is Some,
    ensures
        ({
            let (r, s) = v.written(pipe, end, m);
            let ep = v.objects.pipes[pipe as int].at(end);
            &&& r is Ok == (!ep.local_closed && !ep.peer_closed)
            &&& r is Err ==> s.table.resolved(m.handles[i].value) is None
            &&& r is Ok ==> s.table == v.table
        }),
{
    let p = v.objects.pipes[pipe as int];
    crate::runtime::pipe::law_write_refused(p, end);
    if p.write_error(end) is Some {
        law_every_handle_is_closed(v, m.handles, i);
    } else {
        lemma_pumped(
            SessionView {
                objects: v.objects.with_pipe(pipe as int, p.written(end, m)),
                ..v
            },
            pipe,
        );
    }
}

} // verus!
