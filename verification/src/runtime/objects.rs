//! The pipes of a runtime, by number, and what is done to them through the
//! references that handles and triggers hold.

use vstd::prelude::*;

use crate::runtime::data_pipe::DataPipe;
use crate::runtime::data_pipe::DataPipeEnd;
#[allow(unused_imports)]
use crate::runtime::data_pipe::{close_outcome, unwatch_outcome, watch_outcome, DataPipeView};
use crate::runtime::dispatcher::DispatcherRef;
use crate::runtime::pipe::MessagePipe;
#[allow(unused_imports)]
use crate::runtime::pipe::{fresh_pipe, PipeView};
#[allow(unused_imports)]
use crate::runtime::signal::no_signals;
use crate::runtime::signal::{Signals, SignalsState};
use crate::runtime::watch::{WatchId, WatchTarget};

verus! {

/// All pipes of a runtime.
#[derive(Debug)]
pub struct Objects {
    /// The message pipes.
    pub pipes: Vec<MessagePipe>,
    /// The data pipes.
    pub data_pipes: Vec<DataPipe>,
}

/// What the pipes of a runtime hold.
#[verifier::ext_equal]
pub struct ObjectsView {
    /// The message pipes.
    pub pipes: Seq<PipeView>,
    /// The data pipes.
    pub data_pipes: Seq<DataPipeView>,
}

impl View for Objects {
    type V = ObjectsView;

    open spec fn view(&self) -> ObjectsView {
        ObjectsView {
            pipes: self.pipes@.map_values(|p: MessagePipe| p@),
            data_pipes: self.data_pipes@.map_values(|p: DataPipe| p@),
        }
    }
}

impl ObjectsView {
    /// Every data pipe keeps its invariant.
    pub open spec fn wf(self) -> bool {
        forall|i: int| 0 <= i < self.data_pipes.len() ==> (#[trigger] self.data_pipes[i]).wf()
    }

    /// With another message pipe under a number.
    pub open spec fn with_pipe(self, i: int, p: PipeView) -> ObjectsView {
        ObjectsView { pipes: self.pipes.update(i, p), ..self }
    }

    /// With another data pipe under a number.
    pub open spec fn with_data_pipe(self, i: int, p: DataPipeView) -> ObjectsView {
        ObjectsView { data_pipes: self.data_pipes.update(i, p), ..self }
    }

    /// The signals of an object, and the pipes after it was asked. Objects that
    /// are no pipes have no signals.
    pub open spec fn queried(self, d: DispatcherRef) -> (SignalsState, ObjectsView) {
        match d {
            DispatcherRef::MessagePipe { pipe, end } => if pipe < self.pipes.len() {
                (self.pipes[pipe as int].at(end).signals(), self)
            } else {
                (no_signals(), self)
            },
            DispatcherRef::DataPipe { pipe, end } => if pipe < self.data_pipes.len() {
                let p = self.data_pipes[pipe as int];
                match end {
                    DataPipeEnd::Producer => (
                        p.producer_flushed().producer_signals(),
                        self.with_data_pipe(pipe as int, p.producer_flushed()),
                    ),
                    DataPipeEnd::Consumer => (
                        p.consumer_flushed().consumer_signals(),
                        self.with_data_pipe(pipe as int, p.consumer_flushed().latched()),
                    ),
                }
            } else {
                (no_signals(), self)
            },
            _ => (no_signals(), self),
        }
    }

    /// The id of a watch on an object, and the pipes after it was registered.
    /// Objects that are no pipes cannot be watched.
    pub open spec fn watching(self, d: DispatcherRef, signals: Signals, target: WatchTarget) -> (
        WatchId,
        ObjectsView,
    ) {
        match d {
            DispatcherRef::MessagePipe { pipe, end } => if pipe < self.pipes.len() {
                let p = self.pipes[pipe as int];
                (
                    WatchId(p.next_watch),
                    self.with_pipe(pipe as int, p.watching(end, signals, target)),
                )
            } else {
                (WatchId(0), self)
            },
            DispatcherRef::DataPipe { pipe, end } => if pipe < self.data_pipes.len() {
                let p = self.data_pipes[pipe as int];
                (
                    WatchId(p.next_watch),
                    self.with_data_pipe(pipe as int, watch_outcome(p, end, signals, target)),
                )
            } else {
                (WatchId(0), self)
            },
            _ => (WatchId(0), self),
        }
    }

    /// The pipes after a watch on an object was cancelled.
    pub open spec fn unwatching(self, d: DispatcherRef, id: WatchId) -> ObjectsView {
        match d {
            DispatcherRef::MessagePipe { pipe, end } => if pipe < self.pipes.len() {
                self.with_pipe(pipe as int, self.pipes[pipe as int].unwatching(end, id))
            } else {
                self
            },
            DispatcherRef::DataPipe { pipe, end } => if pipe < self.data_pipes.len() {
                self.with_data_pipe(
                    pipe as int,
                    unwatch_outcome(self.data_pipes[pipe as int], end, id),
                )
            } else {
                self
            },
            _ => self,
        }
    }

    /// The pipes after the last handle to an object was closed.
    pub open spec fn closing(self, d: DispatcherRef) -> ObjectsView {
        match d {
            DispatcherRef::MessagePipe { pipe, end } => if pipe < self.pipes.len() {
                self.with_pipe(pipe as int, self.pipes[pipe as int].closed(end))
            } else {
                self
            },
            DispatcherRef::DataPipe { pipe, end } => if pipe < self.data_pipes.len() {
                self.with_data_pipe(pipe as int, close_outcome(self.data_pipes[pipe as int], end))
            } else {
                self
            },
            _ => self,
        }
    }
}

impl Objects {
    /// No pipes.
    pub fn new() -> (r: Objects)
        ensures
            r@.pipes == Seq::<PipeView>::empty(),
            r@.data_pipes == Seq::<DataPipeView>::empty(),
            r@.wf(),
    {
        let r = Objects { pipes: Vec::new(), data_pipes: Vec::new() };
        assert(r@.pipes =~= Seq::empty());
        assert(r@.data_pipes =~= Seq::empty());
        r
    }

    /// Add a fresh message pipe, and return its number.
    pub fn add_message_pipe(&mut self) -> (r: usize)
        ensures
            r == old(self)@.pipes.len(),
            final(self)@ == (ObjectsView { pipes: old(self)@.pipes.push(fresh_pipe()), ..old(self)@
            }),
    {
        let n: usize = self.pipes.len();
        self.pipes.push(MessagePipe::create());
        assert(self@.pipes =~= old(self)@.pipes.push(fresh_pipe()));
        n
    }

    /// Add a data pipe, and return its number.
    pub fn add_data_pipe(&mut self, pipe: DataPipe) -> (r: usize)
        requires
            old(self)@.wf(),
            pipe@.wf(),
        ensures
            r == old(self)@.data_pipes.len(),
            final(self)@ == (ObjectsView {
                data_pipes: old(self)@.data_pipes.push(pipe@),
                ..old(self)@
            }),
            final(self)@.wf(),
    {
        let n: usize = self.data_pipes.len();
        let ghost v = pipe@;
        self.data_pipes.push(pipe);
        assert(self@.data_pipes =~= old(self)@.data_pipes.push(v));
        n
    }

    /// Query the current signal state of an object.
    pub fn query_signals(&mut self, d: DispatcherRef) -> (r: SignalsState)
        requires
            old(self)@.wf(),
        ensures
            (r, final(self)@) == old(self)@.queried(d),
            final(self)@.wf(),
    {
        let ghost before = self@;
        match d {
            DispatcherRef::MessagePipe { pipe, end } => {
                if pipe < self.pipes.len() {
                    self.pipes[pipe].query_signals(end)
                } else {
                    SignalsState::default()
                }
            },
            DispatcherRef::DataPipe { pipe, end } => {
                if pipe < self.data_pipes.len() {
                    assert(before.data_pipes[pipe as int].wf());
                    let r = self.data_pipes[pipe].query_signals(end);
                    assert(self@ =~= before.queried(d).1);
                    r
                } else {
                    SignalsState::default()
                }
            },
            _ => SignalsState::default(),
        }
    }

    /// Register a watch on an object.
    pub fn start_watch(&mut self, d: DispatcherRef, signals: Signals, target: WatchTarget) -> (r:
        WatchId)
        requires
            old(self)@.wf(),
        ensures
            (r, final(self)@) == old(self)@.watching(d, signals, target),
            final(self)@.wf(),
    {
        let ghost before = self@;
        match d {
            DispatcherRef::MessagePipe { pipe, end } => {
                if pipe < self.pipes.len() {
                    let r = self.pipes[pipe].register_watch(end, signals, target);
                    assert(self@ =~= before.watching(d, signals, target).1);
                    r
                } else {
                    WatchId::new(0)
                }
            },
            DispatcherRef::DataPipe { pipe, end } => {
                if pipe < self.data_pipes.len() {
                    assert(before.data_pipes[pipe as int].wf());
                    let r = self.data_pipes[pipe].register_watch(end, signals, target);
                    assert(self@ =~= before.watching(d, signals, target).1);
                    r
                } else {
                    WatchId::new(0)
                }
            },
            _ => WatchId::new(0),
        }
    }

    /// Cancel a watch on an object.
    pub fn cancel_watch(&mut self, d: DispatcherRef, id: WatchId)
        requires
            old(self)@.wf(),
        ensures
            final(self)@ == old(self)@.unwatching(d, id),
            final(self)@.wf(),
    {
        let ghost before = self@;
        match d {
            DispatcherRef::MessagePipe { pipe, end } => {
                if pipe < self.pipes.len() {
                    self.pipes[pipe].cancel_registered_watch(end, id);
                    assert(self@ =~= before.unwatching(d, id));
                }
            },
            DispatcherRef::DataPipe { pipe, end } => {
                if pipe < self.data_pipes.len() {
                    assert(before.data_pipes[pipe as int].wf());
                    self.data_pipes[pipe].cancel_registered_watch(end, id);
                    assert(self@ =~= before.unwatching(d, id));
                }
            },
            _ => {},
        }
    }

    /// Tell an object that the last handle to it was closed.
    pub fn on_closed(&mut self, d: DispatcherRef)
        requires
            old(self)@.wf(),
        ensures
            final(self)@ == old(self)@.closing(d),
            final(self)@.wf(),
    {
        let ghost before = self@;
        match d {
            DispatcherRef::MessagePipe { pipe, end } => {
                if pipe < self.pipes.len() {
                    self.pipes[pipe].close(end);
                    assert(self@ =~= before.closing(d));
                }
            },
            DispatcherRef::DataPipe { pipe, end } => {
                if pipe < self.data_pipes.len() {
                    assert(before.data_pipes[pipe as int].wf());
                    self.data_pipes[pipe].close(end);
                    assert(self@ =~= before.closing(d));
                }
            },
            _ => {},
        }
    }
}

/// Asking an object for its signals changes the signals of none.
pub proof fn law_asking_changes_no_signals(o: ObjectsView, d: DispatcherRef, other: DispatcherRef)
    ensures
        o.queried(d).1.queried(other).0 == o.queried(other).0,
        o.queried(d).1.pipes == o.pipes,
        o.queried(d).1.data_pipes.len() == o.data_pipes.len(),
{
    assert(crate::runtime::data_pipe::total(Seq::<u32>::empty()) == 0);
}

} // verus!
