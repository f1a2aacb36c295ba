//! Traps: signal watching with registered triggers.
//!
//! * Events are delivered only when the trap is armed.
//! * Arming reports `FailedPrecondition` when a trigger is already satisfied or
//!   unsatisfiable, and delivers the immediate events.
//! * A firing trap is disarmed; it must be armed again to watch again.
//! * Removing a trigger or closing a watched handle delivers a `Cancelled`
//!   event for that trigger.

use vstd::prelude::*;

#[allow(unused_imports)]
use crate::picks::{lemma_picks_next, lemma_picks_none, lemma_picks_same, picks};
use crate::runtime::dispatcher::{Dispatcher, DispatcherRef, DispatcherType};
use crate::runtime::error::CoreError;
use crate::runtime::objects::Objects;
#[allow(unused_imports)]
use crate::runtime::objects::{law_asking_changes_no_signals, ObjectsView};
#[allow(unused_imports)]
use crate::runtime::signal::no_signals;
use crate::runtime::signal::{Signals, SignalsState};
use crate::runtime::watch::{WatchId, WatchKind, WatchTarget};

verus! {

/// An event delivered for a trigger.
#[derive(Debug, Clone, Copy, PartialEq, Eq, Structural)]
pub struct TrapEvent {
    /// The context that the trigger was registered with.
    pub trigger_context: u64,
    /// The signal state of the watched handle at the time of the event.
    pub signals_state: SignalsState,
    /// `Success` for a satisfaction event; `FailedPrecondition` for one that
    /// can no longer be satisfied; `Cancelled` for a removal or closure.
    pub result: CoreError,
}

/// A user callback bound to a user context.
pub struct TrapCallback<F> {
    /// The function that is called.
    pub func: F,
    /// What it gets as its first argument.
    pub user_context: usize,
}

impl<F: Fn(usize, &TrapEvent)> TrapCallback<F> {
    /// A callback bound to a user context.
    pub fn new(func: F, user_context: usize) -> (r: TrapCallback<F>)
        ensures
            r.func == func,
            r.user_context == user_context,
    {
        TrapCallback { func, user_context }
    }

    /// Invoke the callback.
    pub fn invoke(&self, event: &TrapEvent)
        requires
            call_requires(self.func, (self.user_context, event)),
        ensures
            call_ensures(self.func, (self.user_context, event), ()),
    {
        (self.func)(self.user_context, event)
    }
}

/// A trigger of a trap.
#[derive(Debug, Clone, Copy, PartialEq, Eq, Structural)]
pub struct Trigger {
    /// The watch on the object.
    pub watch: WatchId,
    /// The object that is watched.
    pub dispatcher: DispatcherRef,
    /// The signals this trigger watches for.
    pub signals: Signals,
    /// The context of its events.
    pub context: u64,
    /// Whether the trigger was removed.
    pub removed: bool,
}

/// A trap.
#[derive(Debug)]
pub struct Trap {
    /// The triggers, in the order of registration.
    pub triggers: Vec<Trigger>,
    /// Whether the trap is armed.
    pub armed: bool,
}

/// What a trap holds.
#[verifier::ext_equal]
pub struct TrapView {
    /// The triggers, in the order of registration.
    pub triggers: Seq<Trigger>,
    /// Whether the trap is armed.
    pub armed: bool,
}

impl View for Trap {
    type V = TrapView;

    open spec fn view(&self) -> TrapView {
        TrapView { triggers: self.triggers@, armed: self.armed }
    }
}

/// The number of triggers that are not removed.
pub open spec fn live_triggers(ts: Seq<Trigger>) -> nat
    decreases ts.len(),
{
    if ts.len() == 0 {
        0
    } else {
        live_triggers(ts.drop_last()) + if ts.last().removed {
            0nat
        } else {
            1nat
        }
    }
}

/// Where the first trigger with this context stands that is not removed.
pub open spec fn find_trigger(ts: Seq<Trigger>, context: u64) -> Option<int>
    decreases ts.len(),
{
    if ts.len() == 0 {
        None
    } else {
        match find_trigger(ts.drop_last(), context) {
            Some(i) => Some(i),
            None => if ts.last().context == context && !ts.last().removed {
                Some(ts.len() - 1)
            } else {
                None
            },
        }
    }
}

/// The event that cancels a trigger.
pub open spec fn cancelled_event(context: u64) -> TrapEvent {
    TrapEvent {
        trigger_context: context,
        signals_state: no_signals(),
        result: CoreError::Cancelled,
    }
}

/// The event that a trigger has at once when its object is in `state`: a
/// trigger for no signals can never be armed.
pub open spec fn immediate_event(t: Trigger, state: SignalsState) -> Option<TrapEvent> {
    if t.signals.0 == 0 {
        Some(
            TrapEvent {
                trigger_context: t.context,
                signals_state: no_signals(),
                result: CoreError::FailedPrecondition,
            },
        )
    } else if state.satisfied.has(t.signals) {
        Some(
            TrapEvent {
                trigger_context: t.context,
                signals_state: state,
                result: CoreError::Success,
            },
        )
    } else if state.never(t.signals) {
        Some(
            TrapEvent {
                trigger_context: t.context,
                signals_state: state,
                result: CoreError::FailedPrecondition,
            },
        )
    } else {
        None
    }
}

/// The events that triggers have at once, and the objects after they were
/// asked.
pub open spec fn immediate_events(ts: Seq<Trigger>, o: ObjectsView) -> (
    Seq<TrapEvent>,
    ObjectsView,
)
    decreases ts.len(),
{
    if ts.len() == 0 {
        (Seq::empty(), o)
    } else {
        let (events, o1) = immediate_events(ts.drop_last(), o);
        let t = ts.last();
        if t.removed {
            (events, o1)
        } else {
            let (state, o2) = o1.queried(t.dispatcher);
            match immediate_event(t, state) {
                Some(e) => (events.push(e), o2),
                None => (events, o2),
            }
        }
    }
}

/// The cancellations of all triggers that are not removed, and the objects
/// after their watches were cancelled.
pub open spec fn close_events(ts: Seq<Trigger>, o: ObjectsView) -> (Seq<TrapEvent>, ObjectsView)
    decreases ts.len(),
{
    if ts.len() == 0 {
        (Seq::empty(), o)
    } else {
        let (events, o1) = close_events(ts.drop_last(), o);
        let t = ts.last();
        if t.removed {
            (events, o1)
        } else {
            (events.push(cancelled_event(t.context)), o1.unwatching(t.dispatcher, t.watch))
        }
    }
}

impl TrapView {
    /// The trap with the trigger at `i` removed.
    pub open spec fn without(self, i: int) -> TrapView {
        TrapView {
            triggers: self.triggers.update(i, Trigger { removed: true, ..self.triggers[i] }),
            ..self
        }
    }

    /// The event that a report of a watch leads to, and the trap after it. A
    /// cancellation is delivered even if the trap is not armed; a change only
    /// if it is, and disarms it.
    pub open spec fn watched(self, context: u64, state: SignalsState, kind: WatchKind) -> (
        Option<TrapEvent>,
        TrapView,
    ) {
        match find_trigger(self.triggers, context) {
            None => (None, self),
            Some(i) => match kind {
                WatchKind::Cancelled => (Some(cancelled_event(context)), self.without(i)),
                WatchKind::Changed => if self.armed {
                    (
                        Some(
                            TrapEvent {
                                trigger_context: context,
                                signals_state: state,
                                result: if state.satisfied.has(self.triggers[i].signals) {
                                    CoreError::Success
                                } else {
                                    CoreError::FailedPrecondition
                                },
                            },
                        ),
                        TrapView { armed: false, ..self },
                    )
                } else {
                    (None, self)
                },
            },
        }
    }
}

/// The list with the event at its end, if there is one.
pub open spec fn delivered(events: Seq<TrapEvent>, e: Option<TrapEvent>) -> Seq<TrapEvent> {
    match e {
        Some(e) => events.push(e),
        None => events,
    }
}

impl Trap {
    /// The number of triggers that are registered.
    pub fn trigger_count(&self) -> (r: usize)
        ensures
            r == live_triggers(self@.triggers),
    {
        let mut n: usize = 0;
        let mut i: usize = 0;
        while i < self.triggers.len()
            invariant
                i <= self.triggers@.len(),
                n <= i,
                n == live_triggers(self.triggers@.take(i as int)),
            decreases self.triggers@.len() - i,
        {
            assert(self.triggers@.take(i as int + 1).drop_last() =~= self.triggers@.take(i as int));
            if !self.triggers[i].removed {
                n = n + 1;
            }
            i = i + 1;
        }
        assert(self.triggers@.take(i as int) =~= self.triggers@);
        n
    }

    /// Whether the trap is currently armed.
    pub fn is_armed(&self) -> (r: bool)
        ensures
            r == self@.armed,
    {
        self.armed
    }

    /// Create a trap without triggers, which is not armed.
    pub fn create() -> (r: Trap)
        ensures
            r@ == (TrapView { triggers: Seq::empty(), armed: false }),
    {
        Trap { triggers: Vec::new(), armed: false }
    }

    /// Register a trigger: watch `dispatcher` for `signals`, delivering events
    /// with `context`. `id` is the number of this trap.
    pub fn add_trigger(
        &mut self,
        objects: &mut Objects,
        id: u64,
        dispatcher: DispatcherRef,
        signals: Signals,
        context: u64,
    ) -> (r: Result<(), CoreError>)
        requires
            old(objects)@.wf(),
        ensures
            r is Ok,
            final(objects)@.wf(),
            ({
                let (watch, o) = old(objects)@.watching(
                    dispatcher,
                    signals,
                    WatchTarget::Trap { trap: id, context },
                );
                &&& final(objects)@ == o
                &&& final(self)@ == (TrapView {
                    triggers: old(self)@.triggers.push(
                        Trigger { watch, dispatcher, signals, context, removed: false },
                    ),
                    ..old(self)@
                })
            }),
    {
        let watch = objects.start_watch(
            dispatcher,
            signals,
            WatchTarget::Trap { trap: id, context },
        );
        self.triggers.push(Trigger { watch, dispatcher, signals, context, removed: false });
        Ok(())
    }

    fn position(&self, context: u64) -> (r: Option<usize>)
        ensures
            match r {
                Some(i) => find_trigger(self@.triggers, context) == Some(i as int) && i
                    < self@.triggers.len(),
                None => find_trigger(self@.triggers, context) is None,
            },
    {
        let mut i: usize = 0;
        while i < self.triggers.len()
            invariant
                i <= self.triggers@.len(),
                find_trigger(self.triggers@.take(i as int), context) is None,
            decreases self.triggers@.len() - i,
        {
            let t = self.triggers[i];
            proof {
                let next = self.triggers@.take(i as int + 1);
                assert(next.drop_last() =~= self.triggers@.take(i as int));
                assert(next.last() == t);
            }
            if t.context == context && !t.removed {
                proof {
                    lemma_find_trigger_prefix(self.triggers@, context, i as int + 1);
                }
                return Some(i);
            }
            i = i + 1;
        }
        assert(self.triggers@.take(i as int) =~= self.triggers@);
        None
    }

    /// Remove a trigger by context: its watch is cancelled, and a cancellation
    /// delivered. `NotFound` if there is no such trigger.
    pub fn remove_trigger(
        &mut self,
        objects: &mut Objects,
        context: u64,
        events: &mut Vec<TrapEvent>,
    ) -> (r: Result<(), CoreError>)
        requires
            old(objects)@.wf(),
        ensures
            final(objects)@.wf(),
            match find_trigger(old(self)@.triggers, context) {
                Some(i) => {
                    let t = old(self)@.triggers[i];
                    &&& r is Ok
                    &&& final(self)@ == old(self)@.without(i)
                    &&& final(objects)@ == old(objects)@.unwatching(t.dispatcher, t.watch)
                    &&& final(events)@ == old(events)@.push(cancelled_event(context))
                },
                None => {
                    &&& r == Err::<(), CoreError>(CoreError::NotFound)
                    &&& final(self)@ == old(self)@
                    &&& final(objects)@ == old(objects)@
                    &&& final(events)@ == old(events)@
                },
            },
    {
        let idx: usize = match self.position(context) {
            Some(i) => i,
            None => {
                return Err(CoreError::NotFound);
            },
        };
        let t = self.triggers[idx];
        self.set_removed(idx);
        objects.cancel_watch(t.dispatcher, t.watch);
        events.push(
            TrapEvent {
                trigger_context: context,
                signals_state: SignalsState::default(),
                result: CoreError::Cancelled,
            },
        );
        Ok(())
    }

    fn set_removed(&mut self, idx: usize)
        requires
            idx < old(self)@.triggers.len(),
        ensures
            final(self)@ == old(self)@.without(idx as int),
    {
        let t = self.triggers[idx];
        self.triggers.set(
            idx,
            Trigger {
                watch: t.watch,
                dispatcher: t.dispatcher,
                signals: t.signals,
                context: t.context,
                removed: true,
            },
        );
    }

    /// Arm the trap. If any trigger is already satisfied (or unsatisfiable),
    /// returns `FailedPrecondition` and delivers the immediate events, and the
    /// trap does not become armed. Arming an armed trap succeeds.
    pub fn arm(&mut self, objects: &mut Objects, events: &mut Vec<TrapEvent>) -> (r: Result<
        (),
        CoreError,
    >)
        requires
            old(objects)@.wf(),
        ensures
            final(objects)@.wf(),
            if old(self)@.armed {
                &&& r is Ok
                &&& final(self)@ == old(self)@
                &&& final(objects)@ == old(objects)@
                &&& final(events)@ == old(events)@
            } else {
                let (now, o) = immediate_events(old(self)@.triggers, old(objects)@);
                &&& final(objects)@ == o
                &&& final(events)@ == old(events)@ + now
                &&& if now.len() > 0 {
                    r == Err::<(), CoreError>(CoreError::FailedPrecondition) && final(self)@ == old(
                        self,
                    )@
                } else {
                    r is Ok && final(self)@ == (TrapView { armed: true, ..old(self)@ })
                }
            },
    {
        if self.armed {
            return Ok(());
        }
        let ghost ts = self.triggers@;
        let ghost o0 = objects@;
        let ghost ev0 = events@;
        let mut count: usize = 0;
        let mut i: usize = 0;
        proof {
            assert(ts.take(0) =~= Seq::empty());
            assert(ev0 + Seq::<TrapEvent>::empty() =~= ev0);
        }
        while i < self.triggers.len()
            invariant
                i <= ts.len(),
                ts == self.triggers@,
                count <= i,
                objects@.wf(),
                objects@ == immediate_events(ts.take(i as int), o0).1,
                events@ == ev0 + immediate_events(ts.take(i as int), o0).0,
                count == immediate_events(ts.take(i as int), o0).0.len(),
            decreases ts.len() - i,
        {
            let t = self.triggers[i];
            proof {
                let next = ts.take(i as int + 1);
                assert(next.drop_last() =~= ts.take(i as int));
                assert(next.last() == t);
            }
            if !t.removed {
                let state = objects.query_signals(t.dispatcher);
                let event = if t.signals.is_empty() {
                    Some(
                        TrapEvent {
                            trigger_context: t.context,
                            signals_state: SignalsState::default(),
                            result: CoreError::FailedPrecondition,
                        },
                    )
                } else if state.is_satisfied(t.signals) {
                    Some(
                        TrapEvent {
                            trigger_context: t.context,
                            signals_state: state,
                            result: CoreError::Success,
                        },
                    )
                } else if state.is_unsatisfiable(t.signals) {
                    Some(
                        TrapEvent {
                            trigger_context: t.context,
                            signals_state: state,
                            result: CoreError::FailedPrecondition,
                        },
                    )
                } else {
                    None
                };
                if let Some(e) = event {
                    events.push(e);
                    count = count + 1;
                }
            }
            assert(events@ =~= ev0 + immediate_events(ts.take(i as int + 1), o0).0);
            i = i + 1;
        }
        assert(ts.take(i as int) =~= ts);
        if count > 0 {
            return Err(CoreError::FailedPrecondition);
        }
        self.armed = true;
        Ok(())
    }

    /// What a watch reports: the signal state changed or the watched object
    /// was closed.
    pub fn on_watch(
        &mut self,
        context: u64,
        state: SignalsState,
        kind: WatchKind,
        events: &mut Vec<TrapEvent>,
    )
        ensures
            ({
                let (e, t) = old(self)@.watched(context, state, kind);
                final(self)@ == t && final(events)@ == delivered(old(events)@, e)
            }),
    {
        let idx: usize = match self.position(context) {
            Some(i) => i,
            None => {
                return;
            },
        };
        match kind {
            WatchKind::Cancelled => {
                self.set_removed(idx);
                events.push(
                    TrapEvent {
                        trigger_context: context,
                        signals_state: SignalsState::default(),
                        result: CoreError::Cancelled,
                    },
                );
            },
            WatchKind::Changed => {
                if self.armed {
                    let result = if state.is_satisfied(self.triggers[idx].signals) {
                        CoreError::Success
                    } else {
                        CoreError::FailedPrecondition
                    };
                    self.armed = false;
                    events.push(
                        TrapEvent { trigger_context: context, signals_state: state, result },
                    );
                }
            },
        }
    }

    /// Close the trap: cancel all triggers, delivering their cancellations.
    pub fn close(&mut self, objects: &mut Objects, events: &mut Vec<TrapEvent>)
        requires
            old(objects)@.wf(),
        ensures
            final(objects)@.wf(),
            final(self)@ == (TrapView { triggers: Seq::empty(), ..old(self)@ }),
            final(objects)@ == close_events(old(self)@.triggers, old(objects)@).1,
            final(events)@ == old(events)@ + close_events(old(self)@.triggers, old(objects)@).0,
    {
        let ghost ts = self.triggers@;
        let ghost o0 = objects@;
        let ghost ev0 = events@;
        let mut i: usize = 0;
        proof {
            assert(ts.take(0) =~= Seq::empty());
            assert(ev0 + Seq::<TrapEvent>::empty() =~= ev0);
        }
        while i < self.triggers.len()
            invariant
                i <= ts.len(),
                ts == self.triggers@,
                self.armed == old(self).armed,
                objects@.wf(),
                objects@ == close_events(ts.take(i as int), o0).1,
                events@ == ev0 + close_events(ts.take(i as int), o0).0,
            decreases ts.len() - i,
        {
            let t = self.triggers[i];
            proof {
                let next = ts.take(i as int + 1);
                assert(next.drop_last() =~= ts.take(i as int));
                assert(next.last() == t);
            }
            if !t.removed {
                objects.cancel_watch(t.dispatcher, t.watch);
                events.push(
                    TrapEvent {
                        trigger_context: t.context,
                        signals_state: SignalsState::default(),
                        result: CoreError::Cancelled,
                    },
                );
            }
            assert(events@ =~= ev0 + close_events(ts.take(i as int + 1), o0).0);
            i = i + 1;
        }
        assert(ts.take(i as int) =~= ts);
        self.triggers.clear();
    }
}

impl Dispatcher for Trap {
    open spec fn kind(&self) -> DispatcherType {
        DispatcherType::Trap
    }

    open spec fn duplicable(&self) -> bool {
        false
    }

    fn dispatcher_type(&self) -> (r: DispatcherType) {
        DispatcherType::Trap
    }

    fn is_duplicable(&self) -> (r: bool) {
        false
    }
}

proof fn lemma_find_trigger_prefix(ts: Seq<Trigger>, context: u64, n: int)
    requires
        0 <= n <= ts.len(),
        find_trigger(ts.take(n), context) is Some,
    ensures
        find_trigger(ts, context) == find_trigger(ts.take(n), context),
    decreases ts.len() - n,
{
    if n < ts.len() {
        let next = ts.take(n + 1);
        assert(next.drop_last() =~= ts.take(n));
        lemma_find_trigger_prefix(ts, context, n + 1);
    } else {
        assert(ts.take(n) =~= ts);
    }
}

pub(crate) proof fn lemma_find_trigger(ts: Seq<Trigger>, context: u64)
    ensures
        match find_trigger(ts, context) {
            Some(i) => 0 <= i < ts.len() && ts[i].context == context && !ts[i].removed,
            None => forall|i: int|
                0 <= i < ts.len() ==> ((#[trigger] ts[i]).context == context ==> ts[i].removed),
        },
    decreases ts.len(),
{
    if ts.len() > 0 {
        lemma_find_trigger(ts.drop_last(), context);
        assert forall|i: int|
            0 <= i < ts.len() && find_trigger(ts, context) is None && (
            #[trigger] ts[i]).context == context implies ts[i].removed by {
            if i < ts.len() - 1 {
                assert(ts.drop_last()[i] == ts[i]);
            }
        }
    }
}

/// A trap fires once: a change makes an armed trap deliver one event and
/// disarms it, and then, until it is armed again, no change delivers anything.
pub proof fn law_fires_once(t: TrapView, context: u64, state: SignalsState, c2: u64, s2: SignalsState)
    ensures
        !t.armed ==> t.watched(context, state, WatchKind::Changed) == (None::<TrapEvent>, t),
        t.watched(context, state, WatchKind::Changed).0 is Some
            ==> !t.watched(context, state, WatchKind::Changed).1.armed && t.watched(
            context,
            state,
            WatchKind::Changed,
        ).1.watched(c2, s2, WatchKind::Changed).0 is None,
{
}

/// A cancellation is delivered whether or not the trap is armed, and leaves it
/// armed or not as it was.
pub proof fn law_cancellation_is_delivered(t: TrapView, context: u64, state: SignalsState)
    requires
        find_trigger(t.triggers, context) is Some,
    ensures
        t.watched(context, state, WatchKind::Cancelled).0 == Some(cancelled_event(context)),
        t.watched(context, state, WatchKind::Cancelled).1.armed == t.armed,
{
}

/// A removed trigger is gone: where no other trigger shares its context, no
/// report for it delivers anything any more.
pub proof fn law_removed_trigger_is_silent(
    t: TrapView,
    i: int,
    context: u64,
    state: SignalsState,
    kind: WatchKind,
)
    requires
        find_trigger(t.triggers, context) == Some(i),
        forall|j: int|
            0 <= j < t.triggers.len() && j != i ==> (#[trigger] t.triggers[j]).context != context,
    ensures
        t.without(i).watched(context, state, kind) == (None::<TrapEvent>, t.without(i)),
{
    lemma_find_trigger(t.triggers, context);
    lemma_find_trigger(t.without(i).triggers, context);
    match find_trigger(t.without(i).triggers, context) {
        Some(j) => {
            if j != i {
                assert(t.without(i).triggers[j] == t.triggers[j]);
            }
        },
        None => {},
    }
}

/// Closing a trap cancels each live trigger exactly once.
pub proof fn law_close_cancels_each(ts: Seq<Trigger>, o: ObjectsView)
    ensures
        close_events(ts, o).0.len() == live_triggers(ts),
        forall|i: int|
            0 <= i < close_events(ts, o).0.len() ==> (#[trigger] close_events(ts, o).0[i]).result
                == CoreError::Cancelled,
    decreases ts.len(),
{
    if ts.len() > 0 {
        law_close_cancels_each(ts.drop_last(), o);
        let before = close_events(ts.drop_last(), o).0;
        assert forall|i: int| 0 <= i < close_events(ts, o).0.len() implies (#[trigger] close_events(
            ts,
            o,
        ).0[i]).result == CoreError::Cancelled by {
            if i < before.len() {
                assert(close_events(ts, o).0[i] == before[i]);
            }
        }
    }
}

/// Whether a trigger is the one that reports with this context are for: it is
/// not removed, and every trigger of the context before it is.
pub open spec fn answers(ts: Seq<Trigger>, context: u64, i: int) -> bool {
    &&& 0 <= i < ts.len()
    &&& ts[i].context == context
    &&& !ts[i].removed
    &&& forall|j: int| 0 <= j < i && (#[trigger] ts[j]).context == context ==> ts[j].removed
}

pub(crate) proof fn lemma_answers(ts: Seq<Trigger>, context: u64, i: int)
    ensures
        answers(ts, context, i) == (find_trigger(ts, context) == Some(i)),
    decreases ts.len(),
{
    if ts.len() > 0 {
        let init = ts.drop_last();
        lemma_answers(init, context, i);
        lemma_find_trigger(init, context);
        assert(forall|j: int| 0 <= j < init.len() ==> init[j] == ts[j]);
        if answers(ts, context, i) && i < init.len() {
            assert forall|j: int| 0 <= j < i && (#[trigger] init[j]).context == context implies
                init[j].removed by {
                assert(init[j] == ts[j]);
            }
        }
        if answers(ts, context, i) && i == init.len() {
            match find_trigger(init, context) {
                Some(k) => {
                    assert(ts[k] == init[k]);
                },
                None => {},
            }
        }
        if find_trigger(ts, context) == Some(i) {
            assert forall|j: int| 0 <= j < i && (#[trigger] ts[j]).context == context implies
                ts[j].removed by {
                assert(init[j] == ts[j]);
            }
        }
    }
}

/// What an armed trap delivers for a change: an event with the context of the
/// trigger and the state that was reported. Its result is `Success` if and only
/// if that state satisfies all signals of the trigger, and
/// `FailedPrecondition` otherwise. The trap is then no longer armed, and keeps
/// its triggers.
pub proof fn law_change_event(t: TrapView, context: u64, i: int, state: SignalsState)
    requires
        t.armed,
        answers(t.triggers, context, i),
    ensures
        ({
            let (e, after) = t.watched(context, state, WatchKind::Changed);
            &&& e is Some
            &&& e->0.trigger_context == t.triggers[i].context
            &&& e->0.signals_state == state
            &&& state.satisfied.0 & t.triggers[i].signals.0 == t.triggers[i].signals.0
                ==> e->0.result == CoreError::Success
            &&& state.satisfied.0 & t.triggers[i].signals.0 != t.triggers[i].signals.0
                ==> e->0.result == CoreError::FailedPrecondition
            &&& !after.armed
            &&& after.triggers == t.triggers
        }),
{
    lemma_answers(t.triggers, context, i);
}

/// What a trap delivers when the object of a trigger is closed, armed or not:
/// an event with the context of the trigger, no signals, and the result
/// `Cancelled`. That trigger is then removed, and nothing else is changed.
pub proof fn law_cancellation_event(t: TrapView, context: u64, i: int, state: SignalsState, j: int)
    requires
        answers(t.triggers, context, i),
    ensures
        ({
            let (e, after) = t.watched(context, state, WatchKind::Cancelled);
            &&& e is Some
            &&& e->0.trigger_context == t.triggers[i].context
            &&& e->0.signals_state.satisfied == Signals(0)
            &&& e->0.signals_state.satisfiable == Signals(0)
            &&& e->0.result == CoreError::Cancelled
            &&& after.armed == t.armed
            &&& after.triggers.len() == t.triggers.len()
            &&& 0 <= j < t.triggers.len() && j != i ==> after.triggers[j] == t.triggers[j]
            &&& after.triggers[i].removed
            &&& after.triggers[i].context == t.triggers[i].context
            &&& after.triggers[i].signals == t.triggers[i].signals
            &&& after.triggers[i].watch == t.triggers[i].watch
            &&& after.triggers[i].dispatcher == t.triggers[i].dispatcher
        }),
{
    lemma_answers(t.triggers, context, i);
}

/// A report for a context that no trigger has any more delivers nothing and
/// changes nothing.
pub proof fn law_report_without_trigger(
    t: TrapView,
    context: u64,
    state: SignalsState,
    kind: WatchKind,
)
    requires
        forall|i: int|
            0 <= i < t.triggers.len() && (#[trigger] t.triggers[i]).context == context
                ==> t.triggers[i].removed,
    ensures
        t.watched(context, state, kind).0 is None,
        t.watched(context, state, kind).1 == t,
{
    lemma_find_trigger(t.triggers, context);
}

/// An event that is delivered comes behind those that were.
pub proof fn law_delivery_appends(events: Seq<TrapEvent>, e: TrapEvent)
    ensures
        delivered(events, Some(e)).len() == events.len() + 1,
        delivered(events, Some(e)).last() == e,
        delivered(events, Some(e)).take(events.len() as int) == events,
        delivered(events, None) == events,
{
    assert(delivered(events, Some(e)).take(events.len() as int) =~= events);
}

/// Whether a trigger keeps its trap from being armed: it is not removed, and it
/// is for no signals, or they are all satisfied, or they cannot all be.
pub open spec fn due(t: Trigger, o: ObjectsView) -> bool {
    let state = o.queried(t.dispatcher).0;
    &&& !t.removed
    &&& t.signals.0 == 0 || state.satisfied.0 & t.signals.0 == t.signals.0 || state.satisfiable.0
        & t.signals.0 != t.signals.0
}

/// What arming a trap finds: an event for each trigger that is due, in order,
/// with its context and the state of its object, and for no other. The result
/// of an event is `Success` if and only if the signals are there and satisfied.
/// The result is where the triggers that are due stand.
pub proof fn law_arming_finds_what_is_due(ts: Seq<Trigger>, o: ObjectsView) -> (at: Seq<int>)
    ensures
        picks(at, ts.len() as int, |i: int| due(ts[i], o)),
        immediate_events(ts, o).0.len() == at.len(),
        forall|k: int|
            0 <= k < at.len() ==> {
                let e = #[trigger] immediate_events(ts, o).0[k];
                let t = ts[at[k]];
                let state = o.queried(t.dispatcher).0;
                &&& e.trigger_context == t.context
                &&& t.signals.0 != 0 ==> e.signals_state == state
                &&& e.result == if t.signals.0 != 0 && state.satisfied.0 & t.signals.0
                    == t.signals.0 {
                    CoreError::Success
                } else {
                    CoreError::FailedPrecondition
                }
            },
        forall|d: DispatcherRef| #[trigger]
            immediate_events(ts, o).1.queried(d).0 == o.queried(d).0,
        immediate_events(ts, o).1.pipes == o.pipes,
    decreases ts.len(),
{
    let p = |i: int| due(ts[i], o);
    if ts.len() == 0 {
        lemma_picks_none(p);
        Seq::empty()
    } else {
        let init = ts.drop_last();
        let t = ts.last();
        let q = |i: int| due(init[i], o);
        let before = law_arming_finds_what_is_due(init, o);
        let n = init.len() as int;
        assert(forall|i: int| 0 <= i < n ==> init[i] == ts[i]);
        lemma_picks_same(before, n, q, p);
        lemma_picks_next(before, n, p);
        let o1 = immediate_events(init, o).1;
        assert forall|d: DispatcherRef| #[trigger]
            immediate_events(ts, o).1.queried(d).0 == o.queried(d).0 by {
            assert(o1.queried(d).0 == o.queried(d).0);
            law_asking_changes_no_signals(o1, t.dispatcher, d);
        }
        law_asking_changes_no_signals(o1, t.dispatcher, t.dispatcher);
        assert(o1.queried(t.dispatcher).0 == o.queried(t.dispatcher).0);
        if p(n) {
            before.push(n)
        } else {
            before
        }
    }
}

/// What closing a trap delivers: a cancellation for each trigger that is not
/// removed, in order, with its context and no signals, and for no other. The
/// result is where those triggers stand.
pub proof fn law_close_events(ts: Seq<Trigger>, o: ObjectsView) -> (at: Seq<int>)
    ensures
        picks(at, ts.len() as int, |i: int| !ts[i].removed),
        close_events(ts, o).0.len() == at.len(),
        forall|k: int|
            0 <= k < at.len() ==> {
                let e = #[trigger] close_events(ts, o).0[k];
                &&& e.trigger_context == ts[at[k]].context
                &&& e.signals_state.satisfied == Signals(0)
                &&& e.signals_state.satisfiable == Signals(0)
                &&& e.result == CoreError::Cancelled
            },
    decreases ts.len(),
{
    let p = |i: int| !ts[i].removed;
    if ts.len() == 0 {
        lemma_picks_none(p);
        Seq::empty()
    } else {
        let init = ts.drop_last();
        let q = |i: int| !init[i].removed;
        let before = law_close_events(init, o);
        let n = init.len() as int;
        assert(forall|i: int| 0 <= i < n ==> init[i] == ts[i]);
        lemma_picks_same(before, n, q, p);
        lemma_picks_next(before, n, p);
        if p(n) {
            before.push(n)
        } else {
            before
        }
    }
}

} // verus!
