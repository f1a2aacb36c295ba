//! What the operations of a case that make things and use traps mean.

use vstd::prelude::*;

#[allow(unused_imports)]
use crate::casefile::case::{Expectation, OpArgs};
#[allow(unused_imports)]
use crate::casefile::events::EventKind;
#[allow(unused_imports)]
use crate::casefile::harness::{
    extracted_token, produced, signals_named, state_names, text_or, Failure, HarnessView, Source,
    Step,
};
#[allow(unused_imports)]
use crate::casefile::replay::{lemma_names, reports};
#[allow(unused_imports)]
use crate::digest::hex_text;
#[allow(unused_imports)]
use crate::picks::picks;
#[allow(unused_imports)]
use crate::runtime::dispatcher::DispatcherRef;
#[allow(unused_imports)]
use crate::runtime::error::CoreError;
#[allow(unused_imports)]
use crate::runtime::handle::{law_add_keeps_others, law_added_handle_resolves, Handle, SLOT_RANGE};
#[allow(unused_imports)]
use crate::runtime::objects::law_asking_changes_no_signals;
#[allow(unused_imports)]
use crate::runtime::pipe::End;
#[allow(unused_imports)]
use crate::runtime::session::{law_close_handle, SessionView};
#[allow(unused_imports)]
use crate::runtime::signal::Signals;
#[allow(unused_imports)]
use crate::runtime::trap::{
    answers, due, law_arming_finds_what_is_due, law_close_events, lemma_answers, TrapEvent,
    TrapView,
};
#[allow(unused_imports)]
use crate::text::texts;

verus! {

/// Whether a token is bound to a handle of an object.
pub open spec fn holds(h: HarnessView, token: Seq<char>, d: DispatcherRef) -> bool {
    &&& h.tokens.contains_key(token)
    &&& h.session.table.resolved(h.tokens[token].value) == Some(d)
}

/// The token of a trap that is not closed, and what is known of it.
pub open spec fn has_trap(h: HarnessView, token: Seq<char>, n: u64, t: TrapView) -> bool {
    &&& h.traps.contains_key(token)
    &&& h.traps[token] == n
    &&& n < h.session.traps.len()
    &&& h.session.traps[n as int] == Some(t)
}

/// `message_pipe_create` makes a pipe with two open, empty ends, and binds a
/// handle of each to the two tokens that it is to produce, in order. What was
/// bound stays bound to the same objects.
pub proof fn law_replay_create(
    h: HarnessView,
    id: u64,
    args: OpArgs,
    x: Option<Expectation>,
    other: Seq<char>,
    d: DispatcherRef,
)
    requires
        h.session.wf(),
        h.session.objects.pipes.len() < usize::MAX,
        h.session.table.has_room(),
        h.session.table.added(d).has_room(),
        produced(x).len() == 2,
        produced(x)[0] != produced(x)[1],
        !h.tokens.contains_key(produced(x)[0]),
        !h.tokens.contains_key(produced(x)[1]),
        d == (DispatcherRef::MessagePipe {
            pipe: h.session.objects.pipes.len() as usize,
            end: End::A,
        }),
    ensures
        ({
            let (r, after) = h.op(id, "message_pipe_create"@, args, x);
            let n = h.session.objects.pipes.len();
            let p = after.session.objects.pipes[n as int];
            &&& r == Ok::<Step, Failure>(Step::Done)
            &&& reports(h, after, id, EventKind::Result, "MOJO_RESULT_OK"@)
            &&& after.session.objects.pipes.len() == n + 1
            &&& after.session.objects.pipes.drop_last() == h.session.objects.pipes
            &&& holds(
                after,
                produced(x)[0],
                DispatcherRef::MessagePipe { pipe: n as usize, end: End::A },
            )
            &&& holds(
                after,
                produced(x)[1],
                DispatcherRef::MessagePipe { pipe: n as usize, end: End::B },
            )
            &&& after.tokens[produced(x)[0]].value != after.tokens[produced(x)[1]].value
            &&& p.a.queue.len() == 0 && p.b.queue.len() == 0
            &&& !p.a.local_closed && !p.a.peer_closed && !p.b.local_closed && !p.b.peer_closed
            &&& h.tokens.contains_key(other) ==> after.tokens.contains_key(other)
                && after.tokens[other] == h.tokens[other] && (h.session.table.resolved(
                h.tokens[other].value,
            ) is Some ==> after.session.table.resolved(h.tokens[other].value)
                == h.session.table.resolved(h.tokens[other].value))
            &&& after.session.traps == h.session.traps
            &&& after.session.sinks == h.session.sinks
        }),
{
    lemma_names();
    let (r, after) = h.op(id, "message_pipe_create"@, args, x);
    let n = h.session.objects.pipes.len();
    let b = DispatcherRef::MessagePipe { pipe: n as usize, end: End::B };
    let t0 = h.session.table;
    let t1 = t0.added(d);
    law_added_handle_resolves(t0, d);
    law_added_handle_resolves(t1, b);
    law_add_keeps_others(t1, b, t0.next_handle().value);
    if h.tokens.contains_key(other) && t0.resolved(h.tokens[other].value) is Some {
        law_add_keeps_others(t0, d, h.tokens[other].value);
        law_add_keeps_others(t1, b, h.tokens[other].value);
    }
    assert(after.events.drop_last() =~= h.events);
    assert(after.session.objects.pipes.drop_last() =~= h.session.objects.pipes);
}

/// `query_signals_state` reports the signals of the object behind a token, and
/// changes the signals of no object.
pub proof fn law_replay_query(
    h: HarnessView,
    id: u64,
    args: OpArgs,
    x: Option<Expectation>,
    d: DispatcherRef,
    other: DispatcherRef,
)
    requires
        args.handle is Some,
        holds(h, args.handle->0@, d),
    ensures
        ({
            let (r, after) = h.op(id, "query_signals_state"@, args, x);
            let e = after.events.last();
            &&& r == Ok::<Step, Failure>(Step::Done)
            &&& reports(h, after, id, EventKind::Signals, "MOJO_RESULT_OK"@)
            &&& e.handle == Some(args.handle->0@)
            &&& e.signals == Some(state_names(h.session.objects.queried(d).0))
            &&& after.tokens == h.tokens
            &&& after.session.table == h.session.table
            &&& after.session.traps == h.session.traps
            &&& after.session.sinks == h.session.sinks
            &&& after.session.objects.pipes == h.session.objects.pipes
            &&& after.session.objects.queried(other).0 == h.session.objects.queried(other).0
        }),
{
    lemma_names();
    let after = h.op(id, "query_signals_state"@, args, x).1;
    law_asking_changes_no_signals(h.session.objects, d, other);
    assert(after.events.drop_last() =~= h.events);
}

/// What a token that is not bound comes to: where the case expects an invalid
/// argument, the operation reports that; otherwise the case fails. Nothing else
/// changes.
pub proof fn law_replay_unknown_token(
    h: HarnessView,
    id: u64,
    args: OpArgs,
    x: Option<Expectation>,
)
    requires
        args.handle is Some,
        !h.tokens.contains_key(args.handle->0@),
    ensures
        ({
            let (r, after) = h.op(id, "query_signals_state"@, args, x);
            let expected = x matches Some(e) && e.result matches Some(t) && t@
                == "MOJO_RESULT_INVALID_ARGUMENT"@;
            &&& r is Ok == expected
            &&& expected ==> reports(
                h,
                after,
                id,
                EventKind::Signals,
                "MOJO_RESULT_INVALID_ARGUMENT"@,
            )
            &&& !expected ==> after == h
            &&& after.session == h.session
            &&& after.tokens == h.tokens
        }),
        ({
            let (r, after) = h.op(id, "read_message"@, args, x);
            let expected = x matches Some(e) && e.result matches Some(t) && t@
                == "MOJO_RESULT_INVALID_ARGUMENT"@;
            &&& r is Ok == expected
            &&& expected ==> reports(
                h,
                after,
                id,
                EventKind::Message,
                "MOJO_RESULT_INVALID_ARGUMENT"@,
            )
            &&& !expected ==> after == h
            &&& after.session == h.session
            &&& after.tokens == h.tokens
        }),
        ({
            let (r, after) = h.op(id, "wait"@, args, x);
            let expected = x matches Some(e) && e.result matches Some(t) && t@
                == "MOJO_RESULT_INVALID_ARGUMENT"@;
            &&& r is Ok == expected
            &&& expected ==> reports(
                h,
                after,
                id,
                EventKind::Result,
                "MOJO_RESULT_INVALID_ARGUMENT"@,
            )
            &&& !expected ==> after == h
            &&& after.session == h.session
            &&& after.tokens == h.tokens
        }),
{
    lemma_names();
    let a = h.op(id, "query_signals_state"@, args, x).1;
    let b = h.op(id, "read_message"@, args, x).1;
    let c = h.op(id, "wait"@, args, x).1;
    if a.events.len() > h.events.len() {
        assert(a.events.drop_last() =~= h.events);
    }
    if b.events.len() > h.events.len() {
        assert(b.events.drop_last() =~= h.events);
    }
    if c.events.len() > h.events.len() {
        assert(c.events.drop_last() =~= h.events);
    }
}

/// `wait` is for the object behind the token, all signals that it names and the
/// time that it gives, and changes nothing; at its end the result and the
/// signals as they are then are reported.
pub proof fn law_replay_wait(
    h: HarnessView,
    id: u64,
    args: OpArgs,
    x: Option<Expectation>,
    d: DispatcherRef,
    then: HarnessView,
    outcome: Result<(), CoreError>,
)
    requires
        args.handle is Some,
        holds(h, args.handle->0@, d),
    ensures
        ({
            let (r, after) = h.op(id, "wait"@, args, x);
            let named = signals_named(texts(args.signals@));
            &&& after == h
            &&& named matches Ok(s) ==> r == Ok::<Step, Failure>(
                Step::Wait(d, s, args.deadline_ms),
            )
            &&& named is Err ==> r is Err
        }),
        ({
            let after = then.waited(id, args.handle->0@, d, outcome);
            let e = after.events.last();
            &&& outcome is Ok ==> reports(then, after, id, EventKind::Result, "MOJO_RESULT_OK"@)
            &&& outcome matches Err(c) ==> reports(
                then,
                after,
                id,
                EventKind::Result,
                c.spec_name(),
            )
            &&& e.handle == Some(args.handle->0@)
            &&& e.signals == Some(state_names(then.session.objects.queried(d).0))
            &&& after.tokens == then.tokens
            &&& after.session.table == then.session.table
            &&& after.session.traps == then.session.traps
            &&& after.session.sinks == then.session.sinks
            &&& after.session.objects.pipes == then.session.objects.pipes
        }),
{
    lemma_names();
    let after = then.waited(id, args.handle->0@, d, outcome);
    law_asking_changes_no_signals(then.session.objects, d, d);
    assert(after.events.drop_last() =~= then.events);
}

/// A descriptor that is wrapped is behind the token that the case names; when
/// it is unwrapped the token is unbound and that descriptor is read, and then
/// what it held is reported, its handle is stale and it is released.
pub proof fn law_replay_wrap(
    h: HarnessView,
    id: u64,
    fd: i32,
    x: Option<Expectation>,
    args: OpArgs,
    content: Seq<u8>,
)
    requires
        h.session.wf(),
        h.session.table.has_room(),
        produced(x).len() > 0,
        !h.tokens.contains_key(produced(x)[0]),
        args.handle is Some,
        args.handle->0@ == produced(x)[0],
    ensures
        ({
            let token = produced(x)[0];
            let (r, after) = h.wrapped(id, fd, x);
            let (s, open) = after.op(id, "platform_handle_unwrap"@, args, x);
            let handle = after.tokens[token];
            let done = open.unwrapped(id, token, handle, content);
            &&& r == Ok::<Step, Failure>(Step::Done)
            &&& reports(h, after, id, EventKind::Handle, "MOJO_RESULT_OK"@)
            &&& after.events.last().handle == Some(token)
            &&& holds(after, token, DispatcherRef::PlatformHandle(fd))
            &&& after.tokens.remove(token) == h.tokens
            &&& after.session.objects == h.session.objects
            &&& after.session.released == h.session.released
            &&& s == Ok::<Step, Failure>(Step::ReadDescriptor(fd, handle))
            &&& open.tokens == h.tokens
            &&& open.events == after.events
            &&& open.session == after.session
            &&& reports(open, done, id, EventKind::Handle, "MOJO_RESULT_OK"@)
            &&& done.events.last().handle == Some(token)
            &&& done.events.last().payload_hex == Some(hex_text(content))
            &&& done.session.table.resolved(handle.value) is None
            &&& done.session.released == h.session.released.push(fd)
            &&& done.tokens == h.tokens
        }),
{
    lemma_names();
    let token = produced(x)[0];
    let after = h.wrapped(id, fd, x).1;
    let t = h.session.table;
    law_added_handle_resolves(t, DispatcherRef::PlatformHandle(fd));
    assert(after.events.drop_last() =~= h.events);
    assert(after.tokens.remove(token) =~= h.tokens);
    let open = after.op(id, "platform_handle_unwrap"@, args, x).1;
    let handle = after.tokens[token];
    assert(open.session.wf());
    law_close_handle(open.session, handle, DispatcherRef::PlatformHandle(fd));
    let done = open.unwrapped(id, token, handle, content);
    assert(done.events.drop_last() =~= open.events);
}

/// `platform_handle_unwrap` of anything but a descriptor fails, and closes what
/// the token stood for.
pub proof fn law_replay_unwrap_refused(
    h: HarnessView,
    id: u64,
    args: OpArgs,
    x: Option<Expectation>,
    d: DispatcherRef,
)
    requires
        h.session.wf(),
        args.handle is Some,
        holds(h, args.handle->0@, d),
        d !is PlatformHandle,
        h.tokens[args.handle->0@].slot.0 == h.tokens[args.handle->0@].value % SLOT_RANGE,
    ensures
        ({
            let token = args.handle->0@;
            let (r, after) = h.op(id, "platform_handle_unwrap"@, args, x);
            &&& r is Err
            &&& after.events == h.events
            &&& after.tokens == h.tokens.remove(token)
            &&& after.session.table.resolved(h.tokens[token].value) is None
        }),
{
    lemma_names();
    law_close_handle(h.session, h.tokens[args.handle->0@], d);
}

/// `trap_create` makes a trap without triggers that is not armed and has
/// delivered nothing, under the token that the case names.
pub proof fn law_replay_trap_create(h: HarnessView, id: u64, args: OpArgs, x: Option<Expectation>)
    requires
        h.session.wf(),
        h.session.traps.len() < u64::MAX,
        args.produce is Some,
        !h.traps.contains_key(args.produce->0@),
    ensures
        ({
            let token = args.produce->0@;
            let (r, after) = h.op(id, "trap_create"@, args, x);
            let n = h.session.traps.len();
            &&& r == Ok::<Step, Failure>(Step::Done)
            &&& reports(h, after, id, EventKind::Result, "MOJO_RESULT_OK"@)
            &&& after.traps.contains_key(token) && after.traps[token] == n
            &&& after.sinks.contains_key(token) && after.sinks[token] == n
            &&& after.session.traps.len() == n + 1
            &&& after.session.traps[n as int] matches Some(t) && t.triggers.len() == 0 && !t.armed
            &&& after.session.sinks[n as int].len() == 0
            &&& after.session.traps.take(n as int) == h.session.traps
            &&& after.session.sinks.take(n as int) == h.session.sinks
            &&& after.session.objects == h.session.objects
            &&& after.session.table == h.session.table
            &&& after.tokens == h.tokens
        }),
{
    lemma_names();
    let after = h.op(id, "trap_create"@, args, x).1;
    assert(after.events.drop_last() =~= h.events);
    assert(after.session.traps.take(h.session.traps.len() as int) =~= h.session.traps);
    assert(after.session.sinks.take(h.session.traps.len() as int) =~= h.session.sinks);
}

/// `trap_add_trigger` adds one trigger to the trap, behind the others, for the
/// object, the signals and the context that the case names; it delivers
/// nothing, and a trap that is armed stays so.
pub proof fn law_replay_add_trigger(
    h: HarnessView,
    id: u64,
    args: OpArgs,
    x: Option<Expectation>,
    n: u64,
    t: TrapView,
    d: DispatcherRef,
)
    requires
        args.trap is Some,
        args.handle is Some,
        args.context is Some,
        has_trap(h, args.trap->0@, n, t),
        n < h.session.sinks.len(),
        holds(h, args.handle->0@, d),
        signals_named(texts(args.signals@)) is Ok,
    ensures
        ({
            let (r, after) = h.op(id, "trap_add_trigger"@, args, x);
            let now = after.session.traps[n as int]->0;
            let new = now.triggers.last();
            &&& r == Ok::<Step, Failure>(Step::Done)
            &&& reports(h, after, id, EventKind::Result, "MOJO_RESULT_OK"@)
            &&& after.session.traps[n as int] is Some
            &&& now.armed == t.armed
            &&& now.triggers.len() == t.triggers.len() + 1
            &&& now.triggers.drop_last() == t.triggers
            &&& new.dispatcher == d
            &&& new.context == args.context->0
            &&& new.signals == signals_named(texts(args.signals@))->Ok_0
            &&& !new.removed
            &&& after.session.sinks == h.session.sinks
            &&& after.session.table == h.session.table
            &&& after.tokens == h.tokens
            &&& after.traps == h.traps
            &&& forall|i: int|
                0 <= i < h.session.traps.len() && i != n ==> #[trigger] after.session.traps[i]
                    == h.session.traps[i]
        }),
{
    lemma_names();
    let after = h.op(id, "trap_add_trigger"@, args, x).1;
    assert(after.events.drop_last() =~= h.events);
    assert(after.session.traps[n as int]->0.triggers.drop_last() =~= t.triggers);
    assert(after.session.sinks =~= h.session.sinks);
}

/// `trap_arm` arms a trap exactly where no trigger is due. Otherwise it reports
/// an event for each that is, in order, then that it failed, and the trap stays
/// as it was.
pub proof fn law_replay_arm(
    h: HarnessView,
    id: u64,
    args: OpArgs,
    x: Option<Expectation>,
    n: u64,
    t: TrapView,
) -> (at: Seq<int>)
    requires
        args.trap is Some,
        has_trap(h, args.trap->0@, n, t),
        h.session.traps.len() == h.session.sinks.len(),
        h.sinks.contains_key(args.trap->0@),
        h.sinks[args.trap->0@] == n,
        !t.armed,
    ensures
        picks(at, t.triggers.len() as int, |i: int| due(t.triggers[i], h.session.objects)),
        ({
            let (r, after) = h.op(id, "trap_arm"@, args, x);
            let waiting = forall|i: int|
                0 <= i < t.triggers.len() ==> !due(#[trigger] t.triggers[i], h.session.objects);
            &&& r == Ok::<Step, Failure>(Step::Done)
            &&& after.session.traps[n as int] is Some
            &&& after.session.traps[n as int]->0.triggers == t.triggers
            &&& after.session.traps[n as int]->0.armed == waiting
            &&& after.tokens == h.tokens
            &&& after.session.table == h.session.table
            &&& after.session.objects.pipes == h.session.objects.pipes
            &&& waiting ==> {
                &&& reports(h, after, id, EventKind::Result, "MOJO_RESULT_OK"@)
                &&& after.session.sinks == h.session.sinks
            }
            &&& !waiting ==> {
                &&& after.events.last().result == "MOJO_RESULT_FAILED_PRECONDITION"@
                &&& after.events.last().event == EventKind::Result
                &&& after.events.last().op_id == id
                &&& after.session.sinks[n as int].len() == 0
                &&& after.events.len() == h.events.len() + h.session.sinks[n as int].len()
                    + at.len() + 1
                &&& after.events.take(h.events.len() as int) == h.events
                &&& forall|k: int|
                    0 <= k < at.len() ==> {
                        let e = #[trigger] after.events[h.events.len()
                            + h.session.sinks[n as int].len() + k];
                        let trigger = t.triggers[at[k]];
                        let state = h.session.objects.queried(trigger.dispatcher).0;
                        &&& e.event == EventKind::Trap
                        &&& e.op_id == id
                        &&& e.trigger_context == Some(trigger.context)
                        &&& trigger.signals.0 != 0 ==> e.signals_state == Some(state_names(state))
                        &&& e.result == if trigger.signals.0 != 0 && state.satisfied.0
                            & trigger.signals.0 == trigger.signals.0 {
                            CoreError::Success.spec_name()
                        } else {
                            CoreError::FailedPrecondition.spec_name()
                        }
                    }
            }
        }),
{
    lemma_names();
    let after = h.op(id, "trap_arm"@, args, x).1;
    let at = law_arming_finds_what_is_due(t.triggers, h.session.objects);
    let (now, o) = crate::runtime::trap::immediate_events(t.triggers, h.session.objects);
    let p = |i: int| due(t.triggers[i], h.session.objects);
    if now.len() == 0 {
        assert forall|i: int| 0 <= i < t.triggers.len() implies !due(
            #[trigger] t.triggers[i],
            h.session.objects,
        ) by {
            if p(i) {
                assert(at.contains(i));
            }
        }
        assert(after.events.drop_last() =~= h.events);
        assert(after.session.sinks =~= h.session.sinks);
    } else {
        assert(p(at[0]));
        assert(due(t.triggers[at[0]], h.session.objects));
        let old = h.session.sinks[n as int];
        let g = HarnessView {
            session: SessionView { objects: o, ..h.session }.with_trap(
                n as int,
                Some(t),
                old + now,
            ),
            ..h
        };
        let events = old + now;
        let drained = g.drained(n as int);
        lemma_payloads(drained, id, events);
        let before = drained.all_payloads(id, events);
        assert(after.events.take(h.events.len() as int) =~= before.events.take(
            h.events.len() as int,
        ));
        assert forall|k: int| 0 <= k < at.len() implies {
            let e = #[trigger] after.events[h.events.len() + old.len() + k];
            &&& e.event == EventKind::Trap
            &&& e.op_id == id
            &&& e.result == now[k].result.spec_name()
            &&& e.trigger_context == Some(now[k].trigger_context)
            &&& e.signals_state == Some(state_names(now[k].signals_state))
        } by {
            let j = old.len() + k;
            assert(events[j] == now[k]);
            assert(after.events[h.events.len() + j] == before.events[h.events.len() + j]);
        }
    }
    at
}

proof fn lemma_payloads(h: HarnessView, id: u64, events: Seq<TrapEvent>)
    ensures
        ({
            let after = h.all_payloads(id, events);
            &&& after.events.len() == h.events.len() + events.len()
            &&& after.events.take(h.events.len() as int) == h.events
            &&& after.session == h.session
            &&& after.tokens == h.tokens
            &&& after.traps == h.traps
            &&& after.sinks == h.sinks
            &&& forall|k: int|
                0 <= k < events.len() ==> {
                    let e = #[trigger] after.events[h.events.len() + k];
                    &&& e.event == EventKind::Trap
                    &&& e.op_id == id
                    &&& e.result == events[k].result.spec_name()
                    &&& e.trigger_context == Some(events[k].trigger_context)
                    &&& e.signals_state == Some(state_names(events[k].signals_state))
                }
        }),
    decreases events.len(),
{
    let after = h.all_payloads(id, events);
    if events.len() == 0 {
        assert(after.events.take(h.events.len() as int) =~= h.events);
    } else {
        let init = events.drop_last();
        lemma_payloads(h, id, init);
        let before = h.all_payloads(id, init);
        assert(after.events.take(h.events.len() as int) =~= before.events.take(
            h.events.len() as int,
        ));
        assert forall|k: int| 0 <= k < events.len() implies {
            let e = #[trigger] after.events[h.events.len() + k];
            &&& e.event == EventKind::Trap
            &&& e.op_id == id
            &&& e.result == events[k].result.spec_name()
            &&& e.trigger_context == Some(events[k].trigger_context)
            &&& e.signals_state == Some(state_names(events[k].signals_state))
        } by {
            if k < init.len() {
                assert(after.events[h.events.len() + k] == before.events[h.events.len() + k]);
                assert(init[k] == events[k]);
            }
        }
    }
}

/// `drain_trap_events` reports the events that a trap has delivered, all of
/// them and in order, if there are as many as it asks for; each has then been
/// reported once. With fewer the case fails.
pub proof fn law_replay_drain(
    h: HarnessView,
    id: u64,
    args: OpArgs,
    x: Option<Expectation>,
    n: u64,
)
    requires
        args.trap is Some,
        h.sinks.contains_key(args.trap->0@),
        h.sinks[args.trap->0@] == n,
        n < h.session.sinks.len(),
        args.count is Some,
        args.count->0 > 0,
    ensures
        ({
            let (r, after) = h.op(id, "drain_trap_events"@, args, x);
            let events = h.session.sinks[n as int];
            &&& r is Ok == (events.len() >= args.count->0)
            &&& after.session.sinks[n as int].len() == 0
            &&& after.session.traps == h.session.traps
            &&& after.session.objects == h.session.objects
            &&& r is Err ==> after.events == h.events
            &&& r is Ok ==> {
                &&& after.events.len() == h.events.len() + events.len() + 1
                &&& after.events.take(h.events.len() as int) == h.events
                &&& after.events.last().event == EventKind::Result
                &&& after.events.last().result == "MOJO_RESULT_OK"@
                &&& after.events.last().op_id == id
                &&& forall|k: int|
                    0 <= k < events.len() ==> {
                        let e = #[trigger] after.events[h.events.len() + k];
                        &&& e.event == EventKind::Trap
                        &&& e.op_id == id
                        &&& e.result == events[k].result.spec_name()
                        &&& e.trigger_context == Some(events[k].trigger_context)
                        &&& e.signals_state == Some(state_names(events[k].signals_state))
                    }
            }
        }),
{
    lemma_names();
    let after = h.op(id, "drain_trap_events"@, args, x).1;
    let events = h.session.sinks[n as int];
    let g = h.drained(n as int);
    lemma_payloads(g, id, events);
    if events.len() >= args.count->0 {
        let before = g.all_payloads(id, events);
        assert(after.events.take(h.events.len() as int) =~= before.events.take(
            h.events.len() as int,
        ));
        assert forall|k: int| 0 <= k < events.len() implies {
            let e = #[trigger] after.events[h.events.len() + k];
            &&& e.event == EventKind::Trap
            &&& e.op_id == id
            &&& e.result == events[k].result.spec_name()
            &&& e.trigger_context == Some(events[k].trigger_context)
            &&& e.signals_state == Some(state_names(events[k].signals_state))
        } by {
            assert(after.events[h.events.len() + k] == before.events[h.events.len() + k]);
        }
    }
}

/// `trap_remove_trigger` removes the trigger with the context: a cancellation
/// for it is delivered, its object is no longer watched for it, and the other
/// triggers stay. Without such a trigger it reports that and changes nothing.
pub proof fn law_replay_remove_trigger(
    h: HarnessView,
    id: u64,
    args: OpArgs,
    x: Option<Expectation>,
    n: u64,
    t: TrapView,
    i: int,
)
    requires
        args.trap is Some,
        args.context is Some,
        has_trap(h, args.trap->0@, n, t),
        n < h.session.sinks.len(),
    ensures
        ({
            let (r, after) = h.op(id, "trap_remove_trigger"@, args, x);
            let context = args.context->0;
            let now = after.session.traps[n as int];
            &&& r == Ok::<Step, Failure>(Step::Done)
            &&& after.tokens == h.tokens
            &&& after.session.table == h.session.table
            &&& answers(t.triggers, context, i) ==> {
                &&& reports(h, after, id, EventKind::Result, "MOJO_RESULT_OK"@)
                &&& now is Some && now->0.armed == t.armed
                &&& now->0.triggers.len() == t.triggers.len()
                &&& now->0.triggers[i].removed
                &&& forall|j: int|
                    0 <= j < t.triggers.len() && j != i ==> #[trigger] now->0.triggers[j]
                        == t.triggers[j]
                &&& after.session.sinks[n as int].len() == h.session.sinks[n as int].len() + 1
                &&& after.session.sinks[n as int].drop_last() == h.session.sinks[n as int]
                &&& after.session.sinks[n as int].last().trigger_context == context
                &&& after.session.sinks[n as int].last().result == CoreError::Cancelled
                &&& after.session.objects == h.session.objects.unwatching(
                    t.triggers[i].dispatcher,
                    t.triggers[i].watch,
                )
            }
            &&& (forall|j: int|
                0 <= j < t.triggers.len() ==> (#[trigger] t.triggers[j]).removed
                    || t.triggers[j].context != context) ==> {
                &&& reports(h, after, id, EventKind::Result, "MOJO_RESULT_NOT_FOUND"@)
                &&& after.session == h.session
            }
        }),
{
    lemma_names();
    let after = h.op(id, "trap_remove_trigger"@, args, x).1;
    let context = args.context->0;
    assert(after.events.drop_last() =~= h.events);
    crate::runtime::trap::lemma_find_trigger(t.triggers, context);
    if answers(t.triggers, context, i) {
        lemma_answers(t.triggers, context, i);
        assert(after.session.sinks[n as int].drop_last() =~= h.session.sinks[n as int]);
    }
}

/// `trap_close` ends a trap: a cancellation is delivered for each trigger that
/// was not removed, in order, and the trap cannot be used any more; what it has
/// delivered is still there.
pub proof fn law_replay_trap_close(
    h: HarnessView,
    id: u64,
    args: OpArgs,
    x: Option<Expectation>,
    n: u64,
    t: TrapView,
) -> (at: Seq<int>)
    requires
        args.trap is Some,
        has_trap(h, args.trap->0@, n, t),
        h.session.traps.len() == h.session.sinks.len(),
    ensures
        picks(at, t.triggers.len() as int, |i: int| !t.triggers[i].removed),
        ({
            let (r, after) = h.op(id, "trap_close"@, args, x);
            let before = h.session.sinks[n as int];
            let now = after.session.sinks[n as int];
            &&& r == Ok::<Step, Failure>(Step::Done)
            &&& reports(h, after, id, EventKind::Result, "MOJO_RESULT_OK"@)
            &&& !after.traps.contains_key(args.trap->0@)
            &&& after.sinks == h.sinks
            &&& after.tokens == h.tokens
            &&& now.len() == before.len() + at.len()
            &&& now.take(before.len() as int) == before
            &&& forall|k: int|
                0 <= k < at.len() ==> {
                    let e = #[trigger] now[before.len() + k];
                    &&& e.trigger_context == t.triggers[at[k]].context
                    &&& e.result == CoreError::Cancelled
                }
        }),
{
    lemma_names();
    let after = h.op(id, "trap_close"@, args, x).1;
    assert(after.events.drop_last() =~= h.events);
    let at = law_close_events(t.triggers, h.session.objects);
    let (events, o) = crate::runtime::trap::close_events(t.triggers, h.session.objects);
    let s = SessionView { objects: o, ..h.session }.with_trap(
        n as int,
        None,
        h.session.sinks[n as int] + events,
    );
    crate::runtime::session::lemma_let_go_passes_over(s, t.triggers, n as int);
    let before = h.session.sinks[n as int];
    let now = after.session.sinks[n as int];
    assert(now.take(before.len() as int) =~= before);
    assert forall|k: int| 0 <= k < at.len() implies {
        let e = #[trigger] now[before.len() + k];
        &&& e.trigger_context == t.triggers[at[k]].context
        &&& e.result == CoreError::Cancelled
    } by {
        assert(now[before.len() + k] == events[k]);
    }
    at
}

/// The handles that `write_message` sends along leave their tokens: the message
/// has them in the order of the tokens, which are then not bound, and nothing
/// is closed. With a token that is not bound the operation fails.
pub proof fn law_replay_handles_leave(h: HarnessView, tokens: Seq<Seq<char>>, other: Seq<char>)
    requires
        tokens.no_duplicates(),
    ensures
        ({
            let (r, after) = h.taken(tokens);
            let all = forall|i: int| 0 <= i < tokens.len() ==> h.tokens.contains_key(
                #[trigger] tokens[i],
            );
            &&& r is Ok == all
            &&& all ==> {
                &&& r->Ok_0.len() == tokens.len()
                &&& forall|i: int|
                    0 <= i < tokens.len() ==> #[trigger] r->Ok_0[i] == h.tokens[tokens[i]]
                &&& after.session == h.session
                &&& after.events == h.events
                &&& after.tokens.contains_key(other) == (h.tokens.contains_key(other)
                    && !tokens.contains(other))
                &&& after.tokens.contains_key(other) ==> after.tokens[other] == h.tokens[other]
            }
        }),
    decreases tokens.len(),
{
    if tokens.len() > 0 {
        let init = tokens.drop_last();
        let t = tokens.last();
        assert(init.no_duplicates());
        law_replay_handles_leave(h, init, other);
        law_replay_handles_leave(h, init, t);
        assert forall|i: int| 0 <= i < init.len() implies init[i] == tokens[i] by {}
        assert(!init.contains(t)) by {
            if init.contains(t) {
                let j = init.index_of(t);
                assert(tokens[j] == tokens[tokens.len() - 1]);
            }
        }
        let (r0, h0) = h.taken(init);
        let (r, after) = h.taken(tokens);
        let all = forall|i: int| 0 <= i < tokens.len() ==> h.tokens.contains_key(
            #[trigger] tokens[i],
        );
        if r0 is Ok {
            assert forall|i: int| 0 <= i < tokens.len() && h.tokens.contains_key(t) implies
                h.tokens.contains_key(#[trigger] tokens[i]) by {
                if i < init.len() {
                    assert(h.tokens.contains_key(init[i]));
                }
            }
            if all {
                assert(h.tokens.contains_key(tokens[tokens.len() - 1]));
                assert forall|i: int| 0 <= i < tokens.len() implies #[trigger] r->Ok_0[i]
                    == h.tokens[tokens[i]] by {
                    if i < init.len() {
                        assert(r->Ok_0[i] == r0->Ok_0[i]);
                    }
                }
                assert(tokens.contains(other) == (init.contains(other) || other == t)) by {
                    if tokens.contains(other) {
                        let j = tokens.index_of(other);
                        if j < init.len() {
                            assert(init[j] == other);
                        }
                    }
                    if init.contains(other) {
                        let j = init.index_of(other);
                        assert(tokens[j] == other);
                    }
                    assert(tokens[tokens.len() - 1] == t);
                }
            }
        } else {
            assert(exists|i: int| 0 <= i < init.len() && !h.tokens.contains_key(
                #[trigger] init[i],
            ));
            let i = choose|i: int| 0 <= i < init.len() && !h.tokens.contains_key(
                #[trigger] init[i],
            );
            assert(!h.tokens.contains_key(tokens[i]));
        }
    }
}

proof fn lemma_extracted_tokens_differ(token: Seq<char>, i: int, j: int)
    requires
        0 <= i,
        0 <= j,
        extracted_token(token, i) == extracted_token(token, j),
    ensures
        i == j,
{
    let head = token + "_handle_"@;
    let a = crate::text::decimal(i as nat);
    let b = crate::text::decimal(j as nat);
    assert((head + a).skip(head.len() as int) =~= a);
    assert((head + b).skip(head.len() as int) =~= b);
    crate::text::law_decimal_tells_apart(i as nat, j as nat);
}

/// The handles that a message brings to `read_message` are bound to tokens of
/// their own, one each and in order. Tokens that were bound stay so, and nothing
/// is closed.
pub proof fn law_replay_handles_come(
    h: HarnessView,
    token: Seq<char>,
    handles: Seq<Handle>,
    other: Seq<char>,
)
    requires
        forall|i: int|
            0 <= i < handles.len() ==> !h.tokens.contains_key(#[trigger] extracted_token(token, i)),
    ensures
        ({
            let after = h.extracted(token, handles);
            &&& after.session == h.session
            &&& after.events == h.events
            &&& forall|i: int|
                0 <= i < handles.len() ==> after.tokens.contains_key(
                    #[trigger] extracted_token(token, i),
                ) && after.tokens[extracted_token(token, i)] == handles[i]
            &&& h.tokens.contains_key(other) ==> after.tokens.contains_key(other)
                && after.tokens[other] == h.tokens[other]
            &&& after.tokens.contains_key(other) && !h.tokens.contains_key(other) ==> exists|i: int|
                0 <= i < handles.len() && other == #[trigger] extracted_token(token, i)
        }),
    decreases handles.len(),
{
    if handles.len() > 0 {
        let init = handles.drop_last();
        let n = init.len() as int;
        let last = extracted_token(token, n);
        law_replay_handles_come(h, token, init, other);
        law_replay_handles_come(h, token, init, last);
        let before = h.extracted(token, init);
        let after = h.extracted(token, handles);
        assert(!before.tokens.contains_key(last)) by {
            if before.tokens.contains_key(last) {
                let i = choose|i: int| 0 <= i < init.len() && last == #[trigger] extracted_token(
                    token,
                    i,
                );
                lemma_extracted_tokens_differ(token, i, n);
            }
        }
        assert forall|i: int| 0 <= i < handles.len() implies after.tokens.contains_key(
            #[trigger] extracted_token(token, i),
        ) && after.tokens[extracted_token(token, i)] == handles[i] by {
            if i < n {
                assert(before.tokens[extracted_token(token, i)] == init[i]);
                if extracted_token(token, i) == last {
                    lemma_extracted_tokens_differ(token, i, n);
                }
            }
        }
    }
}

/// `trap_arm` of a trap that is armed changes nothing. `trap_create` under the
/// token of a trap drops that one, which delivers nothing more.
pub proof fn law_replay_trap_again(
    h: HarnessView,
    id: u64,
    args: OpArgs,
    x: Option<Expectation>,
    n: u64,
    t: TrapView,
)
    requires
        h.session.wf(),
        h.session.traps.len() < u64::MAX,
        args.trap is Some,
        args.produce is Some,
        args.produce->0@ == args.trap->0@,
        has_trap(h, args.trap->0@, n, t),
    ensures
        ({
            let (r, after) = h.op(id, "trap_arm"@, args, x);
            t.armed ==> {
                &&& r == Ok::<Step, Failure>(Step::Done)
                &&& reports(h, after, id, EventKind::Result, "MOJO_RESULT_OK"@)
                &&& after.session == h.session
                &&& after.tokens == h.tokens
            }
        }),
        ({
            let (r, after) = h.op(id, "trap_create"@, args, x);
            &&& r == Ok::<Step, Failure>(Step::Done)
            &&& reports(h, after, id, EventKind::Result, "MOJO_RESULT_OK"@)
            &&& after.traps[args.trap->0@] == h.session.traps.len()
            &&& after.sinks[args.trap->0@] == h.session.traps.len()
            &&& after.session.traps[n as int] is None
            &&& after.session.sinks[n as int] == h.session.sinks[n as int]
        }),
{
    lemma_names();
    let a = h.op(id, "trap_arm"@, args, x).1;
    if t.armed {
        assert(a.events.drop_last() =~= h.events);
    }
    let b = h.op(id, "trap_create"@, args, x).1;
    let made = h.session.trap_added();
    let gone = SessionView { traps: made.traps.update(n as int, None), ..made };
    crate::runtime::session::lemma_let_go_passes_over(gone, t.triggers, n as int);
    assert(b.events.drop_last() =~= h.events);
}

/// A token that is bound again lets go of what it stood for: that handle is
/// closed, and the token stands for the new one. Other tokens stay.
pub proof fn law_replay_rebinding_closes(
    h: HarnessView,
    token: Seq<char>,
    new: Handle,
    other: Seq<char>,
)
    requires
        h.session.wf(),
        h.tokens.contains_key(token),
        h.tokens[token].slot.0 == h.tokens[token].value % SLOT_RANGE,
        h.session.table.resolved(h.tokens[token].value) is Some,
    ensures
        ({
            let after = h.bound(token, new);
            let old = h.tokens[token];
            &&& after.tokens.contains_key(token)
            &&& after.tokens[token] == new
            &&& after.session.table.resolved(old.value) is None
            &&& after.events == h.events
            &&& other != token ==> after.tokens.contains_key(other) == h.tokens.contains_key(other)
            &&& other != token && h.tokens.contains_key(other) ==> after.tokens[other]
                == h.tokens[other]
        }),
{
    let old = h.tokens[token];
    law_close_handle(h.session, old, h.session.table.resolved(old.value)->0);
}

/// A pipe whose ends are not both named by the case is closed again at once:
/// neither of its handles resolves, and no token is bound.
pub proof fn law_replay_unnamed_pipe_is_closed(
    h: HarnessView,
    id: u64,
    args: OpArgs,
    x: Option<Expectation>,
    d: DispatcherRef,
)
    requires
        h.session.wf(),
        h.session.objects.pipes.len() < usize::MAX,
        h.session.table.has_room(),
        h.session.table.added(d).has_room(),
        produced(x).len() != 2,
        d == (DispatcherRef::MessagePipe {
            pipe: h.session.objects.pipes.len() as usize,
            end: End::A,
        }),
    ensures
        ({
            let (r, after) = h.op(id, "message_pipe_create"@, args, x);
            let first = h.session.table.next_handle();
            let second = h.session.table.added(d).next_handle();
            &&& r == Ok::<Step, Failure>(Step::Done)
            &&& reports(h, after, id, EventKind::Result, "MOJO_RESULT_OK"@)
            &&& after.tokens == h.tokens
            &&& after.session.table.resolved(first.value) is None
            &&& after.session.table.resolved(second.value) is None
        }),
{
    lemma_names();
    let after = h.op(id, "message_pipe_create"@, args, x).1;
    let b = DispatcherRef::MessagePipe {
        pipe: h.session.objects.pipes.len() as usize,
        end: End::B,
    };
    let t0 = h.session.table;
    let t1 = t0.added(d);
    let t2 = t1.added(b);
    law_added_handle_resolves(t0, d);
    law_added_handle_resolves(t1, b);
    law_add_keeps_others(t1, b, t0.next_handle().value);
    let ha = t0.next_handle();
    let hb = t1.next_handle();
    let h0 = HarnessView {
        session: SessionView {
            objects: crate::runtime::objects::ObjectsView {
                pipes: h.session.objects.pipes.push(crate::runtime::pipe::fresh_pipe()),
                ..h.session.objects
            },
            ..h.session
        },
        ..h
    };
    let both = h0.with_handle(d).with_handle(b);
    let work = seq![hb, ha];
    assert(both.session.table == t2);
    crate::runtime::session::law_every_handle_is_closed(both.session, work, 0);
    crate::runtime::session::law_every_handle_is_closed(both.session, work, 1);
    assert(after.session == both.session.all_closed(work));
    assert(after.events.drop_last() =~= h.events);
}

/// `write_message` to something that is no message pipe fails, and so does one
/// whose payload is no hexadecimal text. The handles that were taken for the
/// message are closed.
pub proof fn law_replay_failed_write_closes_handles(
    h: HarnessView,
    id: u64,
    args: OpArgs,
    x: Option<Expectation>,
    d: DispatcherRef,
    i: int,
)
    requires
        h.session.wf(),
        args.handle is Some,
        holds(h, args.handle->0@, d),
        d !is MessagePipe,
        texts(args.handles@).no_duplicates(),
        !texts(args.handles@).contains(args.handle->0@),
        0 <= i < args.handles@.len(),
        forall|k: int|
            0 <= k < args.handles@.len() ==> h.tokens.contains_key(
                #[trigger] texts(args.handles@)[k],
            ),
        h.tokens[texts(args.handles@)[i]].slot.0 == h.tokens[texts(args.handles@)[i]].value
            % SLOT_RANGE,
        h.session.table.resolved(h.tokens[texts(args.handles@)[i]].value) is Some,
    ensures
        ({
            let (r, after) = h.op(id, "write_message"@, args, x);
            let text = vstd::utf8::encode_utf8(text_or(args.payload_hex, ""@));
            let payload = crate::digest::hex_decoded(text);
            &&& r is Err
            &&& after.events == h.events
            &&& payload is Err ==> after == h
            &&& payload is Ok ==> after.session.table.resolved(
                h.tokens[texts(args.handles@)[i]].value,
            ) is None
        }),
{
    lemma_names();
    let tokens = texts(args.handles@);
    law_replay_handles_leave(h, tokens, args.handle->0@);
    let handles = h.taken(tokens).0->Ok_0;
    crate::runtime::session::law_every_handle_is_closed(h.session, handles, i);
}

/// `platform_handle_wrap` asks for a descriptor of the kind that the case names,
/// a memory file where it names none, with the content that its text stands
/// for. It changes nothing yet.
pub proof fn law_replay_wrap_asks_for_descriptor(
    h: HarnessView,
    id: u64,
    args: OpArgs,
    x: Option<Expectation>,
)
    ensures
        ({
            let (r, after) = h.op(id, "platform_handle_wrap"@, args, x);
            let text = vstd::utf8::encode_utf8(text_or(args.content_hex, ""@));
            let content = crate::digest::hex_decoded(text);
            let named = args.source is Some;
            &&& after == h
            &&& content is Err ==> r is Err
            &&& content matches Ok(c) ==> {
                &&& !named || args.source->0@ == "memfd"@ ==> r == Ok::<Step, Failure>(
                    Step::CreateDescriptor(Source::Memfd, c),
                )
                &&& named && args.source->0@ == "pipe"@ ==> r == Ok::<Step, Failure>(
                    Step::CreateDescriptor(Source::Pipe, c),
                )
                &&& named && args.source->0@ != "memfd"@ && args.source->0@ != "pipe"@ ==> r is Err
            }
        }),
{
    lemma_names();
    reveal_strlit("memfd");
    reveal_strlit("pipe");
    assert("memfd"@.len() == 5 && "pipe"@.len() == 4);
}

} // verus!
