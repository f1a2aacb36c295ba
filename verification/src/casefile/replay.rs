//! What the operations of a case mean: what each does to the handles, pipes and
//! traps behind its tokens, and what the event says that it emits.

use vstd::prelude::*;
#[allow(unused_imports)]
use vstd::utf8::encode_utf8;

#[allow(unused_imports)]
use crate::casefile::case::{Expectation, OpArgs};
#[allow(unused_imports)]
use crate::casefile::events::{EventKind, EventView};
#[allow(unused_imports)]
use crate::casefile::harness::{result_text, text_or, Failure, HarnessView, Step};
#[allow(unused_imports)]
use crate::digest::{hex_decoded, hex_text};
#[allow(unused_imports)]
use crate::runtime::dispatcher::DispatcherRef;
#[allow(unused_imports)]
use crate::runtime::handle::{Handle, SLOT_RANGE};
#[allow(unused_imports)]
use crate::runtime::message::MessageView;
#[allow(unused_imports)]
use crate::runtime::pipe::End;
#[allow(unused_imports)]
use crate::runtime::session::{law_close_handle, lemma_pumped, SessionView};
#[allow(unused_imports)]
use crate::runtime::signal::Signals;
#[allow(unused_imports)]
use crate::text::texts;

verus! {

/// Whether a harness has one more event than before, for this operation, with
/// this kind and result, and with the next number.
pub open spec fn reports(
    a: HarnessView,
    b: HarnessView,
    id: u64,
    kind: EventKind,
    result: Seq<char>,
) -> bool {
    &&& b.events.len() == a.events.len() + 1
    &&& b.events.drop_last() == a.events
    &&& b.events.last().op_id == id
    &&& b.events.last().event == kind
    &&& b.events.last().result == result
    &&& b.events.last().seq == b.seq
    &&& a.seq < u64::MAX ==> b.seq == a.seq + 1
}

/// Whether a token is bound to a handle of an end of a message pipe.
pub open spec fn at_end(h: HarnessView, token: Seq<char>, pipe: usize, end: End) -> bool {
    &&& h.tokens.contains_key(token)
    &&& h.tokens[token].slot.0 == h.tokens[token].value % SLOT_RANGE
    &&& h.session.table.resolved(h.tokens[token].value) == Some(
        DispatcherRef::MessagePipe { pipe, end },
    )
    &&& pipe < h.session.objects.pipes.len()
}

pub(crate) proof fn lemma_names()
    ensures
        forall|h: HarnessView, id: u64, args: OpArgs, x: Option<Expectation>|
            #![trigger h.op(id, "message_pipe_create"@, args, x)]
            h.op(id, "message_pipe_create"@, args, x) == h.op_create(id, x),
        forall|h: HarnessView, id: u64, args: OpArgs, x: Option<Expectation>|
            #![trigger h.op(id, "write_message"@, args, x)]
            h.op(id, "write_message"@, args, x) == h.op_write(id, args, x),
        forall|h: HarnessView, id: u64, args: OpArgs, x: Option<Expectation>|
            #![trigger h.op(id, "read_message"@, args, x)]
            h.op(id, "read_message"@, args, x) == h.op_read(id, args, x),
        forall|h: HarnessView, id: u64, args: OpArgs, x: Option<Expectation>|
            #![trigger h.op(id, "query_signals_state"@, args, x)]
            h.op(id, "query_signals_state"@, args, x) == h.op_query(id, args, x),
        forall|h: HarnessView, id: u64, args: OpArgs, x: Option<Expectation>|
            #![trigger h.op(id, "close"@, args, x)]
            h.op(id, "close"@, args, x) == h.op_close(id, args),
        forall|h: HarnessView, id: u64, args: OpArgs, x: Option<Expectation>|
            #![trigger h.op(id, "wait"@, args, x)]
            h.op(id, "wait"@, args, x) == h.op_wait(id, args, x),
        forall|h: HarnessView, id: u64, args: OpArgs, x: Option<Expectation>|
            #![trigger h.op(id, "platform_handle_wrap"@, args, x)]
            h.op(id, "platform_handle_wrap"@, args, x) == h.op_wrap(args),
        forall|h: HarnessView, id: u64, args: OpArgs, x: Option<Expectation>|
            #![trigger h.op(id, "platform_handle_unwrap"@, args, x)]
            h.op(id, "platform_handle_unwrap"@, args, x) == h.op_unwrap(id, args),
        forall|h: HarnessView, id: u64, args: OpArgs, x: Option<Expectation>|
            #![trigger h.op(id, "trap_create"@, args, x)]
            h.op(id, "trap_create"@, args, x) == h.op_trap_create(id, args),
        forall|h: HarnessView, id: u64, args: OpArgs, x: Option<Expectation>|
            #![trigger h.op(id, "trap_add_trigger"@, args, x)]
            h.op(id, "trap_add_trigger"@, args, x) == h.op_add_trigger(id, args),
        forall|h: HarnessView, id: u64, args: OpArgs, x: Option<Expectation>|
            #![trigger h.op(id, "trap_arm"@, args, x)]
            h.op(id, "trap_arm"@, args, x) == h.op_arm(id, args),
        forall|h: HarnessView, id: u64, args: OpArgs, x: Option<Expectation>|
            #![trigger h.op(id, "trap_remove_trigger"@, args, x)]
            h.op(id, "trap_remove_trigger"@, args, x) == h.op_remove_trigger(id, args),
        forall|h: HarnessView, id: u64, args: OpArgs, x: Option<Expectation>|
            #![trigger h.op(id, "trap_close"@, args, x)]
            h.op(id, "trap_close"@, args, x) == h.op_trap_close(id, args),
        forall|h: HarnessView, id: u64, args: OpArgs, x: Option<Expectation>|
            #![trigger h.op(id, "drain_trap_events"@, args, x)]
            h.op(id, "drain_trap_events"@, args, x) == h.op_drain(id, args),
{
    reveal_strlit("message_pipe_create");
    reveal_strlit("write_message");
    reveal_strlit("read_message");
    reveal_strlit("query_signals_state");
    reveal_strlit("close");
    reveal_strlit("wait");
    reveal_strlit("platform_handle_wrap");
    reveal_strlit("platform_handle_unwrap");
    reveal_strlit("trap_create");
    reveal_strlit("trap_add_trigger");
    reveal_strlit("trap_arm");
    reveal_strlit("trap_remove_trigger");
    reveal_strlit("trap_close");
    reveal_strlit("drain_trap_events");
    assert("message_pipe_create"@.len() == 19 && "message_pipe_create"@[0] == 'm');
    assert("write_message"@.len() == 13);
    assert("read_message"@.len() == 12);
    assert("query_signals_state"@.len() == 19 && "query_signals_state"@[0] == 'q');
    assert("close"@.len() == 5);
    assert("wait"@.len() == 4);
    assert("platform_handle_wrap"@.len() == 20);
    assert("platform_handle_unwrap"@.len() == 22);
    assert("trap_create"@.len() == 11);
    assert("trap_add_trigger"@.len() == 16);
    assert("trap_arm"@.len() == 8);
    assert("trap_remove_trigger"@.len() == 19 && "trap_remove_trigger"@[0] == 't');
    assert("trap_close"@.len() == 10);
    assert("drain_trap_events"@.len() == 17);
}

pub(crate) proof fn lemma_posted(h: HarnessView, e: EventView)
    ensures
        h.posted(e).events.drop_last() == h.events,
        h.posted(e).events.last() == (EventView { seq: h.posted(e).seq, ..e }),
        h.seq < u64::MAX ==> h.posted(e).seq == h.seq + 1,
        h.posted(e).session == h.session,
        h.posted(e).tokens == h.tokens,
{
    assert(h.posted(e).events.drop_last() =~= h.events);
}

/// `close` of a token that is bound closes its handle: the token is unbound,
/// the value of the handle resolves to nothing any more, an end of a pipe is
/// closed and the other end sees that its peer is gone, and a descriptor is
/// released. Other tokens stay bound. `close` of any other token finds it
/// invalid and changes nothing.
pub proof fn law_replay_close(
    h: HarnessView,
    id: u64,
    args: OpArgs,
    x: Option<Expectation>,
    d: DispatcherRef,
)
    requires
        h.session.wf(),
        args.handle is Some,
    ensures
        ({
            let token = args.handle->0@;
            let (r, after) = h.op(id, "close"@, args, x);
            &&& r == Ok::<Step, Failure>(Step::Done)
            &&& after.tokens == h.tokens.remove(token)
            &&& after.events.last().handle == Some(token)
            &&& !h.tokens.contains_key(token) ==> {
                &&& reports(h, after, id, EventKind::Result, "MOJO_RESULT_INVALID_ARGUMENT"@)
                &&& after.session == h.session
            }
            &&& h.tokens.contains_key(token) ==> {
                let old = h.tokens[token];
                &&& reports(h, after, id, EventKind::Result, "MOJO_RESULT_OK"@)
                &&& old.slot.0 == old.value % SLOT_RANGE && h.session.table.resolved(old.value)
                    == Some(d) ==> {
                    &&& after.session.table.resolved(old.value) is None
                    &&& d matches DispatcherRef::PlatformHandle(fd) ==> after.session.released
                        == h.session.released.push(fd)
                    &&& d matches DispatcherRef::MessagePipe { pipe, end } ==> pipe
                        < h.session.objects.pipes.len() ==> {
                        let p = h.session.objects.pipes[pipe as int];
                        let q = after.session.objects.pipes[pipe as int];
                        &&& q.at(end).local_closed
                        &&& !p.at(end).local_closed ==> q.at(end.spec_peer()).peer_closed
                        &&& !p.at(end.spec_peer()).local_closed ==> {
                            &&& !q.at(end.spec_peer()).local_closed
                            &&& q.at(end.spec_peer()).queue == p.at(end.spec_peer()).queue
                            &&& !p.at(end).local_closed ==> q.at(
                                end.spec_peer(),
                            ).satisfied().has(Signals::peer_closed())
                        }
                    }
                }
            }
        }),
{
    lemma_names();
    let token = args.handle->0@;
    let (r, after) = h.op(id, "close"@, args, x);
    if h.tokens.contains_key(token) {
        let old = h.tokens[token];
        let closed = h.unbound(token).closing(seq![old]);
        lemma_posted(
            closed,
            crate::casefile::harness::op_event(
                id,
                EventKind::Result,
                "MOJO_RESULT_OK"@,
                Some(token),
            ),
        );
        if old.slot.0 == old.value % SLOT_RANGE && h.session.table.resolved(old.value) == Some(d) {
            law_close_handle(h.session, old, d);
            match d {
                DispatcherRef::MessagePipe { pipe, end } => {
                    if pipe < h.session.objects.pipes.len() {
                        crate::runtime::pipe::law_endpoint_signals(
                            after.session.objects.pipes[pipe as int].at(end.spec_peer()),
                        );
                    }
                },
                _ => {},
            }
        }
    } else {
        lemma_posted(
            h,
            crate::casefile::harness::op_event(
                id,
                EventKind::Result,
                "MOJO_RESULT_INVALID_ARGUMENT"@,
                Some(token),
            ),
        );
        assert(h.tokens.remove(token) =~= h.tokens);
    }
}

/// What `read_message` reports: the first message that waits at the end, whole,
/// which is then gone; with none, that the peer is closed, or that one may come.
/// The handles that the message brings are bound to tokens of their own.
pub proof fn law_replay_read(
    h: HarnessView,
    id: u64,
    args: OpArgs,
    x: Option<Expectation>,
    pipe: usize,
    end: End,
)
    requires
        h.session.wf(),
        args.handle is Some,
        at_end(h, args.handle->0@, pipe, end),
        !h.session.objects.pipes[pipe as int].at(end).local_closed,
    ensures
        ({
            let token = args.handle->0@;
            let ep = h.session.objects.pipes[pipe as int].at(end);
            let (r, after) = h.op(id, "read_message"@, args, x);
            let e = after.events.last();
            &&& r == Ok::<Step, Failure>(Step::Done)
            &&& e.handle == Some(token)
            &&& ep.queue.len() == 0 ==> {
                &&& reports(
                    h,
                    after,
                    id,
                    EventKind::Message,
                    if ep.peer_closed {
                        "MOJO_RESULT_FAILED_PRECONDITION"@
                    } else {
                        "MOJO_RESULT_SHOULD_WAIT"@
                    },
                )
                &&& e.payload_hex is None
                &&& after.session == h.session
                &&& after.tokens == h.tokens
            }
            &&& ep.queue.len() > 0 ==> {
                let m = ep.queue[0];
                &&& reports(h, after, id, EventKind::Message, "MOJO_RESULT_OK"@)
                &&& e.payload_hex == Some(hex_text(m.data))
                &&& e.handles matches Some(names) && names.len() == m.handles.len()
                &&& m.handles.len() == 0 ==> {
                    &&& after.tokens == h.tokens
                    &&& after.session.objects.pipes[pipe as int].at(end).queue
                        == ep.queue.drop_first()
                    &&& after.session.objects.pipes[pipe as int].at(end.spec_peer())
                        == h.session.objects.pipes[pipe as int].at(end.spec_peer())
                    &&& after.session.table == h.session.table
                }
            }
        }),
{
    lemma_names();
    let token = args.handle->0@;
    let ep = h.session.objects.pipes[pipe as int].at(end);
    let (r, after) = h.op(id, "read_message"@, args, x);
    let p = h.session.objects.pipes[pipe as int];
    let (outcome, s) = h.session.read(pipe, end);
    let g = HarnessView { session: s, ..h };
    if ep.queue.len() == 0 {
        let name = if ep.peer_closed {
            "MOJO_RESULT_FAILED_PRECONDITION"@
        } else {
            "MOJO_RESULT_SHOULD_WAIT"@
        };
        lemma_posted(
            g,
            crate::casefile::harness::op_event(id, EventKind::Message, name, Some(token)),
        );
    } else {
        let m = ep.queue[0];
        let read = SessionView {
            objects: h.session.objects.with_pipe(pipe as int, p.taken(end)),
            ..h.session
        };
        lemma_pumped(read, pipe);
        let taken = g.extracted(token, m.handles);
        lemma_extracted(g, token, m.handles);
        lemma_posted(
            taken,
            EventView {
                payload_hex: Some(hex_text(m.data)),
                handles: Some(HarnessView::extracted_tokens(token, m.handles.len())),
                ..crate::casefile::harness::op_event(
                    id,
                    EventKind::Message,
                    "MOJO_RESULT_OK"@,
                    Some(token),
                )
            },
        );
    }
}

proof fn lemma_extracted(h: HarnessView, token: Seq<char>, handles: Seq<Handle>)
    ensures
        h.extracted(token, handles).events == h.events,
        h.extracted(token, handles).seq == h.seq,
    decreases handles.len(),
{
    if handles.len() > 0 {
        lemma_extracted(h, token, handles.drop_last());
    }
}

/// After `close` of one end of a pipe, with nothing left to read at the other,
/// `read_message` there reports that the peer is gone.
pub proof fn law_replay_close_then_read(
    h: HarnessView,
    first: u64,
    closing: OpArgs,
    then: u64,
    reading: OpArgs,
    x: Option<Expectation>,
    pipe: usize,
    end: End,
)
    requires
        h.session.wf(),
        closing.handle is Some,
        reading.handle is Some,
        closing.handle->0@ != reading.handle->0@,
        at_end(h, closing.handle->0@, pipe, end),
        at_end(h, reading.handle->0@, pipe, end.spec_peer()),
        h.tokens[closing.handle->0@].slot != h.tokens[reading.handle->0@].slot,
        !h.session.objects.pipes[pipe as int].at(end).local_closed,
        !h.session.objects.pipes[pipe as int].at(end.spec_peer()).local_closed,
        h.session.objects.pipes[pipe as int].at(end.spec_peer()).queue.len() == 0,
        h.op(first, "close"@, closing, x).1.session.wf(),
    ensures
        ({
            let closed = h.op(first, "close"@, closing, x).1;
            let (r, after) = closed.op(then, "read_message"@, reading, x);
            &&& r is Ok
            &&& reports(
                closed,
                after,
                then,
                EventKind::Message,
                "MOJO_RESULT_FAILED_PRECONDITION"@,
            )
        }),
{
    let closed = h.op(first, "close"@, closing, x).1;
    let d = DispatcherRef::MessagePipe { pipe, end };
    lemma_names();
    law_replay_close(h, first, closing, x, d);
    law_close_handle(h.session, h.tokens[closing.handle->0@], d);
    lemma_posted(
        h.unbound(closing.handle->0@).closing(seq![h.tokens[closing.handle->0@]]),
        crate::casefile::harness::op_event(
            first,
            EventKind::Result,
            "MOJO_RESULT_OK"@,
            Some(closing.handle->0@),
        ),
    );
    assert(closed.session == h.session.all_closed(seq![h.tokens[closing.handle->0@]]));
    let other = h.tokens[reading.handle->0@].value;
    assert(closed.session.table.resolved(other) == h.session.table.resolved(other));
    assert(at_end(closed, reading.handle->0@, pipe, end.spec_peer()));
    law_replay_read(closed, then, reading, x, pipe, end.spec_peer());
}

/// `write_message` without handles puts the message behind those that wait at
/// the other end, or reports that it is closed. Nothing else of the pipe
/// changes.
pub proof fn law_replay_write(
    h: HarnessView,
    id: u64,
    args: OpArgs,
    x: Option<Expectation>,
    pipe: usize,
    end: End,
)
    requires
        h.session.wf(),
        args.handle is Some,
        args.handles@.len() == 0,
        hex_decoded(encode_utf8(text_or(args.payload_hex, ""@))) is Ok,
        at_end(h, args.handle->0@, pipe, end),
        !h.session.objects.pipes[pipe as int].at(end).local_closed,
    ensures
        ({
            let token = args.handle->0@;
            let payload = hex_decoded(encode_utf8(text_or(args.payload_hex, ""@)))->Ok_0;
            let p = h.session.objects.pipes[pipe as int];
            let (r, after) = h.op(id, "write_message"@, args, x);
            let q = after.session.objects.pipes[pipe as int];
            &&& r == Ok::<Step, Failure>(Step::Done)
            &&& after.events.last().handle == Some(token)
            &&& after.tokens == h.tokens
            &&& p.at(end).peer_closed ==> {
                &&& reports(h, after, id, EventKind::Result, "MOJO_RESULT_FAILED_PRECONDITION"@)
                &&& after.session == h.session
            }
            &&& !p.at(end).peer_closed ==> {
                &&& reports(h, after, id, EventKind::Result, "MOJO_RESULT_OK"@)
                &&& after.session.table == h.session.table
                &&& q.at(end) == p.at(end)
                &&& q.at(end.spec_peer()).queue.len() == p.at(end.spec_peer()).queue.len() + 1
                &&& q.at(end.spec_peer()).queue.drop_last() == p.at(end.spec_peer()).queue
                &&& q.at(end.spec_peer()).queue.last().data == payload
                &&& q.at(end.spec_peer()).queue.last().handles.len() == 0
                &&& q.at(end.spec_peer()).local_closed == p.at(end.spec_peer()).local_closed
                &&& q.at(end.spec_peer()).peer_closed == p.at(end.spec_peer()).peer_closed
            }
        }),
{
    lemma_names();
    let token = args.handle->0@;
    let payload = hex_decoded(encode_utf8(text_or(args.payload_hex, ""@)))->Ok_0;
    let p = h.session.objects.pipes[pipe as int];
    let m = MessageView { data: payload, handles: Seq::empty() };
    let tokens = texts(args.handles@);
    assert(tokens =~= Seq::empty());
    assert(h.taken(tokens).1 == h);
    assert(h.taken(tokens).0->Ok_0 =~= Seq::<Handle>::empty());
    let (w, s) = h.session.written(pipe, end, m);
    lemma_posted(
        HarnessView { session: s, ..h },
        crate::casefile::harness::op_event(id, EventKind::Result, result_text(w), Some(token)),
    );
    if !p.at(end).peer_closed {
        let t = SessionView {
            objects: h.session.objects.with_pipe(pipe as int, p.written(end, m)),
            ..h.session
        };
        lemma_pumped(t, pipe);
        let q = s.objects.pipes[pipe as int];
        assert(q.at(end.spec_peer()).queue.drop_last() =~= p.at(end.spec_peer()).queue);
    }
}

/// What `write_message` puts into an empty pipe, `read_message` at the other
/// end reports next: the same payload.
pub proof fn law_replay_write_then_read(
    h: HarnessView,
    first: u64,
    writing: OpArgs,
    then: u64,
    reading: OpArgs,
    x: Option<Expectation>,
    pipe: usize,
    end: End,
)
    requires
        h.session.wf(),
        writing.handle is Some,
        writing.handles@.len() == 0,
        hex_decoded(encode_utf8(text_or(writing.payload_hex, ""@))) is Ok,
        reading.handle is Some,
        at_end(h, writing.handle->0@, pipe, end),
        at_end(h, reading.handle->0@, pipe, end.spec_peer()),
        !h.session.objects.pipes[pipe as int].at(end).local_closed,
        !h.session.objects.pipes[pipe as int].at(end).peer_closed,
        !h.session.objects.pipes[pipe as int].at(end.spec_peer()).local_closed,
        h.session.objects.pipes[pipe as int].at(end.spec_peer()).queue.len() == 0,
        h.op(first, "write_message"@, writing, x).1.session.wf(),
    ensures
        ({
            let payload = hex_decoded(encode_utf8(text_or(writing.payload_hex, ""@)))->Ok_0;
            let written = h.op(first, "write_message"@, writing, x).1;
            let (r, after) = written.op(then, "read_message"@, reading, x);
            &&& reports(written, after, then, EventKind::Message, "MOJO_RESULT_OK"@)
            &&& after.events.last().payload_hex == Some(hex_text(payload))
        }),
{
    let written = h.op(first, "write_message"@, writing, x).1;
    law_replay_write(h, first, writing, x, pipe, end);
    lemma_names();
    let p = h.session.objects.pipes[pipe as int];
    let payload = hex_decoded(encode_utf8(text_or(writing.payload_hex, ""@)))->Ok_0;
    let m = MessageView { data: payload, handles: Seq::empty() };
    let t = SessionView {
        objects: h.session.objects.with_pipe(pipe as int, p.written(end, m)),
        ..h.session
    };
    lemma_pumped(t, pipe);
    let tokens = texts(writing.handles@);
    assert(tokens =~= Seq::empty());
    assert(h.taken(tokens).0->Ok_0 =~= Seq::<Handle>::empty());
    assert(written.session.objects.pipes.len() == h.session.objects.pipes.len());
    assert(at_end(written, reading.handle->0@, pipe, end.spec_peer()));
    law_replay_read(written, then, reading, x, pipe, end.spec_peer());
}

} // verus!
