//! Handles, signals, message pipes, traps and waits.

use std::cell::Cell;

use mojo_rs::runtime::dispatcher::{message_pipe_ref, Dispatcher, DispatcherRef, DispatcherType};
use mojo_rs::runtime::error::CoreError;
use mojo_rs::runtime::handle::{Handle, HandleTable};
use mojo_rs::runtime::message::Message;
use mojo_rs::runtime::objects::Objects;
use mojo_rs::runtime::pipe::{End, MessagePipe, MessagePipeDispatcher, ReadOutcome};
use mojo_rs::runtime::platform_handle::PlatformHandleDispatcher;
use mojo_rs::runtime::session::Session;
use mojo_rs::runtime::signal::{Signals, SignalsState};
use mojo_rs::runtime::trap::{Trap, TrapCallback, TrapEvent};
use mojo_rs::runtime::wait::{WaitAction, WaitEvent, Waiter};
use mojo_rs::runtime::watch::{WatchKind, WatchTarget};

fn pipe_end(pipe: usize, end: End) -> DispatcherRef {
    DispatcherRef::MessagePipe { pipe, end }
}

fn read_data(pipe: &mut MessagePipe, end: End) -> Vec<u8> {
    match pipe.read(end, None, false).unwrap() {
        ReadOutcome::Message { data, .. } => data,
        ReadOutcome::TooLarge { .. } => panic!("too large"),
    }
}

/// Wait on one end of a pipe; nothing happens to the pipe meanwhile, so that a
/// park lasts until the deadline.
fn wait_on(pipe: &MessagePipe, end: End, signals: Signals) -> Result<SignalsState, CoreError> {
    let mut w = Waiter::new();
    let mut event = WaitEvent::Checked { state: pipe.query_signals(end), expired: false };
    loop {
        match w.wait(signals, event) {
            WaitAction::Done(r) | WaitAction::CancelAndDone(r) => return r,
            WaitAction::StartWatch => {
                event = WaitEvent::Watching { state: pipe.query_signals(end), expired: false };
            }
            WaitAction::Park => event = WaitEvent::Unparked { timed_out: true },
            WaitAction::CancelAndCheck => {
                event = WaitEvent::Checked { state: pipe.query_signals(end), expired: false };
            }
        }
    }
}

#[test]
fn dispatcher_type_names() {
    assert_eq!(DispatcherType::MessagePipe.name(), "MOJO_HANDLE_TYPE_MESSAGE_PIPE");
    assert_eq!(DispatcherType::SharedBuffer.name(), "MOJO_HANDLE_TYPE_SHARED_BUFFER");
}

#[test]
fn codes_match_pinned_types_h() {
    let expected = [
        (CoreError::Success, 0),
        (CoreError::Cancelled, 1),
        (CoreError::Unknown, 2),
        (CoreError::InvalidArgument, 3),
        (CoreError::DeadlineExceeded, 4),
        (CoreError::NotFound, 5),
        (CoreError::AlreadyExists, 6),
        (CoreError::PermissionDenied, 7),
        (CoreError::ResourceExhausted, 8),
        (CoreError::FailedPrecondition, 9),
        (CoreError::Aborted, 10),
        (CoreError::OutOfRange, 11),
        (CoreError::Unimplemented, 12),
        (CoreError::Internal, 13),
        (CoreError::Unavailable, 14),
        (CoreError::DataLoss, 15),
        (CoreError::Busy, 16),
        (CoreError::ShouldWait, 17),
    ];
    for (e, code) in expected {
        assert_eq!(e.code(), code);
    }
}

#[test]
fn create_and_resolve() {
    let mut table = HandleTable::new();
    let ha = table.add(pipe_end(0, End::A)).unwrap();
    let hb = table.add(pipe_end(0, End::B)).unwrap();
    assert_ne!(ha.value(), hb.value());
    assert!(ha.value() != 0);
    assert!(table.get(ha.value()).is_ok());
    assert!(table.get(hb.value()).is_ok());
    assert_eq!(table.live_count(), 2);
}

#[test]
fn close_rejects_stale_and_reused() {
    let mut table = HandleTable::new();
    let ha = table.add(pipe_end(0, End::A)).unwrap();
    let _hb = table.add(pipe_end(0, End::B)).unwrap();
    let value = ha.value();
    assert_eq!(table.close(ha), Some(pipe_end(0, End::A)));
    assert!(table.get(value).is_err());
    // A new handle may reuse the slot, but the stale value must not alias it.
    let ha2 = table.add(pipe_end(1, End::A)).unwrap();
    let _hb2 = table.add(pipe_end(1, End::B)).unwrap();
    if let Ok(resolved) = table.get(value) {
        let fresh = table.get(ha2.value()).unwrap();
        assert_ne!(resolved, fresh);
    }
    // The slot was reused here, with another generation.
    assert_eq!(table.get(value), Err(CoreError::InvalidArgument));
    assert_eq!(table.get(ha2.value()), Ok(pipe_end(1, End::A)));
}

#[test]
fn zero_is_invalid() {
    assert!(Handle::is_invalid_value(0));
    assert!(!Handle::is_valid_value(0));
}

#[test]
fn signals_sanity() {
    assert!(Signals::readable().contains(Signals::readable()));
    assert!(!Signals::readable().contains(Signals::writable()));
}

#[test]
fn message_roundtrip() {
    let m = Message::new(vec![1, 2, 3], vec![]);
    assert_eq!(m.data(), &[1, 2, 3]);
    let (data, handles) = m.into_parts();
    assert_eq!(data, vec![1, 2, 3]);
    assert!(handles.is_empty());
}

#[test]
fn pipe_initial_signals() {
    let pipe = MessagePipe::create();
    let st = pipe.query_signals(End::B);
    assert!(st.satisfied.contains(Signals::writable()));
    assert!(!st.satisfied.contains(Signals::readable()));
    assert!(!st.satisfied.contains(Signals::peer_closed()));
    assert!(st.satisfiable.contains(Signals::readable()));
    assert!(st.satisfiable.contains(Signals::writable()));
    assert!(st.satisfiable.contains(Signals::peer_closed()));
}

#[test]
fn write_read_roundtrip_fifo() {
    let mut pipe = MessagePipe::create();
    pipe.write(End::A, Message::new(vec![1], vec![])).unwrap();
    pipe.write(End::A, Message::new(vec![2], vec![])).unwrap();
    assert!(pipe.query_signals(End::B).satisfied.contains(Signals::readable()));
    let m1 = read_data(&mut pipe, End::B);
    let m2 = read_data(&mut pipe, End::B);
    assert_eq!(m1, vec![1]);
    assert_eq!(m2, vec![2]);
    assert_eq!(pipe.read(End::B, None, false).unwrap_err(), CoreError::ShouldWait);
}

#[test]
fn read_too_large_keeps_message() {
    let mut pipe = MessagePipe::create();
    pipe.write(End::A, Message::new(vec![1, 2, 3, 4], vec![])).unwrap();
    match pipe.read(End::B, Some(2), false).unwrap() {
        ReadOutcome::TooLarge { size } => assert_eq!(size, 4),
        _ => panic!("the message was taken"),
    }
    // Message still queued.
    assert_eq!(read_data(&mut pipe, End::B), vec![1, 2, 3, 4]);
}

#[test]
fn oversized_message_may_be_discarded() {
    let mut pipe = MessagePipe::create();
    pipe.write(End::A, Message::new(vec![1, 2, 3, 4], vec![])).unwrap();
    match pipe.read(End::B, Some(2), true).unwrap() {
        ReadOutcome::Message { data, .. } => assert_eq!(data, vec![1, 2, 3, 4]),
        ReadOutcome::TooLarge { .. } => panic!("the message was kept"),
    }
    assert_eq!(pipe.queued_count(End::B), 0);
}

#[test]
fn peer_closure_observed() {
    let mut pipe = MessagePipe::create();
    pipe.write(End::A, Message::new(vec![9], vec![])).unwrap();
    MessagePipeDispatcher { pipe: 0, end: End::A }.close(&mut pipe);
    // Queued message still readable, then FAILED_PRECONDITION.
    let st = pipe.query_signals(End::B);
    assert!(st.satisfied.contains(Signals::readable()));
    assert!(st.satisfied.contains(Signals::peer_closed()));
    // While messages remain the portal is not dead: READABLE stays satisfiable
    // and WRITABLE drops out.
    assert!(st.satisfiable.contains(Signals::readable()));
    assert!(st.satisfiable.contains(Signals::peer_closed()));
    assert!(!st.satisfiable.contains(Signals::writable()));
    let _ = pipe.read(End::B, None, false).unwrap();
    assert_eq!(pipe.read(End::B, None, false).unwrap_err(), CoreError::FailedPrecondition);
    // After draining the portal is dead: READABLE is no longer satisfiable,
    // WRITABLE can never be satisfied, PEER_CLOSED stays satisfied.
    let st = pipe.query_signals(End::B);
    assert!(!st.satisfied.contains(Signals::readable()));
    assert!(st.satisfied.contains(Signals::peer_closed()));
    assert!(!st.satisfiable.contains(Signals::readable()));
    assert!(!st.satisfiable.contains(Signals::writable()));
    assert!(st.satisfiable.contains(Signals::peer_closed()));
    assert!(st.satisfiable.contains(Signals::quota_exceeded()));
}

#[test]
fn pipe_write_to_closed_peer_fails() {
    let mut pipe = MessagePipe::create();
    pipe.close(End::B);
    let (e, _) = pipe.write(End::A, Message::empty()).unwrap_err();
    assert_eq!(e, CoreError::FailedPrecondition);
}

#[test]
fn closed_end_refuses_use() {
    let mut pipe = MessagePipe::create();
    pipe.close(End::A);
    let (e, back) = pipe.write(End::A, Message::new(vec![5], vec![])).unwrap_err();
    assert_eq!(e, CoreError::InvalidArgument);
    assert_eq!(back.data(), &[5]);
    assert_eq!(pipe.read(End::A, None, false).unwrap_err(), CoreError::InvalidArgument);
}

#[test]
fn watch_fires_on_readability() {
    let mut pipe = MessagePipe::create();
    let id = pipe.register_watch(End::B, Signals::readable(), WatchTarget::Waiter(3));
    pipe.write(End::A, Message::new(vec![7], vec![])).unwrap();
    let reports = pipe.take_notifications();
    assert_eq!(reports.len(), 1);
    assert_eq!(reports[0].watch, id);
    assert_eq!(reports[0].target, WatchTarget::Waiter(3));
    assert_eq!(reports[0].kind, WatchKind::Changed);
    assert!(reports[0].state.satisfied.contains(Signals::readable()));
}

#[test]
fn cancelled_watch_is_silent() {
    let mut pipe = MessagePipe::create();
    let id = pipe.register_watch(End::B, Signals::readable(), WatchTarget::Waiter(3));
    pipe.cancel_registered_watch(End::B, id);
    pipe.write(End::A, Message::new(vec![7], vec![])).unwrap();
    assert!(pipe.take_notifications().is_empty());
}

#[test]
fn constants_match_pinned_types_h() {
    assert_eq!(Signals::readable().bits(), 1 << 0);
    assert_eq!(Signals::writable().bits(), 1 << 1);
    assert_eq!(Signals::peer_closed().bits(), 1 << 2);
    assert_eq!(Signals::new_data_readable().bits(), 1 << 3);
    assert_eq!(Signals::peer_remote().bits(), 1 << 4);
    assert_eq!(Signals::quota_exceeded().bits(), 1 << 5);
}

#[test]
fn watch_result_classifies_states() {
    let st = SignalsState {
        satisfied: Signals::writable(),
        satisfiable: Signals::readable() | Signals::writable() | Signals::peer_closed(),
    };
    assert!(st.watch_result(Signals::writable()).is_ok());
    assert!(st.watch_result(Signals::readable()).is_err());
    let (unsat, _) = (st.watch_result(Signals::readable()), ());
    assert_eq!(unsat.err(), Some(Signals::none()));

    let closed = SignalsState { satisfied: Signals::peer_closed(), satisfiable: Signals::none() };
    assert!(closed.watch_result(Signals::readable()).is_err());
    assert_eq!(closed.watch_result(Signals::readable()).err(), Some(Signals::none()));
    assert!(closed.watch_result(Signals::peer_closed()).is_ok());
    assert!(closed.is_unsatisfiable(Signals::readable()));
}

#[test]
fn signal_sets_combine() {
    let both = Signals::readable() | Signals::writable();
    assert_eq!(both.bits(), 3);
    assert_eq!((both & Signals::writable()).bits(), 2);
    assert!(Signals::from_bits(0).is_empty());
    assert!(Signals::all().contains(both));
}

#[test]
fn callback_invocation() {
    let calls = Cell::new(0usize);
    let cb = TrapCallback::new(
        |_ctx: usize, _e: &TrapEvent| {
            calls.set(calls.get() + 1);
        },
        0,
    );
    let e = TrapEvent {
        trigger_context: 1,
        signals_state: SignalsState::default(),
        result: CoreError::Success,
    };
    cb.invoke(&e);
    assert_eq!(calls.get(), 1);
}

#[test]
fn wait_returns_when_satisfied() {
    let mut pipe = MessagePipe::create();
    pipe.write(End::A, Message::empty()).unwrap();
    let state = wait_on(&pipe, End::B, Signals::readable()).unwrap();
    assert!(state.is_satisfied(Signals::readable()));
}

#[test]
fn wait_deadline_exceeded() {
    let pipe = MessagePipe::create();
    let err = wait_on(&pipe, End::B, Signals::readable()).unwrap_err();
    assert_eq!(err, CoreError::DeadlineExceeded);
}

#[test]
fn wait_unsatisfiable() {
    let mut objects = Objects::new();
    let n = objects.add_message_pipe();
    let b = pipe_end(n, End::B);
    objects.on_closed(b); // close the endpoint locally
    let state = objects.query_signals(b);
    let mut w = Waiter::new();
    let action = w.wait(Signals::writable(), WaitEvent::Checked { state, expired: false });
    match action {
        WaitAction::Done(r) => assert_eq!(r.unwrap_err(), CoreError::FailedPrecondition),
        other => panic!("{other:?}"),
    }
}

#[test]
fn wakeup_before_the_park_is_not_lost() {
    let pipe = MessagePipe::create();
    let state = pipe.query_signals(End::B);
    let mut w = Waiter::new();
    let first = w.wait(Signals::readable(), WaitEvent::Checked { state, expired: false });
    assert_eq!(first, WaitAction::StartWatch);
    w.wake();
    let second = w.wait(Signals::readable(), WaitEvent::Watching { state, expired: false });
    assert_eq!(second, WaitAction::CancelAndCheck);
}

#[test]
fn handles_are_moved_with_messages() {
    let mut table = HandleTable::new();
    let h = table.add(DispatcherRef::PlatformHandle(9)).unwrap();
    let value = h.value();
    let mut pipe = MessagePipe::create();
    pipe.write(End::A, Message::new(vec![], vec![h])).unwrap();
    match pipe.read(End::B, None, false).unwrap() {
        ReadOutcome::Message { handles, .. } => {
            assert_eq!(handles.len(), 1);
            assert_eq!(handles[0].value(), value);
        }
        ReadOutcome::TooLarge { .. } => panic!("too large"),
    }
    assert_eq!(table.get(value), Ok(DispatcherRef::PlatformHandle(9)));
}

#[test]
fn only_shared_buffers_are_duplicated() {
    let mut table = HandleTable::new();
    let buffer = table.add(DispatcherRef::SharedBuffer(4)).unwrap();
    let again = buffer.duplicate(&mut table).unwrap();
    assert_ne!(buffer.value(), again.value());
    assert_eq!(table.get(again.value()), Ok(DispatcherRef::SharedBuffer(4)));
    let pipe = table.add(pipe_end(0, End::A)).unwrap();
    assert!(pipe.duplicate(&mut table).is_err());
}

#[test]
fn references_know_their_objects() {
    let p = message_pipe_ref(pipe_end(2, End::B)).unwrap();
    assert_eq!(p.end(), End::B);
    assert!(message_pipe_ref(DispatcherRef::Trap(1)).is_none());
    assert_eq!(DispatcherRef::Trap(1).dispatcher_type().name(), "MOJO_HANDLE_TYPE_TRAP");
    let fd = PlatformHandleDispatcher::new(7);
    assert_eq!(fd.as_raw_fd(), 7);
    assert!(!fd.is_duplicable());
    assert_eq!(End::A.peer(), End::B);
}

#[test]
fn trap_fires_once_when_armed() {
    let mut s = Session::new();
    let pipe = s.objects.add_message_pipe();
    let trap = s.add_trap() as usize;
    s.add_trigger(trap, pipe_end(pipe, End::B), Signals::readable(), 41).unwrap();
    s.arm_trap(trap).unwrap();
    s.write(pipe, End::A, Message::new(vec![1], vec![])).unwrap();
    s.write(pipe, End::A, Message::new(vec![2], vec![])).unwrap();
    let events = s.take_events(trap);
    assert_eq!(events.len(), 1);
    assert_eq!(events[0].trigger_context, 41);
    assert_eq!(events[0].result, CoreError::Success);
}

#[test]
fn armed_trap_reports_what_holds_already() {
    let mut s = Session::new();
    let pipe = s.objects.add_message_pipe();
    s.write(pipe, End::A, Message::new(vec![1], vec![])).unwrap();
    let trap = s.add_trap() as usize;
    s.add_trigger(trap, pipe_end(pipe, End::B), Signals::readable(), 5).unwrap();
    assert_eq!(s.arm_trap(trap), Err(CoreError::FailedPrecondition));
    let events = s.take_events(trap);
    assert_eq!(events.len(), 1);
    assert_eq!(events[0].trigger_context, 5);
}

#[test]
fn removed_trigger_is_cancelled() {
    let mut s = Session::new();
    let pipe = s.objects.add_message_pipe();
    let trap = s.add_trap() as usize;
    s.add_trigger(trap, pipe_end(pipe, End::B), Signals::readable(), 8).unwrap();
    assert_eq!(s.remove_trigger(trap, 9), Err(CoreError::NotFound));
    s.remove_trigger(trap, 8).unwrap();
    let events = s.take_events(trap);
    assert_eq!(events.len(), 1);
    assert_eq!(events[0].result, CoreError::Cancelled);
    s.write(pipe, End::A, Message::new(vec![1], vec![])).unwrap();
    assert!(s.take_events(trap).is_empty());
}

#[test]
fn fresh_trap_is_idle() {
    let t = Trap::create();
    assert!(!t.is_armed());
    assert_eq!(t.trigger_count(), 0);
}

#[test]
fn error_names_follow_the_codes() {
    assert_eq!(CoreError::Success.name(), "MOJO_RESULT_OK");
    assert_eq!(CoreError::ShouldWait.name(), "MOJO_RESULT_SHOULD_WAIT");
}

#[test]
fn used_up_slot_is_not_used_again() {
    let mut table = HandleTable::new();
    let d = DispatcherRef::PlatformHandle(3);
    let mut seen = Vec::new();
    for _ in 0..4095 {
        let h = table.add(d).unwrap();
        assert_ne!(h.value(), 0);
        assert_eq!(table.get(h.value()), Ok(d));
        assert_eq!(table.live_count(), 1);
        seen.push(h.value());
        table.close(h);
        assert_eq!(table.live_count(), 0);
    }
    // The next handle takes another slot, and none of the old values resolves.
    let h = table.add(d).unwrap();
    assert_eq!(table.get(h.value()), Ok(d));
    assert!(!seen.contains(&h.value()));
    for value in seen {
        assert!(table.get(value).is_err());
    }
}

#[test]
fn cancelled_watch_stays_silent() {
    let mut pipe = MessagePipe::create();
    let id = pipe.register_watch(End::B, Signals::readable(), WatchTarget::Waiter(3));
    let other = pipe.register_watch(End::B, Signals::readable(), WatchTarget::Waiter(3));
    pipe.cancel_registered_watch(End::A, id);
    pipe.cancel_registered_watch(End::B, id);
    pipe.cancel_registered_watch(End::B, id);
    pipe.write(End::A, Message::new(vec![7], vec![])).unwrap();
    pipe.close(End::A);
    pipe.close(End::B);
    let reports = pipe.take_notifications();
    assert!(!reports.is_empty());
    assert!(reports.iter().all(|n| n.watch == other));
}

#[test]
fn other_watches_report_as_before() {
    let run = |cancel: bool| {
        let mut pipe = MessagePipe::create();
        let id = pipe.register_watch(End::B, Signals::readable(), WatchTarget::Waiter(3));
        pipe.register_watch(End::B, Signals::readable(), WatchTarget::Waiter(3));
        pipe.register_watch(End::A, Signals::peer_closed(), WatchTarget::Waiter(4));
        if cancel {
            pipe.cancel_registered_watch(End::B, id);
        }
        pipe.write(End::A, Message::new(vec![7], vec![])).unwrap();
        pipe.close(End::B);
        let mut reports = pipe.take_notifications();
        reports.retain(|n| n.watch != id);
        reports
    };
    assert!(!run(true).is_empty());
    assert_eq!(run(true), run(false));
}
