//! Data pipes.

use mojo_rs::runtime::data_pipe::{DataPipe, DataPipeEnd, ReadFlags};
use mojo_rs::runtime::error::CoreError;
use mojo_rs::runtime::signal::{Signals, SignalsState};
use mojo_rs::runtime::watch::{WatchKind, WatchTarget};

fn pair() -> DataPipe {
    DataPipe::create_pair(1, 64).unwrap()
}

fn producer(p: &mut DataPipe) -> SignalsState {
    p.query_signals(DataPipeEnd::Producer)
}

fn consumer(p: &mut DataPipe) -> SignalsState {
    p.query_signals(DataPipeEnd::Consumer)
}

fn query() -> ReadFlags {
    ReadFlags { query: true, ..Default::default() }
}

#[test]
fn create_rejects_bad_options_like_the_c_entry() {
    // capacity 0
    assert!(DataPipe::create_pair(1, 0).is_err());
    // element size 0
    assert!(DataPipe::create_pair(0, 64).is_err());
    // capacity < element size
    assert!(DataPipe::create_pair(8, 4).is_err());
    // A valid pair works.
    assert!(DataPipe::create_pair(4, 64).is_ok());
}

#[test]
fn data_pipe_initial_signals() {
    let mut p = pair();
    let ps = producer(&mut p);
    assert!(ps.satisfied.contains(Signals::writable()));
    assert!(!ps.satisfiable.contains(Signals::readable()));
    let cs = consumer(&mut p);
    assert!(!cs.satisfied.contains(Signals::readable()));
    assert!(cs.satisfiable.contains(Signals::readable()));
    assert!(cs.satisfiable.contains(Signals::new_data_readable()));
    assert!(!cs.satisfied.contains(Signals::new_data_readable()));
    assert!(cs.satisfiable.contains(Signals::peer_closed()));
}

#[test]
fn one_phase_write_read() {
    let mut p = pair();
    assert_eq!(p.write(&[1, 2, 3], 3, false).unwrap(), 3);
    let cs = consumer(&mut p);
    assert!(cs.satisfied.contains(Signals::readable()));
    assert!(cs.satisfied.contains(Signals::new_data_readable()));
    let out = p.read(true, 3, ReadFlags::default()).unwrap();
    assert_eq!(out.num_bytes, 3);
    assert_eq!(out.data, vec![1, 2, 3]);
    // After the read, NEW_DATA_READABLE clears.
    let cs = consumer(&mut p);
    assert!(!cs.satisfied.contains(Signals::new_data_readable()));
    assert!(!cs.satisfied.contains(Signals::readable()));
}

#[test]
fn partial_write_and_should_wait() {
    let mut p = pair();
    // Write to fill the 64-byte ring.
    let full = vec![0xabu8; 64];
    assert_eq!(p.write(&full, 64, false).unwrap(), 64);
    assert_eq!(p.write(&[1], 1, false).unwrap_err(), CoreError::ShouldWait);
    // ALL_OR_NONE over capacity.
    assert_eq!(p.write(&[1, 2], 2, true).unwrap_err(), CoreError::OutOfRange);
    // Consume 4, then a partial write of 6 writes 4.
    let out = p.read(true, 4, ReadFlags::default()).unwrap();
    assert_eq!(out.num_bytes, 4);
    assert_eq!(p.write(&[9, 9, 9, 9, 9, 9], 6, false).unwrap(), 4);
    assert_eq!(p.write(&[], 0, false).unwrap(), 0); // empty write OK
}

#[test]
fn all_or_none_write_semantics() {
    let mut p = pair();
    let full = vec![0x11u8; 64];
    p.write(&full, 64, false).unwrap();
    assert_eq!(p.write(&[1, 2], 2, true).unwrap_err(), CoreError::OutOfRange);
    assert_eq!(p.write(&[], 0, true).unwrap(), 0); // empty ALL_OR_NONE OK
}

#[test]
fn read_query_discard_peek() {
    let mut p = pair();
    p.write(&[1, 2, 3, 4, 5], 5, false).unwrap();
    // Query.
    let q = p.read(false, 0, query()).unwrap();
    assert_eq!(q.num_bytes, 5);
    assert!(q.data.is_empty());
    // Peek.
    let pk = p.read(true, 2, ReadFlags { peek: true, ..Default::default() }).unwrap();
    assert_eq!(pk.num_bytes, 2);
    assert_eq!(pk.data, vec![1, 2]);
    // Data still there.
    assert_eq!(p.read(false, 0, query()).unwrap().num_bytes, 5);
    // Discard 2.
    let d = p.read(false, 2, ReadFlags { discard: true, ..Default::default() }).unwrap();
    assert_eq!(d.num_bytes, 2);
    assert_eq!(p.read(false, 0, query()).unwrap().num_bytes, 3);
    // Read the rest.
    let out = p.read(true, 8, ReadFlags::default()).unwrap();
    assert_eq!(out.num_bytes, 3);
    assert_eq!(out.data, vec![3, 4, 5]);
}

#[test]
fn invalid_flag_combinations() {
    let mut p = pair();
    let combinations = [
        ReadFlags { peek: true, discard: true, ..Default::default() },
        ReadFlags { query: true, peek: true, ..Default::default() },
        ReadFlags { query: true, discard: true, ..Default::default() },
    ];
    for flags in combinations {
        assert_eq!(p.read(false, 0, flags).unwrap_err(), CoreError::InvalidArgument);
    }
}

#[test]
fn element_size_alignment() {
    let mut p = DataPipe::create_pair(4, 64).unwrap();
    assert_eq!(p.write(&[1, 2, 3], 3, false).unwrap_err(), CoreError::InvalidArgument);
    assert_eq!(p.write(&[1, 2, 3, 4], 4, false).unwrap(), 4);
    // Misaligned read: the flush still runs before the check, so that the data
    // is there for the next (aligned) read.
    assert_eq!(p.read(true, 3, ReadFlags::default()).unwrap_err(), CoreError::InvalidArgument);
    let out3 = p.read(true, 4, ReadFlags::default()).unwrap();
    assert_eq!(out3.num_bytes, 4);
    assert_eq!(out3.data, vec![1, 2, 3, 4]);
}

#[test]
fn two_phase_flow() {
    let mut p = pair();
    let span = p.begin_write().unwrap();
    assert_eq!(span.len(), 64);
    p.fill(&[1, 2, 3]);
    p.end_write(3).unwrap();
    assert_eq!(p.begin_write().unwrap().len(), 61);

    let span = p.begin_read().unwrap();
    assert_eq!(span.len(), 3);
    assert_eq!(p.span_bytes(), &[1, 2, 3]);
    p.end_read(3).unwrap();
    assert_eq!(p.begin_read().unwrap_err(), CoreError::ShouldWait);
}

#[test]
fn two_phase_busy_and_bad_commit() {
    let mut p = pair();
    let _span = p.begin_write().unwrap();
    assert_eq!(p.write(&[1], 1, false).unwrap_err(), CoreError::Busy);
    assert_eq!(p.begin_write().unwrap_err(), CoreError::Busy);
    // Commit more than the span: INVALID_ARGUMENT; the two-phase is ended.
    assert_eq!(p.end_write(65).unwrap_err(), CoreError::InvalidArgument);
    // Now the pipe is writable again.
    assert_eq!(p.write(&[1], 1, false).unwrap(), 1);
    // End without begin.
    assert_eq!(p.end_read(1).unwrap_err(), CoreError::FailedPrecondition);
    assert_eq!(p.end_write(1).unwrap_err(), CoreError::FailedPrecondition);
}

#[test]
fn peer_closure_semantics() {
    let mut p = pair();
    p.write(&[7, 8], 2, false).unwrap();
    p.close(DataPipeEnd::Producer);
    // Consumer: data still readable; PEER_CLOSED satisfied.
    let cs = consumer(&mut p);
    assert!(cs.satisfied.contains(Signals::peer_closed()));
    assert!(cs.satisfied.contains(Signals::readable()));
    let out = p.read(true, 8, ReadFlags::default()).unwrap();
    assert_eq!(out.num_bytes, 2);
    // Now empty + peer closed.
    assert_eq!(p.read(true, 8, ReadFlags::default()).unwrap_err(), CoreError::FailedPrecondition);
    let cs = consumer(&mut p);
    assert!(cs.satisfied.contains(Signals::peer_closed()));
    assert!(!cs.satisfiable.contains(Signals::readable()));
    assert!(!cs.satisfiable.contains(Signals::writable()));
}

#[test]
fn data_pipe_write_to_closed_peer_fails() {
    let mut p = pair();
    p.close(DataPipeEnd::Consumer);
    assert_eq!(p.write(&[1], 1, false).unwrap_err(), CoreError::FailedPrecondition);
    assert_eq!(p.begin_write().unwrap_err(), CoreError::FailedPrecondition);
    let ps = producer(&mut p);
    assert!(ps.satisfied.contains(Signals::peer_closed()));
    assert!(!ps.satisfiable.contains(Signals::writable()));
}

#[test]
fn producer_full_signal_state() {
    let mut p = pair();
    let full = vec![0x42u8; 64];
    p.write(&full, 64, false).unwrap();
    let ps = producer(&mut p);
    assert!(!ps.satisfied.contains(Signals::writable()));
    assert!(ps.satisfiable.contains(Signals::writable()));
    // Consumer consumes 4 -> producer WRITABLE becomes satisfied.
    p.read(true, 4, ReadFlags::default()).unwrap();
    let ps = producer(&mut p);
    assert!(ps.satisfied.contains(Signals::writable()));
    assert_eq!(p.write(&[1, 2, 3, 4], 4, false).unwrap(), 4);
}

#[test]
fn watch_fires_on_readable() {
    let mut p = pair();
    p.register_watch(DataPipeEnd::Consumer, Signals::readable(), WatchTarget::Waiter(1));
    p.write(&[9], 1, false).unwrap();
    let reports = p.take_notifications();
    assert_eq!(reports.len(), 1);
    assert!(reports[0].state.satisfied.contains(Signals::readable()));
}

#[test]
fn watch_cancelled_on_local_close() {
    let mut p = pair();
    p.register_watch(DataPipeEnd::Producer, Signals::writable(), WatchTarget::Waiter(1));
    p.close(DataPipeEnd::Producer);
    let reports = p.take_notifications();
    assert!(reports.iter().any(|n| n.kind == WatchKind::Cancelled));
}

#[test]
fn all_or_none_read_needs_all() {
    let mut p = pair();
    p.write(&[1, 2], 2, false).unwrap();
    let flags = ReadFlags { all_or_none: true, ..Default::default() };
    assert_eq!(p.read(true, 3, flags).unwrap_err(), CoreError::OutOfRange);
    assert_eq!(p.read(true, 2, flags).unwrap().data, vec![1, 2]);
    assert_eq!(p.element_size(), 1);
}

#[test]
fn cancelled_data_watch_stays_silent() {
    let mut p = pair();
    let id = p.register_watch(DataPipeEnd::Consumer, Signals::readable(), WatchTarget::Waiter(1));
    let other = p.register_watch(DataPipeEnd::Consumer, Signals::readable(), WatchTarget::Waiter(1));
    p.cancel_registered_watch(DataPipeEnd::Consumer, id);
    p.write(&[1, 2, 3], 3, false).unwrap();
    p.read(true, 2, ReadFlags::default()).unwrap();
    p.close(DataPipeEnd::Producer);
    p.close(DataPipeEnd::Consumer);
    let reports = p.take_notifications();
    assert!(!reports.is_empty());
    assert!(reports.iter().all(|n| n.watch == other));
}
