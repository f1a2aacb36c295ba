//! Cases, events, normalizers and comparison.

use mojo_rs::casefile::case::{
    Casefile, Expectation, NormalizerRef, OpArgs, Operation, Preconditions,
};
use mojo_rs::casefile::compare::{compare, compare_events, ResidualKind};
use mojo_rs::casefile::events::{Event, EventKind};
use mojo_rs::casefile::harness::{
    op_error_text, parse_signals, signal_names, Harness, HarnessError, Progress, Source,
};
use mojo_rs::casefile::normalizers::apply_normalizers;
use mojo_rs::digest::{decode_hex, digest_text, sha256_text, HexError};
use mojo_rs::runtime::error::CoreError;
use mojo_rs::runtime::signal::Signals;
use mojo_rs::text::{decimal_text, labelled};

fn ev(seq: u64, kind: EventKind) -> Event {
    Event {
        seq,
        op_id: 0,
        event: kind,
        result: "MOJO_RESULT_OK".into(),
        handle: None,
        payload_hex: None,
        handles: None,
        signals: None,
        trigger_context: None,
        signals_state: None,
        outputs: None,
        process: None,
        pid: Some(42),
        fd: Some(7),
        num_bytes: None,
        size: None,
        note: None,
    }
}

#[test]
fn pid_and_fd_normalized() {
    let events = vec![ev(1, EventKind::Result)];
    let out =
        apply_normalizers(events, &vec!["normalize.pid".into(), "normalize.fd".into()]).unwrap();
    assert!(out[0].pid.is_none());
    assert_eq!(out[0].fd, Some(-1));
}

#[test]
fn unknown_normalizer_is_error() {
    let err = apply_normalizers(vec![], &vec!["normalize.bogus".into()]);
    assert!(err.is_err());
}

#[test]
fn trap_order_normalized() {
    let mut e1 = ev(1, EventKind::Trap);
    e1.trigger_context = Some(5);
    let mut e2 = ev(2, EventKind::Trap);
    e2.trigger_context = Some(1);
    let e3 = ev(3, EventKind::Result);
    let out = apply_normalizers(vec![e1, e2, e3], &vec!["normalize.trap_order".into()]).unwrap();
    assert_eq!(out[0].trigger_context, Some(1));
    assert_eq!(out[1].trigger_context, Some(5));
    assert_eq!(out[2].seq, 3);
}

#[test]
fn equal_contexts_keep_their_order() {
    let mut events = Vec::new();
    for seq in 1..4 {
        let mut e = ev(seq, EventKind::Trap);
        e.trigger_context = Some(7);
        events.push(e);
    }
    let out = apply_normalizers(events, &vec!["normalize.trap_order".into()]).unwrap();
    let seqs: Vec<u64> = out.iter().map(|e| e.seq).collect();
    assert_eq!(seqs, vec![1, 2, 3]);
}

#[test]
fn identical_streams_pass() {
    let oracle = vec![Event::result(1, 1, "MOJO_RESULT_OK"), Event::result(2, 2, "MOJO_RESULT_OK")];
    let candidate =
        vec![Event::result(1, 1, "MOJO_RESULT_OK"), Event::result(2, 2, "MOJO_RESULT_OK")];
    let cmp = compare("CASE.TEST.001", oracle, candidate, &vec![], &vec![], &vec![]).unwrap();
    assert_eq!(cmp.status, "pass");
    assert!(cmp.residuals.is_empty());
}

#[test]
fn mismatch_detected() {
    let oracle = vec![Event::result(1, 1, "MOJO_RESULT_OK")];
    let candidate = vec![Event::result(1, 1, "MOJO_RESULT_FAILED_PRECONDITION")];
    let cmp = compare("CASE.TEST.002", oracle, candidate, &vec![], &vec![], &vec![]).unwrap();
    assert_eq!(cmp.status, "fail");
    assert_eq!(cmp.residuals.len(), 1);
    assert_eq!(cmp.residuals[0].kind, ResidualKind::Mismatch);
    assert_eq!(cmp.residuals[0].note, "event 0 differs");
}

#[test]
fn missing_event_detected() {
    let oracle = vec![Event::result(1, 1, "MOJO_RESULT_OK"), Event::result(2, 2, "MOJO_RESULT_OK")];
    let candidate = vec![Event::result(1, 1, "MOJO_RESULT_OK")];
    let cmp = compare("CASE.TEST.003", oracle, candidate, &vec![], &vec![], &vec![]).unwrap();
    assert_eq!(cmp.status, "fail");
    assert_eq!(cmp.residuals[0].kind, ResidualKind::Missing);
    assert_eq!(cmp.residuals[0].note, "oracle event 1 has no candidate counterpart");
}

#[test]
fn extra_event_detected() {
    let oracle = vec![];
    let candidate = vec![Event::result(1, 1, "MOJO_RESULT_OK")];
    let residuals = compare_events(&oracle, &candidate);
    assert_eq!(residuals.len(), 1);
    assert_eq!(residuals[0].kind, ResidualKind::Extra);
    assert_eq!(residuals[0].note, "candidate event 0 has no oracle counterpart");
}

#[test]
fn evidence_is_the_digest_of_the_lines() {
    let ids = vec!["normalize.pid".to_string()];
    let lines = vec!["abc".to_string()];
    let cmp = compare("C", vec![], vec![], &ids, &lines, &vec![]).unwrap();
    assert_eq!(
        cmp.evidence.oracle_events_sha256,
        "edeaaff3f1774ad2888673770c6d64097e391bc362d7d6fb34982ddf0efd18cb"
    );
    assert_eq!(
        cmp.evidence.candidate_events_sha256,
        "e3b0c44298fc1c149afbf4c8996fb92427ae41e4649b934ca495991b7852b855"
    );
    assert_eq!(cmp.normalizers_applied, ids);
}

#[test]
fn runs_are_normalized_before_they_are_compared() {
    let mut a = Event::result(1, 1, "MOJO_RESULT_OK");
    let mut b = Event::result(1, 1, "MOJO_RESULT_OK");
    a.fd = Some(3);
    b.fd = Some(8);
    let (c, d) = (a.duplicate(), b.duplicate());
    let plain = compare("C", vec![a], vec![b], &vec![], &vec![], &vec![]).unwrap();
    assert_eq!(plain.status, "fail");
    let ids = vec!["normalize.fd".to_string()];
    let cmp = compare("C", vec![c], vec![d], &ids, &vec![], &vec![]).unwrap();
    assert_eq!(cmp.status, "pass");
    assert_eq!(
        compare("C", vec![], vec![], &vec!["x".into()], &vec![], &vec![]).unwrap_err(),
        "unknown normalizer: x"
    );
}

#[test]
fn every_run_of_traps_is_ordered() {
    let mut events = Vec::new();
    for (seq, context) in [(1, Some(9)), (2, Some(4)), (3, None), (4, Some(6)), (5, Some(2))] {
        let kind = if context.is_some() { EventKind::Trap } else { EventKind::Result };
        let mut e = ev(seq, kind);
        e.trigger_context = context;
        events.push(e);
    }
    let out = apply_normalizers(events, &vec!["normalize.trap_order".into()]).unwrap();
    let seqs: Vec<u64> = out.iter().map(|e| e.seq).collect();
    assert_eq!(seqs, vec![2, 1, 3, 5, 4]);
}

#[test]
fn sequence_numbers_and_pids_are_not_compared() {
    let mut a = Event::result(1, 1, "MOJO_RESULT_OK");
    let b = Event::result(9, 4, "MOJO_RESULT_OK");
    a.pid = Some(3);
    assert!(a.agrees_with(&b));
    a.note = Some("x".into());
    assert!(!a.agrees_with(&b));
}

fn case_with(ids: &[u64]) -> Casefile {
    Casefile {
        schema_version: 1,
        case_id: "PIPE.001".into(),
        court: "court".into(),
        reference_revision: "r".into(),
        seed: 0,
        preconditions: Preconditions::default(),
        operations: ids
            .iter()
            .map(|id| Operation {
                id: *id,
                op: "close".into(),
                args: OpArgs::default(),
                expect: None,
                note: None,
            })
            .collect(),
        processes: vec![],
        expected_contract: "{}".into(),
        normalizers: vec![NormalizerRef { id: "normalize.pid".into(), params: "null".into() }],
    }
}

#[test]
fn valid_case_is_accepted() {
    let c = case_with(&[2, 1, 3]);
    assert_eq!(c.validate("PIPE.001.case"), Ok(()));
    assert_eq!(c.operation_ids(), vec![2, 1, 3]);
    assert_eq!(c.process_name(), "parent");
}

#[test]
fn faults_of_a_case_are_named() {
    let mut c = case_with(&[1]);
    c.schema_version = 2;
    assert_eq!(c.validate("PIPE.001"), Err("unsupported schema_version 2".to_string()));
    let mut c = case_with(&[1]);
    c.case_id = String::new();
    assert_eq!(c.validate("PIPE.001"), Err("case_id is empty".to_string()));
    let c = case_with(&[1, 3]);
    assert_eq!(
        c.validate("PIPE.001"),
        Err("operation ids not sequential: expected 2, got 3".to_string())
    );
    let c = case_with(&[1]);
    assert_eq!(
        c.validate("OTHER"),
        Err("filename stem OTHER does not match case_id PIPE.001".to_string())
    );
}

fn op(h: &mut Harness, id: u64, name: &str, args: OpArgs, produce: &[&str]) -> Progress {
    let expect = Some(Expectation {
        result: None,
        produce: produce.iter().map(|s| s.to_string()).collect(),
        events: vec![],
    });
    h.exec_op(id, &name.to_string(), &args, &expect).unwrap()
}

fn on(token: &str) -> OpArgs {
    OpArgs { handle: Some(token.into()), ..Default::default() }
}

#[test]
fn harness_writes_and_reads() {
    let mut h = Harness::new();
    let created = op(&mut h, 1, "message_pipe_create", OpArgs::default(), &["a", "b"]);
    assert!(matches!(created, Progress::Done));
    let mut args = on("a");
    args.payload_hex = Some("6869".into());
    op(&mut h, 2, "write_message", args, &[]);
    op(&mut h, 3, "read_message", on("b"), &[]);
    let last = h.events.last().unwrap();
    assert_eq!(last.result, "MOJO_RESULT_OK");
    assert_eq!(last.payload_hex.as_deref(), Some("6869"));
    let seqs: Vec<u64> = h.events.iter().map(|e| e.seq).collect();
    let want: Vec<u64> = (1..=h.events.len() as u64).collect();
    assert_eq!(seqs, want);
}

#[test]
fn harness_waits_outside() {
    let mut h = Harness::new();
    op(&mut h, 1, "message_pipe_create", OpArgs::default(), &["a", "b"]);
    let mut args = on("b");
    args.signals = vec!["READABLE".into()];
    args.deadline_ms = Some(30);
    match op(&mut h, 2, "wait", args, &[]) {
        Progress::Wait { dispatcher, signals, deadline_ms } => {
            assert_eq!(signals, Signals::readable());
            assert_eq!(deadline_ms, Some(30));
            h.finish_wait(2, "b", dispatcher, Err(CoreError::DeadlineExceeded));
        }
        other => panic!("{other:?}"),
    }
    assert_eq!(h.events.last().unwrap().result, "MOJO_RESULT_DEADLINE_EXCEEDED");
}

#[test]
fn harness_wraps_descriptors() {
    let mut h = Harness::new();
    let args = OpArgs {
        source: Some("memfd".into()),
        content_hex: Some("616263".into()),
        ..Default::default()
    };
    match op(&mut h, 1, "platform_handle_wrap", args, &["p"]) {
        Progress::CreateDescriptor { source, content } => {
            assert_eq!(source, Source::Memfd);
            assert_eq!(content, b"abc");
        }
        other => panic!("{other:?}"),
    }
    let expect = Some(Expectation { result: None, produce: vec!["p".into()], events: vec![] });
    h.finish_wrap(1, 30, &expect).unwrap();
    match op(&mut h, 2, "platform_handle_unwrap", on("p"), &[]) {
        Progress::ReadDescriptor { fd, handle } => {
            assert_eq!(fd, 30);
            h.finish_unwrap(2, "p", handle, b"abc");
        }
        other => panic!("{other:?}"),
    }
    assert_eq!(h.events.last().unwrap().payload_hex.as_deref(), Some("616263"));
}

#[test]
fn harness_names_what_it_cannot_do() {
    let mut h = Harness::new();
    match h.exec_op(4, &"fly".to_string(), &OpArgs::default(), &None).unwrap_err() {
        HarnessError::Text(t) => {
            assert_eq!(t, "unsupported operation in candidate harness: fly");
            assert_eq!(
                op_error_text(4, "fly", &t),
                "op 4 (fly): unsupported operation in candidate harness: fly"
            );
        }
        other => panic!("{other:?}"),
    }
    op(&mut h, 1, "message_pipe_create", OpArgs::default(), &["a", "b"]);
    let mut args = on("a");
    args.payload_hex = Some("6x".into());
    match h.exec_op(2, &"write_message".to_string(), &args, &None).unwrap_err() {
        HarnessError::Hex { error, .. } => {
            assert_eq!(error, HexError::InvalidCharacter { c: 'x', index: 1 });
        }
        other => panic!("{other:?}"),
    }
}

#[test]
fn signal_names_round_trip() {
    let s = Signals::readable() | Signals::peer_closed();
    let names = signal_names(s);
    assert_eq!(names, vec!["READABLE".to_string(), "PEER_CLOSED".to_string()]);
    assert_eq!(parse_signals(&names).unwrap(), s);
    assert!(parse_signals(&vec!["LOUD".into()]).is_err());
}

#[test]
fn hexadecimal_text_round_trips() {
    assert_eq!(digest_text(&[0, 0xab, 0xff]), "00abff");
    assert_eq!(decode_hex("00ABff"), Ok(vec![0, 0xab, 0xff]));
    assert_eq!(decode_hex("abc"), Err(HexError::OddLength));
    assert_eq!(decode_hex("zz"), Err(HexError::InvalidCharacter { c: 'z', index: 0 }));
    assert_eq!(
        sha256_text(b"abc"),
        "ba7816bf8f01cfea414140de5dae2223b00361a396177a9cb410ff61f20015ad"
    );
}

#[test]
fn numbers_have_their_decimal_text() {
    assert_eq!(decimal_text(0), "0");
    assert_eq!(decimal_text(u64::MAX), u64::MAX.to_string());
    assert_eq!(labelled("n=", 1024), "n=1024");
}
