//! The comparison of the events of two runs.

use vstd::prelude::*;
#[allow(unused_imports)]
use vstd::utf8::encode_utf8;

use crate::casefile::events::Event;
#[allow(unused_imports)]
use crate::casefile::events::{event_views, EventView};
use crate::casefile::normalizers::apply_normalizers;
#[allow(unused_imports)]
use crate::casefile::normalizers::{
    all_forgetting, law_normalizers_change_nothing_else, lemma_normalizers, names, normalized,
};
#[allow(unused_imports)]
use crate::digest::{hex_text, sha256_digest};
use crate::digest::sha256_text;
#[allow(unused_imports)]
use crate::text::{decimal, texts};
use crate::text::{copy_texts, joined, labelled};

verus! {

/// Residual classification.
#[derive(Debug, Clone, Copy, PartialEq, Eq, Structural)]
pub enum ResidualKind {
    /// An oracle event has no candidate counterpart.
    Missing,
    /// A candidate event has no oracle counterpart.
    Extra,
    /// Both exist but differ.
    Mismatch,
    /// Events are out of order relative to the oracle.
    Order,
}

/// A comparison residual (a mismatch).
#[derive(Debug, PartialEq, Eq)]
pub struct Residual {
    /// The position in the normalized events.
    pub seq: usize,
    /// Residual kind.
    pub kind: ResidualKind,
    /// The oracle event (normalized).
    pub oracle: Option<Event>,
    /// The candidate event (normalized).
    pub candidate: Option<Event>,
    /// Explanation.
    pub note: String,
}

/// What a residual says.
pub struct ResidualView {
    /// The position in the normalized events.
    pub seq: int,
    /// Residual kind.
    pub kind: ResidualKind,
    /// The oracle event.
    pub oracle: Option<EventView>,
    /// The candidate event.
    pub candidate: Option<EventView>,
    /// Explanation.
    pub note: Seq<char>,
}

/// The event that is there, if any.
pub open spec fn opt_event(o: Option<Event>) -> Option<EventView> {
    match o {
        Some(e) => Some(e@),
        None => None,
    }
}

impl View for Residual {
    type V = ResidualView;

    open spec fn view(&self) -> ResidualView {
        ResidualView {
            seq: self.seq as int,
            kind: self.kind,
            oracle: opt_event(self.oracle),
            candidate: opt_event(self.candidate),
            note: self.note@,
        }
    }
}

/// The residuals of a list.
pub open spec fn residual_views(v: Seq<Residual>) -> Seq<ResidualView> {
    v.map_values(|r: Residual| r@)
}

/// Evidence references for a comparison.
#[derive(Debug, PartialEq, Eq)]
pub struct EvidenceRef {
    /// Digest of the normalized oracle events.
    pub oracle_events_sha256: String,
    /// Digest of the normalized candidate events.
    pub candidate_events_sha256: String,
}

/// The comparison result.
#[derive(Debug, PartialEq, Eq)]
pub struct Comparison {
    /// Schema version.
    pub schema_version: u32,
    /// The case id.
    pub case_id: String,
    /// `pass` or `fail`.
    pub status: String,
    /// Number of oracle events (normalized).
    pub oracle_events: usize,
    /// Number of candidate events (normalized).
    pub candidate_events: usize,
    /// Normalizers applied.
    pub normalizers_applied: Vec<String>,
    /// Residuals (empty on pass).
    pub residuals: Vec<Residual>,
    /// Evidence hashes.
    pub evidence: EvidenceRef,
}

/// What is found at a position of two lists of events.
pub open spec fn residual_at(o: Seq<EventView>, c: Seq<EventView>, i: int) -> Option<ResidualView> {
    if i < o.len() && i < c.len() {
        if o[i].agrees(c[i]) {
            None
        } else {
            Some(
                ResidualView {
                    seq: i,
                    kind: ResidualKind::Mismatch,
                    oracle: Some(o[i]),
                    candidate: Some(c[i]),
                    note: ("event "@ + decimal(i as nat)) + " differs"@,
                },
            )
        }
    } else if i < o.len() {
        Some(
            ResidualView {
                seq: i,
                kind: ResidualKind::Missing,
                oracle: Some(o[i]),
                candidate: None,
                note: ("oracle event "@ + decimal(i as nat)) + " has no candidate counterpart"@,
            },
        )
    } else {
        Some(
            ResidualView {
                seq: i,
                kind: ResidualKind::Extra,
                oracle: None,
                candidate: Some(c[i]),
                note: ("candidate event "@ + decimal(i as nat)) + " has no oracle counterpart"@,
            },
        )
    }
}

/// What is found at the first `n` positions of two lists of events.
pub open spec fn residuals_up_to(o: Seq<EventView>, c: Seq<EventView>, n: int) -> Seq<ResidualView>
    decreases n,
{
    if n <= 0 {
        Seq::empty()
    } else {
        let before = residuals_up_to(o, c, n - 1);
        match residual_at(o, c, n - 1) {
            Some(r) => before.push(r),
            None => before,
        }
    }
}

/// The length of the longer list.
pub open spec fn longer(o: Seq<EventView>, c: Seq<EventView>) -> int {
    if o.len() < c.len() {
        c.len() as int
    } else {
        o.len() as int
    }
}

/// All that is found between two lists of events.
pub open spec fn residuals_of(o: Seq<EventView>, c: Seq<EventView>) -> Seq<ResidualView> {
    residuals_up_to(o, c, longer(o, c))
}

/// The bytes of lines, each with its end.
pub open spec fn framed(lines: Seq<Seq<char>>) -> Seq<u8>
    decreases lines.len(),
{
    if lines.len() == 0 {
        Seq::empty()
    } else {
        framed(lines.drop_last()) + encode_utf8(lines.last()) + seq![0x0au8]
    }
}

fn frame(lines: &Vec<String>) -> (out: Vec<u8>)
    ensures
        out@ == framed(texts(lines@)),
{
    let mut out: Vec<u8> = Vec::new();
    let mut i: usize = 0;
    let ghost all = texts(lines@);
    assert(all.take(0) =~= Seq::empty());
    while i < lines.len()
        invariant
            i <= lines@.len(),
            all == texts(lines@),
            out@ == framed(all.take(i as int)),
        decreases lines@.len() - i,
    {
        let ghost before = out@;
        out.extend_from_slice(lines[i].as_str().as_bytes());
        out.push(0x0a);
        proof {
            let t = all.take(i as int + 1);
            assert(t.drop_last() =~= all.take(i as int));
            assert(t.last() == lines@[i as int]@);
            assert(out@ =~= before + encode_utf8(lines@[i as int]@) + seq![0x0au8]);
        }
        i = i + 1;
    }
    assert(all.take(all.len() as int) =~= all);
    out
}

/// The events of two runs after normalization.
#[derive(Debug)]
pub struct NormalizedRuns {
    /// The events of the oracle.
    pub oracle: Vec<Event>,
    /// The events of the candidate.
    pub candidate: Vec<Event>,
}

/// The events of two runs after normalization, or the first error.
pub open spec fn runs_normalized(
    ids: Seq<Seq<char>>,
    o: Seq<EventView>,
    c: Seq<EventView>,
) -> Result<(Seq<EventView>, Seq<EventView>), Seq<char>> {
    match normalized(ids, o) {
        Err(e) => Err(e),
        Ok(o) => match normalized(ids, c) {
            Err(e) => Err(e),
            Ok(c) => Ok((o, c)),
        },
    }
}

/// Normalize the events of two runs of a case.
pub fn normalize_runs(oracle: Vec<Event>, candidate: Vec<Event>, ids: &Vec<String>) -> (r: Result<
    NormalizedRuns,
    String,
>)
    ensures
        match r {
            Ok(runs) => runs_normalized(
                texts(ids@),
                event_views(oracle@),
                event_views(candidate@),
            ) == Ok::<(Seq<EventView>, Seq<EventView>), Seq<char>>(
                (event_views(runs.oracle@), event_views(runs.candidate@)),
            ),
            Err(e) => runs_normalized(
                texts(ids@),
                event_views(oracle@),
                event_views(candidate@),
            ) == Err::<(Seq<EventView>, Seq<EventView>), Seq<char>>(e@),
        },
{
    let oracle = match apply_normalizers(oracle, ids) {
        Ok(o) => o,
        Err(e) => {
            return Err(e);
        },
    };
    match apply_normalizers(candidate, ids) {
        Ok(candidate) => Ok(NormalizedRuns { oracle, candidate }),
        Err(e) => Err(e),
    }
}

/// Compare the events of two runs of a case under the normalizers that it
/// names; an unknown normalizer is an error. `oracle_lines` and
/// `candidate_lines` are the normalized events as they are written down, one
/// line for each, which the digests are made of.
pub fn compare(
    case_id: &str,
    oracle: Vec<Event>,
    candidate: Vec<Event>,
    normalizer_ids: &Vec<String>,
    oracle_lines: &Vec<String>,
    candidate_lines: &Vec<String>,
) -> (r: Result<Comparison, String>)
    ensures
        match runs_normalized(
            texts(normalizer_ids@),
            event_views(oracle@),
            event_views(candidate@),
        ) {
            Err(e) => r matches Err(text) && text@ == e,
            Ok((o, c)) => {
                &&& r matches Ok(x)
                &&& x.schema_version == 1
                &&& x.case_id@ == case_id@
                &&& residual_views(x.residuals@) == residuals_of(o, c)
                &&& x.status@ == if residuals_of(o, c).len() == 0 {
                    "pass"@
                } else {
                    "fail"@
                }
                &&& x.oracle_events == o.len()
                &&& x.candidate_events == c.len()
                &&& texts(x.normalizers_applied@) == texts(normalizer_ids@)
                &&& x.evidence.oracle_events_sha256@ == hex_text(
                    sha256_digest(framed(texts(oracle_lines@))),
                )
                &&& x.evidence.candidate_events_sha256@ == hex_text(
                    sha256_digest(framed(texts(candidate_lines@))),
                )
            },
        },
{
    let runs = match normalize_runs(oracle, candidate, normalizer_ids) {
        Ok(runs) => runs,
        Err(e) => {
            return Err(e);
        },
    };
    let residuals = compare_events(&runs.oracle, &runs.candidate);
    let status = if residuals.len() == 0 {
        "pass"
    } else {
        "fail"
    };
    Ok(
        Comparison {
            schema_version: 1,
            case_id: case_id.to_owned(),
            status: status.to_owned(),
            oracle_events: runs.oracle.len(),
            candidate_events: runs.candidate.len(),
            normalizers_applied: copy_texts(normalizer_ids),
            residuals,
            evidence: EvidenceRef {
                oracle_events_sha256: sha256_text(frame(oracle_lines).as_slice()),
                candidate_events_sha256: sha256_text(frame(candidate_lines).as_slice()),
            },
        },
    )
}

/// Compare two lists of events position by position.
pub fn compare_events(oracle: &Vec<Event>, candidate: &Vec<Event>) -> (r: Vec<Residual>)
    ensures
        residual_views(r@) == residuals_of(event_views(oracle@), event_views(candidate@)),
{
    let ghost o = event_views(oracle@);
    let ghost c = event_views(candidate@);
    let n: usize = if oracle.len() < candidate.len() {
        candidate.len()
    } else {
        oracle.len()
    };
    let mut out: Vec<Residual> = Vec::new();
    let mut i: usize = 0;
    assert(residual_views(out@) =~= Seq::empty());
    while i < n
        invariant
            i <= n == longer(o, c),
            o == event_views(oracle@),
            c == event_views(candidate@),
            residual_views(out@) == residuals_up_to(o, c, i as int),
        decreases n - i,
    {
        let ghost before = residual_views(out@);
        if i < oracle.len() && i < candidate.len() {
            if !oracle[i].agrees_with(&candidate[i]) {
                let head = labelled("event ", i as u64);
                out.push(
                    Residual {
                        seq: i,
                        kind: ResidualKind::Mismatch,
                        oracle: Some(oracle[i].duplicate()),
                        candidate: Some(candidate[i].duplicate()),
                        note: joined(head.as_str(), " differs"),
                    },
                );
                assert(residual_views(out@) =~= before.push(residual_at(o, c, i as int).unwrap()));
            }
        } else if i < oracle.len() {
            let head = labelled("oracle event ", i as u64);
            out.push(
                Residual {
                    seq: i,
                    kind: ResidualKind::Missing,
                    oracle: Some(oracle[i].duplicate()),
                    candidate: None,
                    note: joined(head.as_str(), " has no candidate counterpart"),
                },
            );
            assert(residual_views(out@) =~= before.push(residual_at(o, c, i as int).unwrap()));
        } else {
            let head = labelled("candidate event ", i as u64);
            out.push(
                Residual {
                    seq: i,
                    kind: ResidualKind::Extra,
                    oracle: None,
                    candidate: Some(candidate[i].duplicate()),
                    note: joined(head.as_str(), " has no oracle counterpart"),
                },
            );
            assert(residual_views(out@) =~= before.push(residual_at(o, c, i as int).unwrap()));
        }
        i = i + 1;
    }
    out
}

proof fn lemma_no_residuals(o: Seq<EventView>, c: Seq<EventView>, n: int)
    requires
        0 <= n <= longer(o, c),
    ensures
        (residuals_up_to(o, c, n).len() == 0) == (n <= o.len() && n <= c.len() && forall|i: int|
            0 <= i < n ==> (#[trigger] o[i]).agrees(c[i])),
    decreases n,
{
    if n > 0 {
        lemma_no_residuals(o, c, n - 1);
    }
}

/// Two runs pass if and only if they have equally many events and the events
/// at each position agree.
pub proof fn law_pass_means_agreement(o: Seq<EventView>, c: Seq<EventView>)
    ensures
        (residuals_of(o, c).len() == 0) == (o.len() == c.len() && forall|i: int|
            0 <= i < o.len() ==> (#[trigger] o[i]).agrees(c[i])),
{
    lemma_no_residuals(o, c, longer(o, c));
}

/// A run agrees with itself.
pub proof fn law_identical_runs_pass(o: Seq<EventView>)
    ensures
        residuals_of(o, o).len() == 0,
{
    law_pass_means_agreement(o, o);
}

/// What agrees differs in nothing but the number of the event and of its
/// operation, the process id and the sizes; and such differences do not count.
pub proof fn law_agreement(a: EventView, b: EventView)
    ensures
        a.agrees(b) == (a == (EventView {
            seq: a.seq,
            op_id: a.op_id,
            pid: a.pid,
            num_bytes: a.num_bytes,
            size: a.size,
            ..b
        })),
{
}

/// Whether a residual says what is found at its position: which list has an
/// event there, and which.
pub open spec fn tells(r: ResidualView, o: Seq<EventView>, c: Seq<EventView>) -> bool {
    let i = r.seq;
    &&& 0 <= i
    &&& r.oracle == (if i < o.len() {
        Some(o[i])
    } else {
        None
    })
    &&& r.candidate == (if i < c.len() {
        Some(c[i])
    } else {
        None
    })
    &&& match r.kind {
        ResidualKind::Mismatch => i < o.len() && i < c.len() && !o[i].agrees(c[i]),
        ResidualKind::Missing => c.len() <= i < o.len(),
        ResidualKind::Extra => o.len() <= i < c.len(),
        ResidualKind::Order => false,
    }
}

/// Whether the lists do not agree at a position that one of them has.
pub open spec fn differ_at(o: Seq<EventView>, c: Seq<EventView>, i: int) -> bool {
    &&& 0 <= i
    &&& i < o.len() || i < c.len()
    &&& !(i < o.len() && i < c.len() && o[i].agrees(c[i]))
}

/// Whether one of the residuals is of a position.
pub open spec fn is_named(rs: Seq<ResidualView>, i: int) -> bool {
    exists|k: int| 0 <= k < rs.len() && (#[trigger] rs[k]).seq == i
}

proof fn lemma_residuals(o: Seq<EventView>, c: Seq<EventView>, n: int)
    requires
        0 <= n <= longer(o, c),
    ensures
        ({
            let rs = residuals_up_to(o, c, n);
            &&& forall|k: int| 0 <= k < rs.len() ==> tells(#[trigger] rs[k], o, c) && rs[k].seq < n
            &&& forall|k: int, l: int| 0 <= k < l < rs.len() ==> rs[k].seq < rs[l].seq
            &&& forall|i: int| i < n && #[trigger] differ_at(o, c, i) ==> is_named(rs, i)
        }),
    decreases n,
{
    if n > 0 {
        lemma_residuals(o, c, n - 1);
        let before = residuals_up_to(o, c, n - 1);
        let rs = residuals_up_to(o, c, n);
        assert forall|i: int| i < n && #[trigger] differ_at(o, c, i) implies is_named(rs, i) by {
            if i == n - 1 {
                assert(rs[rs.len() - 1].seq == i);
            } else {
                assert(is_named(before, i));
                let k = choose|k: int| 0 <= k < before.len() && (#[trigger] before[k]).seq == i;
                assert(rs[k] == before[k]);
            }
        }
    }
}

/// The residuals name each position at which the lists do not agree, once and
/// in order, and say what stands there; they name no other.
pub proof fn law_residuals_name_differences(o: Seq<EventView>, c: Seq<EventView>)
    ensures
        ({
            let rs = residuals_of(o, c);
            &&& forall|k: int| 0 <= k < rs.len() ==> tells(#[trigger] rs[k], o, c)
            &&& forall|k: int, l: int| 0 <= k < l < rs.len() ==> rs[k].seq < rs[l].seq
            &&& forall|i: int| #[trigger] differ_at(o, c, i) ==> is_named(rs, i)
        }),
{
    lemma_residuals(o, c, longer(o, c));
}

/// Whether two events are the same to an observer who is told neither process
/// ids nor sizes, and descriptor numbers only on demand.
pub open spec fn same_observation(a: EventView, b: EventView, with_fd: bool) -> bool {
    &&& a.event == b.event
    &&& a.result == b.result
    &&& a.handle == b.handle
    &&& a.payload_hex == b.payload_hex
    &&& a.handles == b.handles
    &&& a.signals == b.signals
    &&& a.trigger_context == b.trigger_context
    &&& a.signals_state == b.signals_state
    &&& a.outputs == b.outputs
    &&& a.process == b.process
    &&& a.note == b.note
    &&& a.fd is Some == b.fd is Some
    &&& with_fd ==> a.fd == b.fd
}

/// No normalizer hides a difference that is meaningful: runs that pass have
/// equally many events, and those at each position are the same in result,
/// handles, payload, signals, trap context, outputs, process and note, and have
/// a descriptor or not. Under `normalize.trap_order` that holds of the events
/// that are no trap events.
pub proof fn law_pass_hides_nothing(ids: Seq<Seq<char>>, o: Seq<EventView>, c: Seq<EventView>)
    requires
        runs_normalized(ids, o, c) is Ok,
        residuals_of(runs_normalized(ids, o, c)->Ok_0.0, runs_normalized(ids, o, c)->Ok_0.1).len()
            == 0,
    ensures
        o.len() == c.len(),
        forall|i: int|
            #![trigger o[i]]
            #![trigger c[i]]
            0 <= i < o.len() && (!names(ids, "normalize.trap_order"@) || o[i].event
                != crate::casefile::events::EventKind::Trap) ==> same_observation(
                o[i],
                c[i],
                !names(ids, "normalize.fd"@),
            ),
{
    let (x, y) = runs_normalized(ids, o, c)->Ok_0;
    law_normalizers_change_nothing_else(ids, o);
    law_normalizers_change_nothing_else(ids, c);
    law_pass_means_agreement(x, y);
    assert forall|i: int|
        #![trigger o[i]]
        #![trigger c[i]]
        0 <= i < o.len() && (!names(ids, "normalize.trap_order"@) || o[i].event
            != crate::casefile::events::EventKind::Trap) implies same_observation(
        o[i],
        c[i],
        !names(ids, "normalize.fd"@),
    ) by {
        assert(x[i].agrees(y[i]));
    }
}

/// The event with what is never compared left out.
pub open spec fn compared(e: EventView) -> EventView {
    EventView { seq: 0, op_id: 0, pid: None, num_bytes: None, size: None, ..e }
}

/// Runs that pass have the same events in all that is compared, each as often
/// in the one as in the other, whatever normalizers are named; descriptor
/// numbers count unless `normalize.fd` is.
pub proof fn law_pass_means_same_events(ids: Seq<Seq<char>>, o: Seq<EventView>, c: Seq<EventView>)
    requires
        runs_normalized(ids, o, c) is Ok,
        residuals_of(runs_normalized(ids, o, c)->Ok_0.0, runs_normalized(ids, o, c)->Ok_0.1).len()
            == 0,
    ensures
        all_forgetting(true, names(ids, "normalize.fd"@), o).map_values(
            |e: EventView| compared(e),
        ).to_multiset() == all_forgetting(true, names(ids, "normalize.fd"@), c).map_values(
            |e: EventView| compared(e),
        ).to_multiset(),
{
    let (x, y) = runs_normalized(ids, o, c)->Ok_0;
    let f = |e: EventView| compared(e);
    let pid = names(ids, "normalize.pid"@);
    let fd = names(ids, "normalize.fd"@);
    lemma_normalizers(ids, o, f);
    lemma_normalizers(ids, c, f);
    law_pass_means_agreement(x, y);
    assert(x.map_values(f) =~= y.map_values(f)) by {
        assert forall|i: int| 0 <= i < x.len() implies x.map_values(f)[i] == y.map_values(f)[i] by {
            assert(x[i].agrees(y[i]));
        }
    }
    assert(all_forgetting(true, fd, o).map_values(f) =~= all_forgetting(pid, fd, o).map_values(f));
    assert(all_forgetting(true, fd, c).map_values(f) =~= all_forgetting(pid, fd, c).map_values(f));
}

} // verus!
