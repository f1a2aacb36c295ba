//! The model of a case: a list of operations with what they are expected to
//! give.

use vstd::prelude::*;

#[allow(unused_imports)]
use crate::text::decimal;
use crate::text::{joined, labelled};

verus! {

/// Preconditions for running a case.
#[derive(Debug)]
pub struct Preconditions {
    /// Capabilities the harness must support.
    pub required_capabilities: Vec<String>,
    /// Initialization options.
    pub init: Option<InitOptions>,
}

impl Default for Preconditions {
    fn default() -> (r: Preconditions)
        ensures
            r.required_capabilities@.len() == 0,
            r.init is None,
    {
        Preconditions { required_capabilities: Vec::new(), init: None }
    }
}

/// Initialization options.
#[derive(Debug)]
pub struct InitOptions {
    /// `default`, `broker`, or `non-broker`.
    pub mode: Option<String>,
    /// Raw flags.
    pub flags: Option<u32>,
}

impl Default for InitOptions {
    fn default() -> (r: InitOptions)
        ensures
            r.mode is None,
            r.flags is None,
    {
        InitOptions { mode: None, flags: None }
    }
}

/// Expected outcomes for an operation.
#[derive(Debug)]
pub struct Expectation {
    /// Expected name of the result.
    pub result: Option<String>,
    /// Handle tokens this operation produces.
    pub produce: Vec<String>,
    /// Event kinds expected.
    pub events: Vec<String>,
}

impl Default for Expectation {
    fn default() -> (r: Expectation)
        ensures
            r.result is None,
            r.produce@.len() == 0,
            r.events@.len() == 0,
    {
        Expectation { result: None, produce: Vec::new(), events: Vec::new() }
    }
}

/// The arguments of an operation, as far as operations read them.
#[derive(Debug)]
pub struct OpArgs {
    /// `handle`.
    pub handle: Option<String>,
    /// `payload_hex`.
    pub payload_hex: Option<String>,
    /// `handles`; an element that is no text is the empty text.
    pub handles: Vec<String>,
    /// `signals`; an element that is no text is the empty text.
    pub signals: Vec<String>,
    /// `deadline_ms`.
    pub deadline_ms: Option<u64>,
    /// `source`.
    pub source: Option<String>,
    /// `content_hex`.
    pub content_hex: Option<String>,
    /// `produce`.
    pub produce: Option<String>,
    /// `trap`.
    pub trap: Option<String>,
    /// `context`.
    pub context: Option<u64>,
    /// `count`.
    pub count: Option<u64>,
}

impl Default for OpArgs {
    fn default() -> (r: OpArgs)
        ensures
            r.handle is None,
            r.payload_hex is None,
            r.handles@.len() == 0,
            r.signals@.len() == 0,
            r.deadline_ms is None,
            r.source is None,
            r.content_hex is None,
            r.produce is None,
            r.trap is None,
            r.context is None,
            r.count is None,
    {
        OpArgs {
            handle: None,
            payload_hex: None,
            handles: Vec::new(),
            signals: Vec::new(),
            deadline_ms: None,
            source: None,
            content_hex: None,
            produce: None,
            trap: None,
            context: None,
            count: None,
        }
    }
}

/// A single operation.
#[derive(Debug)]
pub struct Operation {
    /// Sequential id.
    pub id: u64,
    /// Operation name.
    pub op: String,
    /// Operation arguments.
    pub args: OpArgs,
    /// Expected outcomes.
    pub expect: Option<Expectation>,
    /// Human note.
    pub note: Option<String>,
}

/// A peer process definition.
#[derive(Debug)]
pub struct Process {
    /// Operations executed in the peer process.
    pub operations: Vec<Operation>,
    /// The process to bootstrap from (default: parent).
    pub bootstrap: Option<String>,
}

/// A normalizer reference.
#[derive(Debug)]
pub struct NormalizerRef {
    /// Registry id of the normalizer.
    pub id: String,
    /// Normalizer parameters, as JSON text.
    pub params: String,
}

/// A replayable case.
#[derive(Debug)]
pub struct Casefile {
    /// Schema version (1).
    pub schema_version: u32,
    /// Unique case id.
    pub case_id: String,
    /// The court this case belongs to.
    pub court: String,
    /// Pinned reference revision.
    pub reference_revision: String,
    /// Determinism seed.
    pub seed: u64,
    /// Preconditions (capabilities, init mode).
    pub preconditions: Preconditions,
    /// Parent-process operations.
    pub operations: Vec<Operation>,
    /// Named peer processes, ordered by name.
    pub processes: Vec<(String, Process)>,
    /// Named contract assertions, as JSON text.
    pub expected_contract: String,
    /// Normalizers applied before comparison.
    pub normalizers: Vec<NormalizerRef>,
}

impl Casefile {
    /// The name of the process that runs the operations of the case itself.
    pub fn process_name(&self) -> (r: &'static str)
        ensures
            r@ == "parent"@,
    {
        "parent"
    }

    /// The ids of the operations.
    pub open spec fn spec_ids(self) -> Seq<u64> {
        self.operations@.map_values(|o: Operation| o.id)
    }

    /// The ids of the operations.
    pub fn operation_ids(&self) -> (r: Vec<u64>)
        ensures
            r@ == self.spec_ids(),
    {
        let mut out: Vec<u64> = Vec::new();
        let mut i: usize = 0;
        while i < self.operations.len()
            invariant
                i <= self.operations@.len(),
                out@.len() == i,
                forall|j: int| 0 <= j < i ==> out@[j] == self.operations@[j].id,
            decreases self.operations@.len() - i,
        {
            out.push(self.operations[i].id);
            i = i + 1;
        }
        assert(out@ =~= self.spec_ids());
        out
    }

    /// Check the structure of the case: the schema version, the case id, that
    /// the operation ids are the numbers from 1 on, and that the name of the
    /// file starts with the case id.
    pub fn validate(&self, file_stem: &str) -> (r: Result<(), String>)
        ensures
            match r {
                Ok(_) => validity(
                    self.schema_version,
                    self.case_id@,
                    self.spec_ids(),
                    file_stem@,
                ) is None,
                Err(e) => validity(self.schema_version, self.case_id@, self.spec_ids(), file_stem@)
                    == Some(e@),
            },
    {
        if self.schema_version != 1 {
            return Err(labelled("unsupported schema_version ", self.schema_version as u64));
        }
        if self.case_id.as_str().is_empty() {
            assert(self.case_id@.len() == 0) by {
                lemma_empty_text(self.case_id@);
            }
            return Err("case_id is empty".to_owned());
        }
        proof {
            lemma_empty_text(self.case_id@);
        }
        let ids = sort(self.operation_ids());
        let mut i: usize = 0;
        while i < ids.len()
            invariant
                i <= ids@.len(),
                ids@ == sorted(self.spec_ids()),
                self.schema_version == 1,
                self.case_id@.len() != 0,
                forall|j: int| 0 <= j < i ==> #[trigger] ids@[j] == j + 1,
            decreases ids@.len() - i,
        {
            assert(ids.len() == ids@.len());
            if ids[i] != i as u64 + 1 {
                proof {
                    lemma_first_gap(ids@, i as int);
                }
                let head = labelled("operation ids not sequential: expected ", i as u64 + 1);
                let tail = labelled(", got ", ids[i]);
                return Err(joined(head.as_str(), tail.as_str()));
            }
            i = i + 1;
        }
        proof {
            lemma_no_gap(ids@);
        }
        if !starts_with(file_stem, self.case_id.as_str()) {
            let head = joined("filename stem ", file_stem);
            let tail = joined(" does not match case_id ", self.case_id.as_str());
            return Err(joined(head.as_str(), tail.as_str()));
        }
        Ok(())
    }
}

/// The list with `x` put in at its place.
pub open spec fn inserted(s: Seq<u64>, x: u64) -> Seq<u64>
    decreases s.len(),
{
    if s.len() == 0 || s.last() <= x {
        s.push(x)
    } else {
        inserted(s.drop_last(), x).push(s.last())
    }
}

/// The list in ascending order.
pub open spec fn sorted(s: Seq<u64>) -> Seq<u64>
    decreases s.len(),
{
    if s.len() == 0 {
        s
    } else {
        inserted(sorted(s.drop_last()), s.last())
    }
}

/// Where a list first departs from 1, 2, 3, ..., if it does.
pub open spec fn first_gap(s: Seq<u64>) -> Option<int>
    decreases s.len(),
{
    if s.len() == 0 {
        None
    } else {
        match first_gap(s.drop_last()) {
            Some(i) => Some(i),
            None => if s.last() != s.len() {
                Some(s.len() - 1)
            } else {
                None
            },
        }
    }
}

/// What is wrong with the structure of a case, if anything.
pub open spec fn validity(
    schema_version: u32,
    case_id: Seq<char>,
    ids: Seq<u64>,
    file_stem: Seq<char>,
) -> Option<Seq<char>> {
    if schema_version != 1 {
        Some("unsupported schema_version "@ + decimal(schema_version as nat))
    } else if case_id.len() == 0 {
        Some("case_id is empty"@)
    } else {
        match first_gap(sorted(ids)) {
            Some(i) => Some(
                ("operation ids not sequential: expected "@ + decimal((i + 1) as nat)) + (
                ", got "@ + decimal(sorted(ids)[i] as nat)),
            ),
            None => if case_id.is_prefix_of(file_stem) {
                None
            } else {
                Some(
                    ("filename stem "@ + file_stem) + (" does not match case_id "@ + case_id),
                )
            },
        }
    }
}

proof fn lemma_empty_text(s: Seq<char>)
    ensures
        (vstd::utf8::encode_utf8(s).len() == 0) == (s.len() == 0),
{
    reveal_with_fuel(vstd::utf8::encode_utf8, 2);
}

proof fn lemma_first_gap(s: Seq<u64>, i: int)
    requires
        0 <= i < s.len(),
        forall|j: int| 0 <= j < i ==> #[trigger] s[j] == j + 1,
        s[i] != i + 1,
    ensures
        first_gap(s) == Some(i),
    decreases s.len(),
{
    let init = s.drop_last();
    if i < s.len() - 1 {
        assert forall|j: int| 0 <= j < i implies #[trigger] init[j] == j + 1 by {
            assert(init[j] == s[j]);
        }
        lemma_first_gap(init, i);
    } else {
        assert forall|j: int| 0 <= j < init.len() implies #[trigger] init[j] == j + 1 by {
            assert(init[j] == s[j]);
        }
        lemma_no_gap(init);
    }
}

proof fn lemma_no_gap(s: Seq<u64>)
    requires
        forall|j: int| 0 <= j < s.len() ==> #[trigger] s[j] == j + 1,
    ensures
        first_gap(s) is None,
    decreases s.len(),
{
    if s.len() > 0 {
        let init = s.drop_last();
        assert forall|j: int| 0 <= j < init.len() implies #[trigger] init[j] == j + 1 by {
            assert(init[j] == s[j]);
        }
        lemma_no_gap(init);
        assert(s[s.len() - 1] == s.len());
    }
}

fn insert_sorted(v: &mut Vec<u64>, x: u64)
    ensures
        final(v)@ == inserted(old(v)@, x),
    decreases old(v)@.len(),
{
    if v.len() == 0 {
        v.push(x);
    } else {
        let last: u64 = v[v.len() - 1];
        if last <= x {
            v.push(x);
        } else {
            let _gone: Option<u64> = v.pop();
            assert(v@ =~= old(v)@.drop_last());
            insert_sorted(v, x);
            v.push(last);
        }
    }
}

fn sort(v: Vec<u64>) -> (r: Vec<u64>)
    ensures
        r@ == sorted(v@),
{
    let mut out: Vec<u64> = Vec::new();
    let mut i: usize = 0;
    assert(v@.take(0) =~= Seq::empty());
    while i < v.len()
        invariant
            i <= v@.len(),
            out@ == sorted(v@.take(i as int)),
        decreases v@.len() - i,
    {
        proof {
            let next = v@.take(i as int + 1);
            assert(next.drop_last() =~= v@.take(i as int));
            assert(next.last() == v@[i as int]);
        }
        insert_sorted(&mut out, v[i]);
        i = i + 1;
    }
    assert(v@.take(i as int) =~= v@);
    out
}

fn starts_with(text: &str, prefix: &str) -> (r: bool)
    ensures
        r == prefix@.is_prefix_of(text@),
{
    let n: usize = prefix.unicode_len();
    if text.unicode_len() < n {
        return false;
    }
    let mut i: usize = 0;
    while i < n
        invariant
            i <= n == prefix@.len(),
            n <= text@.len(),
            forall|j: int| 0 <= j < i ==> prefix@[j] == text@[j],
        decreases n - i,
    {
        if text.get_char(i) != prefix.get_char(i) {
            assert(!prefix@.is_prefix_of(text@)) by {
                if prefix@.is_prefix_of(text@) {
                    assert(text@.subrange(0, n as int)[i as int] == prefix@[i as int]);
                }
            }
            return false;
        }
        i = i + 1;
    }
    assert(text@.subrange(0, n as int) =~= prefix@);
    true
}

/// Sorting keeps the members of a list, and puts them in order.
pub proof fn law_sorted(s: Seq<u64>)
    ensures
        sorted(s).to_multiset() == s.to_multiset(),
        forall|i: int, j: int| 0 <= i <= j < sorted(s).len() ==> sorted(s)[i] <= sorted(s)[j],
    decreases s.len(),
{
    broadcast use vstd::seq_lib::group_to_multiset_ensures;

    if s.len() > 0 {
        law_sorted(s.drop_last());
        lemma_inserted(sorted(s.drop_last()), s.last());
        assert(s =~= s.drop_last().push(s.last()));
    }
}

proof fn lemma_inserted(s: Seq<u64>, x: u64)
    requires
        forall|i: int, j: int| 0 <= i <= j < s.len() ==> s[i] <= s[j],
    ensures
        inserted(s, x).to_multiset() == s.to_multiset().insert(x),
        forall|i: int, j: int|
            0 <= i <= j < inserted(s, x).len() ==> inserted(s, x)[i] <= inserted(s, x)[j],
        forall|i: int|
            0 <= i < inserted(s, x).len() ==> inserted(s, x)[i] <= x || s.len() > 0 && inserted(
                s,
                x,
            )[i] <= s.last(),
    decreases s.len(),
{
    broadcast use vstd::seq_lib::group_to_multiset_ensures;

    if s.len() == 0 || s.last() <= x {
    } else {
        let init = s.drop_last();
        lemma_inserted(init, x);
        assert(s =~= init.push(s.last()));
        assert(inserted(s, x) =~= inserted(init, x).push(s.last()));
        assert(inserted(s, x).to_multiset() =~= s.to_multiset().insert(x));
    }
}

/// The numbers from 1 to `n`.
pub open spec fn numbers_to(n: nat) -> Seq<u64> {
    Seq::new(n, |i: int| (i + 1) as u64)
}

/// A case is valid exactly if its schema version is 1, it has an id with which
/// the name of its file starts, and its operations are numbered from 1 on, each
/// number once and in any order.
pub proof fn law_valid_case(
    schema_version: u32,
    case_id: Seq<char>,
    ids: Seq<u64>,
    file_stem: Seq<char>,
)
    requires
        ids.len() <= u64::MAX,
    ensures
        validity(schema_version, case_id, ids, file_stem) is None <==> {
            &&& schema_version == 1
            &&& case_id.len() > 0
            &&& case_id.len() <= file_stem.len()
            &&& file_stem.take(case_id.len() as int) == case_id
            &&& ids.to_multiset() == numbers_to(ids.len()).to_multiset()
        },
{
    let t = sorted(ids);
    let all = numbers_to(ids.len());
    law_sorted(ids);
    t.to_multiset_ensures();
    ids.to_multiset_ensures();
    assert(t.len() == ids.len());
    assert(case_id.is_prefix_of(file_stem) == (case_id.len() <= file_stem.len() && file_stem.take(
        case_id.len() as int,
    ) == case_id));
    lemma_gap_means_other(t);
    if first_gap(t) is None {
        assert(t =~= all);
    }
    if ids.to_multiset() == all.to_multiset() {
        let leq = |a: u64, b: u64| a <= b;
        assert(vstd::relations::sorted_by(t, leq)) by {
            assert forall|i: int, j: int| 0 <= i < j < t.len() implies #[trigger] leq(t[i], t[j]) by {
                assert(t[i] <= t[j]);
            }
        }
        assert(vstd::relations::sorted_by(all, leq));
        assert(vstd::relations::total_ordering(leq));
        vstd::seq_lib::lemma_sorted_unique(t, all, leq);
        lemma_no_gap(t);
    }
}

proof fn lemma_gap_means_other(s: Seq<u64>)
    ensures
        first_gap(s) is None ==> forall|i: int| 0 <= i < s.len() ==> #[trigger] s[i] == i + 1,
    decreases s.len(),
{
    if s.len() > 0 {
        let init = s.drop_last();
        lemma_gap_means_other(init);
        if first_gap(s) is None {
            assert forall|i: int| 0 <= i < s.len() implies #[trigger] s[i] == i + 1 by {
                if i < init.len() {
                    assert(init[i] == s[i]);
                }
            }
        }
    }
}

} // verus!
