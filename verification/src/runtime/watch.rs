//! Watches: who is told when the signals of an object change.
//!
//! An object keeps its watchers and posts a [`Notification`] for each of them
//! whose signals became satisfied or unsatisfiable; whoever runs the runtime
//! hands the notifications on after the operation that caused them.

use vstd::prelude::*;

#[allow(unused_imports)]
use crate::picks::{lemma_picks_next, lemma_picks_none, lemma_picks_same, picks};
use crate::runtime::signal::{Signals, SignalsState};
#[allow(unused_imports)]
use crate::runtime::signal::no_signals;

verus! {

/// Identifies a registered watch on an object.
#[derive(Debug, Clone, Copy, PartialEq, Eq, Hash, Structural)]
pub struct WatchId(pub u64);

impl WatchId {
    /// Create a watch id (assigned by the object that is watched).
    pub fn new(v: u64) -> (r: WatchId)
        ensures
            r == WatchId(v),
    {
        WatchId(v)
    }
}

/// Why a watch reports.
#[derive(Debug, Clone, Copy, PartialEq, Eq, Structural)]
pub enum WatchKind {
    /// The watched signals became satisfied or unsatisfiable.
    Changed,
    /// The watched object was closed locally; the trigger is cancelled.
    Cancelled,
}

/// Whom a watch reports to.
#[derive(Debug, Clone, Copy, PartialEq, Eq, Structural)]
pub enum WatchTarget {
    /// The trigger with this context on this trap.
    Trap {
        /// The trap.
        trap: u64,
        /// The context of the trigger.
        context: u64,
    },
    /// A waiter.
    Waiter(u64),
}

/// A registered watch.
#[derive(Debug, Clone, Copy, PartialEq, Eq, Structural)]
pub struct Watcher {
    /// The watch's id.
    pub id: WatchId,
    /// The signals it watches for.
    pub signals: Signals,
    /// Whom it reports to.
    pub target: WatchTarget,
    /// Whether it is cancelled.
    pub cancelled: bool,
}

/// What a watch reports.
#[derive(Debug, Clone, Copy, PartialEq, Eq, Structural)]
pub struct Notification {
    /// The watch.
    pub watch: WatchId,
    /// Whom it reports to.
    pub target: WatchTarget,
    /// The signal state at the time of the change.
    pub state: SignalsState,
    /// Why it reports.
    pub kind: WatchKind,
}

/// The reports of all watchers that are not cancelled and whose signals are
/// satisfied or unsatisfiable in `state`, in the order of registration. A
/// watcher that reported stays registered.
pub open spec fn fired(watchers: Seq<Watcher>, state: SignalsState) -> Seq<Notification>
    decreases watchers.len(),
{
    if watchers.len() == 0 {
        Seq::empty()
    } else {
        let w = watchers.last();
        let before = fired(watchers.drop_last(), state);
        if !w.cancelled && state.fires(w.signals) {
            before.push(
                Notification { watch: w.id, target: w.target, state, kind: WatchKind::Changed },
            )
        } else {
            before
        }
    }
}

/// The reports of all watchers that are not cancelled yet when all of them are
/// cancelled.
pub open spec fn cancellations(watchers: Seq<Watcher>) -> Seq<Notification>
    decreases watchers.len(),
{
    if watchers.len() == 0 {
        Seq::empty()
    } else {
        let w = watchers.last();
        let before = cancellations(watchers.drop_last());
        if !w.cancelled {
            before.push(
                Notification {
                    watch: w.id,
                    target: w.target,
                    state: no_signals(),
                    kind: WatchKind::Cancelled,
                },
            )
        } else {
            before
        }
    }
}

/// The watchers, all cancelled.
pub open spec fn all_cancelled(watchers: Seq<Watcher>) -> Seq<Watcher> {
    Seq::new(watchers.len(), |i: int| Watcher { cancelled: true, ..watchers[i] })
}

/// Whether `i` is where the watch `id` stands first.
pub open spec fn first_watch(watchers: Seq<Watcher>, id: WatchId, i: int) -> bool {
    0 <= i < watchers.len() && watchers[i].id == id && forall|j: int|
        0 <= j < i ==> (#[trigger] watchers[j]).id != id
}

/// The watchers with the first one of this id cancelled.
pub open spec fn one_cancelled(watchers: Seq<Watcher>, id: WatchId) -> Seq<Watcher>
    decreases watchers.len(),
{
    if watchers.len() == 0 {
        watchers
    } else if watchers[0].id == id {
        watchers.update(0, Watcher { cancelled: true, ..watchers[0] })
    } else {
        seq![watchers[0]] + one_cancelled(watchers.drop_first(), id)
    }
}

/// Post the reports of the watchers that fire in `state`.
pub fn post_fired(watchers: &Vec<Watcher>, state: SignalsState, out: &mut Vec<Notification>)
    ensures
        final(out)@ == old(out)@ + fired(watchers@, state),
{
    let mut i: usize = 0;
    let ghost start = out@;
    proof {
        assert(watchers@.take(0) =~= Seq::empty());
        assert(start + Seq::<Notification>::empty() =~= start);
    }
    while i < watchers.len()
        invariant
            i <= watchers@.len(),
            out@ == start + fired(watchers@.take(i as int), state),
        decreases watchers@.len() - i,
    {
        let w = watchers[i];
        proof {
            let t = watchers@.take(i as int + 1);
            assert(t.drop_last() =~= watchers@.take(i as int));
            assert(t.last() == w);
        }
        if !w.cancelled && (state.is_satisfied(w.signals) || state.is_unsatisfiable(w.signals)) {
            out.push(
                Notification { watch: w.id, target: w.target, state, kind: WatchKind::Changed },
            );
        }
        assert(out@ =~= start + fired(watchers@.take(i as int + 1), state));
        i = i + 1;
    }
    assert(watchers@.take(i as int) =~= watchers@);
}

/// Cancel all watchers and post the cancellation of those that were not
/// cancelled yet.
pub fn cancel_all(watchers: &mut Vec<Watcher>, out: &mut Vec<Notification>)
    ensures
        final(out)@ == old(out)@ + cancellations(old(watchers)@),
        final(watchers)@ == all_cancelled(old(watchers)@),
{
    let mut i: usize = 0;
    let ghost start = out@;
    let ghost ws = watchers@;
    proof {
        assert(ws.take(0) =~= Seq::empty());
        assert(start + Seq::<Notification>::empty() =~= start);
    }
    while i < watchers.len()
        invariant
            i <= ws.len(),
            watchers@.len() == ws.len(),
            forall|j: int|
                0 <= j < ws.len() ==> #[trigger] watchers@[j] == if j < i {
                    Watcher { cancelled: true, ..ws[j] }
                } else {
                    ws[j]
                },
            out@ == start + cancellations(ws.take(i as int)),
        decreases ws.len() - i,
    {
        let w = watchers[i];
        proof {
            let t = ws.take(i as int + 1);
            assert(t.drop_last() =~= ws.take(i as int));
            assert(t.last() == w);
        }
        if !w.cancelled {
            watchers.set(
                i,
                Watcher { id: w.id, signals: w.signals, target: w.target, cancelled: true },
            );
            out.push(
                Notification {
                    watch: w.id,
                    target: w.target,
                    state: SignalsState::default(),
                    kind: WatchKind::Cancelled,
                },
            );
        }
        assert(out@ =~= start + cancellations(ws.take(i as int + 1)));
        i = i + 1;
    }
    proof {
        assert(ws.take(i as int) =~= ws);
        assert(watchers@ =~= all_cancelled(ws));
    }
}

proof fn lemma_one_cancelled(ws: Seq<Watcher>, id: WatchId)
    ensures
        (forall|j: int| 0 <= j < ws.len() ==> (#[trigger] ws[j]).id != id) ==> one_cancelled(ws, id)
            == ws,
        forall|i: int| #[trigger]
            first_watch(ws, id, i) ==> one_cancelled(ws, id) == ws.update(
                i,
                Watcher { cancelled: true, ..ws[i] },
            ),
    decreases ws.len(),
{
    if ws.len() > 0 && ws[0].id != id {
        let rest = ws.drop_first();
        lemma_one_cancelled(rest, id);
        assert(seq![ws[0]] + rest =~= ws);
        assert forall|i: int| #[trigger] first_watch(ws, id, i) implies one_cancelled(ws, id)
            == ws.update(i, Watcher { cancelled: true, ..ws[i] }) by {
            assert forall|j: int| 0 <= j < i - 1 implies (#[trigger] rest[j]).id != id by {
                assert(rest[j] == ws[j + 1]);
            }
            assert(first_watch(rest, id, i - 1));
            assert(one_cancelled(ws, id) =~= ws.update(i, Watcher { cancelled: true, ..ws[i] }));
        }
        if forall|j: int| 0 <= j < ws.len() ==> (#[trigger] ws[j]).id != id {
            assert forall|j: int| 0 <= j < rest.len() implies (#[trigger] rest[j]).id != id by {
                assert(rest[j] == ws[j + 1]);
            }
        }
    }
}

/// Cancel the watch with this id; nothing happens if there is none.
pub fn cancel_one(watchers: &mut Vec<Watcher>, id: WatchId)
    ensures
        final(watchers)@ == one_cancelled(old(watchers)@, id),
{
    let mut i: usize = 0;
    let ghost ws = watchers@;
    proof {
        lemma_one_cancelled(ws, id);
    }
    while i < watchers.len()
        invariant
            i <= ws.len(),
            ws == old(watchers)@,
            watchers@ == ws,
            forall|j: int| 0 <= j < i ==> (#[trigger] ws[j]).id != id,
            forall|k: int| #[trigger]
                first_watch(ws, id, k) ==> one_cancelled(ws, id) == ws.update(
                    k,
                    Watcher { cancelled: true, ..ws[k] },
                ),
        decreases ws.len() - i,
    {
        let w = watchers[i];
        if w.id == id {
            assert(first_watch(ws, id, i as int));
            watchers.set(
                i,
                Watcher { id: w.id, signals: w.signals, target: w.target, cancelled: true },
            );
            return;
        }
        i = i + 1;
    }
}

/// Whether no watch of this id is left that is not cancelled.
pub open spec fn silenced(ws: Seq<Watcher>, id: WatchId) -> bool {
    forall|j: int| 0 <= j < ws.len() && (#[trigger] ws[j]).id == id ==> ws[j].cancelled
}

/// Whether the ids of the watchers are distinct.
pub open spec fn distinct_ids(ws: Seq<Watcher>) -> bool {
    forall|j: int, k: int|
        0 <= j < ws.len() && 0 <= k < ws.len() && j != k ==> (#[trigger] ws[j]).id != (
        #[trigger] ws[k]).id
}

/// Whether none of the reports is of this watch.
pub open spec fn none_of(n: Seq<Notification>, id: WatchId) -> bool {
    forall|i: int| 0 <= i < n.len() ==> (#[trigger] n[i]).watch != id
}

/// A cancelled watch never reports again: where the ids are distinct, nothing
/// that fires or is cancelled after the cancellation comes from it, and the
/// other watches report as if nothing had happened. A watch that is not there
/// can be cancelled without any effect, and so can one that is cancelled.
pub proof fn law_cancelled_never_fires(ws: Seq<Watcher>, id: WatchId, state: SignalsState)
    requires
        distinct_ids(ws),
    ensures
        silenced(one_cancelled(ws, id), id),
        none_of(fired(one_cancelled(ws, id), state), id),
        none_of(cancellations(one_cancelled(ws, id)), id),
        fired(one_cancelled(ws, id), state) == fired(ws, state).filter(
            |n: Notification| n.watch != id,
        ),
        silenced(ws, id) ==> one_cancelled(ws, id) == ws,
{
    let after = one_cancelled(ws, id);
    lemma_one_cancelled(ws, id);
    if exists|k: int| 0 <= k < ws.len() && (#[trigger] ws[k]).id == id {
        let k = choose|k: int| 0 <= k < ws.len() && (#[trigger] ws[k]).id == id;
        assert(first_watch(ws, id, k));
        assert forall|j: int| 0 <= j < after.len() && (#[trigger] after[j]).id == id implies
            after[j].cancelled by {
            if j != k {
                assert(after[j] == ws[j]);
                assert(ws[j].id != ws[k].id);
            }
        }
        if silenced(ws, id) {
            assert(after =~= ws);
        }
        assert forall|j: int| 0 <= j < ws.len() && (#[trigger] ws[j]).id != id implies after[j]
            == ws[j] by {}
    } else {
        assert(after == ws);
    }
    lemma_silent(after, id, state);
    lemma_others_fire(ws, after, id, state);
}

/// A watch that is silenced reports neither what fires nor a cancellation.
pub proof fn lemma_silent(ws: Seq<Watcher>, id: WatchId, state: SignalsState)
    requires
        silenced(ws, id),
    ensures
        none_of(fired(ws, state), id),
        none_of(cancellations(ws), id),
    decreases ws.len(),
{
    if ws.len() > 0 {
        let init = ws.drop_last();
        assert(ws.last() == ws[ws.len() - 1]);
        assert forall|j: int| 0 <= j < init.len() && (#[trigger] init[j]).id == id implies
            init[j].cancelled by {
            assert(init[j] == ws[j]);
        }
        lemma_silent(init, id, state);
    }
}

proof fn lemma_others_fire(a: Seq<Watcher>, b: Seq<Watcher>, id: WatchId, state: SignalsState)
    requires
        a.len() == b.len(),
        forall|j: int| 0 <= j < a.len() ==> (#[trigger] a[j]).id == b[j].id,
        forall|j: int| 0 <= j < a.len() && (#[trigger] a[j]).id != id ==> b[j] == a[j],
        silenced(b, id),
    ensures
        fired(b, state) == fired(a, state).filter(|n: Notification| n.watch != id),
    decreases a.len(),
{
    let keep = |n: Notification| n.watch != id;
    reveal(Seq::filter);
    if a.len() > 0 {
        let a0 = a.drop_last();
        let b0 = b.drop_last();
        assert(a.last() == a[a.len() - 1] && b.last() == b[a.len() - 1]);
        assert forall|j: int| 0 <= j < a0.len() implies (#[trigger] a0[j]).id == b0[j].id && (
        a0[j].id != id ==> b0[j] == a0[j]) by {
            assert(a0[j] == a[j] && b0[j] == b[j]);
        }
        assert forall|j: int| 0 <= j < b0.len() && (#[trigger] b0[j]).id == id implies
            b0[j].cancelled by {
            assert(b0[j] == b[j]);
        }
        lemma_others_fire(a0, b0, id, state);
        let before = fired(a0, state);
        assert forall|n: Notification| #[trigger] before.push(n).filter(keep) == if keep(n) {
            before.filter(keep).push(n)
        } else {
            before.filter(keep)
        } by {
            assert(before.push(n).drop_last() =~= before);
        }
    } else {
        assert(fired(a, state).filter(keep) =~= Seq::empty());
    }
}

/// Cancelling a watch keeps the ids, and what is cancelled.
pub proof fn lemma_cancel_keeps_ids(ws: Seq<Watcher>, id: WatchId)
    ensures
        one_cancelled(ws, id).len() == ws.len(),
        forall|j: int| 0 <= j < ws.len() ==> (#[trigger] one_cancelled(ws, id)[j]).id == ws[j].id,
        forall|j: int|
            0 <= j < ws.len() && ws[j].cancelled ==> (
            #[trigger] one_cancelled(ws, id)[j]).cancelled,
    decreases ws.len(),
{
    if ws.len() > 0 && ws[0].id != id {
        let rest = ws.drop_first();
        lemma_cancel_keeps_ids(rest, id);
        assert forall|j: int| 0 <= j < ws.len() implies (
        #[trigger] one_cancelled(ws, id)[j]).id == ws[j].id && (ws[j].cancelled
            ==> one_cancelled(ws, id)[j].cancelled) by {
            if j > 0 {
                assert(rest[j - 1] == ws[j]);
                assert(one_cancelled(ws, id)[j] == one_cancelled(rest, id)[j - 1]);
            }
        }
    }
}

/// Cancelling all watches keeps the ids.
pub proof fn lemma_all_cancelled(ws: Seq<Watcher>)
    ensures
        all_cancelled(ws).len() == ws.len(),
        forall|j: int|
            0 <= j < ws.len() ==> (#[trigger] all_cancelled(ws)[j]).id == ws[j].id
                && all_cancelled(ws)[j].cancelled,
{
}

/// The reports of all watches but one.
pub open spec fn of_others(n: Seq<Notification>, id: WatchId) -> Seq<Notification> {
    n.filter(|x: Notification| x.watch != id)
}

/// Whether watchers are the same but for the watch of this id.
pub open spec fn alike(a: Seq<Watcher>, b: Seq<Watcher>, id: WatchId) -> bool {
    &&& a.len() == b.len()
    &&& forall|j: int|
        0 <= j < a.len() ==> (#[trigger] a[j]).id == b[j].id && (a[j].id != id ==> a[j] == b[j])
}

/// What alike watchers report is the same, but for that one watch.
pub proof fn lemma_alike_report(
    a: Seq<Watcher>,
    b: Seq<Watcher>,
    id: WatchId,
    state: SignalsState,
)
    requires
        alike(a, b, id),
    ensures
        of_others(fired(a, state), id) == of_others(fired(b, state), id),
        of_others(cancellations(a), id) == of_others(cancellations(b), id),
    decreases a.len(),
{
    if a.len() > 0 {
        let a0 = a.drop_last();
        let b0 = b.drop_last();
        let keep = |x: Notification| x.watch != id;
        assert forall|j: int| 0 <= j < a0.len() implies (#[trigger] a0[j]).id == b0[j].id && (
        a0[j].id != id ==> a0[j] == b0[j]) by {
            assert(a0[j] == a[j] && b0[j] == b[j]);
        }
        assert(a.last() == a[a.len() - 1] && b.last() == b[a.len() - 1]);
        lemma_alike_report(a0, b0, id, state);
        assert forall|s: Seq<Notification>, n: Notification| #[trigger]
            s.push(n).filter(keep) == if keep(n) {
            s.filter(keep).push(n)
        } else {
            s.filter(keep)
        } by {
            reveal(Seq::filter);
            assert(s.push(n).drop_last() =~= s);
        }
    }
}

/// Alike watchers stay alike when one of them is cancelled.
pub proof fn lemma_alike_cancelled(
    a: Seq<Watcher>,
    b: Seq<Watcher>,
    id: WatchId,
    other: WatchId,
)
    requires
        alike(a, b, id),
    ensures
        alike(one_cancelled(a, other), one_cancelled(b, other), id),
    decreases a.len(),
{
    if a.len() > 0 && a[0].id != other {
        let a1 = a.drop_first();
        let b1 = b.drop_first();
        assert forall|j: int| 0 <= j < a1.len() implies (#[trigger] a1[j]).id == b1[j].id && (
        a1[j].id != id ==> a1[j] == b1[j]) by {
            assert(a1[j] == a[j + 1] && b1[j] == b[j + 1]);
        }
        lemma_alike_cancelled(a1, b1, id, other);
        let x = one_cancelled(a, other);
        let y = one_cancelled(b, other);
        assert forall|j: int| 0 <= j < x.len() implies (#[trigger] x[j]).id == y[j].id && (x[j].id
            != id ==> x[j] == y[j]) by {
            if j > 0 {
                assert(x[j] == one_cancelled(a1, other)[j - 1]);
                assert(y[j] == one_cancelled(b1, other)[j - 1]);
            }
        }
    }
}

/// Watchers are alike when the one watch in question is cancelled.
pub proof fn lemma_cancelled_is_alike(ws: Seq<Watcher>, id: WatchId)
    ensures
        alike(one_cancelled(ws, id), ws, id),
    decreases ws.len(),
{
    if ws.len() > 0 && ws[0].id != id {
        let rest = ws.drop_first();
        lemma_cancelled_is_alike(rest, id);
        let x = one_cancelled(ws, id);
        assert forall|j: int| 0 <= j < x.len() implies (#[trigger] x[j]).id == ws[j].id && (x[j].id
            != id ==> x[j] == ws[j]) by {
            if j > 0 {
                assert(x[j] == one_cancelled(rest, id)[j - 1]);
                assert(ws[j] == rest[j - 1]);
            }
        }
    }
}

/// Whether a signal state is news to a watcher: it is not cancelled, and its
/// signals are all satisfied, or cannot all be satisfied any more.
pub open spec fn concerns(w: Watcher, state: SignalsState) -> bool {
    &&& !w.cancelled
    &&& state.satisfied.0 & w.signals.0 == w.signals.0 || state.satisfiable.0 & w.signals.0
        != w.signals.0
}

/// A change is reported to each watcher that it concerns, once and in the order
/// of registration, with the state; and to no other. The result is where those
/// watchers stand.
pub proof fn law_change_is_reported(ws: Seq<Watcher>, state: SignalsState) -> (at: Seq<int>)
    ensures
        picks(at, ws.len() as int, |j: int| concerns(ws[j], state)),
        fired(ws, state).len() == at.len(),
        forall|k: int|
            0 <= k < at.len() ==> {
                let n = #[trigger] fired(ws, state)[k];
                &&& n.watch == ws[at[k]].id
                &&& n.target == ws[at[k]].target
                &&& n.state == state
                &&& n.kind == WatchKind::Changed
            },
    decreases ws.len(),
{
    let p = |j: int| concerns(ws[j], state);
    if ws.len() == 0 {
        lemma_picks_none(p);
        Seq::empty()
    } else {
        let init = ws.drop_last();
        let q = |j: int| concerns(init[j], state);
        let before = law_change_is_reported(init, state);
        let n = init.len() as int;
        assert(forall|j: int| 0 <= j < n ==> init[j] == ws[j]);
        lemma_picks_same(before, n, q, p);
        lemma_picks_next(before, n, p);
        if p(n) {
            before.push(n)
        } else {
            before
        }
    }
}

/// Where watchers are cancelled together, each that was not cancelled is told
/// so, once and in order, and no other. The result is where those watchers
/// stand.
pub proof fn law_cancellation_is_reported(ws: Seq<Watcher>) -> (at: Seq<int>)
    ensures
        picks(at, ws.len() as int, |j: int| !ws[j].cancelled),
        cancellations(ws).len() == at.len(),
        forall|k: int|
            0 <= k < at.len() ==> {
                let n = #[trigger] cancellations(ws)[k];
                &&& n.watch == ws[at[k]].id
                &&& n.target == ws[at[k]].target
                &&& n.state.satisfied == Signals(0)
                &&& n.state.satisfiable == Signals(0)
                &&& n.kind == WatchKind::Cancelled
            },
        all_cancelled(ws).len() == ws.len(),
        forall|j: int|
            0 <= j < ws.len() ==> {
                let w = #[trigger] all_cancelled(ws)[j];
                w.cancelled && w.id == ws[j].id && w.signals == ws[j].signals && w.target
                    == ws[j].target
            },
    decreases ws.len(),
{
    let p = |j: int| !ws[j].cancelled;
    if ws.len() == 0 {
        lemma_picks_none(p);
        Seq::empty()
    } else {
        let init = ws.drop_last();
        let q = |j: int| !init[j].cancelled;
        let before = law_cancellation_is_reported(init);
        let n = init.len() as int;
        assert(forall|j: int| 0 <= j < n ==> init[j] == ws[j]);
        lemma_picks_same(before, n, q, p);
        lemma_picks_next(before, n, p);
        if p(n) {
            before.push(n)
        } else {
            before
        }
    }
}

/// Cancelling a watch cancels the first of that id, and touches no other.
pub proof fn law_cancel_touches_one(ws: Seq<Watcher>, id: WatchId, i: int)
    ensures
        one_cancelled(ws, id).len() == ws.len(),
        0 <= i < ws.len() ==> {
            let w = one_cancelled(ws, id)[i];
            &&& w.id == ws[i].id
            &&& w.signals == ws[i].signals
            &&& w.target == ws[i].target
            &&& w.cancelled == (ws[i].cancelled || first_watch(ws, id, i))
        },
{
    lemma_one_cancelled(ws, id);
    lemma_cancel_keeps_ids(ws, id);
    if 0 <= i < ws.len() {
        if exists|k: int| first_watch(ws, id, k) {
            let k = choose|k: int| first_watch(ws, id, k);
            if first_watch(ws, id, i) && i != k {
                assert(ws[i].id == id && ws[k].id == id);
            }
        } else {
            lemma_first_watch(ws, id);
        }
    }
}

proof fn lemma_first_watch(ws: Seq<Watcher>, id: WatchId)
    ensures
        (exists|k: int| first_watch(ws, id, k)) || forall|j: int|
            0 <= j < ws.len() ==> (#[trigger] ws[j]).id != id,
    decreases ws.len(),
{
    if ws.len() > 0 {
        let init = ws.drop_last();
        lemma_first_watch(init, id);
        assert(forall|j: int| 0 <= j < init.len() ==> init[j] == ws[j]);
        if exists|k: int| first_watch(init, id, k) {
            let k = choose|k: int| first_watch(init, id, k);
            assert(first_watch(ws, id, k));
        } else if ws.last().id == id {
            assert forall|j: int| 0 <= j < init.len() implies (#[trigger] ws[j]).id != id by {
                assert(init[j].id != id);
            }
            assert(first_watch(ws, id, init.len() as int));
        } else {
            assert forall|j: int| 0 <= j < ws.len() implies (#[trigger] ws[j]).id != id by {
                if j < init.len() {
                    assert(init[j].id != id);
                }
            }
        }
    }
}

} // verus!
