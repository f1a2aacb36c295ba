//! The normalizers: narrow rules that are applied to events before two runs
//! are compared.
//!
//! Only what the public contract leaves open is normalized: process ids,
//! descriptor numbers, and the order of trap events where a case declares that
//! it may vary.

use vstd::prelude::*;

use crate::casefile::events::{Event, EventKind};
#[allow(unused_imports)]
use crate::casefile::events::{event_views, EventView};
#[allow(unused_imports)]
use crate::text::texts;
use crate::text::{joined, same_text};

verus! {

/// The event without its process id.
pub open spec fn without_pid(e: EventView) -> EventView {
    EventView { pid: None, ..e }
}

/// The event with no particular descriptor number.
pub open spec fn without_fd(e: EventView) -> EventView {
    EventView {
        fd: if e.fd is Some {
            Some(-1i32)
        } else {
            None
        },
        ..e
    }
}

/// What trap events are ordered by.
pub open spec fn trap_key(e: EventView) -> u64 {
    match e.trigger_context {
        Some(c) => c,
        None => 0,
    }
}

/// The run of trap events with one more, put in behind all whose key is not
/// larger.
pub open spec fn in_order(run: Seq<EventView>, e: EventView) -> Seq<EventView>
    decreases run.len(),
{
    if run.len() == 0 || trap_key(run.last()) <= trap_key(e) {
        run.push(e)
    } else {
        in_order(run.drop_last(), e).push(run.last())
    }
}

/// The events up to the last one that is no trap event, with each run of trap
/// events in order; and the run of trap events behind them, in order.
pub open spec fn ordered(events: Seq<EventView>) -> (Seq<EventView>, Seq<EventView>)
    decreases events.len(),
{
    if events.len() == 0 {
        (Seq::empty(), Seq::empty())
    } else {
        let (out, run) = ordered(events.drop_last());
        let e = events.last();
        if e.event == EventKind::Trap {
            (out, in_order(run, e))
        } else {
            ((out + run).push(e), Seq::empty())
        }
    }
}

/// The events with each run of trap events sorted by trigger context; equal
/// contexts stay in their order.
pub open spec fn trap_ordered(events: Seq<EventView>) -> Seq<EventView> {
    ordered(events).0 + ordered(events).1
}

/// What one normalizer makes of the events; `None` for an unknown one.
pub open spec fn normalized_by(id: Seq<char>, events: Seq<EventView>) -> Option<Seq<EventView>> {
    if id == "normalize.pid"@ {
        Some(events.map_values(|e: EventView| without_pid(e)))
    } else if id == "normalize.fd"@ {
        Some(events.map_values(|e: EventView| without_fd(e)))
    } else if id == "normalize.timestamp"@ || id == "normalize.token"@ {
        Some(events)
    } else if id == "normalize.trap_order"@ {
        Some(trap_ordered(events))
    } else {
        None
    }
}

/// What a list of normalizers makes of the events, one after the other; the
/// first unknown one is an error.
pub open spec fn normalized(ids: Seq<Seq<char>>, events: Seq<EventView>) -> Result<
    Seq<EventView>,
    Seq<char>,
>
    decreases ids.len(),
{
    if ids.len() == 0 {
        Ok(events)
    } else {
        match normalized_by(ids[0], events) {
            Some(next) => normalized(ids.drop_first(), next),
            None => Err("unknown normalizer: "@ + ids[0]),
        }
    }
}

fn normalize_pid(events: &mut Vec<Event>)
    ensures
        event_views(final(events)@) == event_views(old(events)@).map_values(
            |e: EventView| without_pid(e),
        ),
{
    let mut i: usize = 0;
    while i < events.len()
        invariant
            i <= events@.len() == old(events)@.len(),
            forall|j: int|
                0 <= j < events@.len() ==> (#[trigger] events@[j])@ == if j < i {
                    without_pid(old(events)@[j]@)
                } else {
                    old(events)@[j]@
                },
        decreases events@.len() - i,
    {
        events[i].pid = None;
        i = i + 1;
    }
    assert(event_views(events@) =~= event_views(old(events)@).map_values(
        |e: EventView| without_pid(e),
    ));
}

fn normalize_fd(events: &mut Vec<Event>)
    ensures
        event_views(final(events)@) == event_views(old(events)@).map_values(
            |e: EventView| without_fd(e),
        ),
{
    let mut i: usize = 0;
    while i < events.len()
        invariant
            i <= events@.len() == old(events)@.len(),
            forall|j: int|
                0 <= j < events@.len() ==> (#[trigger] events@[j])@ == if j < i {
                    without_fd(old(events)@[j]@)
                } else {
                    old(events)@[j]@
                },
        decreases events@.len() - i,
    {
        if events[i].fd.is_some() {
            events[i].fd = Some(-1);
        }
        i = i + 1;
    }
    assert(event_views(events@) =~= event_views(old(events)@).map_values(
        |e: EventView| without_fd(e),
    ));
}

fn key_of(e: &Event) -> (r: u64)
    ensures
        r == trap_key(e@),
{
    match e.trigger_context {
        Some(c) => c,
        None => 0,
    }
}

fn put_in_order(run: &mut Vec<Event>, e: Event)
    ensures
        event_views(final(run)@) == in_order(event_views(old(run)@), e@),
    decreases old(run)@.len(),
{
    let ghost before = event_views(run@);
    let ghost view = e@;
    if run.len() == 0 || key_of(&run[run.len() - 1]) <= key_of(&e) {
        run.push(e);
        assert(event_views(run@) =~= before.push(view));
    } else {
        let last = run.pop().unwrap();
        assert(event_views(run@) =~= before.drop_last());
        put_in_order(run, e);
        let ghost middle = event_views(run@);
        let ghost last_view = last@;
        run.push(last);
        assert(event_views(run@) =~= middle.push(last_view));
    }
}

fn normalize_trap_order(events: Vec<Event>) -> (r: Vec<Event>)
    ensures
        event_views(r@) == trap_ordered(event_views(events@)),
{
    let mut rest = events;
    let ghost all = event_views(rest@);
    let mut out: Vec<Event> = Vec::new();
    let mut run: Vec<Event> = Vec::new();
    let mut done: Ghost<int> = Ghost(0);
    proof {
        assert(all.take(0) =~= Seq::empty());
        assert(event_views(out@) =~= Seq::empty());
        assert(event_views(run@) =~= Seq::empty());
    }
    while rest.len() > 0
        invariant
            0 <= done@ <= all.len(),
            event_views(rest@) == all.skip(done@),
            (event_views(out@), event_views(run@)) == ordered(all.take(done@)),
        decreases rest@.len(),
    {
        let ghost before = event_views(rest@);
        assert(before.len() == rest@.len());
        assert(done@ < all.len());
        let e = rest.remove(0);
        proof {
            assert forall|i: int| 0 <= i < rest@.len() implies event_views(rest@)[i]
                == before[i + 1] by {}
            assert(event_views(rest@) =~= all.skip(done@ + 1));
            let next = all.take(done@ + 1);
            assert(next.drop_last() =~= all.take(done@));
            assert(before[0] == e@);
            assert(next.last() == e@);
            done@ = done@ + 1;
        }
        if e.event == EventKind::Trap {
            put_in_order(&mut run, e);
        } else {
            let ghost out0 = event_views(out@);
            let ghost run0 = event_views(run@);
            let ghost view = e@;
            out.append(&mut run);
            assert(event_views(out@) =~= out0 + run0);
            out.push(e);
            assert(event_views(out@) =~= (out0 + run0).push(view));
            assert(event_views(run@) =~= Seq::empty());
        }
    }
    let ghost out0 = event_views(out@);
    let ghost run0 = event_views(run@);
    out.append(&mut run);
    proof {
        assert(all.take(done@) =~= all);
        assert(event_views(out@) =~= out0 + run0);
    }
    out
}

/// Apply the normalizers named in `ids` to events, one after the other. An
/// unknown normalizer is an error: skipping it would let a difference hide.
pub fn apply_normalizers(events: Vec<Event>, ids: &Vec<String>) -> (r: Result<Vec<Event>, String>)
    ensures
        match r {
            Ok(v) => normalized(texts(ids@), event_views(events@)) == Ok::<
                Seq<EventView>,
                Seq<char>,
            >(event_views(v@)),
            Err(e) => normalized(texts(ids@), event_views(events@)) == Err::<
                Seq<EventView>,
                Seq<char>,
            >(e@),
        },
{
    let ghost want = normalized(texts(ids@), event_views(events@));
    let mut out = events;
    let mut i: usize = 0;
    assert(texts(ids@).skip(0) =~= texts(ids@));
    while i < ids.len()
        invariant
            i <= ids@.len(),
            want == normalized(texts(ids@), event_views(events@)),
            want == normalized(texts(ids@).skip(i as int), event_views(out@)),
        decreases ids@.len() - i,
    {
        let id = &ids[i];
        proof {
            let rest = texts(ids@).skip(i as int);
            assert(rest[0] == id@);
            assert(rest.drop_first() =~= texts(ids@).skip(i as int + 1));
        }
        if same_text(id, "normalize.pid") {
            normalize_pid(&mut out);
        } else if same_text(id, "normalize.fd") {
            normalize_fd(&mut out);
        } else if same_text(id, "normalize.timestamp") || same_text(id, "normalize.token") {
        } else if same_text(id, "normalize.trap_order") {
            out = normalize_trap_order(out);
        } else {
            return Err(joined("unknown normalizer: ", id.as_str()));
        }
        i = i + 1;
    }
    Ok(out)
}

/// Whether the events stand in the order of their keys.
pub open spec fn by_key(run: Seq<EventView>) -> bool {
    forall|i: int, j: int| 0 <= i <= j < run.len() ==> trap_key(run[i]) <= trap_key(run[j])
}

proof fn lemma_in_order(run: Seq<EventView>, e: EventView)
    requires
        by_key(run),
    ensures
        by_key(in_order(run, e)),
        in_order(run, e).to_multiset() == run.to_multiset().insert(e),
        forall|i: int|
            0 <= i < in_order(run, e).len() ==> trap_key(#[trigger] in_order(run, e)[i])
                <= trap_key(e) || run.len() > 0 && trap_key(in_order(run, e)[i]) <= trap_key(
                run.last(),
            ),
    decreases run.len(),
{
    broadcast use vstd::seq_lib::group_to_multiset_ensures;

    if run.len() == 0 || trap_key(run.last()) <= trap_key(e) {
    } else {
        let init = run.drop_last();
        lemma_in_order(init, e);
        assert(run =~= init.push(run.last()));
        assert(in_order(run, e) =~= in_order(init, e).push(run.last()));
        assert(in_order(run, e).to_multiset() =~= run.to_multiset().insert(e));
    }
}

/// Whether the events from `i` on and before `j` are trap events.
pub open spec fn traps_between(events: Seq<EventView>, i: int, j: int) -> bool {
    forall|k: int| i <= k < j ==> (#[trigger] events[k]).event == EventKind::Trap
}

/// Whether `i` and `j` bound a run of trap events that cannot be extended.
pub open spec fn trap_run(events: Seq<EventView>, i: int, j: int) -> bool {
    &&& 0 <= i < j <= events.len()
    &&& traps_between(events, i, j)
    &&& i > 0 ==> events[i - 1].event != EventKind::Trap
    &&& j < events.len() ==> events[j].event != EventKind::Trap
}

/// Ordering trap events neither drops nor adds an event.
pub proof fn law_trap_order_keeps_events(events: Seq<EventView>)
    ensures
        trap_ordered(events).to_multiset() == events.to_multiset(),
        by_key(ordered(events).1),
    decreases events.len(),
{
    broadcast use vstd::seq_lib::group_to_multiset_ensures;

    if events.len() == 0 {
        assert(trap_ordered(events) =~= events);
    } else {
        let init = events.drop_last();
        let e = events.last();
        let (out, run) = ordered(init);
        law_trap_order_keeps_events(init);
        assert(events =~= init.push(e));
        vstd::seq_lib::lemma_multiset_commutative(out, run);
        if e.event == EventKind::Trap {
            lemma_in_order(run, e);
            vstd::seq_lib::lemma_multiset_commutative(out, in_order(run, e));
            assert(trap_ordered(events).to_multiset() =~= trap_ordered(init).to_multiset().insert(
                e,
            ));
        } else {
            assert(trap_ordered(events) =~= trap_ordered(init).push(e));
        }
    }
}

proof fn lemma_in_order_traps(run: Seq<EventView>, e: EventView)
    requires
        traps_between(run, 0, run.len() as int),
        e.event == EventKind::Trap,
    ensures
        in_order(run, e).len() == run.len() + 1,
        traps_between(in_order(run, e), 0, run.len() as int + 1),
    decreases run.len(),
{
    if run.len() > 0 && trap_key(run.last()) > trap_key(e) {
        let init = run.drop_last();
        assert(run.last() == run[run.len() - 1]);
        assert forall|k: int| 0 <= k < init.len() implies (#[trigger] init[k]).event
            == EventKind::Trap by {
            assert(init[k] == run[k]);
        }
        lemma_in_order_traps(init, e);
    }
}

/// Where the events of a list come out: those that are no trap events stay in
/// place, and behind the last of them come the trap events at the end.
proof fn lemma_places(events: Seq<EventView>)
    ensures
        ({
            let (out, run) = ordered(events);
            let n = out.len();
            &&& n + run.len() == events.len()
            &&& traps_between(run, 0, run.len() as int)
            &&& traps_between(events, n as int, events.len() as int)
            &&& n > 0 ==> events[n - 1].event != EventKind::Trap
            &&& forall|k: int|
                0 <= k < n ==> ((#[trigger] out[k]).event == EventKind::Trap) == (events[k].event
                    == EventKind::Trap)
            &&& forall|k: int|
                0 <= k < n && events[k].event != EventKind::Trap ==> #[trigger] out[k] == events[k]
        }),
    decreases events.len(),
{
    if events.len() > 0 {
        let init = events.drop_last();
        lemma_places(init);
        let (out, run) = ordered(init);
        let e = events.last();
        assert forall|k: int| 0 <= k < init.len() implies #[trigger] init[k] == events[k] by {}
        if e.event == EventKind::Trap {
            lemma_in_order_traps(run, e);
            assert forall|k: int| out.len() <= k < events.len() implies (#[trigger] events[k]).event
                == EventKind::Trap by {
                if k < init.len() {
                    assert(init[k] == events[k]);
                }
            }
            assert forall|k: int| 0 <= k < out.len() implies ((#[trigger] out[k]).event
                == EventKind::Trap) == (events[k].event == EventKind::Trap) && (events[k].event
                != EventKind::Trap ==> out[k] == events[k]) by {
                assert(init[k] == events[k]);
            }
            if out.len() > 0 {
                assert(init[out.len() - 1] == events[out.len() - 1]);
            }
        } else {
            let both = (out + run).push(e);
            assert forall|k: int| 0 <= k < both.len() implies ((#[trigger] both[k]).event
                == EventKind::Trap) == (events[k].event == EventKind::Trap) && (events[k].event
                != EventKind::Trap ==> both[k] == events[k]) by {
                if k < out.len() {
                    assert(both[k] == out[k]);
                    assert(init[k] == events[k]);
                } else if k < init.len() {
                    assert(both[k] == run[k - out.len()]);
                    assert(init[k] == events[k]);
                }
            }
        }
    }
}

/// Every run of trap events comes out at its place, as the same events by
/// ascending context; all other events stay where they are.
pub proof fn law_trap_order(events: Seq<EventView>, i: int, j: int)
    ensures
        trap_ordered(events).len() == events.len(),
        forall|k: int|
            0 <= k < events.len() && events[k].event != EventKind::Trap
                ==> #[trigger] trap_ordered(events)[k] == events[k],
        trap_run(events, i, j) ==> {
            let run = trap_ordered(events).subrange(i, j);
            &&& by_key(run)
            &&& run.to_multiset() == events.subrange(i, j).to_multiset()
        },
    decreases events.len(),
{
    broadcast use vstd::seq_lib::group_to_multiset_ensures;

    lemma_places(events);
    let all = trap_ordered(events);
    let n = ordered(events).0.len();
    assert forall|k: int| 0 <= k < events.len() && events[k].event != EventKind::Trap implies
        #[trigger] all[k] == events[k] by {
        assert(k < n);
        assert(all[k] == ordered(events).0[k]);
    }
    if trap_run(events, i, j) {
        let init = events.drop_last();
        let e = events.last();
        lemma_places(init);
        law_trap_order(init, i, j);
        assert(events =~= init.push(e));
        assert forall|k: int| 0 <= k < init.len() implies #[trigger] init[k] == events[k] by {}
        let (out, run) = ordered(init);
        if e.event != EventKind::Trap {
            assert(j <= init.len()) by {
                if j == events.len() {
                    assert(events[j - 1].event == EventKind::Trap);
                }
            }
            assert(trap_run(init, i, j));
            assert(all =~= trap_ordered(init).push(e));
            assert(all.subrange(i, j) =~= trap_ordered(init).subrange(i, j));
            assert(events.subrange(i, j) =~= init.subrange(i, j));
        } else if j < events.len() {
            assert(j < init.len());
            assert(trap_run(init, i, j));
            assert(j < out.len()) by {
                if j >= out.len() {
                    assert(init[j].event == EventKind::Trap);
                }
            }
            assert(all.subrange(i, j) =~= trap_ordered(init).subrange(i, j));
            assert(events.subrange(i, j) =~= init.subrange(i, j));
        } else {
            assert(i == out.len()) by {
                if i < out.len() {
                    assert(events[out.len() - 1] == init[out.len() - 1]);
                    assert(events[out.len() - 1].event == EventKind::Trap);
                } else if i > out.len() {
                    assert(events[i - 1] == init[i - 1]);
                    assert(init[i - 1].event == EventKind::Trap);
                }
            }
            law_trap_order_keeps_events(init);
            lemma_in_order(run, e);
            assert(all.subrange(i, j) =~= in_order(run, e));
            if run.len() > 0 {
                assert(trap_run(init, i, init.len() as int));
                law_trap_order(init, i, init.len() as int);
                assert(trap_ordered(init).subrange(i, init.len() as int) =~= run);
            } else {
                assert(init.subrange(i, init.len() as int) =~= run);
            }
            assert(events.subrange(i, j) =~= init.subrange(i, init.len() as int).push(e));
        }
    }
}

/// Two runs that differ only in process ids are the same after
/// `normalize.pid`, and two that differ only in which descriptor numbers they
/// name are the same after `normalize.fd`.
pub proof fn law_normalizers_forget(a: EventView, b: EventView)
    ensures
        a == (EventView { pid: a.pid, ..b }) ==> without_pid(a) == without_pid(b),
        a == (EventView { fd: a.fd, ..b }) && a.fd is Some && b.fd is Some ==> without_fd(a)
            == without_fd(b),
{
}

/// Whether one of the normalizers has this name.
pub open spec fn names(ids: Seq<Seq<char>>, id: Seq<char>) -> bool {
    ids.contains(id)
}

/// Whether a name is that of a normalizer.
pub open spec fn known(id: Seq<char>) -> bool {
    id == "normalize.pid"@ || id == "normalize.fd"@ || id == "normalize.timestamp"@ || id
        == "normalize.token"@ || id == "normalize.trap_order"@
}

/// The event with its process id and its descriptor number forgotten or not;
/// that there is a descriptor is never forgotten.
pub open spec fn forgetting(pid: bool, fd: bool, e: EventView) -> EventView {
    EventView {
        pid: if pid {
            None
        } else {
            e.pid
        },
        fd: if fd && e.fd is Some {
            Some(-1i32)
        } else {
            e.fd
        },
        ..e
    }
}

/// The events with the process ids and the descriptor numbers forgotten or not.
pub open spec fn all_forgetting(pid: bool, fd: bool, events: Seq<EventView>) -> Seq<EventView> {
    events.map_values(|e: EventView| forgetting(pid, fd, e))
}

/// Whether a function of events keeps what trap events are told apart and
/// ordered by.
pub open spec fn keeps_order(f: spec_fn(EventView) -> EventView) -> bool {
    forall|e: EventView|
        (#[trigger] f(e)).event == e.event && f(e).trigger_context == e.trigger_context
}

proof fn lemma_literals()
    ensures
        "normalize.pid"@ != "normalize.fd"@,
        "normalize.pid"@ != "normalize.timestamp"@,
        "normalize.pid"@ != "normalize.token"@,
        "normalize.pid"@ != "normalize.trap_order"@,
        "normalize.fd"@ != "normalize.timestamp"@,
        "normalize.fd"@ != "normalize.token"@,
        "normalize.fd"@ != "normalize.trap_order"@,
        "normalize.trap_order"@ != "normalize.timestamp"@,
        "normalize.trap_order"@ != "normalize.token"@,
{
    reveal_strlit("normalize.pid");
    reveal_strlit("normalize.fd");
    reveal_strlit("normalize.timestamp");
    reveal_strlit("normalize.token");
    reveal_strlit("normalize.trap_order");
    assert("normalize.pid"@.len() == 13);
    assert("normalize.fd"@.len() == 12);
    assert("normalize.timestamp"@.len() == 19);
    assert("normalize.token"@.len() == 15);
    assert("normalize.trap_order"@.len() == 20);
}

proof fn lemma_in_order_mapped(
    run: Seq<EventView>,
    e: EventView,
    f: spec_fn(EventView) -> EventView,
)
    requires
        keeps_order(f),
    ensures
        in_order(run.map_values(f), f(e)) == in_order(run, e).map_values(f),
    decreases run.len(),
{
    let mapped = run.map_values(f);
    if run.len() == 0 || trap_key(run.last()) <= trap_key(e) {
        assert(mapped.len() > 0 ==> mapped.last() == f(run.last()));
        assert(mapped.push(f(e)) =~= run.push(e).map_values(f));
    } else {
        let init = run.drop_last();
        lemma_in_order_mapped(init, e, f);
        assert(mapped.drop_last() =~= init.map_values(f));
        assert(mapped.last() == f(run.last()));
        assert(in_order(run, e).map_values(f) =~= in_order(init, e).map_values(f).push(
            f(run.last()),
        ));
    }
}

proof fn lemma_ordered_mapped(events: Seq<EventView>, f: spec_fn(EventView) -> EventView)
    requires
        keeps_order(f),
    ensures
        ordered(events.map_values(f)).0 == ordered(events).0.map_values(f),
        ordered(events.map_values(f)).1 == ordered(events).1.map_values(f),
        trap_ordered(events.map_values(f)) == trap_ordered(events).map_values(f),
    decreases events.len(),
{
    let mapped = events.map_values(f);
    if events.len() == 0 {
        assert(mapped =~= events);
        assert(ordered(events).0.map_values(f) =~= Seq::empty());
        assert(ordered(events).1.map_values(f) =~= Seq::empty());
    } else {
        let init = events.drop_last();
        let e = events.last();
        let (out, run) = ordered(init);
        lemma_ordered_mapped(init, f);
        assert(mapped.drop_last() =~= init.map_values(f));
        assert(mapped.last() == f(e));
        if e.event == EventKind::Trap {
            lemma_in_order_mapped(run, e, f);
        } else {
            assert((out + run).push(e).map_values(f) =~= (out.map_values(f) + run.map_values(
                f,
            )).push(f(e)));
            assert(Seq::<EventView>::empty().map_values(f) =~= Seq::empty());
        }
    }
    assert(trap_ordered(events).map_values(f) =~= ordered(events).0.map_values(f) + ordered(
        events,
    ).1.map_values(f));
}

/// A normalizer that is not known is refused, and only such a one.
pub proof fn law_unknown_normalizer_is_refused(ids: Seq<Seq<char>>, events: Seq<EventView>)
    ensures
        (normalized(ids, events) is Ok) == forall|i: int|
            0 <= i < ids.len() ==> known(#[trigger] ids[i]),
    decreases ids.len(),
{
    if ids.len() > 0 {
        let rest = ids.drop_first();
        match normalized_by(ids[0], events) {
            Some(next) => {
                law_unknown_normalizer_is_refused(rest, next);
                if forall|i: int| 0 <= i < rest.len() ==> known(#[trigger] rest[i]) {
                    assert forall|i: int| 0 <= i < ids.len() implies known(#[trigger] ids[i]) by {
                        if i > 0 {
                            assert(rest[i - 1] == ids[i]);
                        }
                    }
                }
                if forall|i: int| 0 <= i < ids.len() ==> known(#[trigger] ids[i]) {
                    assert forall|i: int| 0 <= i < rest.len() implies known(
                        #[trigger] rest[i],
                    ) by {
                        assert(rest[i] == ids[i + 1]);
                    }
                }
            },
            None => {
                assert(!known(ids[0]));
            },
        }
    }
}

proof fn lemma_named_in_rest(ids: Seq<Seq<char>>, id: Seq<char>)
    requires
        ids.len() > 0,
    ensures
        names(ids, id) == (ids[0] == id || names(ids.drop_first(), id)),
{
    let rest = ids.drop_first();
    if names(rest, id) {
        let i = choose|i: int| 0 <= i < rest.len() && rest[i] == id;
        assert(ids[i + 1] == id);
    }
    if names(ids, id) && ids[0] != id {
        let i = choose|i: int| 0 <= i < ids.len() && ids[i] == id;
        assert(rest[i - 1] == id);
    }
    if ids[0] == id {
        assert(ids.contains(id));
    }
}

/// What normalizers do to events, whatever their order: `normalize.pid` forgets
/// the process ids and `normalize.fd` the descriptor numbers, and only
/// `normalize.trap_order` moves events, and only trap events. Nothing else of an
/// event is changed, and none is dropped or added.
pub proof fn law_normalizers_change_nothing_else(ids: Seq<Seq<char>>, events: Seq<EventView>)
    requires
        normalized(ids, events) is Ok,
    ensures
        ({
            let n = normalized(ids, events)->Ok_0;
            let kept = all_forgetting(
                names(ids, "normalize.pid"@),
                names(ids, "normalize.fd"@),
                events,
            );
            &&& n.len() == events.len()
            &&& !names(ids, "normalize.trap_order"@) ==> n == kept
            &&& n.to_multiset() == kept.to_multiset()
            &&& forall|k: int|
                0 <= k < n.len() ==> ((#[trigger] n[k]).event == EventKind::Trap) == (
                events[k].event == EventKind::Trap)
            &&& forall|k: int|
                0 <= k < n.len() && events[k].event != EventKind::Trap ==> #[trigger] n[k]
                    == kept[k]
        }),
    decreases ids.len(),
{
    let same = |e: EventView| e;
    lemma_normalizers(ids, events, same);
    let n = normalized(ids, events)->Ok_0;
    let kept = all_forgetting(names(ids, "normalize.pid"@), names(ids, "normalize.fd"@), events);
    assert(n.map_values(same) =~= n);
    assert(kept.map_values(same) =~= kept);
}

pub(crate) proof fn lemma_normalizers(
    ids: Seq<Seq<char>>,
    events: Seq<EventView>,
    f: spec_fn(EventView) -> EventView,
)
    requires
        normalized(ids, events) is Ok,
        keeps_order(f),
    ensures
        ({
            let n = normalized(ids, events)->Ok_0;
            let kept = all_forgetting(
                names(ids, "normalize.pid"@),
                names(ids, "normalize.fd"@),
                events,
            );
            &&& n.len() == events.len()
            &&& !names(ids, "normalize.trap_order"@) ==> n == kept
            &&& n.map_values(f).to_multiset() == kept.map_values(f).to_multiset()
            &&& forall|k: int|
                0 <= k < n.len() ==> ((#[trigger] n[k]).event == EventKind::Trap) == (
                events[k].event == EventKind::Trap)
            &&& forall|k: int|
                0 <= k < n.len() && events[k].event != EventKind::Trap ==> #[trigger] n[k]
                    == kept[k]
        }),
    decreases ids.len(),
{
    lemma_literals();
    let pid = "normalize.pid"@;
    let fd = "normalize.fd"@;
    let order = "normalize.trap_order"@;
    if ids.len() == 0 {
        assert(all_forgetting(false, false, events) =~= events);
    } else {
        let id = ids[0];
        let rest = ids.drop_first();
        let next = normalized_by(id, events)->0;
        let kept = all_forgetting(names(ids, pid), names(ids, fd), events);
        let later = all_forgetting(names(rest, pid), names(rest, fd), next);
        lemma_named_in_rest(ids, pid);
        lemma_named_in_rest(ids, fd);
        lemma_named_in_rest(ids, order);
        lemma_normalizers(rest, next, f);
        if id == order {
            let g = |e: EventView| f(forgetting(names(rest, pid), names(rest, fd), e));
            lemma_ordered_mapped(events, g);
            law_trap_order_keeps_events(events.map_values(g));
            assert(later.map_values(f) =~= next.map_values(g));
            assert(kept.map_values(f) =~= events.map_values(g));
            law_trap_order(events, 0, 0);
            lemma_trap_places(events);
        } else {
            assert(later =~= kept);
        }
    }
}

/// Trap events take the places of trap events.
proof fn lemma_trap_places(events: Seq<EventView>)
    ensures
        trap_ordered(events).len() == events.len(),
        forall|k: int|
            0 <= k < events.len() ==> ((#[trigger] trap_ordered(events)[k]).event
                == EventKind::Trap) == (events[k].event == EventKind::Trap),
{
    lemma_places(events);
    let (out, run) = ordered(events);
    let all = trap_ordered(events);
    assert forall|k: int| 0 <= k < events.len() implies ((#[trigger] all[k]).event
        == EventKind::Trap) == (events[k].event == EventKind::Trap) by {
        if k < out.len() {
            assert(all[k] == out[k]);
        } else {
            assert(all[k] == run[k - out.len()]);
        }
    }
}

/// With `normalize.trap_order` among the normalizers, each run of trap events
/// comes out by ascending context.
pub proof fn law_trap_runs_are_ordered(ids: Seq<Seq<char>>, events: Seq<EventView>, i: int, j: int)
    requires
        normalized(ids, events) is Ok,
        names(ids, "normalize.trap_order"@),
        trap_run(events, i, j),
    ensures
        by_key(normalized(ids, events)->Ok_0.subrange(i, j)),
    decreases ids.len(),
{
    lemma_literals();
    let order = "normalize.trap_order"@;
    let rest = ids.drop_first();
    let next = normalized_by(ids[0], events)->0;
    let n = normalized(ids, events)->Ok_0;
    lemma_named_in_rest(ids, order);
    if ids[0] == order {
        lemma_trap_places(events);
    }
    assert(next.len() == events.len());
    assert(forall|k: int|
        0 <= k < events.len() ==> ((#[trigger] next[k]).event == EventKind::Trap) == (
        events[k].event == EventKind::Trap));
    assert(trap_run(next, i, j)) by {
        assert forall|k: int| i <= k < j implies (#[trigger] next[k]).event == EventKind::Trap by {
            assert(events[k].event == EventKind::Trap);
        }
    }
    if names(rest, order) {
        law_trap_runs_are_ordered(rest, next, i, j);
    } else {
        law_normalizers_change_nothing_else(rest, next);
        law_trap_order(events, i, j);
        assert forall|a: int, b: int| 0 <= a <= b < j - i implies trap_key(n.subrange(i, j)[a])
            <= trap_key(n.subrange(i, j)[b]) by {
            assert(trap_key(next.subrange(i, j)[a]) <= trap_key(next.subrange(i, j)[b]));
        }
    }
}

/// What is left of two events by `normalize.pid`, and by `normalize.fd`, is the
/// same only if the events were the same in all but that.
pub proof fn law_normalizers_keep_differences(a: EventView, b: EventView)
    ensures
        without_pid(a) == without_pid(b) ==> a == (EventView { pid: a.pid, ..b }),
        without_fd(a) == without_fd(b) ==> a == (EventView { fd: a.fd, ..b }) && a.fd is Some
            == b.fd is Some,
        without_pid(a).agrees(without_pid(b)) == a.agrees(b),
        a.agrees(b) ==> without_fd(a).agrees(without_fd(b)),
{
}

} // verus!
