//! How the two sides of a link agree on who may change it: at most one of them
//! has the lock, and a side that had to wait is woken.

use vstd::prelude::*;

#[allow(unused_imports)]
use crate::bytes::{
    bytes32, bytes64, le32, le64, lemma_le32_of_bytes, lemma_le64_of_bytes, lemma_overwrite_here,
};
#[allow(unused_imports)]
use crate::ipcz::handover::sends;
#[allow(unused_imports)]
use crate::ipcz::link_memory::{
    block_of, free_list, initial_link_state, law_block_contents_keep_free_list,
    law_freed_block_is_first, lock_attempt, refs_of, region_fits, resolve_at_least, status_of,
    stored, waiting_reset, with_status, LinkMemoryView,
};
#[allow(unused_imports)]
use crate::ipcz::messages::FragmentDescriptor;
#[allow(unused_imports)]
use crate::ipcz::node::{Fault, LinkMessageView, NodeView, TaskView, LINK_ID_BROKER};
#[allow(unused_imports)]
use crate::ipcz::router::Link;

verus! {

/// The status that both ends of a link share, where it is to be had.
pub open spec fn lock_state(s: NodeView, link: Link) -> Option<u32> {
    match link.link_state {
        Some(d) => match s.memory {
            Some(m) => if resolve_at_least(m, d, 8) is Ok {
                Some(le32(m.buffers[d.buffer_id], d.offset + 4))
            } else {
                None
            },
            None => None,
        },
        None => match link.local_state {
            Some(i) => if i < s.local_states.len() {
                Some(s.local_states[i as int].status)
            } else {
                None
            },
            None => None,
        },
    }
}

/// Whether two links are the two ends of the same one.
pub open spec fn same_link(a: Link, b: Link) -> bool {
    a.link_state == b.link_state && a.local_state == b.local_state
}

proof fn lemma_status_stored(m: LinkMemoryView, d: FragmentDescriptor, x: u32)
    requires
        resolve_at_least(m, d, 8) is Ok,
    ensures
        status_of(with_status(m, d, x), d) == x,
        resolve_at_least(with_status(m, d, x), d, 8) is Ok,
        forall|n: int| #[trigger]
            resolve_at_least(with_status(m, d, x), d, n) is Ok == resolve_at_least(m, d, n) is Ok,
{
    let b = m.buffers[d.buffer_id];
    let o = d.offset + 4;
    lemma_overwrite_here(b, o, bytes32(x));
    lemma_le32_of_bytes(with_status(m, d, x).buffers[d.buffer_id], o, x);
}

proof fn lemma_source_stored(m: LinkMemoryView, d: FragmentDescriptor, x: u64)
    requires
        resolve_at_least(m, d, 16) is Ok,
    ensures
        ({
            let n = stored(m, d, 8, bytes64(x));
            &&& le64(n.buffers[d.buffer_id], d.offset + 8) == x
            &&& status_of(n, d) == status_of(m, d)
            &&& resolve_at_least(n, d, 8) is Ok
        }),
{
    let b = m.buffers[d.buffer_id];
    let o = d.offset + 8;
    let n = stored(m, d, 8, bytes64(x));
    lemma_overwrite_here(b, o, bytes64(x));
    lemma_le64_of_bytes(n.buffers[d.buffer_id], o, x);
}

/// A side gets the lock on a link if and only if both sides are stable and
/// neither has it. Then the other side does not get it, until it is given back;
/// the status is then as it was. A stable side that does not get it because the
/// other is not stable is written down as waiting.
pub proof fn law_lock_is_had_by_one_side(s: NodeView, link: Link, other: Link)
    requires
        lock_state(s, link) is Some,
        same_link(link, other),
    ensures
        ({
            let st = lock_state(s, link)->0;
            let (t, r) = s.lock_tried(link);
            &&& r == Ok::<bool, Fault>(st & 3 == 3 && st & 48 == 0)
            &&& lock_state(t, link) is Some
            &&& t.routers == s.routers
            &&& t.outbox == s.outbox
            &&& t.tasks == s.tasks
            &&& r == Ok::<bool, Fault>(true) ==> {
                let (u, x) = t.unlocked(link);
                &&& lock_state(t, link)->0 == st | if link.side is A {
                    16u32
                } else {
                    32u32
                }
                &&& t.lock_tried(other).1 == Ok::<bool, Fault>(false)
                &&& x is Ok
                &&& lock_state(u, link) == Some(st)
                &&& u.routers == s.routers
            }
            &&& r == Ok::<bool, Fault>(false) ==> lock_state(t, link)->0 == if st & 48 == 0 && st
                & 3 == (if link.side is A {
                1u32
            } else {
                2u32
            }) {
                st | if link.side is A {
                    4u32
                } else {
                    8u32
                }
            } else {
                st
            }
        }),
{
    let st = lock_state(s, link)->0;
    let a = link.side is A;
    let (t, r) = s.lock_tried(link);
    let (x, locked) = lock_attempt(st, a);
    if link.link_state is Some {
        lemma_status_stored(s.memory->0, link.link_state->0, x);
    }
    crate::ipcz::link_memory::law_lock_needs_stability(st, a);
    assert(st & 3 == 1 <==> st & 1 != 0 && st & 2 == 0) by (bit_vector);
    assert(st & 3 == 2 <==> st & 2 != 0 && st & 1 == 0) by (bit_vector);
    if locked {
        crate::ipcz::link_memory::law_lock_excludes(st, a, other.side is A);
        crate::ipcz::link_memory::law_unlock_undoes_lock(st, a);
        assert(lock_state(t, link) == Some(x));
        if link.link_state is Some {
            lemma_status_stored(t.memory->0, link.link_state->0, st);
        }
    }
}

/// With the lock for a bypass, the node that may ask for it is written down.
pub proof fn law_bypass_lock_names_source(s: NodeView, link: Link, source: u64)
    requires
        lock_state(s, link) is Some,
        link.link_state matches Some(d) ==> resolve_at_least(s.memory->0, d, 16) is Ok,
    ensures
        ({
            let st = lock_state(s, link)->0;
            let (t, r) = s.bypass_lock_tried(link, source);
            &&& r == Ok::<bool, Fault>(st & 3 == 3 && st & 48 == 0)
            &&& r == Ok::<bool, Fault>(true) ==> {
                &&& lock_state(t, link) == Some(
                    st | if link.side is A {
                        16u32
                    } else {
                        32u32
                    },
                )
                &&& link.link_state matches Some(d) ==> t.memory is Some && le64(
                    t.memory->0.buffers[d.buffer_id],
                    d.offset + 8,
                ) == source
                &&& link.link_state is None ==> {
                    let shared = t.local_states[link.local_state->0 as int];
                    shared.allowed_bypass_source == source
                }
            }
            &&& t.routers == s.routers
            &&& t.outbox == s.outbox
        }),
{
    law_lock_is_had_by_one_side(s, link, link);
    let st = lock_state(s, link)->0;
    let (t, r) = s.lock_tried(link);
    if r == Ok::<bool, Fault>(true) && link.link_state is Some {
        lemma_status_stored(
            s.memory->0,
            link.link_state->0,
            lock_attempt(st, link.side is A).0,
        );
        lemma_source_stored(t.memory->0, link.link_state->0, source);
    }
}

/// Marking a side stable sets its bit and no other.
pub proof fn law_side_is_marked_stable(s: NodeView, link: Link)
    requires
        lock_state(s, link) is Some,
    ensures
        ({
            let (t, r) = s.marked_stable(link);
            &&& r is Ok
            &&& lock_state(t, link) == Some(
                lock_state(s, link)->0 | if link.side is A {
                    1u32
                } else {
                    2u32
                },
            )
            &&& t.routers == s.routers
            &&& t.outbox == s.outbox
            &&& t.tasks == s.tasks
        }),
{
    if link.link_state is Some {
        lemma_status_stored(
            s.memory->0,
            link.link_state->0,
            lock_state(s, link)->0 | if link.side is A {
                1u32
            } else {
                2u32
            },
        );
    }
}

/// The other side of a link is told to go on if and only if it waits for it and
/// the link is stable and not locked; it then waits no longer. Over a local link
/// the peer is flushed, over another one it is sent `FlushRouter`.
pub proof fn law_waiting_side_is_woken(s: NodeView, link: Link)
    requires
        lock_state(s, link) is Some,
        link.link_state is None ==> link.local_peer is Some,
    ensures
        ({
            let st = lock_state(s, link)->0;
            let bit = if link.side is A {
                8u32
            } else {
                4u32
            };
            let waits = st & 3 == 3 && st & 48 == 0 && st & bit != 0;
            let (t, r) = s.other_side_woken(link);
            &&& r is Ok
            &&& t.routers == s.routers
            &&& !waits ==> t.outbox == s.outbox && t.tasks == s.tasks && lock_state(t, link)
                == Some(st)
            &&& waits && link.link_state is Some ==> sends(
                s,
                t,
                LINK_ID_BROKER,
                LinkMessageView::FlushRouter(link.sublink),
            ) && t.tasks == s.tasks
            &&& waits && link.link_state is None ==> t.outbox == s.outbox && t.tasks
                == s.tasks.push(TaskView::Flush(link.local_peer->0, true))
            &&& waits ==> lock_state(t, link) == Some(st & !bit)
            &&& t.other_side_woken(link).0.outbox == t.outbox
            &&& t.other_side_woken(link).0.tasks == t.tasks
        }),
{
    let st = lock_state(s, link)->0;
    let other = !(link.side is A);
    let (x, reset) = waiting_reset(st, other);
    let t = s.other_side_woken(link).0;
    assert((st & !8u32) & 8 == 0 && (st & !4u32) & 4 == 0) by (bit_vector);
    if link.link_state is Some {
        lemma_status_stored(s.memory->0, link.link_state->0, x);
        let y = waiting_reset(x, other).0;
        lemma_status_stored(t.memory->0, link.link_state->0, y);
        if reset {
            assert(t.outbox.drop_last() =~= s.outbox);
        }
    }
}

/// A link state is shared by two routers: the one that lets go of it first
/// leaves it to the other, and the last one gives its block back, which is then
/// the next to be taken.
pub proof fn law_link_state_is_given_back(
    s: NodeView,
    link: Link,
    d: FragmentDescriptor,
    m: LinkMemoryView,
    list: Seq<int>,
)
    requires
        link.link_state == Some(d),
        !initial_link_state(d),
        s.memory_of(link.link_id) == Ok::<LinkMemoryView, Fault>(m),
        resolve_at_least(m, d, 4) is Ok,
        refs_of(m, d) >= 1,
    ensures
        ({
            let (t, r) = s.state_released(link);
            let n = t.memory_of(link.link_id)->Ok_0;
            &&& t.routers == s.routers
            &&& t.outbox == s.outbox
            &&& t.memory_of(link.link_id) is Ok
            &&& refs_of(m, d) > 1 ==> r is Ok && refs_of(n, d) == refs_of(m, d) - 1
            &&& refs_of(m, d) == 1 ==> (r is Ok == block_of(m, d, 0) is Some)
            &&& refs_of(m, d) == 1 ==> (block_of(m, d, 0) matches Some((region, i)) ==> region_fits(
                m,
                region,
            ) && free_list(m.buffers[region.buffer_id], region, list) && !list.contains(i)
                ==> free_list(n.buffers[region.buffer_id], region, seq![i] + list))
        }),
{
    let refs = refs_of(m, d);
    let low = bytes32((refs - 1) as u32);
    let n = stored(m, d, 0, low);
    let b = m.buffers[d.buffer_id];
    lemma_overwrite_here(b, d.offset as int, low);
    lemma_le32_of_bytes(n.buffers[d.buffer_id], d.offset as int, (refs - 1) as u32);
    lemma_same_block(m, n, d, 0);
    if refs == 1 {
        match block_of(m, d, 0) {
            Some((region, i)) => {
                if region_fits(m, region) && free_list(m.buffers[region.buffer_id], region, list)
                    && !list.contains(i) {
                    lemma_block_place(m, d, 0);
                    assert forall|k: int| 0 <= k < list.len() implies #[trigger] list[k] != i by {
                        if list[k] == i {
                            assert(list.contains(i));
                        }
                    }
                    law_block_contents_keep_free_list(m, region, list, i, 0, low);
                    law_freed_block_is_first(n, region, list, i);
                }
            },
            None => {},
        }
    }
}

proof fn lemma_same_block(m: LinkMemoryView, n: LinkMemoryView, d: FragmentDescriptor, k: int)
    requires
        m.regions == n.regions,
    ensures
        block_of(m, d, k) == block_of(n, d, k),
    decreases m.regions.len() - k,
{
    if 0 <= k < m.regions.len() {
        lemma_same_block(m, n, d, k + 1);
    }
}

proof fn lemma_block_place(m: LinkMemoryView, d: FragmentDescriptor, k: int)
    ensures
        block_of(m, d, k) matches Some((r, i)) ==> 0 < i < r.num_blocks && d.buffer_id
            == r.buffer_id && d.offset == r.offset + 64 * i,
    decreases m.regions.len() - k,
{
    if 0 <= k < m.regions.len() {
        lemma_block_place(m, d, k + 1);
    }
}

/// A bridge is collapsed only with the lock on both of its outward links.
/// Where either cannot be had, no router changes and no lock is left behind.
pub proof fn law_bridge_needs_both_locks(
    s: NodeView,
    rid: u64,
    second: u64,
    lf: Link,
    ls: Link,
)
    requires
        s.bridge_peer_of(rid) == Some(second),
        s.outward_of(rid) == Some(lf),
        s.outward_of(second) == Some(ls),
        lf.link_state is None && ls.link_state is None,
        lock_state(s, lf) is Some && lock_state(s, ls) is Some,
        lf.local_state != ls.local_state,
    ensures
        ({
            let (t, r) = s.bridge_bypass(rid);
            let f = lock_state(s, lf)->0;
            let g = lock_state(s, ls)->0;
            let free = f & 3 == 3 && f & 48 == 0 && g & 3 == 3 && g & 48 == 0;
            &&& !free ==> {
                &&& r is Ok
                &&& t.routers == s.routers
                &&& t.outbox == s.outbox
                &&& lock_state(t, lf)->0 & 48 == f & 48
                &&& lock_state(t, ls)->0 & 48 == g & 48
            }
            &&& free ==> exists|u: NodeView| #[trigger] u.routers == s.routers && u.outbox
                == s.outbox && lock_state(u, lf)->0 & 48 != 0 && lock_state(u, ls)->0 & 48 != 0 && (
            t,
            r,
            ) == u.bridge_bypassed(rid, second, lf, ls)
        }),
{
    let f = lock_state(s, lf)->0;
    let g = lock_state(s, ls)->0;
    law_bypass_lock_names_source(s, lf, s.source_of(ls));
    law_lock_is_had_by_one_side(s, lf, lf);
    let (s1, r1) = s.bypass_lock_tried(lf, s.source_of(ls));
    assert(lock_state(s1, ls) == Some(g));
    law_bypass_lock_names_source(s1, ls, s.source_of(lf));
    law_lock_is_had_by_one_side(s1, ls, ls);
    let (s2, r2) = s1.bypass_lock_tried(ls, s.source_of(lf));
    assert((f | 4) & 48 == f & 48 && (f | 8) & 48 == f & 48) by (bit_vector);
    assert((g | 4) & 48 == g & 48 && (g | 8) & 48 == g & 48) by (bit_vector);
    assert((f | 16) & 48 != 0 && (f | 32) & 48 != 0) by (bit_vector);
    assert((g | 16) & 48 != 0 && (g | 32) & 48 != 0) by (bit_vector);
    assert(f & 48 == 0 ==> (f | 16) & !16u32 == f && (f | 32) & !32u32 == f) by (bit_vector);
    if r1 == Ok::<bool, Fault>(true) {
        assert(lock_state(s2, lf) == lock_state(s1, lf));
        if r2 == Ok::<bool, Fault>(true) {
            assert(s2.routers == s.routers);
        } else {
            let t = s2.unlocked(lf).0;
            assert(lock_state(t, ls) == lock_state(s2, ls));
        }
    }
}

} // verus!
