//! The handle table: handle identity, ownership, and stale-handle protection.
//!
//! Handle values are opaque `u32`s; the table packs a slot index and a
//! generation counter into each value so that a stale handle cannot alias a
//! newly created object at the same slot. Every live handle has exactly one
//! logical owner; transfer moves the [`Handle`].

use vstd::prelude::*;

use crate::runtime::dispatcher::{Dispatcher, DispatcherRef};
use crate::runtime::error::CoreError;

verus! {

/// Maximum number of live slots.
pub const MAX_SLOTS: usize = 1048576;

/// How many slot indices a handle value can tell apart.
pub const SLOT_RANGE: u32 = 1048576;

/// The last generation that fits a handle value; generation 0 is that of the
/// invalid handle.
pub const LAST_GENERATION: u32 = 4095;

/// A slot index into the handle table.
#[derive(Debug, Clone, Copy, PartialEq, Eq, Hash, Structural)]
pub struct Slot(pub u32);

impl Slot {
    /// The raw slot index.
    pub fn raw(self) -> (r: u32)
        ensures
            r == self.0,
    {
        self.0
    }
}

/// A handle value as callers see it: an opaque `u32`.
pub type MojoHandleValue = u32;

/// A handle into the table. Whoever holds it owns it; it ends in
/// [`HandleTable::close`].
#[derive(Debug, PartialEq, Eq)]
pub struct Handle {
    /// The opaque handle value.
    pub value: MojoHandleValue,
    /// The slot that the handle refers to.
    pub slot: Slot,
}

/// A live entry of the table.
#[derive(Debug, Clone, Copy, PartialEq, Eq, Structural)]
pub struct Entry {
    /// The object behind the handle.
    pub dispatcher: DispatcherRef,
    /// The generation this entry was created with; a handle value is valid
    /// only if its generation matches.
    pub generation: u32,
}

/// The single registry of live dispatchers.
#[derive(Debug)]
pub struct HandleTable {
    /// The live entry of each slot.
    pub entries: Vec<Option<Entry>>,
    /// The persistent generation counter of each slot (never reset, so that
    /// stale handle values do not alias a reused slot).
    pub generations: Vec<u32>,
    /// Free slots, the one to be used next last.
    pub free: Vec<u32>,
}

/// What a handle table holds.
#[verifier::ext_equal]
pub struct TableView {
    /// The live entry of each slot.
    pub entries: Seq<Option<Entry>>,
    /// The generation counter of each slot.
    pub generations: Seq<u32>,
    /// Free slots, the one to be used next last.
    pub free: Seq<u32>,
}

impl View for HandleTable {
    type V = TableView;

    open spec fn view(&self) -> TableView {
        TableView {
            entries: self.entries@,
            generations: self.generations@,
            free: self.free@,
        }
    }
}

/// The handle value of a slot and a generation: the generation in the upper
/// twelve bits and the slot in the lower twenty.
pub open spec fn handle_value(slot: u32, generation: u32) -> int {
    generation * SLOT_RANGE + slot
}

/// The number of live entries.
pub open spec fn live(entries: Seq<Option<Entry>>) -> nat
    decreases entries.len(),
{
    if entries.len() == 0 {
        0
    } else {
        live(entries.drop_last()) + if entries.last() is Some {
            1nat
        } else {
            0nat
        }
    }
}

impl TableView {
    /// Every slot has its generation counter, from 1 to the last that fits a
    /// handle value; a live entry has the generation of its slot; the free list
    /// names each slot without an entry once and no other, but for the slots
    /// that have used up their generations.
    pub open spec fn wf(self) -> bool {
        &&& self.entries.len() == self.generations.len()
        &&& self.entries.len() <= MAX_SLOTS
        &&& forall|i: int|
            0 <= i < self.generations.len() ==> 1 <= (#[trigger] self.generations[i])
                <= LAST_GENERATION
        &&& forall|i: int|
            0 <= i < self.entries.len() ==> (#[trigger] self.entries[i] matches Some(e) ==> {
                e.generation == self.generations[i]
            })
        &&& forall|i: int|
            0 <= i < self.free.len() ==> (#[trigger] self.free[i]) < self.entries.len()
                && self.entries[self.free[i] as int] is None
                && self.generations[self.free[i] as int] < LAST_GENERATION
        &&& self.free.no_duplicates()
        &&& forall|i: int|
            0 <= i < self.entries.len() && #[trigger] self.entries[i] is None
                && self.generations[i] < LAST_GENERATION ==> self.free.contains(i as u32)
    }

    /// Whether a slot is left to allocate.
    pub open spec fn has_room(self) -> bool {
        self.free.len() > 0 || self.entries.len() < MAX_SLOTS
    }

    /// The slot that the next handle takes: the one freed last, or a new one.
    pub open spec fn next_slot(self) -> u32 {
        if self.free.len() > 0 {
            self.free.last()
        } else {
            self.entries.len() as u32
        }
    }

    /// The generation that the next handle gets.
    pub open spec fn next_slot_generation(self) -> u32 {
        if self.free.len() > 0 {
            (self.generations[self.free.last() as int] + 1) as u32
        } else {
            1
        }
    }

    /// The table with one more live entry.
    pub open spec fn added(self, d: DispatcherRef) -> TableView {
        let slot = self.next_slot() as int;
        let generation = self.next_slot_generation();
        let entry = Some(Entry { dispatcher: d, generation });
        if self.free.len() > 0 {
            TableView {
                entries: self.entries.update(slot, entry),
                generations: self.generations.update(slot, generation),
                free: self.free.drop_last(),
            }
        } else {
            TableView {
                entries: self.entries.push(entry),
                generations: self.generations.push(generation),
                free: self.free,
            }
        }
    }

    /// The handle of the next entry.
    pub open spec fn next_handle(self) -> Handle {
        Handle {
            value: handle_value(self.next_slot(), self.next_slot_generation()) as u32,
            slot: Slot(self.next_slot()),
        }
    }

    /// The live entry that a slot has for the generation in `value`.
    pub open spec fn entry_for(self, slot: int, value: u32) -> Option<Entry> {
        if 0 <= slot < self.entries.len() {
            match self.entries[slot] {
                Some(e) => if e.generation == value / SLOT_RANGE {
                    Some(e)
                } else {
                    None
                },
                None => None,
            }
        } else {
            None
        }
    }

    /// What a handle value resolves to.
    pub open spec fn resolved(self, value: u32) -> Option<DispatcherRef> {
        if value == 0 {
            None
        } else {
            match self.entry_for((value % SLOT_RANGE) as int, value) {
                Some(e) => Some(e.dispatcher),
                None => None,
            }
        }
    }

    /// The table after the handle with this slot and value is closed; a stale
    /// handle changes nothing. A slot whose generations are used up is not
    /// used again.
    pub open spec fn closed(self, slot: u32, value: u32) -> TableView {
        if self.entry_for(slot as int, value) is Some {
            TableView {
                entries: self.entries.update(slot as int, None),
                free: if self.generations[slot as int] < LAST_GENERATION {
                    self.free.push(slot)
                } else {
                    self.free
                },
                ..self
            }
        } else {
            self
        }
    }

    /// Whether the value is one that its slot has left behind for good: the
    /// slot's generation counter has reached it, and no live entry has it.
    pub open spec fn stale(self, value: u32) -> bool {
        let slot = (value % SLOT_RANGE) as int;
        &&& slot < self.entries.len()
        &&& self.generations[slot] >= value / SLOT_RANGE
        &&& self.entries[slot] matches Some(e) ==> e.generation > value / SLOT_RANGE
    }
}

impl Handle {
    /// The opaque handle value.
    pub fn value(&self) -> (r: MojoHandleValue)
        ensures
            r == self.value,
    {
        self.value
    }

    /// The slot this handle refers to.
    pub fn slot(&self) -> (r: Slot)
        ensures
            r == self.slot,
    {
        self.slot
    }

    /// Whether this handle value is the canonical invalid handle (0).
    pub fn is_invalid_value(value: MojoHandleValue) -> (r: bool)
        ensures
            r == (value == 0),
    {
        value == 0
    }

    /// Whether this handle value is valid (non-zero).
    pub fn is_valid_value(value: MojoHandleValue) -> (r: bool)
        ensures
            r == (value != 0),
    {
        value != 0
    }

    /// Duplicate the underlying dispatcher: a new handle to the same object,
    /// where its type supports duplication.
    pub fn duplicate(&self, table: &mut HandleTable) -> (r: Result<Handle, CoreError>)
        requires
            old(table)@.wf(),
        ensures
            final(table)@.wf(),
            match old(table)@.resolved(self.value) {
                None => r == Err::<Handle, CoreError>(CoreError::InvalidArgument) && final(table)@
                    == old(table)@,
                Some(d) => if !d.duplicable() {
                    r == Err::<Handle, CoreError>(CoreError::InvalidArgument) && final(table)@ == old(
                        table,
                    )@
                } else if !old(table)@.has_room() {
                    r == Err::<Handle, CoreError>(CoreError::ResourceExhausted) && final(table)@
                        == old(table)@
                } else {
                    r == Ok::<Handle, CoreError>(old(table)@.next_handle()) && final(table)@ == old(
                        table,
                    )@.added(d)
                },
            },
    {
        match table.get(self.value) {
            Err(_) => Err(CoreError::InvalidArgument),
            Ok(d) => {
                if !d.is_duplicable() {
                    return Err(CoreError::InvalidArgument);
                }
                table.add(d)
            },
        }
    }
}

impl Default for HandleTable {
    fn default() -> (r: HandleTable)
        ensures
            r@.wf(),
            r@.entries == Seq::<Option<Entry>>::empty(),
            r@.generations == Seq::<u32>::empty(),
            r@.free == Seq::<u32>::empty(),
    {
        HandleTable::new()
    }
}

impl HandleTable {
    /// Create an empty handle table.
    pub fn new() -> (r: HandleTable)
        ensures
            r@.wf(),
            r@.entries == Seq::<Option<Entry>>::empty(),
            r@.generations == Seq::<u32>::empty(),
            r@.free == Seq::<u32>::empty(),
    {
        HandleTable { entries: Vec::new(), generations: Vec::new(), free: Vec::new() }
    }

    /// The number of currently live handles.
    pub fn live_count(&self) -> (r: usize)
        ensures
            r == live(self@.entries),
    {
        let mut n: usize = 0;
        let mut i: usize = 0;
        while i < self.entries.len()
            invariant
                i <= self.entries@.len(),
                n <= i,
                n == live(self.entries@.take(i as int)),
            decreases self.entries@.len() - i,
        {
            assert(self.entries@.take(i as int + 1).drop_last() =~= self.entries@.take(i as int));
            if self.entries[i].is_some() {
                n = n + 1;
            }
            i = i + 1;
        }
        assert(self.entries@.take(i as int) =~= self.entries@);
        n
    }

    /// Add a dispatcher to the table, returning an owned handle; fails when
    /// every slot is taken or used up.
    pub fn add(&mut self, dispatcher: DispatcherRef) -> (r: Result<Handle, CoreError>)
        requires
            old(self)@.wf(),
        ensures
            final(self)@.wf(),
            if old(self)@.has_room() {
                r == Ok::<Handle, CoreError>(old(self)@.next_handle()) && final(self)@ == old(
                    self,
                )@.added(dispatcher)
            } else {
                r == Err::<Handle, CoreError>(CoreError::ResourceExhausted) && final(self)@ == old(
                    self,
                )@
            },
    {
        let ghost before = self@;
        let slot: u32;
        let generation: u32;
        match self.free.pop() {
            Some(s) => {
                slot = s;
                assert(before.free.last() == s);
                assert(before.free[before.free.len() - 1] == s);
                generation = self.generations[slot as usize] + 1;
                self.generations.set(slot as usize, generation);
                self.entries.set(slot as usize, Some(Entry { dispatcher, generation }));
            },
            None => {
                if self.entries.len() >= MAX_SLOTS {
                    return Err(CoreError::ResourceExhausted);
                }
                slot = self.entries.len() as u32;
                generation = 1;
                self.entries.push(Some(Entry { dispatcher, generation }));
                self.generations.push(generation);
            },
        }
        let value: u32 = generation * SLOT_RANGE + slot;
        proof {
            lemma_added_wf(before, dispatcher);
            assert(self@ =~= before.added(dispatcher));
        }
        Ok(Handle { value, slot: Slot(slot) })
    }

    /// Resolve a handle value to its dispatcher.
    pub fn get(&self, value: MojoHandleValue) -> (r: Result<DispatcherRef, CoreError>)
        ensures
            r == match self@.resolved(value) {
                Some(d) => Ok::<DispatcherRef, CoreError>(d),
                None => Err::<DispatcherRef, CoreError>(CoreError::InvalidArgument),
            },
    {
        if value == 0 {
            return Err(CoreError::InvalidArgument);
        }
        let slot: usize = (value % SLOT_RANGE) as usize;
        let generation: u32 = value / SLOT_RANGE;
        if slot >= self.entries.len() {
            return Err(CoreError::InvalidArgument);
        }
        match self.entries[slot] {
            Some(entry) => {
                if entry.generation != generation {
                    return Err(CoreError::InvalidArgument);
                }
                Ok(entry.dispatcher)
            },
            None => Err(CoreError::InvalidArgument),
        }
    }

    /// Close a handle. Returns the dispatcher whose handle was closed, which
    /// is to be told; a stale handle is ignored.
    pub fn close(&mut self, handle: Handle) -> (r: Option<DispatcherRef>)
        requires
            old(self)@.wf(),
        ensures
            final(self)@.wf(),
            final(self)@ == old(self)@.closed(handle.slot.0, handle.value),
            r == match old(self)@.entry_for(handle.slot.0 as int, handle.value) {
                Some(e) => Some(e.dispatcher),
                None => None::<DispatcherRef>,
            },
    {
        let ghost before = self@;
        let slot: usize = handle.slot.0 as usize;
        let generation: u32 = handle.value / SLOT_RANGE;
        if slot >= self.entries.len() {
            return None;
        }
        match self.entries[slot] {
            Some(entry) => {
                if entry.generation != generation {
                    return None;
                }
                self.entries.set(slot, None);
                if generation < LAST_GENERATION {
                    self.free.push(handle.slot.0);
                }
                proof {
                    lemma_closed_wf(before, handle.slot.0, handle.value);
                    assert(self@ =~= before.closed(handle.slot.0, handle.value));
                }
                Some(entry.dispatcher)
            },
            None => None,
        }
    }
}

proof fn lemma_added_wf(t: TableView, d: DispatcherRef)
    requires
        t.wf(),
        t.has_room(),
    ensures
        t.added(d).wf(),
{
    let n = t.added(d);
    if t.free.len() > 0 {
        let s = t.free.last() as int;
        assert(t.free[t.free.len() - 1] == s);
        assert forall|i: int| 0 <= i < n.free.len() implies (#[trigger] n.free[i])
            < n.entries.len() && n.entries[n.free[i] as int] is None by {
            assert(n.free[i] == t.free[i]);
            assert(t.free[i] != t.free[t.free.len() - 1]);
        }
        assert forall|i: int| 0 <= i < n.free.len() implies n.generations[(
        #[trigger] n.free[i]) as int] < LAST_GENERATION by {
            assert(n.free[i] == t.free[i]);
            assert(t.free[i] != t.free[t.free.len() - 1]);
        }
        assert forall|i: int| 0 <= i < n.entries.len() && #[trigger] n.entries[i] is None
            && n.generations[i] < LAST_GENERATION implies n.free.contains(i as u32) by {
            assert(i != s);
            assert(t.entries[i] is None);
            let j = choose|j: int| 0 <= j < t.free.len() && t.free[j] == i as u32;
            assert(j != t.free.len() - 1);
            assert(n.free[j] == i as u32);
        }
    } else {
        assert forall|i: int| 0 <= i < n.entries.len() && #[trigger] n.entries[i] is None
            && n.generations[i] < LAST_GENERATION implies n.free.contains(i as u32) by {
            assert(t.entries[i] is None);
        }
    }
}

pub(crate) proof fn lemma_closed_wf(t: TableView, slot: u32, value: u32)
    requires
        t.wf(),
        t.entry_for(slot as int, value) is Some,
    ensures
        t.closed(slot, value).wf(),
{
    let n = t.closed(slot, value);
    assert forall|i: int, j: int| 0 <= i < n.free.len() && 0 <= j < n.free.len() && i != j implies
        n.free[i] != n.free[j] by {
        if i < t.free.len() {
            assert(t.entries[t.free[i] as int] is None);
        }
        if j < t.free.len() {
            assert(t.entries[t.free[j] as int] is None);
        }
    }
    assert forall|i: int| 0 <= i < n.entries.len() && #[trigger] n.entries[i] is None
        && n.generations[i] < LAST_GENERATION implies n.free.contains(i as u32) by {
        if i == slot {
            assert(n.free[n.free.len() - 1] == slot);
        } else {
            assert(t.entries[i] is None);
            let j = choose|j: int| 0 <= j < t.free.len() && t.free[j] == i as u32;
            assert(n.free[j] == i as u32);
        }
    }
}

proof fn lemma_value_parts(slot: u32, generation: u32)
    requires
        slot < MAX_SLOTS,
        generation <= LAST_GENERATION,
    ensures
        0 <= handle_value(slot, generation) <= u32::MAX,
        handle_value(slot, generation) as u32 % SLOT_RANGE == slot,
        handle_value(slot, generation) as u32 / SLOT_RANGE == generation,
{
}

proof fn lemma_live_update(a: Seq<Option<Entry>>, i: int, e: Option<Entry>)
    requires
        0 <= i < a.len(),
    ensures
        live(a.update(i, e)) + (if a[i] is Some { 1nat } else { 0nat }) == live(a) + (
        if e is Some { 1nat } else { 0nat }),
    decreases a.len(),
{
    if i == a.len() - 1 {
        assert(a.update(i, e).drop_last() =~= a.drop_last());
    } else {
        lemma_live_update(a.drop_last(), i, e);
        assert(a.update(i, e).drop_last() =~= a.drop_last().update(i, e));
    }
}

/// A handle that was just added is valid, resolves to its object, has a value
/// that resolved to nothing before, and is one more live handle.
pub proof fn law_added_handle_resolves(t: TableView, d: DispatcherRef)
    requires
        t.wf(),
        t.has_room(),
    ensures
        t.next_handle().value != 0,
        t.next_handle().slot.0 == t.next_handle().value % SLOT_RANGE,
        t.added(d).wf(),
        t.added(d).resolved(t.next_handle().value) == Some(d),
        t.resolved(t.next_handle().value) is None,
        live(t.added(d).entries) == live(t.entries) + 1,
{
    let entry = Some(Entry { dispatcher: d, generation: t.next_slot_generation() });
    if t.free.len() > 0 {
        assert(t.free[t.free.len() - 1] == t.free.last());
        lemma_live_update(t.entries, t.next_slot() as int, entry);
    } else {
        assert(t.entries.push(entry).drop_last() =~= t.entries);
    }
    lemma_value_parts(t.next_slot(), t.next_slot_generation());
    lemma_added_wf(t, d);
}

/// A handle can be added unless every slot there can be is live or has used up
/// its generations.
pub proof fn law_room_is_left(t: TableView, i: int)
    requires
        t.wf(),
        !t.has_room(),
        0 <= i < MAX_SLOTS,
    ensures
        i < t.entries.len(),
        t.entries[i] is Some || t.generations[i] == LAST_GENERATION,
{
    if t.entries[i] is None && t.generations[i] < LAST_GENERATION {
        assert(t.free.contains(i as u32));
    }
}

/// An added handle can be closed again, whatever the generation of its slot.
pub proof fn law_added_handle_can_be_closed(t: TableView, d: DispatcherRef)
    requires
        t.wf(),
        t.has_room(),
    ensures
        ({
            let h = t.next_handle();
            let closed = t.added(d).closed(h.slot.0, h.value);
            &&& closed.resolved(h.value) is None
            &&& live(closed.entries) == live(t.entries)
        }),
{
    law_added_handle_resolves(t, d);
    lemma_value_parts(t.next_slot(), t.next_slot_generation());
    lemma_live_update(t.added(d).entries, t.next_slot() as int, None);
}

/// Adding a handle changes nothing about the values that resolve already.
pub proof fn law_add_keeps_others(t: TableView, d: DispatcherRef, value: u32)
    requires
        t.wf(),
        t.has_room(),
        t.resolved(value) is Some,
    ensures
        t.added(d).resolved(value) == t.resolved(value),
{
    if t.free.len() > 0 {
        assert(t.free[t.free.len() - 1] == t.free.last());
    }
}

/// A closed handle no longer resolves, is stale from then on, and closing it
/// touches no other value.
pub proof fn law_closed_handle_is_stale(t: TableView, value: u32, other: u32)
    requires
        t.wf(),
        t.resolved(value) is Some,
        other % SLOT_RANGE != value % SLOT_RANGE,
    ensures
        t.closed((value % SLOT_RANGE) as u32, value).resolved(value) is None,
        t.closed((value % SLOT_RANGE) as u32, value).stale(value),
        t.closed((value % SLOT_RANGE) as u32, value).resolved(other) == t.resolved(other),
{
}

/// A stale value never resolves, and stays stale whatever handles are added
/// or closed.
pub proof fn law_stale_stays_stale(
    t: TableView,
    value: u32,
    d: DispatcherRef,
    slot: u32,
    other: u32,
)
    requires
        t.wf(),
        t.stale(value),
    ensures
        t.resolved(value) is None,
        t.has_room() ==> t.added(d).stale(value),
        t.closed(slot, other).stale(value),
{
    if t.free.len() > 0 {
        assert(t.free[t.free.len() - 1] == t.free.last());
    }
}

} // verus!
