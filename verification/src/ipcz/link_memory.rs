//! The shared memory of a node link: the primary buffer exchanged in the
//! connect handshake, and the fragments built on it.
//!
//! Layout of the primary buffer (buffer id 0, 128 KiB):
//!
//! ```text
//! 0x000  header: next_buffer_id u64, next_sublink_id u64, padding to 256 bytes
//! 0x100  initial link states: 12 states of 64 bytes; initial portal i uses
//!        the state at 0x100 + i*64
//! 0x400  64-byte block region (1484 blocks; block 0 is the free-list header,
//!        allocable blocks start at block 1)
//! ...    regions of larger blocks
//! 0x20000 end
//! ```
//!
//! A [`LinkMemory`] holds the contents of the buffers; each operation reads and
//! writes them as they stand when it runs. All access is bounds-checked: a
//! malformed descriptor is a [`LinkMemoryError`].

use std::collections::HashMap;
use vstd::prelude::*;
use vstd::slice::slice_subrange;
use vstd::slice::slice_to_vec;

use crate::bytes::{get_u16, get_u32, get_u64, push_u16, put_bytes};
use crate::ipcz::messages::FragmentDescriptor;

verus! {

broadcast use vstd::std_specs::hash::group_hash_axioms;

/// The size of the primary buffer (128 KiB).
pub const PRIMARY_BUFFER_SIZE: usize = 131072;

/// Reserved header region size.
pub const PRIMARY_BUFFER_HEADER_SIZE: usize = 256;

/// The maximum number of initial portals.
pub const MAX_INITIAL_PORTALS: usize = 12;

/// The size of a link state.
pub const ROUTER_LINK_STATE_SIZE: usize = 64;

/// The offset of the initial link-state array.
pub const INITIAL_LINK_STATES_OFFSET: usize = 0x100;

/// The offset of the 64-byte block region.
pub const BLOCK_ALLOCATOR_64_OFFSET: usize = 0x400;

/// The number of blocks in the 64-byte region.
pub const BLOCK_ALLOCATOR_64_BLOCKS: usize = 1484;

/// The size of a parcel fragment header.
pub const FRAGMENT_HEADER_SIZE: usize = 8;

/// The primary buffer id.
pub const PRIMARY_BUFFER_ID: u64 = 0;

/// Errors from fragment resolution and link-memory access.
#[derive(Debug, Clone, Copy, PartialEq, Eq, Structural)]
pub enum LinkMemoryError {
    /// The descriptor references an unknown buffer id.
    UnknownBuffer,
    /// The descriptor range exceeds the buffer bounds.
    OutOfBounds,
    /// The descriptor is not 8-byte aligned.
    Misaligned,
    /// The descriptor is null.
    NullDescriptor,
}

impl LinkMemoryError {
    /// The human-readable text of the error.
    pub open spec fn spec_text(self) -> Seq<char> {
        match self {
            LinkMemoryError::UnknownBuffer => "unknown buffer id"@,
            LinkMemoryError::OutOfBounds => "fragment out of bounds"@,
            LinkMemoryError::Misaligned => "fragment misaligned"@,
            LinkMemoryError::NullDescriptor => "null fragment descriptor"@,
        }
    }

    /// The human-readable text of the error.
    pub fn text(self) -> (r: &'static str)
        ensures
            r@ == self.spec_text(),
    {
        match self {
            LinkMemoryError::UnknownBuffer => "unknown buffer id",
            LinkMemoryError::OutOfBounds => "fragment out of bounds",
            LinkMemoryError::Misaligned => "fragment misaligned",
            LinkMemoryError::NullDescriptor => "null fragment descriptor",
        }
    }
}

/// The status bits of a link state.
#[derive(Debug, Clone, Copy, PartialEq, Eq, Structural)]
pub struct RouterLinkStatus(pub u32);

impl RouterLinkStatus {
    /// Fresh central link, sides unstable.
    pub const UNSTABLE: u32 = 0;

    /// Side A has no decaying links.
    pub const SIDE_A_STABLE: u32 = 1;

    /// Side B has no decaying links.
    pub const SIDE_B_STABLE: u32 = 2;

    /// Both sides stable.
    pub const STABLE: u32 = 3;

    /// Side A is waiting on stability.
    pub const SIDE_A_WAITING: u32 = 4;

    /// Side B is waiting on stability.
    pub const SIDE_B_WAITING: u32 = 8;

    /// The link is locked by side A.
    pub const LOCKED_BY_SIDE_A: u32 = 16;

    /// The link is locked by side B.
    pub const LOCKED_BY_SIDE_B: u32 = 32;

    /// The raw status value.
    pub fn value(self) -> (r: u32)
        ensures
            r == self.0,
    {
        self.0
    }

    /// Whether the side A stable bit is set.
    pub fn side_a_stable(self) -> (r: bool)
        ensures
            r == (self.0 & RouterLinkStatus::SIDE_A_STABLE != 0),
    {
        self.0 & RouterLinkStatus::SIDE_A_STABLE != 0
    }

    /// Whether the side B stable bit is set.
    pub fn side_b_stable(self) -> (r: bool)
        ensures
            r == (self.0 & RouterLinkStatus::SIDE_B_STABLE != 0),
    {
        self.0 & RouterLinkStatus::SIDE_B_STABLE != 0
    }

    /// Whether both stable bits are set.
    pub fn is_stable(self) -> (r: bool)
        ensures
            r == (self.0 & RouterLinkStatus::STABLE == RouterLinkStatus::STABLE),
    {
        self.0 & RouterLinkStatus::STABLE == RouterLinkStatus::STABLE
    }
}

/// The stable bit of a side.
pub open spec fn stable_bit(side_a: bool) -> u32 {
    if side_a {
        1
    } else {
        2
    }
}

/// The waiting bit of a side.
pub open spec fn waiting_bit(side_a: bool) -> u32 {
    if side_a {
        4
    } else {
        8
    }
}

/// The lock bit of a side.
pub open spec fn lock_bit(side_a: bool) -> u32 {
    if side_a {
        16
    } else {
        32
    }
}

/// Whether a status holds either lock bit.
pub open spec fn is_locked(status: u32) -> bool {
    status & 48 != 0
}

/// The status after a side tries to lock the link, and whether it got the
/// lock: it does where both sides are stable and neither has the lock; a stable
/// side whose peer is not yet stable sets its waiting bit instead.
pub open spec fn lock_attempt(status: u32, side_a: bool) -> (u32, bool) {
    if is_locked(status) || status & stable_bit(side_a) == 0 {
        (status, false)
    } else if status & stable_bit(!side_a) == 0 {
        (status | waiting_bit(side_a), false)
    } else {
        (status | lock_bit(side_a), true)
    }
}

/// The status after the waiting bit of a side is to be reset, and whether it
/// was: it is where the link is stable and unlocked and the bit is set.
pub open spec fn waiting_reset(status: u32, side_a: bool) -> (u32, bool) {
    if status & 3 != 3 || status & waiting_bit(side_a) == 0 || is_locked(status) {
        (status, false)
    } else {
        (status & !waiting_bit(side_a), true)
    }
}

fn side_stable_bit(side_a: bool) -> (r: u32)
    ensures
        r == stable_bit(side_a),
{
    if side_a {
        RouterLinkStatus::SIDE_A_STABLE
    } else {
        RouterLinkStatus::SIDE_B_STABLE
    }
}

fn side_waiting_bit(side_a: bool) -> (r: u32)
    ensures
        r == waiting_bit(side_a),
{
    if side_a {
        RouterLinkStatus::SIDE_A_WAITING
    } else {
        RouterLinkStatus::SIDE_B_WAITING
    }
}

fn side_lock_bit(side_a: bool) -> (r: u32)
    ensures
        r == lock_bit(side_a),
{
    if side_a {
        RouterLinkStatus::LOCKED_BY_SIDE_A
    } else {
        RouterLinkStatus::LOCKED_BY_SIDE_B
    }
}

/// The status with the stable bit of a side set.
pub fn status_with_side_stable(status: u32, side_a: bool) -> (r: u32)
    ensures
        r == status | stable_bit(side_a),
{
    status | side_stable_bit(side_a)
}

/// The status after a side tries to lock the link, and whether it got the lock.
pub fn status_try_lock(status: u32, side_a: bool) -> (r: (u32, bool))
    ensures
        r == lock_attempt(status, side_a),
{
    if status & 48 != 0 || status & side_stable_bit(side_a) == 0 {
        (status, false)
    } else if status & side_stable_bit(!side_a) == 0 {
        (status | side_waiting_bit(side_a), false)
    } else {
        (status | side_lock_bit(side_a), true)
    }
}

/// The status with the lock bit of a side cleared.
pub fn status_unlocked(status: u32, side_a: bool) -> (r: u32)
    ensures
        r == status & !lock_bit(side_a),
{
    status & !side_lock_bit(side_a)
}

/// The status after the waiting bit of a side is to be reset, and whether it
/// was.
pub fn status_reset_waiting(status: u32, side_a: bool) -> (r: (u32, bool))
    ensures
        r == waiting_reset(status, side_a),
{
    if status & 3 != 3 || status & side_waiting_bit(side_a) == 0 || status & 48 != 0 {
        (status, false)
    } else {
        (status & !side_waiting_bit(side_a), true)
    }
}

/// While a side has the lock, neither side gets it, and trying changes nothing.
pub proof fn law_lock_excludes(status: u32, locker_a: bool, other_a: bool)
    requires
        lock_attempt(status, locker_a).1,
    ensures
        lock_attempt(lock_attempt(status, locker_a).0, other_a) == (
            lock_attempt(status, locker_a).0,
            false,
        ),
{
    assert((status | 16) & 48 != 0 && (status | 32) & 48 != 0) by (bit_vector);
}

/// Unlocking gives back the status from before the lock was taken.
pub proof fn law_unlock_undoes_lock(status: u32, side_a: bool)
    requires
        lock_attempt(status, side_a).1,
    ensures
        lock_attempt(status, side_a).0 & !lock_bit(side_a) == status,
{
    assert(status & 48 == 0 ==> (status | 16) & !16u32 == status && (status | 32) & !32u32
        == status) by (bit_vector);
}

/// The lock needs both sides to be stable, whatever came before.
pub proof fn law_lock_needs_stability(status: u32, side_a: bool)
    ensures
        lock_attempt(status, side_a).1 <==> status & 3 == 3 && !is_locked(status),
{
    assert(status & 3 == 3 <==> status & 1 != 0 && status & 2 != 0) by (bit_vector);
}

/// A side that found its peer unstable is left waiting; once the peer is
/// stable the waiting bit can be reset, and then the side gets the lock.
pub proof fn law_waiting_side_gets_lock(status: u32, side_a: bool)
    requires
        !is_locked(status),
        status & stable_bit(side_a) != 0,
        status & stable_bit(!side_a) == 0,
    ensures
        ({
            let (waiting, locked) = lock_attempt(status, side_a);
            let ready = waiting | stable_bit(!side_a);
            let (reset, was_waiting) = waiting_reset(ready, side_a);
            !locked && was_waiting && lock_attempt(reset, side_a).1
        }),
{
    assert(status & 48 == 0 && status & 1 != 0 && status & 2 == 0 ==> {
        &&& ((status | 4) | 2) & 3 == 3
        &&& ((status | 4) | 2) & 4 != 0
        &&& ((status | 4) | 2) & 48 == 0
        &&& (((status | 4) | 2) & !4u32) & 48 == 0
        &&& (((status | 4) | 2) & !4u32) & 1 != 0
        &&& (((status | 4) | 2) & !4u32) & 2 != 0
    }) by (bit_vector);
    assert(status & 48 == 0 && status & 2 != 0 && status & 1 == 0 ==> {
        &&& ((status | 8) | 1) & 3 == 3
        &&& ((status | 8) | 1) & 8 != 0
        &&& ((status | 8) | 1) & 48 == 0
        &&& (((status | 8) | 1) & !8u32) & 48 == 0
        &&& (((status | 8) | 1) & !8u32) & 1 != 0
        &&& (((status | 8) | 1) & !8u32) & 2 != 0
    }) by (bit_vector);
}

/// A run of 64-byte blocks in a buffer. Block 0 is the free-list header.
#[derive(Debug, Clone, Copy, PartialEq, Eq, Structural)]
pub struct BlockRegion {
    /// The buffer that holds the blocks.
    pub buffer_id: u64,
    /// The offset of block 0.
    pub offset: u32,
    /// The number of blocks.
    pub num_blocks: u32,
}

/// The value of a 16-bit two's complement word.
pub open spec fn signed16(x: u16) -> int {
    if x < 0x8000 {
        x as int
    } else {
        x - 0x1_0000
    }
}

/// The 16-bit two's complement word of a value.
pub open spec fn unsigned16(v: int) -> u16 {
    if v >= 0 {
        v as u16
    } else {
        (v + 0x1_0000) as u16
    }
}

/// The offset of block `i` of a region.
pub open spec fn block_offset(r: BlockRegion, i: int) -> int {
    r.offset + 64 * i
}

/// The block that the header of block `i` points to: its link is relative to
/// the successor of `i`.
pub open spec fn block_next(buffer: Seq<u8>, r: BlockRegion, i: int) -> int {
    i + 1 + signed16(crate::bytes::le16(buffer, block_offset(r, i) + 2))
}

/// The 4 header bytes of block `i`, with a link to block `next`.
pub open spec fn block_header(version: u16, i: int, next: int) -> Seq<u8> {
    crate::bytes::bytes16(version) + crate::bytes::bytes16(unsigned16(next - i - 1))
}

/// The version that follows `v`.
pub open spec fn next_version(v: u16) -> u16 {
    if v == 0xffff {
        0
    } else {
        (v + 1) as u16
    }
}

/// What a free list has to give.
pub enum BlockPop {
    /// No block is free.
    Exhausted,
    /// The first free block links out of the region.
    Broken,
    /// The first free block, and the one after it.
    Block(int, int),
}

/// The first free block of a region.
pub open spec fn first_free(buffer: Seq<u8>, r: BlockRegion) -> BlockPop {
    let first = block_next(buffer, r, 0);
    let next = block_next(buffer, r, first);
    if first <= 0 || first >= r.num_blocks {
        BlockPop::Exhausted
    } else if next < 0 || next >= r.num_blocks {
        BlockPop::Broken
    } else {
        BlockPop::Block(first, next)
    }
}

/// The descriptor of block `i` of a region.
pub open spec fn block_descriptor(r: BlockRegion, i: int) -> FragmentDescriptor {
    FragmentDescriptor { buffer_id: r.buffer_id, offset: block_offset(r, i) as u32, size: 64 }
}

/// What a [`LinkMemory`] holds.
pub struct LinkMemoryView {
    /// The contents of the buffers by id.
    pub buffers: Map<u64, Seq<u8>>,
    /// The regions that blocks are allocated from, in order of preference.
    pub regions: Seq<BlockRegion>,
}

/// The bytes that a descriptor references.
pub open spec fn resolve(m: LinkMemoryView, d: FragmentDescriptor) -> Result<
    Seq<u8>,
    LinkMemoryError,
> {
    if d.spec_is_null() {
        Err(LinkMemoryError::NullDescriptor)
    } else if d.offset % 8 != 0 {
        Err(LinkMemoryError::Misaligned)
    } else if !m.buffers.contains_key(d.buffer_id) {
        Err(LinkMemoryError::UnknownBuffer)
    } else if d.offset + d.size > m.buffers[d.buffer_id].len() {
        Err(LinkMemoryError::OutOfBounds)
    } else {
        Ok(m.buffers[d.buffer_id].subrange(d.offset as int, d.offset + d.size))
    }
}

/// The memory with the bytes of `new` written into the fragment `d` from
/// offset `o` on.
pub open spec fn stored(
    m: LinkMemoryView,
    d: FragmentDescriptor,
    o: int,
    new: Seq<u8>,
) -> LinkMemoryView {
    LinkMemoryView {
        buffers: m.buffers.insert(
            d.buffer_id,
            crate::bytes::overwrite(m.buffers[d.buffer_id], d.offset + o, new),
        ),
        ..m
    }
}

/// The fragment of `size` bytes at `d`, or the error that stands in its way.
pub open spec fn resolve_at_least(m: LinkMemoryView, d: FragmentDescriptor, size: int) -> Result<
    Seq<u8>,
    LinkMemoryError,
> {
    match resolve(m, d) {
        Err(e) => Err(e),
        Ok(s) => if d.size < size {
            Err(LinkMemoryError::OutOfBounds)
        } else {
            Ok(s)
        },
    }
}

/// The status word of the link state `d`.
pub open spec fn status_of(m: LinkMemoryView, d: FragmentDescriptor) -> u32 {
    crate::bytes::le32(m.buffers[d.buffer_id], d.offset + 4)
}

/// The memory with the status word of the link state `d` set.
pub open spec fn with_status(m: LinkMemoryView, d: FragmentDescriptor, status: u32) -> LinkMemoryView {
    stored(m, d, 4, crate::bytes::bytes32(status))
}

/// The shared link memory: the primary buffer and any buffers added later.
pub struct LinkMemory {
    /// The contents of the primary buffer.
    pub primary: Vec<u8>,
    /// The contents of additional buffers by buffer id.
    pub extra: HashMap<u64, Vec<u8>>,
    /// The regions that blocks are allocated from, in order of preference.
    pub regions: Vec<BlockRegion>,
}

impl View for LinkMemory {
    type V = LinkMemoryView;

    open spec fn view(&self) -> LinkMemoryView {
        LinkMemoryView {
            buffers: Map::new(
                |id: u64| id == PRIMARY_BUFFER_ID || self.extra@.contains_key(id),
                |id: u64|
                    if id == PRIMARY_BUFFER_ID {
                        self.primary@
                    } else {
                        self.extra@[id]@
                    },
            ),
            regions: self.regions@,
        }
    }
}

/// Whether a region lies in its buffer and its links fit in 16 bits.
pub open spec fn region_fits(m: LinkMemoryView, r: BlockRegion) -> bool {
    &&& m.buffers.contains_key(r.buffer_id)
    &&& 1 <= r.num_blocks <= 0x7fff
    &&& r.offset % 8 == 0
    &&& r.buffer_id != u64::MAX
    &&& r.offset + 64 * r.num_blocks <= m.buffers[r.buffer_id].len()
    &&& r.offset + 64 * r.num_blocks <= u32::MAX
}

/// The validity of a link memory: the primary buffer has its fixed size, every
/// buffer fits in memory and every region lies in its buffer.
pub open spec fn memory_ok(m: LinkMemoryView) -> bool {
    &&& m.buffers.contains_key(PRIMARY_BUFFER_ID)
    &&& m.buffers[PRIMARY_BUFFER_ID].len() == PRIMARY_BUFFER_SIZE
    &&& forall|i: int| 0 <= i < m.regions.len() ==> region_fits(m, #[trigger] m.regions[i])
}

/// The region of the primary buffer.
pub open spec fn primary_region() -> BlockRegion {
    BlockRegion { buffer_id: 0, offset: 0x400, num_blocks: 1484 }
}

/// Writing into a fragment keeps the memory valid.
pub proof fn lemma_stored_ok(m: LinkMemoryView, d: FragmentDescriptor, o: int, new: Seq<u8>)
    requires
        memory_ok(m),
        m.buffers.contains_key(d.buffer_id),
    ensures
        memory_ok(stored(m, d, o, new)),
{
    let n = stored(m, d, o, new);
    assert forall|i: int| 0 <= i < n.regions.len() implies region_fits(
        n,
        #[trigger] n.regions[i],
    ) by {
        assert(region_fits(m, m.regions[i]));
    }
}

impl LinkMemory {
    /// The offset of the status word within a link state.
    pub const LINK_STATUS_OFFSET: usize = 4;

    /// The offset of the allowed bypass request source within a link state.
    pub const LINK_ALLOWED_SOURCE_OFFSET: usize = 8;

    /// Take over the contents of a primary buffer.
    pub fn adopt_primary(contents: Vec<u8>) -> (m: LinkMemory)
        requires
            contents@.len() == PRIMARY_BUFFER_SIZE,
        ensures
            m@.buffers == map![PRIMARY_BUFFER_ID => contents@],
            m@.regions == seq![primary_region()],
            memory_ok(m@),
    {
        let mut regions: Vec<BlockRegion> = Vec::new();
        regions.push(BlockRegion { buffer_id: 0, offset: 0x400, num_blocks: 1484 });
        let m = LinkMemory { primary: contents, extra: HashMap::new(), regions };
        assert(m@.buffers =~= map![PRIMARY_BUFFER_ID => contents@]);
        assert(m@.regions =~= seq![primary_region()]);
        m
    }

    fn check(&self, d: FragmentDescriptor) -> (r: Result<(), LinkMemoryError>)
        ensures
            r is Ok <==> resolve(self@, d) is Ok,
            r is Err ==> resolve(self@, d) == Err::<Seq<u8>, LinkMemoryError>(r->Err_0),
    {
        if d.is_null() {
            return Err(LinkMemoryError::NullDescriptor);
        }
        if d.offset % 8 != 0 {
            return Err(LinkMemoryError::Misaligned);
        }
        let len: usize = if d.buffer_id == PRIMARY_BUFFER_ID {
            self.primary.len()
        } else {
            match self.extra.get(&d.buffer_id) {
                Some(b) => b.len(),
                None => {
                    return Err(LinkMemoryError::UnknownBuffer);
                },
            }
        };
        if d.offset as u64 + d.size as u64 > len as u64 {
            return Err(LinkMemoryError::OutOfBounds);
        }
        Ok(())
    }

    fn buffer_for(&self, id: u64) -> (r: &Vec<u8>)
        requires
            self@.buffers.contains_key(id),
        ensures
            r@ == self@.buffers[id],
    {
        if id == PRIMARY_BUFFER_ID {
            &self.primary
        } else {
            match self.extra.get(&id) {
                Some(b) => b,
                None => &self.primary,
            }
        }
    }

    /// Resolve a fragment descriptor to the bytes it references.
    pub fn fragment(&self, desc: FragmentDescriptor) -> (r: Result<&[u8], LinkMemoryError>)
        ensures
            match r {
                Ok(s) => resolve(self@, desc) == Ok::<Seq<u8>, LinkMemoryError>(s@),
                Err(e) => resolve(self@, desc) == Err::<Seq<u8>, LinkMemoryError>(e),
            },
    {
        match self.check(desc) {
            Err(e) => {
                return Err(e);
            },
            Ok(_) => {},
        }
        let b = self.buffer_for(desc.buffer_id);
        assert(b.len() == b@.len());
        let start: usize = desc.offset as usize;
        Ok(slice_subrange(b.as_slice(), start, start + desc.size as usize))
    }

    fn store(&mut self, desc: FragmentDescriptor, o: usize, new: &[u8])
        requires
            resolve(old(self)@, desc) is Ok,
            o + new@.len() <= desc.size,
        ensures
            final(self)@ == stored(old(self)@, desc, o as int, new@),
    {
        let ghost before = self@;
        if desc.buffer_id == PRIMARY_BUFFER_ID {
            assert(self.primary.len() == self.primary@.len());
            put_bytes(&mut self.primary, desc.offset as usize + o, new);
        } else {
            let taken = self.extra.remove(&desc.buffer_id);
            match taken {
                Some(b) => {
                    let mut b: Vec<u8> = b;
                    assert(b.len() == b@.len());
                    put_bytes(&mut b, desc.offset as usize + o, new);
                    self.extra.insert(desc.buffer_id, b);
                },
                None => {},
            }
        }
        assert(self@.buffers =~= stored(before, desc, o as int, new@).buffers);
    }

    /// Write `new` into a fragment from offset `o` on.
    pub fn fragment_mut(&mut self, desc: FragmentDescriptor, o: usize, new: &[u8]) -> (r: Result<
        (),
        LinkMemoryError,
    >)
        requires
            memory_ok(old(self)@),
        ensures
            memory_ok(final(self)@),
            match resolve_at_least(old(self)@, desc, o + new@.len()) {
                Ok(_) => r is Ok && final(self)@ == stored(old(self)@, desc, o as int, new@),
                Err(e) => r == Err::<(), LinkMemoryError>(e) && final(self)@ == old(self)@,
            },
    {
        match self.check(desc) {
            Err(e) => {
                return Err(e);
            },
            Ok(_) => {},
        }
        if o > desc.size as usize || new.len() > desc.size as usize - o {
            return Err(LinkMemoryError::OutOfBounds);
        }
        self.store(desc, o, new);
        proof {
            lemma_stored_ok(old(self)@, desc, o as int, new@);
        }
        Ok(())
    }

    /// The offset of the initial link state of portal `i`.
    pub fn initial_link_state_offset(i: usize) -> (r: usize)
        requires
            INITIAL_LINK_STATES_OFFSET + i * ROUTER_LINK_STATE_SIZE <= usize::MAX,
        ensures
            r == INITIAL_LINK_STATES_OFFSET + i * ROUTER_LINK_STATE_SIZE,
    {
        INITIAL_LINK_STATES_OFFSET + i * ROUTER_LINK_STATE_SIZE
    }

    fn bump_header(&mut self, offset: u32, count: u64) -> (r: u64)
        requires
            memory_ok(old(self)@),
            offset == 0 || offset == 8,
        ensures
            memory_ok(final(self)@),
            r == crate::bytes::le64(old(self)@.buffers[PRIMARY_BUFFER_ID], offset as int),
            final(self)@ == with_counter(
                old(self)@,
                offset,
                crate::bytes::wrapped64(r, count),
            ),
    {
        let d = FragmentDescriptor { buffer_id: PRIMARY_BUFFER_ID, offset, size: 8 };
        let current: u64 = get_u64(self.primary.as_slice(), offset as usize);
        let next: u64 = current.wrapping_add(count);
        let mut b: Vec<u8> = Vec::new();
        crate::bytes::push_u64(&mut b, next);
        assert(b@ =~= crate::bytes::bytes64(next));
        self.store(d, 0, b.as_slice());
        proof {
            lemma_stored_ok(old(self)@, d, 0, b@);
        }
        current
    }

    /// Allocate `count` contiguous sublink ids from the shared counter: the
    /// first of them is returned.
    pub fn allocate_sublink_ids(&mut self, count: u64) -> (r: u64)
        requires
            memory_ok(old(self)@),
        ensures
            memory_ok(final(self)@),
            r == next_sublink(old(self)@),
            final(self)@ == with_counter(
                old(self)@,
                8,
                crate::bytes::wrapped64(r, count),
            ),
    {
        self.bump_header(8, count)
    }

    /// Allocate a buffer id from the shared counter.
    pub fn allocate_new_buffer_id(&mut self) -> (r: u64)
        requires
            memory_ok(old(self)@),
        ensures
            memory_ok(final(self)@),
            r == crate::bytes::le64(old(self)@.buffers[PRIMARY_BUFFER_ID], 0),
            final(self)@ == with_counter(
                old(self)@,
                0,
                crate::bytes::wrapped64(r, 1),
            ),
    {
        self.bump_header(0, 1)
    }

    fn check_size(&self, d: FragmentDescriptor, size: u32) -> (r: Result<(), LinkMemoryError>)
        ensures
            r is Ok <==> resolve_at_least(self@, d, size as int) is Ok,
            r is Err ==> resolve_at_least(self@, d, size as int) == Err::<Seq<u8>, LinkMemoryError>(
                r->Err_0,
            ),
    {
        match self.check(d) {
            Err(e) => Err(e),
            Ok(_) => if d.size < size {
                Err(LinkMemoryError::OutOfBounds)
            } else {
                Ok(())
            },
        }
    }

    fn word(&self, d: FragmentDescriptor, o: u32) -> (r: u32)
        requires
            resolve(self@, d) is Ok,
            o + 4 <= d.size,
        ensures
            r == crate::bytes::le32(self@.buffers[d.buffer_id], d.offset + o),
    {
        let b = self.buffer_for(d.buffer_id);
        assert(b.len() == b@.len());
        get_u32(b.as_slice(), d.offset as usize + o as usize)
    }

    fn set_word(&mut self, d: FragmentDescriptor, o: u32, value: u32)
        requires
            memory_ok(old(self)@),
            resolve(old(self)@, d) is Ok,
            o + 4 <= d.size,
        ensures
            memory_ok(final(self)@),
            final(self)@ == stored(old(self)@, d, o as int, crate::bytes::bytes32(value)),
    {
        let mut b: Vec<u8> = Vec::new();
        crate::bytes::push_u32(&mut b, value);
        assert(b@ =~= crate::bytes::bytes32(value));
        self.store(d, o as usize, b.as_slice());
        proof {
            lemma_stored_ok(old(self)@, d, o as int, b@);
        }
    }

    /// Set the stable bit of a side in the status word of a link state.
    pub fn set_side_stable(&mut self, desc: FragmentDescriptor, side_a: bool) -> (r: Result<
        (),
        LinkMemoryError,
    >)
        requires
            memory_ok(old(self)@),
        ensures
            memory_ok(final(self)@),
            match resolve_at_least(old(self)@, desc, 8) {
                Err(e) => r == Err::<(), LinkMemoryError>(e) && final(self)@ == old(self)@,
                Ok(_) => r is Ok && final(self)@ == with_status(
                    old(self)@,
                    desc,
                    status_of(old(self)@, desc) | stable_bit(side_a),
                ),
            },
    {
        match self.check_size(desc, 8) {
            Err(e) => Err(e),
            Ok(_) => {
                let status: u32 = self.word(desc, 4);
                self.set_word(desc, 4, status_with_side_stable(status, side_a));
                Ok(())
            },
        }
    }

    /// Try to lock a link state for a side; a stable side whose peer is not
    /// stable yet is left waiting.
    pub fn try_lock_link_state(&mut self, desc: FragmentDescriptor, side_a: bool) -> (r: Result<
        bool,
        LinkMemoryError,
    >)
        requires
            memory_ok(old(self)@),
        ensures
            memory_ok(final(self)@),
            match resolve_at_least(old(self)@, desc, 8) {
                Err(e) => r == Err::<bool, LinkMemoryError>(e) && final(self)@ == old(self)@,
                Ok(_) => {
                    let (status, locked) = lock_attempt(status_of(old(self)@, desc), side_a);
                    r == Ok::<bool, LinkMemoryError>(locked) && final(self)@ == with_status(
                        old(self)@,
                        desc,
                        status,
                    )
                },
            },
    {
        match self.check_size(desc, 8) {
            Err(e) => Err(e),
            Ok(_) => {
                let (status, locked): (u32, bool) = status_try_lock(self.word(desc, 4), side_a);
                self.set_word(desc, 4, status);
                Ok(locked)
            },
        }
    }

    /// Clear the lock bit of a side in the status word of a link state.
    pub fn unlock_link_state(&mut self, desc: FragmentDescriptor, side_a: bool) -> (r: Result<
        (),
        LinkMemoryError,
    >)
        requires
            memory_ok(old(self)@),
        ensures
            memory_ok(final(self)@),
            match resolve_at_least(old(self)@, desc, 8) {
                Err(e) => r == Err::<(), LinkMemoryError>(e) && final(self)@ == old(self)@,
                Ok(_) => r is Ok && final(self)@ == with_status(
                    old(self)@,
                    desc,
                    status_of(old(self)@, desc) & !lock_bit(side_a),
                ),
            },
    {
        match self.check_size(desc, 8) {
            Err(e) => Err(e),
            Ok(_) => {
                let status: u32 = self.word(desc, 4);
                self.set_word(desc, 4, status_unlocked(status, side_a));
                Ok(())
            },
        }
    }

    /// Clear the waiting bit of a side where the link is stable and unlocked
    /// and the bit is set.
    pub fn reset_waiting_bit(&mut self, desc: FragmentDescriptor, side_a: bool) -> (r: Result<
        bool,
        LinkMemoryError,
    >)
        requires
            memory_ok(old(self)@),
        ensures
            memory_ok(final(self)@),
            match resolve_at_least(old(self)@, desc, 8) {
                Err(e) => r == Err::<bool, LinkMemoryError>(e) && final(self)@ == old(self)@,
                Ok(_) => {
                    let (status, reset) = waiting_reset(status_of(old(self)@, desc), side_a);
                    r == Ok::<bool, LinkMemoryError>(reset) && final(self)@ == with_status(
                        old(self)@,
                        desc,
                        status,
                    )
                },
            },
    {
        match self.check_size(desc, 8) {
            Err(e) => Err(e),
            Ok(_) => {
                let (status, reset): (u32, bool) = status_reset_waiting(
                    self.word(desc, 4),
                    side_a,
                );
                self.set_word(desc, 4, status);
                Ok(reset)
            },
        }
    }

    /// Read the allowed bypass request source of a link state (the low 64 bits
    /// of a node name).
    pub fn read_allowed_bypass_source(&self, desc: FragmentDescriptor) -> (r: Result<
        u64,
        LinkMemoryError,
    >)
        ensures
            match resolve_at_least(self@, desc, 16) {
                Err(e) => r == Err::<u64, LinkMemoryError>(e),
                Ok(s) => r == Ok::<u64, LinkMemoryError>(crate::bytes::le64(s, 8)),
            },
    {
        match self.check_size(desc, 16) {
            Err(e) => Err(e),
            Ok(_) => {
                let b = self.buffer_for(desc.buffer_id);
                assert(b.len() == b@.len());
                proof {
                    let s = resolve(self@, desc)->Ok_0;
                    crate::bytes::lemma_le64_in_part(b@, desc.offset as int, s, 8);
                }
                Ok(get_u64(b.as_slice(), desc.offset as usize + 8))
            },
        }
    }

    /// Write the allowed bypass request source of a link state.
    pub fn write_allowed_bypass_source(&mut self, desc: FragmentDescriptor, value: u64) -> (r:
        Result<(), LinkMemoryError>)
        requires
            memory_ok(old(self)@),
        ensures
            memory_ok(final(self)@),
            match resolve_at_least(old(self)@, desc, 16) {
                Err(e) => r == Err::<(), LinkMemoryError>(e) && final(self)@ == old(self)@,
                Ok(_) => r is Ok && final(self)@ == stored(
                    old(self)@,
                    desc,
                    8,
                    crate::bytes::bytes64(value),
                ),
            },
    {
        let mut b: Vec<u8> = Vec::new();
        crate::bytes::push_u64(&mut b, value);
        assert(b@ =~= crate::bytes::bytes64(value));
        self.fragment_mut(desc, 8, b.as_slice())
    }

    /// Read the status word of a link state.
    pub fn read_link_status(&self, desc: FragmentDescriptor) -> (r: Result<
        RouterLinkStatus,
        LinkMemoryError,
    >)
        ensures
            r == link_status(self@, desc),
    {
        if desc.size < 64 {
            return Err(LinkMemoryError::OutOfBounds);
        }
        match self.check(desc) {
            Err(e) => Err(e),
            Ok(_) => Ok(RouterLinkStatus(self.word(desc, 4))),
        }
    }

    /// Set `bits` in the status word of a link state.
    pub fn set_link_status_bits(&mut self, desc: FragmentDescriptor, bits: u32) -> (r: Result<
        RouterLinkStatus,
        LinkMemoryError,
    >)
        requires
            memory_ok(old(self)@),
        ensures
            memory_ok(final(self)@),
            match link_status(old(self)@, desc) {
                Err(e) => r == Err::<RouterLinkStatus, LinkMemoryError>(e) && final(self)@ == old(
                    self,
                )@,
                Ok(status) => r == Ok::<RouterLinkStatus, LinkMemoryError>(
                    RouterLinkStatus(status.0 | bits),
                ) && final(self)@ == with_status(old(self)@, desc, status.0 | bits),
            },
    {
        match self.read_link_status(desc) {
            Err(e) => Err(e),
            Ok(status) => {
                let status: u32 = status.0 | bits;
                self.set_word(desc, 4, status);
                Ok(RouterLinkStatus(status))
            },
        }
    }

    /// Read a parcel data fragment: a size word, a reserved word, then the
    /// parcel bytes.
    pub fn read_parcel_fragment(&self, desc: FragmentDescriptor) -> (r: Result<
        Vec<u8>,
        LinkMemoryError,
    >)
        ensures
            match r {
                Ok(v) => parcel_in(self@, desc) == Ok::<Seq<u8>, LinkMemoryError>(v@),
                Err(e) => parcel_in(self@, desc) == Err::<Seq<u8>, LinkMemoryError>(e),
            },
    {
        if desc.size < 8 {
            return Err(LinkMemoryError::OutOfBounds);
        }
        let view = match self.fragment(desc) {
            Ok(v) => v,
            Err(e) => {
                return Err(e);
            },
        };
        let size: usize = get_u32(view, 0) as usize;
        if size > view.len() - 8 {
            return Err(LinkMemoryError::OutOfBounds);
        }
        Ok(slice_to_vec(slice_subrange(view, 8, 8 + size)))
    }
}

/// The memory with the header counter at `offset` set.
pub open spec fn with_counter(m: LinkMemoryView, offset: u32, value: u64) -> LinkMemoryView {
    stored(
        m,
        FragmentDescriptor { buffer_id: PRIMARY_BUFFER_ID, offset, size: 8 },
        0,
        crate::bytes::bytes64(value),
    )
}

/// The next sublink id to be allocated.
pub open spec fn next_sublink(m: LinkMemoryView) -> u64 {
    crate::bytes::le64(m.buffers[PRIMARY_BUFFER_ID], 8)
}

/// The status of the link state `d`, which takes 64 bytes.
pub open spec fn link_status(m: LinkMemoryView, d: FragmentDescriptor) -> Result<
    RouterLinkStatus,
    LinkMemoryError,
> {
    if d.size < ROUTER_LINK_STATE_SIZE {
        Err(LinkMemoryError::OutOfBounds)
    } else {
        match resolve(m, d) {
            Err(e) => Err(e),
            Ok(_) => Ok(RouterLinkStatus(status_of(m, d))),
        }
    }
}

/// The parcel data in the fragment `d`: as many bytes as its size word says,
/// after the 8 header bytes.
pub open spec fn parcel_in(m: LinkMemoryView, d: FragmentDescriptor) -> Result<
    Seq<u8>,
    LinkMemoryError,
> {
    if d.size < FRAGMENT_HEADER_SIZE {
        Err(LinkMemoryError::OutOfBounds)
    } else {
        match resolve(m, d) {
            Err(e) => Err(e),
            Ok(s) => {
                let size = crate::bytes::le32(s, 0);
                if FRAGMENT_HEADER_SIZE + size > s.len() {
                    Err(LinkMemoryError::OutOfBounds)
                } else {
                    Ok(s.subrange(8, 8 + size))
                }
            },
        }
    }
}

/// What an allocation from the regions of a memory gives.
pub enum Allocation {
    /// No region has a free block.
    Exhausted,
    /// The free list of the first region that has one is broken.
    Broken,
    /// The block, and the memory without it in its free list.
    Block(FragmentDescriptor, LinkMemoryView),
}

/// The free-list header of a region.
pub open spec fn front_descriptor(r: BlockRegion) -> FragmentDescriptor {
    FragmentDescriptor { buffer_id: r.buffer_id, offset: r.offset, size: 4 }
}

/// The memory with the free list of a region starting at block `first`.
pub open spec fn with_front(m: LinkMemoryView, r: BlockRegion, first: int) -> LinkMemoryView {
    let version = crate::bytes::le16(m.buffers[r.buffer_id], r.offset as int);
    stored(m, front_descriptor(r), 0, block_header(next_version(version), 0, first))
}

/// The allocation of a block from the regions from index `i` on: the first
/// free block of the first region that has one.
pub open spec fn allocation(m: LinkMemoryView, i: int) -> Allocation
    decreases m.regions.len() - i,
{
    if i < 0 || i >= m.regions.len() {
        Allocation::Exhausted
    } else {
        let r = m.regions[i];
        match first_free(m.buffers[r.buffer_id], r) {
            BlockPop::Exhausted => allocation(m, i + 1),
            BlockPop::Broken => Allocation::Broken,
            BlockPop::Block(first, next) => Allocation::Block(
                block_descriptor(r, first),
                with_front(m, r, next),
            ),
        }
    }
}

/// A fresh link state: one reference, everything else zero.
pub open spec fn fresh_link_state() -> Seq<u8> {
    crate::bytes::bytes32(1) + crate::bytes::zeros(60)
}

fn signed_link(b: &[u8], o: usize) -> (r: i32)
    requires
        o + 2 <= b.len(),
    ensures
        r == signed16(crate::bytes::le16(b@, o as int)),
{
    let x: u16 = get_u16(b, o);
    if x < 0x8000 {
        x as i32
    } else {
        x as i32 - 0x1_0000
    }
}

fn encode_block_header(version: u16, i: i32, next: i32) -> (out: Vec<u8>)
    requires
        0 <= i < 0x7fff,
        0 <= next < 0x7fff,
    ensures
        out@ == block_header(version, i as int, next as int),
        out@.len() == 4,
{
    let v: i32 = next - i - 1;
    let word: u16 = if v >= 0 {
        v as u16
    } else {
        (v + 0x1_0000) as u16
    };
    let mut out: Vec<u8> = Vec::new();
    push_u16(&mut out, version);
    push_u16(&mut out, word);
    assert(out@ =~= block_header(version, i as int, next as int));
    out
}

impl LinkMemory {
    /// The block that the header of block `i` of a region points to.
    fn next_of(&self, r: BlockRegion, i: u32) -> (next: i32)
        requires
            region_fits(self@, r),
            i < r.num_blocks,
        ensures
            next == block_next(self@.buffers[r.buffer_id], r, i as int),
    {
        let b = self.buffer_for(r.buffer_id);
        assert(b.len() == b@.len());
        i as i32 + 1 + signed_link(b.as_slice(), r.offset as usize + 64 * i as usize + 2)
    }

    fn set_front(&mut self, r: BlockRegion, first: i32)
        requires
            memory_ok(old(self)@),
            region_fits(old(self)@, r),
            0 <= first < r.num_blocks,
        ensures
            memory_ok(final(self)@),
            final(self)@ == with_front(old(self)@, r, first as int),
    {
        let b = self.buffer_for(r.buffer_id);
        assert(b.len() == b@.len());
        let version: u16 = get_u16(b.as_slice(), r.offset as usize);
        let next: u16 = if version == 0xffff {
            0
        } else {
            version + 1
        };
        let header = encode_block_header(next, 0, first);
        let d = FragmentDescriptor { buffer_id: r.buffer_id, offset: r.offset, size: 4 };
        self.store(d, 0, header.as_slice());
        proof {
            lemma_stored_ok(old(self)@, d, 0, header@);
        }
    }

    fn pop_region(&mut self, r: BlockRegion) -> (res: Result<
        Option<FragmentDescriptor>,
        LinkMemoryError,
    >)
        requires
            memory_ok(old(self)@),
            region_fits(old(self)@, r),
        ensures
            memory_ok(final(self)@),
            match first_free(old(self)@.buffers[r.buffer_id], r) {
                BlockPop::Exhausted => res == Ok::<Option<FragmentDescriptor>, LinkMemoryError>(
                    None,
                ) && final(self)@ == old(self)@,
                BlockPop::Broken => res == Err::<Option<FragmentDescriptor>, LinkMemoryError>(
                    LinkMemoryError::OutOfBounds,
                ) && final(self)@ == old(self)@,
                BlockPop::Block(first, next) => {
                    &&& res == Ok::<Option<FragmentDescriptor>, LinkMemoryError>(
                        Some(block_descriptor(r, first)),
                    )
                    &&& final(self)@ == with_front(old(self)@, r, next)
                    &&& resolve(final(self)@, block_descriptor(r, first)) is Ok
                },
            },
    {
        let first: i32 = self.next_of(r, 0);
        if first <= 0 || first as u32 >= r.num_blocks {
            return Ok(None);
        }
        let next: i32 = self.next_of(r, first as u32);
        if next < 0 || next as u32 >= r.num_blocks {
            return Err(LinkMemoryError::OutOfBounds);
        }
        self.set_front(r, next);
        let offset: u32 = r.offset + 64 * (first as u32);
        assert(offset % 8 == 0);
        Ok(Some(FragmentDescriptor { buffer_id: r.buffer_id, offset, size: 64 }))
    }

    /// Take the first free 64-byte block off the free lists.
    ///
    /// Each block starts with a version and a link; the link is relative to the
    /// block's successor.
    fn alloc_64_block(&mut self) -> (r: Result<Option<FragmentDescriptor>, LinkMemoryError>)
        requires
            memory_ok(old(self)@),
        ensures
            memory_ok(final(self)@),
            match allocation(old(self)@, 0) {
                Allocation::Exhausted => r == Ok::<Option<FragmentDescriptor>, LinkMemoryError>(
                    None,
                ) && final(self)@ == old(self)@,
                Allocation::Broken => r == Err::<Option<FragmentDescriptor>, LinkMemoryError>(
                    LinkMemoryError::OutOfBounds,
                ) && final(self)@ == old(self)@,
                Allocation::Block(d, m) => r == Ok::<Option<FragmentDescriptor>, LinkMemoryError>(
                    Some(d),
                ) && final(self)@ == m && resolve(final(self)@, d) is Ok && d.size == 64,
            },
    {
        let mut i: usize = 0;
        while i < self.regions.len()
            invariant
                i <= self.regions.len(),
                memory_ok(self@),
                self@ == old(self)@,
                allocation(self@, 0) == allocation(self@, i as int),
            decreases self.regions.len() - i,
        {
            let r = self.regions[i];
            assert(r == self@.regions[i as int]);
            assert(region_fits(self@, r));
            match self.pop_region(r) {
                Ok(None) => {},
                other => {
                    return other;
                },
            }
            i = i + 1;
        }
        Ok(None)
    }

    /// Allocate a 64-byte block and initialize it as a fresh link state.
    /// Returns the descriptor, or `None` when no block is free.
    pub fn try_allocate_link_state(&mut self) -> (r: Result<
        Option<FragmentDescriptor>,
        LinkMemoryError,
    >)
        requires
            memory_ok(old(self)@),
        ensures
            memory_ok(final(self)@),
            match allocation(old(self)@, 0) {
                Allocation::Exhausted => r == Ok::<Option<FragmentDescriptor>, LinkMemoryError>(
                    None,
                ) && final(self)@ == old(self)@,
                Allocation::Broken => r == Err::<Option<FragmentDescriptor>, LinkMemoryError>(
                    LinkMemoryError::OutOfBounds,
                ) && final(self)@ == old(self)@,
                Allocation::Block(d, m) => r == Ok::<Option<FragmentDescriptor>, LinkMemoryError>(
                    Some(d),
                ) && final(self)@ == stored(m, d, 0, fresh_link_state()),
            },
    {
        match self.alloc_64_block() {
            Ok(Some(d)) => {
                let ghost m = self@;
                let mut state: Vec<u8> = Vec::new();
                crate::bytes::push_u32(&mut state, 1);
                crate::bytes::push_zeros(&mut state, 60);
                assert(state@ =~= fresh_link_state());
                self.store(d, 0, state.as_slice());
                proof {
                    lemma_stored_ok(m, d, 0, state@);
                }
                Ok(Some(d))
            },
            other => other,
        }
    }

    /// Allocate a parcel data fragment and write the fragment header and the
    /// data into it. Returns the fragment descriptor.
    pub fn write_parcel_fragment(&mut self, data: &[u8]) -> (r: Result<
        FragmentDescriptor,
        LinkMemoryError,
    >)
        requires
            memory_ok(old(self)@),
        ensures
            memory_ok(final(self)@),
            match parcel_allocation(old(self)@, data@) {
                None => r == Err::<FragmentDescriptor, LinkMemoryError>(
                    LinkMemoryError::OutOfBounds,
                ) && final(self)@ == old(self)@,
                Some((d, m)) => r == Ok::<FragmentDescriptor, LinkMemoryError>(d) && final(self)@
                    == m,
            },
    {
        if data.len() > 56 {
            return Err(LinkMemoryError::OutOfBounds);
        }
        match self.alloc_64_block() {
            Ok(Some(d)) => {
                let ghost m = self@;
                let mut bytes: Vec<u8> = Vec::new();
                crate::bytes::push_u32(&mut bytes, data.len() as u32);
                crate::bytes::push_u32(&mut bytes, 0);
                crate::bytes::push_bytes(&mut bytes, data);
                assert(bytes@ =~= parcel_bytes(data@));
                self.store(d, 0, bytes.as_slice());
                proof {
                    lemma_stored_ok(m, d, 0, bytes@);
                }
                Ok(d)
            },
            _ => Err(LinkMemoryError::OutOfBounds),
        }
    }

    /// Count one more reference to a link state.
    pub fn add_link_state_ref(&mut self, desc: FragmentDescriptor) -> (r: Result<
        (),
        LinkMemoryError,
    >)
        requires
            memory_ok(old(self)@),
        ensures
            memory_ok(final(self)@),
            match resolve_at_least(old(self)@, desc, 4) {
                Err(e) => r == Err::<(), LinkMemoryError>(e) && final(self)@ == old(self)@,
                Ok(s) => r is Ok && final(self)@ == stored(
                    old(self)@,
                    desc,
                    0,
                    crate::bytes::bytes32(next_ref(refs_of(old(self)@, desc))),
                ),
            },
    {
        match self.check_size(desc, 4) {
            Err(e) => Err(e),
            Ok(_) => {
                let refs: u32 = self.word(desc, 0);
                let next: u32 = if refs == 0xffff_ffff {
                    0
                } else {
                    refs + 1
                };
                self.set_word(desc, 0, next);
                Ok(())
            },
        }
    }

    /// Count one reference to a link state less; returns whether it was the
    /// last.
    pub fn release_link_state_ref(&mut self, desc: FragmentDescriptor) -> (r: Result<
        bool,
        LinkMemoryError,
    >)
        requires
            memory_ok(old(self)@),
        ensures
            memory_ok(final(self)@),
            match resolve_at_least(old(self)@, desc, 4) {
                Err(e) => r == Err::<bool, LinkMemoryError>(e) && final(self)@ == old(self)@,
                Ok(s) => {
                    let refs = refs_of(old(self)@, desc);
                    &&& r == Ok::<bool, LinkMemoryError>(refs == 1)
                    &&& final(self)@ == stored(
                        old(self)@,
                        desc,
                        0,
                        crate::bytes::bytes32(previous_ref(refs)),
                    )
                },
            },
    {
        match self.check_size(desc, 4) {
            Err(e) => Err(e),
            Ok(_) => {
                let refs: u32 = self.word(desc, 0);
                let next: u32 = if refs == 0 {
                    0xffff_ffff
                } else {
                    refs - 1
                };
                self.set_word(desc, 0, next);
                Ok(refs == 1)
            },
        }
    }

    /// Whether a descriptor is one of the fixed initial link states, which are
    /// never counted or freed.
    pub fn is_initial_link_state(state: FragmentDescriptor) -> (r: bool)
        ensures
            r == initial_link_state(state),
    {
        state.buffer_id == PRIMARY_BUFFER_ID && state.offset >= 0x100 && state.offset < 0x400
    }

    /// Give a block back to the free list of its region, at the front. Returns
    /// false, with nothing changed, where the descriptor is not a block of a
    /// region.
    pub fn free_block(&mut self, desc: FragmentDescriptor) -> (r: bool)
        requires
            memory_ok(old(self)@),
        ensures
            memory_ok(final(self)@),
            match block_of(old(self)@, desc, 0) {
                None => !r && final(self)@ == old(self)@,
                Some((region, i)) => r && final(self)@ == freed(old(self)@, region, i),
            },
    {
        let mut k: usize = 0;
        while k < self.regions.len()
            invariant
                k <= self.regions.len(),
                memory_ok(self@),
                self@ == old(self)@,
                block_of(self@, desc, 0) == block_of(self@, desc, k as int),
            decreases self.regions.len() - k,
        {
            let region = self.regions[k];
            assert(region == self@.regions[k as int]);
            assert(region_fits(self@, region));
            if desc.buffer_id == region.buffer_id && desc.size == 64 && desc.offset > region.offset
                && (desc.offset - region.offset) % 64 == 0 && (desc.offset - region.offset) / 64
                < region.num_blocks {
                let i: u32 = (desc.offset - region.offset) / 64;
                let first: i32 = self.next_of(region, 0);
                let link: i32 = if first < 0 || first as u32 >= region.num_blocks {
                    0
                } else {
                    first
                };
                let header = encode_block_header(0, i as i32, link);
                let d = FragmentDescriptor {
                    buffer_id: region.buffer_id,
                    offset: region.offset + 64 * i,
                    size: 64,
                };
                let ghost before = self@;
                self.store(d, 0, header.as_slice());
                proof {
                    lemma_stored_ok(before, d, 0, header@);
                    assert(region_fits(self@, self@.regions[k as int]));
                }
                self.set_front(region, i as i32);
                return true;
            }
            k = k + 1;
        }
        false
    }
}

/// The bytes of a parcel fragment: its size word, a zero word and the data.
pub open spec fn parcel_bytes(data: Seq<u8>) -> Seq<u8> {
    crate::bytes::bytes32(data.len() as u32) + crate::bytes::bytes32(0) + data
}

/// The fragment that parcel data is written to, and the memory afterwards;
/// `None` where the data does not fit in a block or no block is to be had.
pub open spec fn parcel_allocation(m: LinkMemoryView, data: Seq<u8>) -> Option<
    (FragmentDescriptor, LinkMemoryView),
> {
    if data.len() > 64 - FRAGMENT_HEADER_SIZE {
        None
    } else {
        match allocation(m, 0) {
            Allocation::Block(d, n) => Some((d, stored(n, d, 0, parcel_bytes(data)))),
            _ => None,
        }
    }
}

/// The reference count of the link state `d`.
pub open spec fn refs_of(m: LinkMemoryView, d: FragmentDescriptor) -> u32 {
    crate::bytes::le32(m.buffers[d.buffer_id], d.offset as int)
}

/// One more than `n`, modulo 2^32.
pub open spec fn next_ref(n: u32) -> u32 {
    if n == u32::MAX {
        0
    } else {
        (n + 1) as u32
    }
}

/// One less than `n`, modulo 2^32.
pub open spec fn previous_ref(n: u32) -> u32 {
    if n == 0 {
        u32::MAX
    } else {
        (n - 1) as u32
    }
}

/// Whether a descriptor is one of the fixed initial link states.
pub open spec fn initial_link_state(d: FragmentDescriptor) -> bool {
    &&& d.buffer_id == PRIMARY_BUFFER_ID
    &&& INITIAL_LINK_STATES_OFFSET <= d.offset < BLOCK_ALLOCATOR_64_OFFSET
}

/// The region, from index `k` on, that has `d` as one of its allocable blocks,
/// and the number of the block.
pub open spec fn block_of(m: LinkMemoryView, d: FragmentDescriptor, k: int) -> Option<
    (BlockRegion, int),
>
    decreases m.regions.len() - k,
{
    if k < 0 || k >= m.regions.len() {
        None
    } else {
        let r = m.regions[k];
        let at = d.offset - r.offset;
        if d.buffer_id == r.buffer_id && d.size == 64 && at > 0 && at % 64 == 0 && at / 64
            < r.num_blocks {
            Some((r, at / 64))
        } else {
            block_of(m, d, k + 1)
        }
    }
}

/// The memory with block `i` of a region at the front of its free list.
pub open spec fn freed(m: LinkMemoryView, r: BlockRegion, i: int) -> LinkMemoryView {
    let first = block_next(m.buffers[r.buffer_id], r, 0);
    let link = if first < 0 || first >= r.num_blocks {
        0
    } else {
        first
    };
    with_front(stored(m, block_descriptor(r, i), 0, block_header(0, i, link)), r, i)
}

/// Whether `list` is the free list of a region, in order: the header links to
/// its first block, each block to the next, and the last back to the header.
pub open spec fn free_list(buffer: Seq<u8>, r: BlockRegion, list: Seq<int>) -> bool {
    &&& forall|i: int| 0 <= i < list.len() ==> 0 < #[trigger] list[i] < r.num_blocks
    &&& forall|i: int, j: int| 0 <= i < j < list.len() ==> list[i] != list[j]
    &&& block_next(buffer, r, 0) == if list.len() == 0 {
        0
    } else {
        list[0]
    }
    &&& forall|i: int|
        0 <= i < list.len() ==> block_next(buffer, r, #[trigger] list[i]) == if i + 1 < list.len() {
            list[i + 1]
        } else {
            0
        }
}

proof fn lemma_header_links(buffer: Seq<u8>, r: BlockRegion, i: int, version: u16, next: int)
    requires
        0 <= i < r.num_blocks <= 0x7fff,
        0 <= next < r.num_blocks,
        r.offset + 64 * r.num_blocks <= buffer.len(),
    ensures
        block_next(
            crate::bytes::overwrite(buffer, block_offset(r, i), block_header(version, i, next)),
            r,
            i,
        ) == next,
{
    let o = block_offset(r, i);
    let h = block_header(version, i, next);
    let b = crate::bytes::overwrite(buffer, o, h);
    crate::bytes::lemma_overwrite_here(buffer, o, h);
    let word = unsigned16(next - i - 1);
    assert(b.subrange(o + 2, o + 4) =~= b.subrange(o, o + 4).subrange(2, 4));
    assert(h.subrange(2, 4) =~= crate::bytes::bytes16(word));
    crate::bytes::lemma_le16_of_bytes(b, o + 2, word);
}

proof fn lemma_links_apart(buffer: Seq<u8>, r: BlockRegion, i: int, o: int, new: Seq<u8>)
    requires
        0 <= i < r.num_blocks,
        r.offset + 64 * r.num_blocks <= buffer.len(),
        block_offset(r, i) + 64 <= o || o + new.len() <= block_offset(r, i),
    ensures
        block_next(crate::bytes::overwrite(buffer, o, new), r, i) == block_next(buffer, r, i),
{
    crate::bytes::lemma_overwrite_apart16(buffer, o, new, block_offset(r, i) + 2);
}

/// Allocation takes the first block of the free list and leaves the rest of
/// the list, in order. A block is thus not handed out again until it is freed.
pub proof fn law_allocation_takes_first(m: LinkMemoryView, list: Seq<int>)
    requires
        memory_ok(m),
        m.regions.len() > 0,
        list.len() > 0,
        free_list(m.buffers[m.regions[0].buffer_id], m.regions[0], list),
    ensures
        ({
            let r = m.regions[0];
            let after = with_front(
                m,
                r,
                if list.len() > 1 {
                    list[1]
                } else {
                    0
                },
            );
            &&& allocation(m, 0) == Allocation::Block(block_descriptor(r, list[0]), after)
            &&& free_list(after.buffers[r.buffer_id], r, list.skip(1))
        }),
{
    let r = m.regions[0];
    assert(region_fits(m, r));
    let b = m.buffers[r.buffer_id];
    let next = if list.len() > 1 {
        list[1]
    } else {
        0
    };
    assert(block_next(b, r, list[0]) == next);
    let header = block_header(next_version(crate::bytes::le16(b, r.offset as int)), 0, next);
    let after = with_front(m, r, next).buffers[r.buffer_id];
    assert(after == crate::bytes::overwrite(b, block_offset(r, 0), header));
    lemma_header_links(b, r, 0, next_version(crate::bytes::le16(b, r.offset as int)), next);
    let rest = list.skip(1);
    assert forall|i: int| 0 <= i < rest.len() implies block_next(after, r, #[trigger] rest[i])
        == if i + 1 < rest.len() {
        rest[i + 1]
    } else {
        0
    } by {
        assert(rest[i] == list[i + 1]);
        lemma_links_apart(b, r, rest[i], block_offset(r, 0), header);
        assert(block_next(b, r, list[i + 1]) == block_next(after, r, rest[i]));
    }
}

/// Whatever is written into a block that is not free leaves the free list as
/// it is.
pub proof fn law_block_contents_keep_free_list(
    m: LinkMemoryView,
    r: BlockRegion,
    list: Seq<int>,
    i: int,
    o: int,
    new: Seq<u8>,
)
    requires
        region_fits(m, r),
        free_list(m.buffers[r.buffer_id], r, list),
        0 < i < r.num_blocks,
        forall|k: int| 0 <= k < list.len() ==> #[trigger] list[k] != i,
        0 <= o,
        o + new.len() <= 64,
    ensures
        free_list(stored(m, block_descriptor(r, i), o, new).buffers[r.buffer_id], r, list),
{
    let b = m.buffers[r.buffer_id];
    let at = block_offset(r, i) + o;
    let after = stored(m, block_descriptor(r, i), o, new).buffers[r.buffer_id];
    lemma_links_apart(b, r, 0, at, new);
    assert forall|k: int| 0 <= k < list.len() implies block_next(after, r, #[trigger] list[k])
        == if k + 1 < list.len() {
        list[k + 1]
    } else {
        0
    } by {
        lemma_links_apart(b, r, list[k], at, new);
        assert(block_next(b, r, list[k]) == block_next(after, r, list[k]));
    }
}

/// A freed block goes to the front of the free list: it is the next to be
/// allocated.
pub proof fn law_freed_block_is_first(m: LinkMemoryView, r: BlockRegion, list: Seq<int>, i: int)
    requires
        region_fits(m, r),
        free_list(m.buffers[r.buffer_id], r, list),
        0 < i < r.num_blocks,
        forall|k: int| 0 <= k < list.len() ==> #[trigger] list[k] != i,
    ensures
        free_list(freed(m, r, i).buffers[r.buffer_id], r, seq![i] + list),
{
    let b = m.buffers[r.buffer_id];
    let link = block_next(b, r, 0);
    assert(0 <= link < r.num_blocks);
    let mid = stored(m, block_descriptor(r, i), 0, block_header(0, i, link));
    let c = mid.buffers[r.buffer_id];
    assert(c == crate::bytes::overwrite(b, block_offset(r, i), block_header(0, i, link)));
    let version = next_version(crate::bytes::le16(c, r.offset as int));
    let header = block_header(version, 0, i);
    let after = freed(m, r, i).buffers[r.buffer_id];
    assert(after == crate::bytes::overwrite(c, block_offset(r, 0), header));
    lemma_header_links(b, r, i, 0, link);
    lemma_header_links(c, r, 0, version, i);
    lemma_links_apart(c, r, i, block_offset(r, 0), header);
    let all = seq![i] + list;
    assert forall|k: int| 0 <= k < all.len() implies block_next(after, r, #[trigger] all[k])
        == if k + 1 < all.len() {
        all[k + 1]
    } else {
        0
    } by {
        if k > 0 {
            assert(all[k] == list[k - 1]);
            lemma_links_apart(b, r, list[k - 1], block_offset(r, i), block_header(0, i, link));
            lemma_links_apart(c, r, list[k - 1], block_offset(r, 0), header);
            assert(block_next(b, r, list[k - 1]) == block_next(after, r, all[k]));
        }
    }
}

/// Parcel data that was written to a fragment is read back from it.
pub proof fn law_parcel_fragment_round_trip(m: LinkMemoryView, data: Seq<u8>)
    requires
        memory_ok(m),
        parcel_allocation(m, data) is Some,
    ensures
        ({
            let (d, after) = parcel_allocation(m, data).unwrap();
            parcel_in(after, d) == Ok::<Seq<u8>, LinkMemoryError>(data)
        }),
{
    lemma_allocation_in_region(m, 0);
    let (d, after) = parcel_allocation(m, data).unwrap();
    let n = allocation(m, 0)->Block_1;
    let b = n.buffers[d.buffer_id];
    let bytes = parcel_bytes(data);
    let c = after.buffers[d.buffer_id];
    crate::bytes::lemma_overwrite_here(b, d.offset as int, bytes);
    let s = resolve(after, d)->Ok_0;
    assert(s.subrange(0, bytes.len() as int) =~= c.subrange(
        d.offset as int,
        d.offset + bytes.len(),
    ));
    assert(s.subrange(0, 4) =~= s.subrange(0, bytes.len() as int).subrange(0, 4));
    assert(bytes.subrange(0, 4) =~= crate::bytes::bytes32(data.len() as u32));
    crate::bytes::lemma_le32_of_bytes(s, 0, data.len() as u32);
    assert(s.subrange(8, 8 + data.len() as int) =~= s.subrange(0, bytes.len() as int).subrange(
        8,
        8 + data.len() as int,
    ));
    assert(bytes.subrange(8, 8 + data.len() as int) =~= data);
}

proof fn lemma_allocation_in_region(m: LinkMemoryView, i: int)
    requires
        memory_ok(m),
        0 <= i,
    ensures
        allocation(m, i) matches Allocation::Block(d, n) ==> d.size == 64 && resolve(n, d) is Ok
            && n.buffers.contains_key(d.buffer_id) && n.buffers.dom() == m.buffers.dom(),
    decreases m.regions.len() - i,
{
    if i < m.regions.len() {
        let r = m.regions[i];
        assert(region_fits(m, r));
        match first_free(m.buffers[r.buffer_id], r) {
            BlockPop::Exhausted => lemma_allocation_in_region(m, i + 1),
            BlockPop::Broken => {},
            BlockPop::Block(first, next) => {
                let d = block_descriptor(r, first);
                assert(d.offset % 8 == 0);
                assert(with_front(m, r, next).buffers.dom() =~= m.buffers.dom());
            },
        }
    }
}

/// The regions of a list that are not in buffer `id`.
pub open spec fn regions_without(regions: Seq<BlockRegion>, id: u64) -> Seq<BlockRegion>
    decreases regions.len(),
{
    if regions.len() == 0 {
        Seq::empty()
    } else if regions.last().buffer_id == id {
        regions_without(regions.drop_last(), id)
    } else {
        regions_without(regions.drop_last(), id).push(regions.last())
    }
}

/// The number of 64-byte blocks in a buffer of `len` bytes.
pub open spec fn blocks_in(len: nat) -> u32 {
    if len / 64 > 0x7fff {
        0x7fff
    } else {
        (len / 64) as u32
    }
}

/// The memory with the buffer `id` added: it takes the place of an earlier
/// buffer of that id, and blocks are allocated from it where it is a buffer of
/// 64-byte blocks. The primary buffer is not replaced.
pub open spec fn with_buffer(
    m: LinkMemoryView,
    id: u64,
    contents: Seq<u8>,
    block_size: u32,
) -> LinkMemoryView {
    if id == PRIMARY_BUFFER_ID {
        m
    } else {
        LinkMemoryView {
            buffers: m.buffers.insert(id, contents),
            regions: if block_size == 64 && contents.len() >= 64 && id != u64::MAX {
                regions_without(m.regions, id).push(
                    BlockRegion { buffer_id: id, offset: 0, num_blocks: blocks_in(contents.len()) },
                )
            } else {
                regions_without(m.regions, id)
            },
        }
    }
}

/// The contents of a buffer with its blocks free: each block links to the
/// next, the last back to block 0.
pub open spec fn with_free_blocks(contents: Seq<u8>) -> Seq<u8> {
    let n = blocks_in(contents.len()) as int;
    Seq::new(
        contents.len(),
        |j: int|
            if j / 64 < n && j % 64 < 4 {
                if j / 64 == n - 1 {
                    block_header(0, n - 1, 0)[j % 64]
                } else {
                    0
                }
            } else {
                contents[j]
            },
    )
}

proof fn lemma_regions_without(regions: Seq<BlockRegion>, id: u64)
    ensures
        forall|i: int|
            0 <= i < regions_without(regions, id).len() ==> {
                &&& (#[trigger] regions_without(regions, id)[i]).buffer_id != id
                &&& regions.contains(regions_without(regions, id)[i])
            },
    decreases regions.len(),
{
    if regions.len() > 0 {
        let init = regions.drop_last();
        lemma_regions_without(init, id);
        assert forall|i: int| 0 <= i < regions_without(regions, id).len() implies {
            &&& (#[trigger] regions_without(regions, id)[i]).buffer_id != id
            &&& regions.contains(regions_without(regions, id)[i])
        } by {
            let x = regions_without(regions, id)[i];
            if i < regions_without(init, id).len() {
                assert(x == regions_without(init, id)[i]);
                assert(init.contains(x));
                let k = choose|k: int| 0 <= k < init.len() && init[k] == x;
                assert(regions[k] == x);
            } else {
                assert(x == regions.last());
                assert(regions[regions.len() - 1] == x);
            }
        }
    }
}

proof fn lemma_with_buffer_ok(m: LinkMemoryView, id: u64, contents: Seq<u8>, block_size: u32)
    requires
        memory_ok(m),
    ensures
        memory_ok(with_buffer(m, id, contents, block_size)),
{
    if id != PRIMARY_BUFFER_ID {
        let n = with_buffer(m, id, contents, block_size);
        let kept = regions_without(m.regions, id);
        lemma_regions_without(m.regions, id);
        assert forall|i: int| 0 <= i < n.regions.len() implies region_fits(
            n,
            #[trigger] n.regions[i],
        ) by {
            if i < kept.len() {
                assert(n.regions[i] == kept[i]);
                let k = choose|k: int| 0 <= k < m.regions.len() && m.regions[k] == kept[i];
                assert(region_fits(m, m.regions[k]));
            } else {
                let len = contents.len() as int;
                assert(64 * (len / 64) <= len);
            }
        }
    }
}

fn init_free_blocks(contents: Vec<u8>) -> (out: Vec<u8>)
    requires
        contents@.len() >= 64,
    ensures
        out@ == with_free_blocks(contents@),
{
    let mut out = contents;
    let n: usize = if out.len() / 64 > 0x7fff {
        0x7fff
    } else {
        out.len() / 64
    };
    let mut i: usize = 0;
    let ghost c = contents@;
    while i < n
        invariant
            i <= n,
            c == contents@,
            n == blocks_in(c.len()),
            out@.len() == c.len(),
            forall|j: int|
                0 <= j < c.len() ==> #[trigger] out@[j] == if j / 64 < i {
                    with_free_blocks(c)[j]
                } else {
                    c[j]
                },
        decreases n - i,
    {
        let ghost before = out@;
        let header: Vec<u8> = if i == n - 1 {
            encode_block_header(0, i as i32, 0)
        } else {
            encode_block_header(0, i as i32, i as i32 + 1)
        };
        proof {
            if i < n - 1 {
                assert(header@ =~= seq![0u8, 0u8, 0u8, 0u8]);
            }
            assert(64 * (c.len() as int / 64) <= c.len());
        }
        put_bytes(&mut out, 64 * i, header.as_slice());
        i = i + 1;
        assert forall|j: int| 0 <= j < c.len() implies #[trigger] out@[j] == if j / 64 < i {
            with_free_blocks(c)[j]
        } else {
            c[j]
        } by {
            assert(before[j] == if j / 64 < i - 1 {
                with_free_blocks(c)[j]
            } else {
                c[j]
            });
            if j / 64 == i - 1 {
                assert(j == 64 * (i - 1) + j % 64);
            }
        }
    }
    assert(out@ =~= with_free_blocks(c));
    out
}

impl LinkMemory {
    fn drop_regions(&mut self, id: u64)
        ensures
            final(self).primary == old(self).primary,
            final(self).extra == old(self).extra,
            final(self).regions@ == regions_without(old(self).regions@, id),
    {
        let mut kept: Vec<BlockRegion> = Vec::new();
        let mut i: usize = 0;
        while i < self.regions.len()
            invariant
                i <= self.regions.len(),
                *self == *old(self),
                kept@ == regions_without(self.regions@.take(i as int), id),
            decreases self.regions.len() - i,
        {
            let r = self.regions[i];
            assert(self.regions@.take(i + 1).drop_last() =~= self.regions@.take(i as int));
            if r.buffer_id != id {
                kept.push(r);
            }
            i = i + 1;
        }
        assert(self.regions@.take(self.regions@.len() as int) =~= self.regions@);
        self.regions = kept;
    }

    /// Add a buffer to the link memory, with the blocks that it already has.
    pub fn add_block_buffer(&mut self, id: u64, contents: Vec<u8>, block_size: u32)
        requires
            memory_ok(old(self)@),
        ensures
            memory_ok(final(self)@),
            final(self)@ == with_buffer(old(self)@, id, contents@, block_size),
    {
        proof {
            lemma_with_buffer_ok(self@, id, contents@, block_size);
        }
        if id == PRIMARY_BUFFER_ID {
            return ;
        }
        let ghost before = self@;
        self.drop_regions(id);
        let len: usize = contents.len();
        self.extra.insert(id, contents);
        if block_size == 64 && len >= 64 && id != u64::MAX {
            let num_blocks: u32 = if len / 64 > 0x7fff {
                0x7fff
            } else {
                (len / 64) as u32
            };
            self.regions.push(BlockRegion { buffer_id: id, offset: 0, num_blocks });
        }
        assert(self@.buffers =~= with_buffer(before, id, contents@, block_size).buffers);
    }

    /// Add a new buffer to the link memory, with all its blocks free.
    pub fn register_block_buffer(&mut self, id: u64, contents: Vec<u8>, block_size: u32)
        requires
            memory_ok(old(self)@),
        ensures
            memory_ok(final(self)@),
            final(self)@ == with_buffer(
                old(self)@,
                id,
                if contents@.len() >= 64 {
                    with_free_blocks(contents@)
                } else {
                    contents@
                },
                block_size,
            ),
    {
        if contents.len() >= 64 {
            let fresh = init_free_blocks(contents);
            self.add_block_buffer(id, fresh, block_size);
        } else {
            self.add_block_buffer(id, contents, block_size);
        }
    }

    /// Whether any buffer beside the primary one is held.
    pub fn has_extra_buffers(&self) -> (r: bool)
        ensures
            r == has_extra(self@),
    {
        let n: usize = self.extra.len();
        let shadowed: bool = self.extra.contains_key(&PRIMARY_BUFFER_ID);
        proof {
            let dom = self.extra@.dom();
            let rest = dom.remove(PRIMARY_BUFFER_ID);
            if rest.len() > 0 {
                let id = rest.choose();
                assert(rest.contains(id));
                assert(self@.buffers.contains_key(id));
            } else {
                assert(rest =~= Set::empty());
                assert forall|id: u64| id != PRIMARY_BUFFER_ID implies !(
                #[trigger] self@.buffers.contains_key(id)) by {
                    assert(!rest.contains(id));
                }
            }
        }
        if shadowed {
            n > 1
        } else {
            n > 0
        }
    }
}

/// Whether a memory has a buffer beside the primary one.
pub open spec fn has_extra(m: LinkMemoryView) -> bool {
    exists|id: u64| id != PRIMARY_BUFFER_ID && #[trigger] m.buffers.contains_key(id)
}

/// A newly registered buffer has all its blocks but the first on its free
/// list, in order.
pub proof fn law_fresh_buffer_is_free(contents: Seq<u8>, r: BlockRegion)
    requires
        contents.len() >= 64,
        r.offset == 0,
        r.num_blocks == blocks_in(contents.len()),
    ensures
        free_list(
            with_free_blocks(contents),
            r,
            Seq::new((r.num_blocks - 1) as nat, |i: int| i + 1),
        ),
{
    let n = r.num_blocks as int;
    let b = with_free_blocks(contents);
    let len = contents.len() as int;
    assert(64 * (len / 64) <= len);
    let list = Seq::new((n - 1) as nat, |i: int| i + 1);
    assert forall|i: int| 0 <= i < n implies block_next(b, r, i) == if i < n - 1 {
        i + 1
    } else {
        0
    } by {
        let o = 64 * i + 2;
        assert(o / 64 == i && o % 64 == 2 && (o + 1) / 64 == i && (o + 1) % 64 == 3);
        if i == n - 1 {
            let h = block_header(0, n - 1, 0);
            let word = unsigned16(-n);
            assert(h[2] == crate::bytes::bytes16(word)[0] && h[3] == crate::bytes::bytes16(
                word,
            )[1]);
            assert(b.subrange(o, o + 2) =~= crate::bytes::bytes16(word));
            crate::bytes::lemma_le16_of_bytes(b, o, word);
        }
    }
}

} // verus!
