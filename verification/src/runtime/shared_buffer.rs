//! Shared buffers: regions of memory with duplicate, map and unmap.
//!
//! * Creation rejects an empty buffer and sizes above `i32::MAX`.
//! * A buffer is created writable. Its first duplicate fixes the mode, for the
//!   buffer and all its duplicates, to either writable or read-only; a later
//!   duplicate of the other kind is refused.
//! * A mapping must be a non-empty part of the buffer; any offset will do.
//! * Unmapping is by address, through a table.

use std::collections::HashMap;
use vstd::prelude::*;

use crate::runtime::dispatcher::{Dispatcher, DispatcherType};
use crate::runtime::error::CoreError;

verus! {

broadcast use vstd::std_specs::hash::group_hash_axioms;

/// The size of a page: mappings start at a multiple of it.
pub const PAGE_SIZE: usize = 4096;

/// The largest size of a buffer.
pub const MAX_BUFFER_SIZE: u64 = 2147483647;

/// The access mode of a shared buffer.
#[derive(Debug, Clone, Copy, PartialEq, Eq, Structural)]
pub enum BufferMode {
    /// Created writable; only this mode is converted by duplication.
    Writable,
    /// Duplicated without the read-only flag: writable but no longer
    /// convertible to read-only.
    Unsafe,
    /// Read-only (duplicated with the read-only flag, or derived from it).
    ReadOnly,
}

/// The regions of memory behind the shared buffers.
#[derive(Debug)]
pub struct Regions {
    /// The contents of each region.
    pub pages: Vec<Vec<u8>>,
}

impl View for Regions {
    type V = Seq<Seq<u8>>;

    open spec fn view(&self) -> Seq<Seq<u8>> {
        self.pages@.map_values(|p: Vec<u8>| p@)
    }
}

impl Regions {
    /// No regions.
    pub fn new() -> (r: Regions)
        ensures
            r@ == Seq::<Seq<u8>>::empty(),
    {
        let r = Regions { pages: Vec::new() };
        assert(r@ =~= Seq::empty());
        r
    }

    /// Add a region of `len` zero bytes, and return its number.
    pub fn allocate(&mut self, len: usize) -> (r: usize)
        ensures
            r == old(self)@.len(),
            final(self)@ == old(self)@.push(Seq::new(len as nat, |i: int| 0u8)),
    {
        let n: usize = self.pages.len();
        let mut page: Vec<u8> = Vec::new();
        page.resize(len, 0);
        assert(page@ =~= Seq::new(len as nat, |i: int| 0u8));
        self.pages.push(page);
        assert(self@ =~= old(self)@.push(Seq::new(len as nat, |i: int| 0u8)));
        n
    }
}

/// A shared buffer. All buffers that were duplicated from one another share
/// the same region.
#[derive(Debug, PartialEq, Eq)]
pub struct SharedBuffer {
    /// The number of the region.
    pub region: usize,
    /// The size in bytes.
    pub size: u64,
    /// The access mode.
    pub mode: BufferMode,
}

/// What the creation of a shared buffer comes to, and the regions after it.
pub open spec fn creation(regions: Seq<Seq<u8>>, num_bytes: u64) -> (
    Result<SharedBuffer, CoreError>,
    Seq<Seq<u8>>,
) {
    if num_bytes == 0 || num_bytes > MAX_BUFFER_SIZE {
        (Err(CoreError::ResourceExhausted), regions)
    } else {
        (
            Ok(
                SharedBuffer {
                    region: regions.len() as usize,
                    size: num_bytes,
                    mode: BufferMode::Writable,
                },
            ),
            regions.push(Seq::new(num_bytes as nat, |i: int| 0u8)),
        )
    }
}

/// The mode that a duplicate of this kind calls for.
pub open spec fn required_mode(read_only: bool) -> BufferMode {
    if read_only {
        BufferMode::ReadOnly
    } else {
        BufferMode::Unsafe
    }
}

impl SharedBuffer {
    /// The mode after a request for a duplicate of this kind.
    pub open spec fn fixed_mode(self, read_only: bool) -> BufferMode {
        if self.mode == BufferMode::Writable {
            required_mode(read_only)
        } else {
            self.mode
        }
    }

    /// Whether the range is a non-empty part of the buffer.
    pub open spec fn has_range(self, offset: u64, num_bytes: u64) -> bool {
        num_bytes > 0 && offset + num_bytes <= self.size
    }

    /// What a request for a duplicate of this kind comes to, and the buffer
    /// after it.
    pub open spec fn duplication(self, read_only: bool) -> (
        Result<SharedBuffer, CoreError>,
        SharedBuffer,
    ) {
        let after = SharedBuffer { mode: self.fixed_mode(read_only), ..self };
        (
            if after.mode == required_mode(read_only) {
                Ok(after)
            } else {
                Err(CoreError::FailedPrecondition)
            },
            after,
        )
    }

    /// What mapping a range comes to, with the first page at `page`.
    pub open spec fn mapped(self, offset: u64, num_bytes: u64, page: usize) -> Result<
        BufferMapping,
        CoreError,
    > {
        if self.has_range(offset, num_bytes) {
            Ok(
                BufferMapping {
                    region: self.region,
                    start: offset as usize,
                    len: num_bytes as usize,
                    address: (page + offset % (PAGE_SIZE as u64)) as usize,
                    writable: self.mode != BufferMode::ReadOnly,
                },
            )
        } else {
            Err(CoreError::ResourceExhausted)
        }
    }

    /// Create a writable shared buffer of `num_bytes` zero bytes. Returns
    /// `ResourceExhausted` for empty or oversized requests.
    pub fn create(regions: &mut Regions, num_bytes: u64) -> (r: Result<SharedBuffer, CoreError>)
        ensures
            (r, final(regions)@) == creation(old(regions)@, num_bytes),
    {
        if num_bytes == 0 || num_bytes > MAX_BUFFER_SIZE {
            return Err(CoreError::ResourceExhausted);
        }
        let region: usize = regions.allocate(num_bytes as usize);
        Ok(SharedBuffer { region, size: num_bytes, mode: BufferMode::Writable })
    }

    /// Duplicate this buffer: a new buffer over the same region. A writable
    /// buffer is converted first; `FailedPrecondition` if the mode is not the
    /// one asked for.
    pub fn duplicate(&mut self, read_only: bool) -> (r: Result<SharedBuffer, CoreError>)
        ensures
            (r, *final(self)) == old(self).duplication(read_only),
    {
        let required = if read_only {
            BufferMode::ReadOnly
        } else {
            BufferMode::Unsafe
        };
        if self.mode == BufferMode::Writable {
            self.mode = required;
        }
        if self.mode != required {
            return Err(CoreError::FailedPrecondition);
        }
        Ok(SharedBuffer { region: self.region, size: self.size, mode: self.mode })
    }

    /// The size of the buffer in bytes.
    pub fn size(&self) -> (r: u64)
        ensures
            r == self.size,
    {
        self.size
    }

    /// Map `num_bytes` at byte offset `offset`, with the first page of the
    /// mapping at the address `page`. Any invalid range (empty, or beyond the
    /// buffer) returns `ResourceExhausted`. Read-only buffers give read-only
    /// mappings.
    pub fn map(&self, offset: u64, num_bytes: u64, page: usize) -> (r: Result<
        BufferMapping,
        CoreError,
    >)
        requires
            page % PAGE_SIZE == 0,
            page + PAGE_SIZE <= usize::MAX,
            self.size <= MAX_BUFFER_SIZE,
        ensures
            r == self.mapped(offset, num_bytes, page),
    {
        if num_bytes == 0 || offset > self.size || num_bytes > self.size - offset {
            return Err(CoreError::ResourceExhausted);
        }
        Ok(
            BufferMapping {
                region: self.region,
                start: offset as usize,
                len: num_bytes as usize,
                address: page + (offset % (PAGE_SIZE as u64)) as usize,
                writable: self.mode != BufferMode::ReadOnly,
            },
        )
    }
}

/// An active mapping of a part of a shared buffer.
#[derive(Debug, Clone, Copy, PartialEq, Eq, Structural)]
pub struct BufferMapping {
    /// The number of the region.
    pub region: usize,
    /// The offset in the region.
    pub start: usize,
    /// The mapped length.
    pub len: usize,
    /// The start address of the mapping.
    pub address: usize,
    /// Whether the mapping can be written.
    pub writable: bool,
}

impl BufferMapping {
    /// Whether the mapping lies in its region.
    pub open spec fn within(self, regions: Seq<Seq<u8>>) -> bool {
        self.region < regions.len() && self.start + self.len <= regions[self.region as int].len()
    }

    /// What a read at an offset in the mapping gives.
    pub open spec fn read_of(self, regions: Seq<Seq<u8>>, offset: usize, len: usize) -> Option<
        Seq<u8>,
    > {
        if offset + len <= self.len {
            Some(
                regions[self.region as int].subrange(
                    self.start + offset,
                    self.start + offset + len,
                ),
            )
        } else {
            None
        }
    }

    /// Whether a write at an offset in the mapping is taken, and the regions
    /// after it.
    pub open spec fn write_of(self, regions: Seq<Seq<u8>>, offset: usize, content: Seq<u8>) -> (
        bool,
        Seq<Seq<u8>>,
    ) {
        if self.writable && offset + content.len() <= self.len {
            let b = regions[self.region as int];
            let o = self.start + offset;
            (
                true,
                regions.update(
                    self.region as int,
                    b.take(o) + content + b.skip(o + content.len()),
                ),
            )
        } else {
            (false, regions)
        }
    }

    /// The start address of the mapping.
    pub fn address(&self) -> (r: usize)
        ensures
            r == self.address,
    {
        self.address
    }

    /// The mapped length.
    pub fn len(&self) -> (r: usize)
        ensures
            r == self.len,
    {
        self.len
    }

    /// Whether the mapping is empty.
    pub fn is_empty(&self) -> (r: bool)
        ensures
            r == (self.len == 0),
    {
        self.len == 0
    }

    /// The mapped bytes.
    pub fn bytes(&self, regions: &Regions) -> (r: Vec<u8>)
        requires
            self.within(regions@),
        ensures
            r@ == regions@[self.region as int].subrange(self.start as int, self.start + self.len),
    {
        let page = &regions.pages[self.region];
        let mut out: Vec<u8> = Vec::new();
        let mut i: usize = 0;
        while i < self.len
            invariant
                i <= self.len,
                self.start + self.len <= page@.len(),
                out@ == page@.subrange(self.start as int, self.start + i),
            decreases self.len - i,
        {
            assert(page.len() == page@.len());
            out.push(page[self.start + i]);
            i = i + 1;
            assert(out@ =~= page@.subrange(self.start as int, self.start + i));
        }
        out
    }

    /// Read `len` bytes at byte `offset` within the mapping; `None` if they do
    /// not lie in it.
    pub fn read_at(&self, regions: &Regions, offset: usize, len: usize) -> (r: Option<Vec<u8>>)
        requires
            self.within(regions@),
        ensures
            match r {
                Some(b) => self.read_of(regions@, offset, len) == Some(b@),
                None => self.read_of(regions@, offset, len) is None,
            },
    {
        if offset > self.len || len > self.len - offset {
            return None;
        }
        assert(regions.pages@[self.region as int].len()
            == regions@[self.region as int].len());
        let part = BufferMapping {
            region: self.region,
            start: self.start + offset,
            len,
            address: self.address,
            writable: self.writable,
        };
        Some(part.bytes(regions))
    }

    /// Write `content` at byte `offset` within the mapping. A read-only
    /// mapping and a range beyond the mapping are refused.
    pub fn write_at(&self, regions: &mut Regions, offset: usize, content: &[u8]) -> (r: bool)
        requires
            self.within(old(regions)@),
        ensures
            (r, final(regions)@) == self.write_of(old(regions)@, offset, content@),
    {
        if !self.writable {
            return false;
        }
        if offset > self.len || content.len() > self.len - offset {
            return false;
        }
        let ghost old_page = regions.pages@[self.region as int]@;
        assert(regions.pages@[self.region as int].len() == old_page.len());
        let o: usize = self.start + offset;
        let mut page: Vec<u8> = Vec::new();
        let ghost all = regions.pages@;
        page.append(&mut regions.pages[self.region]);
        assert(page@ =~= old_page);
        let mut i: usize = 0;
        while i < content.len()
            invariant
                i <= content@.len(),
                o + content@.len() <= old_page.len(),
                page@.len() == old_page.len(),
                forall|k: int|
                    0 <= k < old_page.len() ==> #[trigger] page@[k] == if o <= k < o + i {
                        content@[k - o]
                    } else {
                        old_page[k]
                    },
            decreases content@.len() - i,
        {
            assert(page.len() == old_page.len());
            page.set(o + i, content[i]);
            i = i + 1;
        }
        assert(page@ =~= old_page.take(o as int) + content@ + old_page.skip(o + content@.len()));
        regions.pages.set(self.region, page);
        assert(regions@ =~= old(regions)@.update(self.region as int, page@));
        true
    }
}

/// The table of mappings by address.
#[derive(Debug)]
pub struct MappingTable {
    /// The mappings by address.
    pub mappings: HashMap<usize, BufferMapping>,
}

impl View for MappingTable {
    type V = Map<usize, BufferMapping>;

    open spec fn view(&self) -> Map<usize, BufferMapping> {
        self.mappings@
    }
}

impl MappingTable {
    /// An empty table.
    pub fn new() -> (r: MappingTable)
        ensures
            r@ == Map::<usize, BufferMapping>::empty(),
    {
        MappingTable { mappings: HashMap::new() }
    }

    /// Insert a mapping and return its address.
    pub fn add(&mut self, mapping: BufferMapping) -> (r: usize)
        ensures
            r == mapping.address,
            final(self)@ == old(self)@.insert(mapping.address, mapping),
    {
        self.mappings.insert(mapping.address, mapping);
        mapping.address
    }

    /// Remove the mapping at `address`: `InvalidArgument` when the address is
    /// not mapped.
    pub fn remove(&mut self, address: usize) -> (r: Result<(), CoreError>)
        ensures
            r == if old(self)@.contains_key(address) {
                Ok::<(), CoreError>(())
            } else {
                Err::<(), CoreError>(CoreError::InvalidArgument)
            },
            final(self)@ == old(self)@.remove(address),
    {
        let ghost before = self@;
        match self.mappings.remove(&address) {
            Some(_) => Ok(()),
            None => {
                assert(before.remove(address) =~= before);
                Err(CoreError::InvalidArgument)
            },
        }
    }

    /// Look up the mapping at `address`.
    pub fn get(&self, address: usize) -> (r: Option<BufferMapping>)
        ensures
            r == if self@.contains_key(address) {
                Some(self@[address])
            } else {
                None::<BufferMapping>
            },
    {
        match self.mappings.get(&address) {
            Some(m) => Some(*m),
            None => None,
        }
    }
}

impl Default for MappingTable {
    fn default() -> (r: MappingTable)
        ensures
            r@ == Map::<usize, BufferMapping>::empty(),
    {
        MappingTable::new()
    }
}

impl Dispatcher for SharedBuffer {
    open spec fn kind(&self) -> DispatcherType {
        DispatcherType::SharedBuffer
    }

    open spec fn duplicable(&self) -> bool {
        true
    }

    fn dispatcher_type(&self) -> (r: DispatcherType) {
        DispatcherType::SharedBuffer
    }

    fn is_duplicable(&self) -> (r: bool) {
        true
    }
}

/// The first duplicate fixes the mode for good: from then on every duplicate
/// of the other kind is refused, of the buffer and of its duplicates alike.
pub proof fn law_mode_is_fixed(b: SharedBuffer, first: bool, later: bool)
    requires
        b.mode == BufferMode::Writable,
    ensures
        ({
            let fixed = SharedBuffer { mode: b.fixed_mode(first), ..b };
            &&& fixed.mode == required_mode(first)
            &&& fixed.fixed_mode(later) == fixed.mode
            &&& (fixed.fixed_mode(later) == required_mode(later)) == (first == later)
        }),
{
}

/// What one mapping writes, every mapping that covers it reads: two mappings
/// of one region see the same bytes.
pub proof fn law_mappings_share_pages(
    regions: Seq<Seq<u8>>,
    w: BufferMapping,
    r: BufferMapping,
    content: Seq<u8>,
)
    requires
        w.within(regions),
        r.within(regions),
        w.region == r.region,
        r.start <= w.start,
        w.start + content.len() <= r.start + r.len,
        content.len() <= w.len,
    ensures
        ({
            let b = regions[w.region as int];
            let o = w.start as int;
            let after = b.take(o) + content + b.skip(o + content.len());
            after.subrange(r.start + (w.start - r.start), r.start + (w.start - r.start)
                + content.len()) == content
        }),
{
    let b = regions[w.region as int];
    let o = w.start as int;
    let after = b.take(o) + content + b.skip(o + content.len());
    assert(after.subrange(o, o + content.len()) =~= content);
}

/// A buffer is created for any size from one to the largest, with that many zero
/// bytes behind it in a region of its own; other regions stay.
pub proof fn law_created_buffer_is_blank(regions: Seq<Seq<u8>>, n: u64, i: int)
    requires
        regions.len() < usize::MAX,
    ensures
        ({
            let (r, after) = creation(regions, n);
            &&& r is Ok == (1 <= n <= 2147483647)
            &&& r matches Err(e) ==> e == CoreError::ResourceExhausted && after == regions
            &&& r matches Ok(b) ==> {
                &&& b.size == n
                &&& b.region == regions.len()
                &&& after.len() == regions.len() + 1
                &&& after[b.region as int].len() == n
                &&& 0 <= i < n ==> after[b.region as int][i] == 0
                &&& after.take(regions.len() as int) == regions
                &&& b.duplication(true).0 is Ok && b.duplication(false).0 is Ok
            }
        }),
{
    let after = creation(regions, n).1;
    if 1 <= n <= 2147483647 {
        assert(after.take(regions.len() as int) =~= regions);
    }
}

/// A duplicate has the region and the size of its buffer, and both then have
/// the same mode: read-only exactly where that was asked for. A refused request
/// changes nothing.
pub proof fn law_duplicate_shares_region(b: SharedBuffer, read_only: bool)
    ensures
        ({
            let (r, after) = b.duplication(read_only);
            &&& after.region == b.region && after.size == b.size
            &&& r matches Ok(d) ==> d == after && (d.mode == BufferMode::ReadOnly) == read_only
                && d.mode != BufferMode::Writable
            &&& r matches Err(e) ==> e == CoreError::FailedPrecondition && after == b && b.mode
                != BufferMode::Writable && (b.mode == BufferMode::ReadOnly) != read_only
        }),
{
}

/// A range can be mapped exactly if it is not empty and lies in the buffer. The
/// mapping shows that range, starts as far into its page as the range does, and
/// can be written unless the buffer is read-only.
pub proof fn law_mapping_shows_range(b: SharedBuffer, offset: u64, n: u64, page: usize)
    requires
        page % PAGE_SIZE == 0,
        page + PAGE_SIZE <= usize::MAX,
        b.size <= MAX_BUFFER_SIZE,
    ensures
        b.mapped(offset, n, page) is Ok == (n > 0 && offset + n <= b.size),
        b.mapped(offset, n, page) matches Err(e) ==> e == CoreError::ResourceExhausted,
        b.mapped(offset, n, page) matches Ok(m) ==> {
            &&& m.region == b.region
            &&& m.start == offset
            &&& m.len == n
            &&& page <= m.address < page + PAGE_SIZE
            &&& (m.address - page) % 4096 == offset % 4096
            &&& m.writable == (b.mode != BufferMode::ReadOnly)
        },
{
}

/// What is written through a mapping is what every mapping of the region reads
/// there, and nothing else changes. A write beyond the mapping or through a
/// read-only one is refused and changes nothing.
pub proof fn law_written_bytes_are_read(
    regions: Seq<Seq<u8>>,
    w: BufferMapping,
    offset: usize,
    content: Seq<u8>,
    r: BufferMapping,
    at: usize,
)
    requires
        w.within(regions),
        r.within(regions),
        at < r.len,
        content.len() <= usize::MAX,
    ensures
        ({
            let (taken, after) = w.write_of(regions, offset, content);
            let was = r.read_of(regions, at, 1);
            let is = r.read_of(after, at, 1);
            let here = r.start + at - (w.start + offset);
            &&& taken == (w.writable && offset + content.len() <= w.len)
            &&& !taken ==> after == regions
            &&& was is Some && was->0.len() == 1
            &&& is is Some && is->0.len() == 1
            &&& is->0[0] == if taken && r.region == w.region && 0 <= here < content.len() {
                content[here]
            } else {
                was->0[0]
            }
            &&& r.within(after)
            &&& after.len() == regions.len()
        }),
        r.read_of(regions, at, 0) is Some,
        forall|n: usize| #[trigger] r.read_of(regions, at, n) is Some == (at + n <= r.len),
{
}

} // verus!
