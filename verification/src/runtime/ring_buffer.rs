//! A circular byte buffer over a region of memory.
//!
//! Offsets are circular within the region: writes extend the data range from
//! its end, reads and discards advance its start. The buffer is not
//! synchronized; its owner serializes all access.

use vstd::prelude::*;
use vstd::slice::slice_subrange;

verus! {

/// A circular range of bytes within a region.
///
/// `offset + size` may exceed the capacity, in which case the range wraps.
#[derive(Debug, Clone, Copy, PartialEq, Eq, Structural)]
pub struct Range {
    /// The offset of the first byte in the range.
    pub offset: usize,
    /// The size of the range in bytes.
    pub size: usize,
}

/// The position `n` bytes after `offset` in a circular region.
pub open spec fn wrapped_at(offset: int, n: int, capacity: int) -> int {
    if offset + n >= capacity {
        offset + n - capacity
    } else {
        offset + n
    }
}

fn advance(offset: usize, n: usize, capacity: usize) -> (r: usize)
    requires
        offset < capacity,
        n <= capacity,
    ensures
        r == wrapped_at(offset as int, n as int, capacity as int),
        r < capacity,
{
    let rest: usize = capacity - offset;
    if n < rest {
        offset + n
    } else {
        n - rest
    }
}

impl Range {
    /// A range at offset 0 of size 0.
    pub fn empty() -> (r: Range)
        ensures
            r == (Range { offset: 0, size: 0 }),
    {
        Range { offset: 0, size: 0 }
    }

    /// The offset just past the end of the range, wrapped into `capacity`.
    pub fn end(&self, capacity: usize) -> (r: usize)
        requires
            self.offset + self.size <= usize::MAX,
        ensures
            r == wrapped_at(self.offset as int, self.size as int, capacity as int),
    {
        let end: usize = self.offset + self.size;
        if end >= capacity {
            end - capacity
        } else {
            end
        }
    }

    /// Whether the range lies in a region of this capacity.
    pub open spec fn within(self, capacity: nat) -> bool {
        self.offset < capacity && self.size <= capacity
    }

    /// The range without its first `n` bytes.
    pub open spec fn without(self, n: int, capacity: nat) -> Range {
        Range {
            offset: wrapped_at(self.offset as int, n, capacity as int) as usize,
            size: (self.size - n) as usize,
        }
    }

    /// The range with `n` more bytes at its end.
    pub open spec fn extended(self, n: int) -> Range {
        Range { offset: self.offset, size: (self.size + n) as usize }
    }
}

/// The bytes of a range of a region, in order.
pub open spec fn range_bytes(bytes: Seq<u8>, r: Range) -> Seq<u8> {
    Seq::new(r.size as nat, |i: int| bytes[wrapped_at(r.offset as int, i, bytes.len() as int)])
}

/// How far position `k` stands behind `start` in a circular region.
pub open spec fn distance(start: int, k: int, capacity: int) -> int {
    if k >= start {
        k - start
    } else {
        k - start + capacity
    }
}

/// The region with `src` written from `start` on, wrapping at its end.
pub open spec fn region_written(bytes: Seq<u8>, start: int, src: Seq<u8>) -> Seq<u8> {
    Seq::new(
        bytes.len(),
        |k: int|
            {
                let d = distance(start, k, bytes.len() as int);
                if d < src.len() {
                    src[d]
                } else {
                    bytes[k]
                }
            },
    )
}

/// A captured contiguous span of the region, for two-phase operations.
#[derive(Debug, Clone, Copy, PartialEq, Eq, Structural)]
pub struct Span {
    /// The offset of the first byte in the region.
    pub start: usize,
    /// The number of bytes.
    pub len: usize,
}

impl Span {
    /// The number of bytes in the span.
    pub fn len(&self) -> (r: usize)
        ensures
            r == self.len,
    {
        self.len
    }

    /// Whether the span is empty.
    pub fn is_empty(&self) -> (r: bool)
        ensures
            r == (self.len == 0),
    {
        self.len == 0
    }

    /// The offset of the span in the region.
    pub fn address(&self) -> (r: usize)
        ensures
            r == self.start,
    {
        self.start
    }

    /// The bytes of the span.
    pub fn as_slice<'a>(&self, ring: &'a RingBuffer) -> (r: &'a [u8])
        requires
            self.start + self.len <= ring@.bytes.len(),
        ensures
            r@ == ring@.bytes.subrange(self.start as int, self.start + self.len),
    {
        assert(ring.mapping.len() == ring.mapping@.len());
        slice_subrange(ring.mapping.as_slice(), self.start, self.start + self.len)
    }

    /// Write `data` at the start of the span.
    pub fn fill(&self, ring: &mut RingBuffer, data: &[u8])
        requires
            self.start + self.len <= old(ring)@.bytes.len(),
            data@.len() <= self.len,
        ensures
            final(ring)@.range == old(ring)@.range,
            final(ring)@.bytes == old(ring)@.bytes.take(self.start as int) + data@ + old(
                ring,
            )@.bytes.skip(self.start + data@.len()),
    {
        let ghost before = ring.mapping@;
        let mut i: usize = 0;
        while i < data.len()
            invariant
                i <= data@.len() <= self.len,
                self.start + self.len <= before.len(),
                ring.mapping@.len() == before.len(),
                ring.data_range == old(ring).data_range,
                forall|k: int|
                    0 <= k < before.len() ==> #[trigger] ring.mapping@[k] == if self.start <= k
                        < self.start + i {
                        data@[k - self.start]
                    } else {
                        before[k]
                    },
            decreases data@.len() - i,
        {
            assert(ring.mapping.len() == before.len());
            ring.mapping.set(self.start + i, data[i]);
            i = i + 1;
        }
        assert(ring.mapping@ =~= before.take(self.start as int) + data@ + before.skip(
            self.start + data@.len(),
        ));
    }
}

/// The first contiguous span of free space, captured for direct writing.
#[derive(Debug, Clone, Copy, PartialEq, Eq, Structural)]
pub struct DirectWriter {
    /// The captured span.
    pub span: Span,
}

impl DirectWriter {
    /// The span of bytes available for writing.
    pub fn span(&self) -> (r: Span)
        ensures
            r == self.span,
    {
        self.span
    }

    /// Commits the first `n` bytes of the span into the buffer and consumes
    /// the writer. Returns false if `n` exceeds the span size.
    pub fn commit(self, n: usize, ring: &mut RingBuffer) -> (r: bool)
        requires
            old(ring)@.wf(),
        ensures
            final(ring)@.wf(),
            (r, final(ring)@) == if n <= self.span.len {
                old(ring)@.grown(n as int)
            } else {
                (false, old(ring)@)
            },
            r == (n <= self.span.len && n <= old(ring)@.free_space()),
            final(ring)@ == if r {
                old(ring)@.ranging(old(ring)@.range.extended(n as int))
            } else {
                old(ring)@
            },
    {
        n <= self.span.len && ring.extend_data_range(n)
    }
}

/// The first contiguous span of data, captured for direct reading.
#[derive(Debug, Clone, Copy, PartialEq, Eq, Structural)]
pub struct DirectReader {
    /// The captured span.
    pub span: Span,
}

impl DirectReader {
    /// The span of bytes available for reading.
    pub fn span(&self) -> (r: Span)
        ensures
            r == self.span,
    {
        self.span
    }

    /// Consumes `n` bytes from the front of the span. Returns false if `n`
    /// exceeds the span size.
    pub fn consume(self, n: usize, ring: &mut RingBuffer) -> (r: bool)
        requires
            old(ring)@.wf(),
        ensures
            final(ring)@.wf(),
            (r, final(ring)@) == if n <= self.span.len {
                old(ring)@.shed_all(n as int)
            } else {
                (false, old(ring)@)
            },
            r == (n <= self.span.len && n <= old(ring)@.range.size),
            final(ring)@ == if r {
                old(ring)@.ranging(old(ring)@.range.without(n as int, old(ring)@.bytes.len()))
            } else {
                old(ring)@
            },
    {
        n <= self.span.len && ring.discard_all(n)
    }
}

/// The serialized state of a ring buffer.
#[derive(Debug, Clone, Copy, PartialEq, Eq, Structural)]
pub struct SerializedState {
    /// The data range offset.
    pub offset: u32,
    /// The data range size.
    pub size: u32,
}

impl Default for SerializedState {
    fn default() -> (r: SerializedState)
        ensures
            r == (SerializedState { offset: 0, size: 0 }),
    {
        SerializedState { offset: 0, size: 0 }
    }
}

/// A circular data buffer.
#[derive(Debug)]
pub struct RingBuffer {
    /// The whole region.
    pub mapping: Vec<u8>,
    /// Where the data stands.
    pub data_range: Range,
}

/// What a ring buffer holds.
#[verifier::ext_equal]
pub struct RingView {
    /// The whole region.
    pub bytes: Seq<u8>,
    /// Where the data stands.
    pub range: Range,
}

impl View for RingBuffer {
    type V = RingView;

    open spec fn view(&self) -> RingView {
        RingView { bytes: self.mapping@, range: self.data_range }
    }
}

impl RingView {
    /// The region is not empty and the data range lies in it.
    pub open spec fn wf(self) -> bool {
        self.range.within(self.bytes.len()) && self.bytes.len() <= usize::MAX
    }

    /// The data, in order.
    pub open spec fn data(self) -> Seq<u8> {
        range_bytes(self.bytes, self.range)
    }

    /// How many bytes are free.
    pub open spec fn free_space(self) -> int {
        self.bytes.len() - self.range.size
    }

    /// The same region with another data range.
    pub open spec fn ranging(self, range: Range) -> RingView {
        RingView { range, ..self }
    }

    /// The first free position.
    pub open spec fn free_start(self) -> int {
        wrapped_at(self.range.offset as int, self.range.size as int, self.bytes.len() as int)
    }

    /// The buffer after `src`, which fits, was appended.
    pub open spec fn appended(self, src: Seq<u8>) -> RingView {
        RingView {
            bytes: region_written(self.bytes, self.free_start(), src),
            range: self.range.extended(src.len() as int),
        }
    }

    /// The buffer without its first `n` bytes of data.
    pub open spec fn dropped(self, n: int) -> RingView {
        self.ranging(self.range.without(n, self.bytes.len()))
    }

    /// What an append of as much of `src` as fits comes to: how much that is,
    /// and the buffer after it.
    pub open spec fn put(self, src: Seq<u8>) -> (int, RingView) {
        let n = lesser(src.len() as int, self.free_space());
        (n, self.appended(src.take(n)))
    }

    /// What an append of all of `src` comes to, if it fits, and the buffer after
    /// it.
    pub open spec fn put_all(self, src: Seq<u8>) -> (bool, RingView) {
        if src.len() <= self.free_space() {
            (true, self.appended(src))
        } else {
            (false, self)
        }
    }

    /// What a read of up to `n` bytes gives, and the buffer after it.
    pub open spec fn got(self, n: int) -> (Seq<u8>, RingView) {
        let k = lesser(n, self.range.size as int);
        (self.data().take(k), self.dropped(k))
    }

    /// Whether exactly `n` bytes can be dropped, and the buffer after it.
    pub open spec fn shed_all(self, n: int) -> (bool, RingView) {
        if n <= self.range.size {
            (true, self.dropped(n))
        } else {
            (false, self)
        }
    }

    /// Whether the data can be extended by `n` bytes, and the buffer after it.
    pub open spec fn grown(self, n: int) -> (bool, RingView) {
        if n <= self.free_space() {
            (true, self.ranging(self.range.extended(n)))
        } else {
            (false, self)
        }
    }

    /// The state that says where the data stands.
    pub open spec fn saved(self) -> SerializedState {
        SerializedState { offset: self.range.offset as u32, size: self.range.size as u32 }
    }

    /// Whether a state can be restored, and the buffer after it.
    pub open spec fn restored(self, state: SerializedState) -> (bool, RingView) {
        if state.offset < self.bytes.len() && state.size <= self.bytes.len() {
            (
                true,
                self.ranging(Range { offset: state.offset as usize, size: state.size as usize }),
            )
        } else {
            (false, self)
        }
    }

    /// The first contiguous span of free space.
    pub open spec fn free_span(self) -> Span {
        let start = self.free_start();
        let rest = self.bytes.len() - start;
        Span {
            start: start as usize,
            len: (if self.free_space() < rest {
                self.free_space()
            } else {
                rest
            }) as usize,
        }
    }

    /// The first contiguous span of data.
    pub open spec fn data_span(self) -> Span {
        let rest = self.bytes.len() - self.range.offset;
        Span {
            start: self.range.offset,
            len: (if self.range.size < rest {
                self.range.size as int
            } else {
                rest
            }) as usize,
        }
    }
}

/// The smaller of two lengths.
pub open spec fn lesser(a: int, b: int) -> int {
    if a < b {
        a
    } else {
        b
    }
}

/// Appending puts the bytes behind the data that is there.
pub proof fn law_append(v: RingView, src: Seq<u8>)
    requires
        v.wf(),
        src.len() <= v.free_space(),
    ensures
        v.appended(src).wf(),
        v.appended(src).data() == v.data() + src,
{
    let cap = v.bytes.len() as int;
    let after = v.appended(src);
    assert(after.data().len() == (v.data() + src).len());
    assert forall|i: int| 0 <= i < after.data().len() implies after.data()[i] == (v.data()
        + src)[i] by {
        let k = wrapped_at(v.range.offset as int, i, cap);
        let d = distance(v.free_start(), k, cap);
        if i < v.range.size {
            assert(d >= v.free_space());
        } else {
            assert(d == i - v.range.size);
        }
    }
    assert(after.data() =~= v.data() + src);
}

/// Dropping takes bytes from the front of the data.
pub proof fn law_drop(v: RingView, n: int)
    requires
        v.wf(),
        0 <= n <= v.range.size,
    ensures
        v.dropped(n).wf(),
        v.dropped(n).data() == v.data().skip(n),
{
    assert(v.dropped(n).data() =~= v.data().skip(n));
}

/// What is appended to an empty buffer is what it holds, and once that is
/// dropped the buffer is empty again.
pub proof fn law_append_then_drop(v: RingView, src: Seq<u8>)
    requires
        v.wf(),
        v.range.size == 0,
        src.len() <= v.free_space(),
    ensures
        v.appended(src).data() == src,
        v.appended(src).dropped(src.len() as int).data() == Seq::<u8>::empty(),
{
    law_append(v, src);
    law_drop(v.appended(src), src.len() as int);
    assert(v.data() + src =~= src);
    assert(src.skip(src.len() as int) =~= Seq::<u8>::empty());
}

/// Writing into the free span leaves the data as it is, and committing what
/// was written there appends it.
pub proof fn law_two_phase_write(v: RingView, src: Seq<u8>)
    requires
        v.wf(),
        src.len() <= v.free_span().len,
    ensures
        ({
            let s = v.free_span();
            let filled = RingView {
                bytes: v.bytes.take(s.start as int) + src + v.bytes.skip(s.start + src.len()),
                range: v.range,
            };
            &&& filled.data() == v.data()
            &&& filled.ranging(v.range.extended(src.len() as int)).data() == v.data() + src
        }),
{
    let s = v.free_span();
    let cap = v.bytes.len() as int;
    let bytes = v.bytes.take(s.start as int) + src + v.bytes.skip(s.start + src.len());
    assert(bytes =~= region_written(v.bytes, v.free_start(), src));
    let filled = RingView { bytes, range: v.range };
    law_append(v, src);
    assert(filled.data() =~= v.data()) by {
        assert forall|i: int| 0 <= i < v.range.size implies filled.data()[i] == v.data()[i] by {
            let k = wrapped_at(v.range.offset as int, i, cap);
            assert(distance(v.free_start(), k, cap) >= v.free_space());
        }
    }
    assert(filled.ranging(v.range.extended(src.len() as int)) == v.appended(src));
}

impl RingBuffer {
    /// Construct a new empty buffer over a region; the capacity is the size of
    /// the region.
    pub fn new(mapping: Vec<u8>) -> (r: RingBuffer)
        requires
            mapping@.len() > 0,
        ensures
            r@ == (RingView { bytes: mapping@, range: Range { offset: 0, size: 0 } }),
            r@.wf(),
    {
        assert(mapping.len() == mapping@.len());
        RingBuffer { mapping, data_range: Range::empty() }
    }

    /// The total capacity in bytes.
    pub fn capacity(&self) -> (r: usize)
        ensures
            r == self@.bytes.len(),
    {
        self.mapping.len()
    }

    /// The number of bytes of data in the buffer.
    pub fn data_size(&self) -> (r: usize)
        ensures
            r == self@.range.size,
    {
        self.data_range.size
    }

    /// The number of free bytes in the buffer.
    pub fn available_capacity(&self) -> (r: usize)
        requires
            self@.wf(),
        ensures
            r == self@.free_space(),
    {
        self.capacity() - self.data_size()
    }

    /// The current data range.
    pub fn data_range(&self) -> (r: Range)
        ensures
            r == self@.range,
    {
        self.data_range
    }

    /// Attempts to append `source` to the buffer. Returns the number of bytes
    /// written, which is less than the length of `source` if there is not
    /// enough room.
    pub fn write(&mut self, source: &[u8]) -> (r: usize)
        requires
            old(self)@.wf(),
        ensures
            final(self)@.wf(),
            (r as int, final(self)@) == old(self)@.put(source@),
            r == lesser(source@.len() as int, old(self)@.free_space()),
            final(self)@ == old(self)@.appended(source@.take(r as int)),
            final(self)@.data() == old(self)@.data() + source@.take(r as int),
    {
        let ghost before = self@;
        let free: usize = self.available_capacity();
        let n: usize = if source.len() < free {
            source.len()
        } else {
            free
        };
        let cap: usize = self.capacity();
        let start: usize = advance(self.data_range.offset, self.data_range.size, cap);
        let mut pos: usize = start;
        let mut i: usize = 0;
        while i < n
            invariant
                i <= n <= source@.len(),
                n <= before.free_space(),
                before.wf(),
                before.bytes.len() == cap,
                self.mapping@.len() == cap,
                self.data_range == before.range,
                start == before.free_start(),
                start < cap,
                pos == wrapped_at(start as int, i as int, cap as int),
                pos < cap || i == n,
                forall|k: int|
                    0 <= k < cap ==> #[trigger] self.mapping@[k] == if distance(
                        start as int,
                        k,
                        cap as int,
                    ) < i {
                        source@[distance(start as int, k, cap as int)]
                    } else {
                        before.bytes[k]
                    },
            decreases n - i,
        {
            self.mapping.set(pos, source[i]);
            pos = pos + 1;
            if pos == cap {
                pos = 0;
            }
            i = i + 1;
        }
        self.data_range.size = self.data_range.size + n;
        proof {
            assert(self.mapping@ =~= region_written(
                before.bytes,
                before.free_start(),
                source@.take(n as int),
            ));
            law_append(before, source@.take(n as int));
        }
        n
    }

    /// Like `write` but only writes data if there's enough room for all of
    /// `source`. Returns whether the write happened.
    pub fn write_all(&mut self, source: &[u8]) -> (r: bool)
        requires
            old(self)@.wf(),
        ensures
            final(self)@.wf(),
            (r, final(self)@) == old(self)@.put_all(source@),
            r == (source@.len() <= old(self)@.free_space()),
            final(self)@ == if r {
                old(self)@.appended(source@)
            } else {
                old(self)@
            },
    {
        if source.len() > self.available_capacity() {
            return false;
        }
        let _n: usize = self.write(source);
        assert(source@.take(source@.len() as int) =~= source@);
        true
    }

    /// Attempts to copy bytes from the front of the buffer into `target`,
    /// discarding them from the buffer. Consumes less than the length of
    /// `target` if the buffer doesn't have enough data.
    pub fn read(&mut self, target: &mut [u8]) -> (r: usize)
        requires
            old(self)@.wf(),
        ensures
            final(self)@.wf(),
            final(self)@ == old(self)@.got(old(target)@.len() as int).1,
            final(target)@.take(r as int) == old(self)@.got(old(target)@.len() as int).0,
            r == lesser(old(target)@.len() as int, old(self)@.range.size as int),
            final(target)@ == old(self)@.data().take(r as int) + old(target)@.skip(r as int),
            final(self)@ == old(self)@.dropped(r as int),
            final(self)@.data() == old(self)@.data().skip(r as int),
    {
        let n: usize = self.peek(target);
        proof {
            law_drop(self@, n as int);
        }
        let _ok: bool = self.discard_all(n);
        n
    }

    /// Like `read` but only reads data if there's enough to fill `target`.
    pub fn read_all(&mut self, target: &mut [u8]) -> (r: bool)
        requires
            old(self)@.wf(),
        ensures
            final(self)@.wf(),
            (r, final(self)@) == old(self)@.shed_all(old(target)@.len() as int),
            r ==> final(target)@ == old(self)@.got(old(target)@.len() as int).0,
            r == (old(target)@.len() <= old(self)@.range.size),
            final(target)@ == if r {
                old(self)@.data().take(old(target)@.len() as int)
            } else {
                old(target)@
            },
            final(self)@ == if r {
                old(self)@.dropped(old(target)@.len() as int)
            } else {
                old(self)@
            },
    {
        if target.len() > self.data_size() {
            return false;
        }
        let n: usize = self.read(target);
        assert(old(self)@.data().take(n as int) + old(target)@.skip(n as int) =~= old(
            self,
        )@.data().take(n as int));
        true
    }

    /// The first `n` bytes of data, which there are.
    pub fn front(&self, n: usize) -> (r: Vec<u8>)
        requires
            self@.wf(),
            n <= self@.range.size,
        ensures
            r@ == self@.data().take(n as int),
    {
        let cap: usize = self.capacity();
        let mut out: Vec<u8> = Vec::new();
        let mut pos: usize = self.data_range.offset;
        let mut i: usize = 0;
        while i < n
            invariant
                i <= n <= self@.range.size,
                self@.wf(),
                cap == self@.bytes.len(),
                pos == wrapped_at(self.data_range.offset as int, i as int, cap as int),
                pos < cap,
                out@ == self@.data().take(i as int),
            decreases n - i,
        {
            out.push(self.mapping[pos]);
            assert(out@ =~= self@.data().take(i as int + 1));
            pos = pos + 1;
            if pos == cap {
                pos = 0;
            }
            i = i + 1;
        }
        out
    }

    /// Same semantics as `read` but no data is discarded from the buffer.
    pub fn peek(&self, target: &mut [u8]) -> (r: usize)
        requires
            self@.wf(),
        ensures
            final(target)@.take(r as int) == self@.got(old(target)@.len() as int).0,
            r == lesser(old(target)@.len() as int, self@.range.size as int),
            final(target)@ == self@.data().take(r as int) + old(target)@.skip(r as int),
    {
        let size: usize = self.data_size();
        let n: usize = if target.len() < size {
            target.len()
        } else {
            size
        };
        let front = self.front(n);
        let mut i: usize = 0;
        while i < n
            invariant
                i <= n <= old(target)@.len(),
                front@.len() == n,
                target@.len() == old(target)@.len(),
                forall|k: int|
                    0 <= k < target@.len() ==> #[trigger] target@[k] == if k < i {
                        front@[k]
                    } else {
                        old(target)@[k]
                    },
            decreases n - i,
        {
            target[i] = front[i];
            i = i + 1;
        }
        assert(target@ =~= front@ + old(target)@.skip(n as int));
        n
    }

    /// Like `peek` but only reads data if there's enough to fill `target`.
    pub fn peek_all(&self, target: &mut [u8]) -> (r: bool)
        requires
            self@.wf(),
        ensures
            r == self@.shed_all(old(target)@.len() as int).0,
            r ==> final(target)@ == self@.got(old(target)@.len() as int).0,
            r == (old(target)@.len() <= self@.range.size),
            final(target)@ == if r {
                self@.data().take(old(target)@.len() as int)
            } else {
                old(target)@
            },
    {
        if target.len() > self.data_size() {
            return false;
        }
        let n: usize = self.peek(target);
        assert(self@.data().take(n as int) + old(target)@.skip(n as int) =~= self@.data().take(
            n as int,
        ));
        true
    }

    /// Attempts to discard `n` bytes from the front of the buffer. Returns the
    /// number of bytes discarded, which may be smaller than `n`.
    pub fn discard(&mut self, n: usize) -> (r: usize)
        requires
            old(self)@.wf(),
        ensures
            final(self)@.wf(),
            final(self)@ == old(self)@.got(n as int).1,
            r == old(self)@.got(n as int).0.len(),
            r == lesser(n as int, old(self)@.range.size as int),
            final(self)@ == old(self)@.dropped(r as int),
    {
        let size: usize = self.data_size();
        let k: usize = if n < size {
            n
        } else {
            size
        };
        let _ok: bool = self.discard_all(k);
        k
    }

    /// Like `discard` but only discards data if there are `n` bytes to
    /// discard.
    pub fn discard_all(&mut self, n: usize) -> (r: bool)
        requires
            old(self)@.wf(),
        ensures
            final(self)@.wf(),
            (r, final(self)@) == old(self)@.shed_all(n as int),
            r == (n <= old(self)@.range.size),
            final(self)@ == if r {
                old(self)@.dropped(n as int)
            } else {
                old(self)@
            },
    {
        if n > self.data_size() {
            return false;
        }
        let cap: usize = self.capacity();
        self.data_range =
        Range {
            offset: advance(self.data_range.offset, n, cap),
            size: self.data_range.size - n,
        };
        true
    }

    /// Attempts to extend the range of readable data by `n` bytes, which have
    /// been put right behind the data already. Returns false if `n` exceeds
    /// the free space.
    pub fn extend_data_range(&mut self, n: usize) -> (r: bool)
        requires
            old(self)@.wf(),
        ensures
            final(self)@.wf(),
            (r, final(self)@) == old(self)@.grown(n as int),
            r == (n <= old(self)@.free_space()),
            final(self)@ == if r {
                old(self)@.ranging(old(self)@.range.extended(n as int))
            } else {
                old(self)@
            },
    {
        if n > self.available_capacity() {
            return false;
        }
        self.data_range.size = self.data_range.size + n;
        true
    }

    /// The first contiguous span of free space.
    pub fn available_capacity_view(&self) -> (r: Span)
        requires
            self@.wf(),
        ensures
            r == self@.free_span(),
            r.start + r.len <= self@.bytes.len(),
    {
        let cap: usize = self.capacity();
        let start: usize = advance(self.data_range.offset, self.data_range.size, cap);
        let free: usize = self.available_capacity();
        let rest: usize = cap - start;
        Span {
            start,
            len: if free < rest {
                free
            } else {
                rest
            },
        }
    }

    /// The first contiguous span of readable data.
    pub fn readable_data_view(&self) -> (r: Span)
        requires
            self@.wf(),
        ensures
            r == self@.data_span(),
            r.start + r.len <= self@.bytes.len(),
    {
        let rest: usize = self.capacity() - self.data_range.offset;
        Span {
            start: self.data_range.offset,
            len: if self.data_range.size < rest {
                self.data_range.size
            } else {
                rest
            },
        }
    }

    /// A two-phase writer over the first contiguous span of free space.
    pub fn begin_write(&self) -> (r: DirectWriter)
        requires
            self@.wf(),
        ensures
            r.span == self@.free_span(),
    {
        DirectWriter { span: self.available_capacity_view() }
    }

    /// A two-phase reader over the first contiguous span of readable data.
    pub fn begin_read(&self) -> (r: DirectReader)
        requires
            self@.wf(),
        ensures
            r.span == self@.data_span(),
    {
        DirectReader { span: self.readable_data_view() }
    }

    /// The serialized state of the buffer.
    pub fn serialize(&self) -> (r: SerializedState)
        requires
            self@.wf(),
            self@.bytes.len() <= u32::MAX,
        ensures
            r == self@.saved(),
            r.offset == self@.range.offset,
            r.size == self@.range.size,
    {
        SerializedState { offset: self.data_range.offset as u32, size: self.data_range.size as u32 }
    }

    /// Restore state from a serialized state. Returns false if the state is
    /// invalid for this capacity.
    pub fn deserialize(&mut self, state: SerializedState) -> (r: bool)
        requires
            old(self)@.wf(),
        ensures
            final(self)@.wf(),
            (r, final(self)@) == old(self)@.restored(state),
            r == (state.offset < old(self)@.bytes.len() && state.size <= old(self)@.bytes.len()),
            final(self)@ == if r {
                old(self)@.ranging(
                    Range { offset: state.offset as usize, size: state.size as usize },
                )
            } else {
                old(self)@
            },
    {
        let offset: usize = state.offset as usize;
        let size: usize = state.size as usize;
        if offset >= self.capacity() || size > self.capacity() {
            return false;
        }
        self.data_range = Range { offset, size };
        true
    }
}

/// A write puts as much as fits behind the data, and no more; a write of all or
/// nothing puts all of it there if it fits, and otherwise changes nothing.
pub proof fn law_ring_write(v: RingView, src: Seq<u8>)
    requires
        v.wf(),
    ensures
        ({
            let (n, w) = v.put(src);
            let room = v.bytes.len() - v.data().len();
            &&& 0 <= n <= src.len()
            &&& n == src.len() || n == room
            &&& n <= room
            &&& w.data() == v.data() + src.take(n)
            &&& w.bytes.len() == v.bytes.len()
        }),
        ({
            let (all, w) = v.put_all(src);
            &&& all == (v.data().len() + src.len() <= v.bytes.len())
            &&& all ==> w.data() == v.data() + src
            &&& !all ==> w == v
        }),
{
    let n = v.put(src).0;
    law_append(v, src.take(n));
    if src.len() <= v.free_space() {
        law_append(v, src);
    }
}

/// A read takes the first bytes of the data, up to as many as are asked for, and
/// leaves the rest; what is dropped is dropped from the front.
pub proof fn law_ring_read(v: RingView, n: int)
    requires
        v.wf(),
        0 <= n,
    ensures
        ({
            let (r, w) = v.got(n);
            &&& v.data() == r + w.data()
            &&& r.len() == n || (r.len() == v.data().len() && n > r.len())
            &&& w.bytes == v.bytes
        }),
        ({
            let (all, w) = v.shed_all(n);
            &&& all == (n <= v.data().len())
            &&& all ==> w.data() == v.data().skip(n)
            &&& !all ==> w == v
        }),
{
    let (r, w) = v.got(n);
    law_drop(v, r.len() as int);
    assert(v.data() =~= r + w.data());
    if n <= v.range.size {
        law_drop(v, n);
    }
}

/// What is written is read again, behind what was there.
pub proof fn law_ring_write_then_read(v: RingView, src: Seq<u8>)
    requires
        v.wf(),
        v.data().len() + src.len() <= v.bytes.len(),
    ensures
        ({
            let w = v.put_all(src).1;
            let (first, rest) = w.got(v.data().len() as int);
            &&& first == v.data()
            &&& rest.got(src.len() as int).0 == src
            &&& rest.got(src.len() as int).1.data().len() == 0
        }),
{
    let w = v.put_all(src).1;
    let (first, rest) = w.got(v.data().len() as int);
    law_ring_write(v, src);
    law_append(v, src);
    law_drop(w, v.data().len() as int);
    assert(first =~= v.data());
    assert(rest.data() =~= src);
    law_drop(rest, src.len() as int);
    assert(rest.data().take(src.len() as int) =~= src);
}

/// Extending the data keeps what was there at its front, and adds as many bytes
/// of the region behind it as are asked for, if they are free.
pub proof fn law_ring_grows(v: RingView, n: int)
    requires
        v.wf(),
        0 <= n,
    ensures
        ({
            let (ok, w) = v.grown(n);
            &&& ok == (v.data().len() + n <= v.bytes.len())
            &&& ok ==> w.data().len() == v.data().len() + n && w.data().take(v.data().len() as int)
                == v.data()
            &&& w.bytes == v.bytes
            &&& !ok ==> w == v
        }),
{
    let (ok, w) = v.grown(n);
    if ok {
        assert(w.data().take(v.data().len() as int) =~= v.data());
    }
}

/// The state of a buffer, restored into the same region, gives the same data; a
/// state that does not lie in the region is refused and changes nothing.
pub proof fn law_ring_state_round_trip(v: RingView, u: RingView, state: SerializedState)
    requires
        v.wf(),
        u.wf(),
        u.bytes == v.bytes,
        v.bytes.len() <= u32::MAX,
    ensures
        u.restored(v.saved()).0,
        u.restored(v.saved()).1.data() == v.data(),
        u.restored(state).0 == (state.offset < u.bytes.len() && state.size <= u.bytes.len()),
        !u.restored(state).0 ==> u.restored(state).1 == u,
        u.restored(state).0 ==> u.restored(state).1.data().len() == state.size,
{
}

} // verus!
