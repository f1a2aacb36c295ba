//! Ring buffers and shared buffers.

use mojo_rs::runtime::error::CoreError;
use mojo_rs::runtime::ring_buffer::{Range, RingBuffer, SerializedState};
use mojo_rs::runtime::shared_buffer::{MappingTable, Regions, SharedBuffer};

/// A page to map at.
const PAGE: usize = 0x10000;

fn ring(capacity: usize) -> RingBuffer {
    RingBuffer::new(vec![0; capacity])
}

#[test]
fn write_read_roundtrip() {
    let mut r = ring(16);
    assert_eq!(r.write(&[1, 2, 3]), 3);
    assert_eq!(r.data_size(), 3);
    let mut out = [0u8; 3];
    assert_eq!(r.read(&mut out), 3);
    assert_eq!(out, [1, 2, 3]);
    assert_eq!(r.data_size(), 0);
}

#[test]
fn wrap_around_offsets() {
    let mut r = ring(8);
    // Fill the buffer fully.
    assert!(r.write_all(&[0, 1, 2, 3, 4, 5, 6, 7]));
    // Read the front half: data range (0,8) -> (4,4).
    let mut out = [0u8; 4];
    assert_eq!(r.read(&mut out), 4);
    assert_eq!(out, [0, 1, 2, 3]);
    assert_eq!(r.data_range(), Range { offset: 4, size: 4 });
    // Four more land in the free region [0..4).
    assert!(r.write_all(&[8, 9, 10, 11]));
    assert_eq!(r.data_range(), Range { offset: 4, size: 8 });
    // Now the data range wraps: bytes at [4..8) and [0..4).
    let mut all = [0u8; 8];
    assert_eq!(r.read(&mut all), 8);
    assert_eq!(all, [4, 5, 6, 7, 8, 9, 10, 11]);
}

#[test]
fn peek_does_not_consume() {
    let mut r = ring(16);
    r.write_all(&[9, 8, 7]);
    let mut out = [0u8; 3];
    assert_eq!(r.peek(&mut out), 3);
    assert_eq!(out, [9, 8, 7]);
    assert_eq!(r.data_size(), 3);
    assert_eq!(r.read(&mut out), 3);
    assert_eq!(r.data_size(), 0);
}

#[test]
fn all_or_none_semantics() {
    let mut r = ring(4);
    assert!(!r.write_all(&[1, 2, 3, 4, 5])); // too big
    assert_eq!(r.data_size(), 0);
    assert!(r.write_all(&[1, 2, 3, 4]));
    assert!(!r.write_all(&[5])); // full
    assert_eq!(r.data_size(), 4);
    let mut out = [0u8; 5];
    assert!(!r.read_all(&mut out)); // not enough data
    assert_eq!(r.data_size(), 4);
    let mut out4 = [0u8; 4];
    assert!(r.read_all(&mut out4));
    assert_eq!(out4, [1, 2, 3, 4]);
}

#[test]
fn discard_semantics() {
    let mut r = ring(16);
    r.write_all(&[1, 2, 3, 4, 5]);
    assert_eq!(r.discard(2), 2);
    assert_eq!(r.data_size(), 3);
    assert!(!r.discard_all(4)); // too many
    assert_eq!(r.data_size(), 3);
    assert!(r.discard_all(3));
    assert_eq!(r.data_size(), 0);
}

#[test]
fn two_phase_write_and_read() {
    let mut r = ring(16);
    let w = r.begin_write();
    assert_eq!(w.span().len(), 16);
    // Write through the span (only the first 4 bytes).
    w.span().fill(&mut r, &[1, 2, 3, 4]);
    assert!(w.commit(4, &mut r));
    assert_eq!(r.data_size(), 4);

    let rd = r.begin_read();
    assert_eq!(rd.span().len(), 4);
    assert_eq!(rd.span().as_slice(&r), &[1, 2, 3, 4]);
    assert!(rd.consume(4, &mut r));
    assert_eq!(r.data_size(), 0);
}

#[test]
fn two_phase_commit_bounds() {
    let mut r = ring(8);
    let w = r.begin_write();
    let len = w.span().len();
    assert_eq!(len, 8);
    assert!(!w.commit(len + 1, &mut r)); // exceeds the span
    assert_eq!(r.data_size(), 0);
}

#[test]
fn two_phase_writer_wraps() {
    let mut r = ring(8);
    r.write_all(&[1, 2, 3, 4, 5, 6]);
    let mut out = [0u8; 4];
    r.read(&mut out); // data range (0,6) -> (4,2)
    assert_eq!(out, [1, 2, 3, 4]);
    // The available-capacity view is the FIRST contiguous chunk: [6..8).
    let w = r.begin_write();
    assert_eq!(w.span().len(), 2);
    w.span().fill(&mut r, &[7, 8]);
    assert!(w.commit(2, &mut r));
    assert_eq!(r.data_range(), Range { offset: 4, size: 4 });
    let mut out2 = [0u8; 4];
    assert_eq!(r.read(&mut out2), 4);
    assert_eq!(out2, [5, 6, 7, 8]);
}

#[test]
fn serialize_deserialize_roundtrip() {
    // The state describes the range; the bytes live in the shared region, so
    // that a peer over the same pages restores the same data.
    let mut r = ring(16);
    r.write_all(&[1, 2, 3, 4]);
    let mut out = [0u8; 2];
    r.read(&mut out);
    assert_eq!(out, [1, 2]);
    let st = r.serialize();
    assert_eq!(st, SerializedState { offset: 2, size: 2 });
    let mut pages = vec![0u8; 16];
    pages[..4].copy_from_slice(&[1, 2, 3, 4]);
    let mut r2 = RingBuffer::new(pages);
    assert!(r2.deserialize(st));
    assert_eq!(r2.data_size(), 2);
    let mut out2 = [0u8; 2];
    assert_eq!(r2.read(&mut out2), 2);
    assert_eq!(out2, [3, 4]);
}

#[test]
fn deserialize_rejects_invalid_state() {
    let mut r = ring(16);
    assert!(!r.deserialize(SerializedState { offset: 16, size: 0 })); // offset == cap
    assert!(!r.deserialize(SerializedState { offset: 0, size: 17 })); // size > cap
}

#[test]
fn capacity_is_shared_between_data_and_free_space() {
    let mut r = ring(8);
    assert_eq!(r.write(&[1, 2, 3]), 3);
    assert_eq!(r.available_capacity(), 5);
    assert_eq!(r.capacity(), 8);
    assert!(r.extend_data_range(5));
    assert!(!r.extend_data_range(1));
    assert_eq!(r.front(3), vec![1, 2, 3]);
}

#[test]
fn create_rejects_invalid_sizes() {
    let mut regions = Regions::new();
    assert_eq!(SharedBuffer::create(&mut regions, 0).unwrap_err(), CoreError::ResourceExhausted);
    assert_eq!(
        SharedBuffer::create(&mut regions, i32::MAX as u64 + 1).unwrap_err(),
        CoreError::ResourceExhausted
    );
    let b = SharedBuffer::create(&mut regions, 4096).unwrap();
    assert_eq!(b.size(), 4096);
}

#[test]
fn duplicate_mode_state_machine() {
    let mut regions = Regions::new();
    let mut b = SharedBuffer::create(&mut regions, 64).unwrap();
    // First non-read-only duplicate converts Writable -> Unsafe.
    let mut d1 = b.duplicate(false).unwrap();
    // Now read-only duplication of the original fails (Unsafe != ReadOnly).
    assert_eq!(b.duplicate(true).unwrap_err(), CoreError::FailedPrecondition);
    // Non-read-only duplication still works.
    let d2 = b.duplicate(false).unwrap();
    // A read-only buffer can only produce read-only duplicates.
    assert_eq!(d1.duplicate(true).unwrap_err(), CoreError::FailedPrecondition);
    let _ = d1.duplicate(false).unwrap();
    let _ = d2;

    let mut ro = SharedBuffer::create(&mut regions, 64).unwrap();
    let mut ro1 = ro.duplicate(true).unwrap();
    // Read-only duplicate of the (now ReadOnly) original.
    let _ = ro.duplicate(true).unwrap();
    // Non-read-only of a read-only buffer fails.
    assert_eq!(ro1.duplicate(false).unwrap_err(), CoreError::FailedPrecondition);
}

#[test]
fn map_unmap_and_shared_pages() {
    let mut regions = Regions::new();
    let mut b = SharedBuffer::create(&mut regions, 4096).unwrap();
    let m = b.map(0, 128, PAGE).unwrap();
    assert_eq!(m.len(), 128);
    assert!(m.write_at(&mut regions, 4, &[0xde, 0xad]));
    // A duplicate sees the same pages.
    let d = b.duplicate(false).unwrap();
    let dm = d.map(0, 128, PAGE + 4096).unwrap();
    assert_eq!(dm.read_at(&regions, 4, 2), Some(vec![0xde, 0xad]));
    assert_eq!(dm.bytes(&regions)[..6], [0, 0, 0, 0, 0xde, 0xad]);
    assert_eq!(dm.read_at(&regions, 127, 2), None);
}

#[test]
fn read_only_mapping_refuses_writes() {
    let mut regions = Regions::new();
    let mut b = SharedBuffer::create(&mut regions, 64).unwrap();
    let ro = b.duplicate(true).unwrap();
    let m = ro.map(0, 64, PAGE).unwrap();
    assert!(!m.write_at(&mut regions, 0, &[1]));
    assert_eq!(m.read_at(&regions, 0, 1), Some(vec![0]));
}

#[test]
fn map_range_validation() {
    let mut regions = Regions::new();
    let b = SharedBuffer::create(&mut regions, 4096).unwrap();
    assert_eq!(b.map(0, 0, PAGE).unwrap_err(), CoreError::ResourceExhausted);
    assert_eq!(b.map(0, 4097, PAGE).unwrap_err(), CoreError::ResourceExhausted);
    assert_eq!(b.map(4095, 2, PAGE).unwrap_err(), CoreError::ResourceExhausted);
    assert_eq!(b.map(4096, 1, PAGE).unwrap_err(), CoreError::ResourceExhausted);
    // Unaligned offset is supported.
    let m = b.map(3, 10, PAGE).unwrap();
    assert_eq!(m.len(), 10);
    assert_eq!(m.address() % 4096, 3);
}

#[test]
fn mapping_table_ownership() {
    let mut t = MappingTable::new();
    let mut regions = Regions::new();
    let b = SharedBuffer::create(&mut regions, 64).unwrap();
    let m = b.map(0, 64, PAGE).unwrap();
    let addr = t.add(m);
    assert_eq!(addr, m.address());
    assert!(t.get(addr).is_some());
    assert_eq!(t.remove(addr), Ok(()));
    assert!(t.get(addr).is_none());
    assert_eq!(t.remove(addr).unwrap_err(), CoreError::InvalidArgument);
}
