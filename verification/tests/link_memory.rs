//! Link memory: fragments, link states and block allocation.

use mojo_rs::ipcz::link_memory::{
    LinkMemory, LinkMemoryError, RouterLinkStatus, BLOCK_ALLOCATOR_64_BLOCKS,
    BLOCK_ALLOCATOR_64_OFFSET, FRAGMENT_HEADER_SIZE, INITIAL_LINK_STATES_OFFSET,
    MAX_INITIAL_PORTALS, PRIMARY_BUFFER_SIZE, ROUTER_LINK_STATE_SIZE,
};
use mojo_rs::ipcz::messages::FragmentDescriptor;

/// A primary buffer initialized like the broker's: header counters, the
/// allocator region, zeroed initial link states.
fn fresh_memory() -> LinkMemory {
    let mut map = vec![0u8; PRIMARY_BUFFER_SIZE];
    map[0..8].copy_from_slice(&1u64.to_le_bytes());
    map[8..16].copy_from_slice(&(MAX_INITIAL_PORTALS as u64).to_le_bytes());
    // A zeroed region makes every block point at its successor; the last one
    // points back to block 0.
    let last = BLOCK_ALLOCATOR_64_OFFSET + (BLOCK_ALLOCATOR_64_BLOCKS - 1) * 64;
    let rel = -(BLOCK_ALLOCATOR_64_BLOCKS as i16);
    map[last + 2..last + 4].copy_from_slice(&rel.to_le_bytes());
    LinkMemory::adopt_primary(map)
}

fn state_desc() -> FragmentDescriptor {
    FragmentDescriptor {
        buffer_id: 0,
        offset: BLOCK_ALLOCATOR_64_OFFSET as u32,
        size: ROUTER_LINK_STATE_SIZE as u32,
    }
}

#[test]
fn fragment_header_constant_matches_reference() {
    // Parcel FragmentHeader is { reserved u32, size u32 }.
    assert_eq!(FRAGMENT_HEADER_SIZE, 8);
}

#[test]
fn fragment_bounds_checked() {
    let mem = fresh_memory();
    // A valid fragment.
    let d = FragmentDescriptor { buffer_id: 0, offset: 0x100, size: 64 };
    assert!(mem.fragment(d).is_ok());
    // Out of bounds.
    let d = FragmentDescriptor {
        buffer_id: 0,
        offset: PRIMARY_BUFFER_SIZE as u32 - 32,
        size: 64,
    };
    assert_eq!(mem.fragment(d), Err(LinkMemoryError::OutOfBounds));
    // Unknown buffer.
    let d = FragmentDescriptor { buffer_id: 7, offset: 0, size: 64 };
    assert_eq!(mem.fragment(d), Err(LinkMemoryError::UnknownBuffer));
    // Misaligned.
    let d = FragmentDescriptor { buffer_id: 0, offset: 4, size: 64 };
    assert_eq!(mem.fragment(d), Err(LinkMemoryError::Misaligned));
    // Null.
    assert_eq!(
        mem.fragment(FragmentDescriptor {
            buffer_id: FragmentDescriptor::INVALID_BUFFER_ID,
            offset: 0,
            size: 0,
        }),
        Err(LinkMemoryError::NullDescriptor)
    );
}

#[test]
fn link_status_bits() {
    let mut mem = fresh_memory();
    let d = FragmentDescriptor {
        buffer_id: 0,
        offset: INITIAL_LINK_STATES_OFFSET as u32 + 64, // portal 1
        size: 64,
    };
    assert_eq!(mem.read_link_status(d).unwrap().value(), 0);
    mem.set_link_status_bits(d, RouterLinkStatus::SIDE_B_STABLE).unwrap();
    let s = mem.read_link_status(d).unwrap();
    assert!(s.side_b_stable());
    assert!(!s.side_a_stable());
    mem.set_link_status_bits(d, RouterLinkStatus::SIDE_A_STABLE).unwrap();
    assert!(mem.read_link_status(d).unwrap().is_stable());
}

#[test]
fn parcel_fragment_roundtrip() {
    let mut mem = fresh_memory();
    let desc = mem.write_parcel_fragment(b"hello-from-acceptor").unwrap();
    assert_eq!(desc.buffer_id, 0);
    assert_eq!(desc.offset, 0x440); // first allocable 64-byte block
    assert_eq!(desc.size, 64);
    assert_eq!(mem.read_parcel_fragment(desc).unwrap(), b"hello-from-acceptor");
    // The next allocation pops the second block.
    let d2 = mem.write_parcel_fragment(b"x").unwrap();
    assert_eq!(d2.offset, 0x480);
}

#[test]
fn set_side_stable_or_into_peer_bits() {
    let mut mem = fresh_memory();
    let d = state_desc();
    // The peer (side A) set its stable bit first.
    mem.set_side_stable(d, true).unwrap();
    assert_eq!(mem.read_link_status(d).unwrap().value(), RouterLinkStatus::SIDE_A_STABLE);
    // Our side B set must succeed and preserve side A's bit.
    mem.set_side_stable(d, false).unwrap();
    let s = mem.read_link_status(d).unwrap();
    assert!(s.side_a_stable());
    assert!(s.side_b_stable());
    assert_eq!(s.value(), RouterLinkStatus::STABLE);
}

#[test]
fn try_lock_requires_stable_and_excludes_peer() {
    let mut mem = fresh_memory();
    let d = state_desc();
    // Unstable link: the lock fails, and no bit is set.
    assert!(!mem.try_lock_link_state(d, true).unwrap());
    assert_eq!(mem.read_link_status(d).unwrap().value(), 0);
    // Stabilize both sides.
    mem.set_side_stable(d, true).unwrap();
    mem.set_side_stable(d, false).unwrap();
    // Side A locks.
    assert!(mem.try_lock_link_state(d, true).unwrap());
    let locked = mem.read_link_status(d).unwrap();
    assert_eq!(
        locked.value() & RouterLinkStatus::LOCKED_BY_SIDE_A,
        RouterLinkStatus::LOCKED_BY_SIDE_A
    );
    // Side B cannot lock while A holds it.
    assert!(!mem.try_lock_link_state(d, false).unwrap());
    // A unlocks; B locks.
    mem.unlock_link_state(d, true).unwrap();
    assert_eq!(mem.read_link_status(d).unwrap().value(), RouterLinkStatus::STABLE);
    assert!(mem.try_lock_link_state(d, false).unwrap());
    mem.unlock_link_state(d, false).unwrap();
}

#[test]
fn try_lock_sets_waiting_bit_when_peer_unstable() {
    let mut mem = fresh_memory();
    let d = state_desc();
    // Our side (A) is stable; the peer (B) is not.
    mem.set_side_stable(d, true).unwrap();
    assert!(!mem.try_lock_link_state(d, true).unwrap());
    // The waiting bit is set and the lock is not.
    let s = mem.read_link_status(d).unwrap();
    assert_eq!(s.value(), RouterLinkStatus::SIDE_A_STABLE | RouterLinkStatus::SIDE_A_WAITING);
    // The peer stabilizes; resetting our waiting bit succeeds.
    mem.set_side_stable(d, false).unwrap();
    assert!(mem.reset_waiting_bit(d, true).unwrap());
    assert_eq!(mem.read_link_status(d).unwrap().value(), RouterLinkStatus::STABLE);
    // Now we can lock.
    assert!(mem.try_lock_link_state(d, true).unwrap());
    mem.unlock_link_state(d, true).unwrap();
}

#[test]
fn reset_waiting_bit_refuses_when_not_waiting_or_locked() {
    let mut mem = fresh_memory();
    let d = state_desc();
    // Stable but not waiting: nothing to reset.
    mem.set_side_stable(d, true).unwrap();
    mem.set_side_stable(d, false).unwrap();
    assert!(!mem.reset_waiting_bit(d, true).unwrap());
    // Locked: nothing to reset.
    assert!(mem.try_lock_link_state(d, true).unwrap());
    assert!(!mem.reset_waiting_bit(d, true).unwrap());
    assert!(!mem.reset_waiting_bit(d, false).unwrap());
    mem.unlock_link_state(d, true).unwrap();
}

#[test]
fn all_blocks_can_be_taken_once() {
    let mut mem = fresh_memory();
    let mut offsets = Vec::new();
    while let Some(d) = mem.try_allocate_link_state().unwrap() {
        offsets.push(d.offset);
    }
    // Block 0 heads the list of free blocks.
    assert_eq!(offsets.len(), BLOCK_ALLOCATOR_64_BLOCKS - 1);
    assert_eq!(offsets[0], 0x440);
    let mut sorted = offsets.clone();
    sorted.dedup();
    assert_eq!(sorted.len(), offsets.len());
    assert_eq!(mem.write_parcel_fragment(b"x"), Err(LinkMemoryError::OutOfBounds));
}

#[test]
fn freed_block_is_next() {
    let mut mem = fresh_memory();
    let a = mem.try_allocate_link_state().unwrap().unwrap();
    let b = mem.try_allocate_link_state().unwrap().unwrap();
    assert_ne!(a, b);
    assert!(mem.free_block(a));
    assert_eq!(mem.try_allocate_link_state().unwrap(), Some(a));
}

#[test]
fn link_state_references_are_counted() {
    let mut mem = fresh_memory();
    let d = mem.try_allocate_link_state().unwrap().unwrap();
    mem.add_link_state_ref(d).unwrap();
    assert!(!mem.release_link_state_ref(d).unwrap());
    assert!(mem.release_link_state_ref(d).unwrap());
}

#[test]
fn sublinks_and_buffers_are_counted() {
    let mut mem = fresh_memory();
    assert_eq!(mem.allocate_sublink_ids(2), 12);
    assert_eq!(mem.allocate_sublink_ids(1), 14);
    assert_eq!(mem.allocate_new_buffer_id(), 1);
    assert_eq!(mem.allocate_new_buffer_id(), 2);
}

#[test]
fn more_buffers_give_more_blocks() {
    let mut mem = fresh_memory();
    while mem.try_allocate_link_state().unwrap().is_some() {}
    assert!(!mem.has_extra_buffers());
    mem.register_block_buffer(1, vec![0; 65536], 64);
    assert!(mem.has_extra_buffers());
    let d = mem.try_allocate_link_state().unwrap().unwrap();
    assert_eq!(d.buffer_id, 1);
    assert_eq!(d.size, 64);
}

#[test]
fn bypass_source_is_kept() {
    let mut mem = fresh_memory();
    let d = state_desc();
    mem.write_allowed_bypass_source(d, 0xfeed_0123).unwrap();
    assert_eq!(mem.read_allowed_bypass_source(d).unwrap(), 0xfeed_0123);
    assert_eq!(LinkMemory::initial_link_state_offset(1), 0x140);
    assert_eq!(LinkMemoryError::Misaligned.text(), "fragment misaligned");
}

#[test]
fn bytes_of_a_fragment_are_replaced() {
    let mut mem = fresh_memory();
    let d = state_desc();
    mem.fragment_mut(d, 62, &[5, 6]).unwrap();
    assert_eq!(mem.fragment(d).unwrap()[62..], [5, 6]);
    assert!(mem.fragment_mut(d, 63, &[5, 6]).is_err());
}
