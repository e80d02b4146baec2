use virtio_console::bits::{
    high_word, low_word, power_of_two, with_high_word, with_low_word,
};
use virtio_console::queue::{
    DescriptorAction, DescriptorEvent, PopAction, PopEvent, UsedAction, UsedEvent, VirtQueue,
};
use virtio_console::request::Fault;
use virtio_console::ring::SharedRing;

fn ready_queue() -> VirtQueue {
    let mut q = VirtQueue::new(1, 256);
    q.set_size(8);
    q.set_desc_addr(0x1000);
    q.set_avail_addr(0x2000);
    q.set_used_addr(0x3000);
    q.set_ready(true);
    q
}

#[test]
fn new_queue_is_unconfigured() {
    let q = VirtQueue::new(0, 256);
    assert!(!q.is_ready());
    assert_eq!(q.size(), 0);
    assert_eq!(q.desc_table_addr(), 0);
    assert_eq!(q.avail_ring_addr(), 0);
    assert_eq!(q.used_ring_addr(), 0);
    assert_eq!(q.last_avail_idx(), 0);
}

#[test]
fn settings_are_kept_and_reset_forgets_them() {
    let mut q = ready_queue();
    q.set_last_avail_idx(5);
    assert!(q.is_ready());
    assert_eq!(q.size(), 8);
    assert_eq!(q.desc_table_addr(), 0x1000);
    assert_eq!(q.avail_ring_addr(), 0x2000);
    assert_eq!(q.used_ring_addr(), 0x3000);
    assert_eq!(q.last_avail_idx(), 5);
    q.reset();
    assert!(!q.is_ready());
    assert_eq!(q.size(), 0);
    assert_eq!(q.desc_table_addr(), 0);
    assert_eq!(q.avail_ring_addr(), 0);
    assert_eq!(q.used_ring_addr(), 0);
    assert_eq!(q.last_avail_idx(), 0);
    q.set_size(256);
    assert_eq!(q.size(), 256);
}

#[test]
fn only_powers_of_two_up_to_the_maximum_are_sizes() {
    let mut q = VirtQueue::new(0, 256);
    for size in 0..=u16::MAX {
        q.set_size(4);
        q.set_size(size);
        let accepted = size.is_power_of_two() && size <= 256;
        assert_eq!(q.size(), if accepted { size } else { 4 });
        assert_eq!(power_of_two(size), size.is_power_of_two());
    }
}

#[test]
fn last_avail_idx_wraps() {
    let mut q = VirtQueue::new(0, 256);
    q.set_last_avail_idx(0xFFFF);
    q.inc_last_avail_idx();
    assert_eq!(q.last_avail_idx(), 0);
    q.inc_last_avail_idx();
    assert_eq!(q.last_avail_idx(), 1);
}

#[test]
fn pop_goes_from_ring_to_index_to_entry() {
    let mut q = ready_queue();
    q.set_last_avail_idx(11);
    assert!(matches!(q.pop_available(PopEvent::Begin), PopAction::Locate { gpa: 0x2000 }));
    assert!(matches!(
        q.pop_available(PopEvent::Ring(Some(0x9000))),
        PopAction::ReadIndex { ring: 0x9000, hva: 0x9002 }
    ));
    // Entry 11 of 8 is the slot number 3.
    assert!(matches!(
        q.pop_available(PopEvent::Index { ring: 0x9000, idx: 12 }),
        PopAction::ReadEntry { hva: 0x900a }
    ));
    assert_eq!(q.last_avail_idx(), 11);
    assert!(matches!(
        q.pop_available(PopEvent::Entry { head: 6 }),
        PopAction::Popped { head: 6 }
    ));
    assert_eq!(q.last_avail_idx(), 12);
}

#[test]
fn pop_is_empty_when_not_ready_unmapped_or_used_up() {
    let mut q = ready_queue();
    q.set_last_avail_idx(4);
    assert!(matches!(q.pop_available(PopEvent::Ring(None)), PopAction::Empty));
    assert!(matches!(
        q.pop_available(PopEvent::Index { ring: 0x9000, idx: 4 }),
        PopAction::Empty
    ));
    q.set_ready(false);
    assert!(matches!(q.pop_available(PopEvent::Begin), PopAction::Empty));
    assert_eq!(q.last_avail_idx(), 4);
}

#[test]
fn a_queue_without_slots_has_no_entries() {
    let mut q = VirtQueue::new(0, 256);
    q.set_ready(true);
    assert!(matches!(
        q.pop_available(PopEvent::Index { ring: 0x9000, idx: 1 }),
        PopAction::ZeroSize
    ));
    assert!(matches!(
        q.add_used(0, 0, UsedEvent::Index { ring: 0x9000, idx: 1 }),
        UsedAction::ZeroSize
    ));
}

#[test]
fn descriptors_stand_sixteen_bytes_apart() {
    let q = ready_queue();
    assert!(matches!(
        q.get_descriptor(DescriptorEvent::Begin { idx: 7 }),
        DescriptorAction::Locate { gpa: 0x1070 }
    ));
    assert!(matches!(
        q.get_descriptor(DescriptorEvent::Begin { idx: 8 }),
        DescriptorAction::Missing
    ));
    assert!(matches!(
        q.get_descriptor(DescriptorEvent::Entry(Some(0x7777))),
        DescriptorAction::Read { hva: 0x7777 }
    ));
    assert!(matches!(
        q.get_descriptor(DescriptorEvent::Entry(None)),
        DescriptorAction::Missing
    ));
}

#[test]
fn a_descriptor_past_the_address_space_is_refused() {
    let mut q = ready_queue();
    q.set_desc_addr(u64::MAX - 15);
    assert!(matches!(
        q.get_descriptor(DescriptorEvent::Begin { idx: 0 }),
        DescriptorAction::Locate { .. }
    ));
    assert!(matches!(
        q.get_descriptor(DescriptorEvent::Begin { idx: 1 }),
        DescriptorAction::AddressOverflow
    ));
}

#[test]
fn used_elements_stand_eight_bytes_apart() {
    let q = ready_queue();
    assert!(matches!(
        q.add_used(3, 99, UsedEvent::Begin),
        UsedAction::Locate { gpa: 0x3000 }
    ));
    assert!(matches!(
        q.add_used(3, 99, UsedEvent::Ring(None)),
        UsedAction::InvalidInput
    ));
    assert!(matches!(
        q.add_used(3, 99, UsedEvent::Ring(Some(0x9000))),
        UsedAction::ReadIndex { ring: 0x9000, hva: 0x9002 }
    ));
    match q.add_used(3, 99, UsedEvent::Index { ring: 0x9000, idx: 0xFFFF }) {
        UsedAction::Publish(update) => {
            assert_eq!(update.elem_hva, 0x9004 + 7 * 8);
            assert_eq!(update.elem.id, 3);
            assert_eq!(update.elem.len, 99);
            assert_eq!(update.idx_hva, 0x9002);
            assert_eq!(update.idx, 0);
        }
        _ => panic!("nothing to publish"),
    }
}

#[test]
fn halves_of_a_value() {
    assert_eq!(low_word(0x1122_3344_5566_7788), 0x5566_7788);
    assert_eq!(high_word(0x1122_3344_5566_7788), 0x1122_3344);
    assert_eq!(with_low_word(0x1122_3344_5566_7788, 0xAABB_CCDD), 0x1122_3344_AABB_CCDD);
    assert_eq!(with_high_word(0x1122_3344_5566_7788, 0xAABB_CCDD), 0xAABB_CCDD_5566_7788);
}

#[test]
fn shared_ring_layout() {
    let ring = SharedRing::at(2, 0x8000, 4096).unwrap();
    assert_eq!(ring.index, 2);
    assert_eq!(ring.base, 0x8000);
    assert_eq!(ring.capacity, 4080);
    assert_eq!(ring.read_idx_address(), 0x8008);
    assert_eq!(ring.slot_address(0), 0x8010);
    assert_eq!(ring.slot_address(4079), 0x8010 + 4079);
    assert_eq!(ring.slot_address(4080), 0x8010);
    assert_eq!(ring.slot_address(4085), 0x8015);
}

#[test]
fn shared_ring_needs_a_header() {
    assert_eq!(SharedRing::at(0, 0x8000, 15).unwrap_err(), Fault::BadRingBuffer);
    assert_eq!(SharedRing::at(0, usize::MAX - 15, 4096).unwrap_err(), Fault::BadRingBuffer);
    assert_eq!(SharedRing::at(0, 0x8000, 16).unwrap().capacity, 0);
}
