//! What the queue operations come to, for a host whose memory nobody else
//! touches.
use crate::queue::{
    DescriptorAction, DescriptorEvent, PopAction, PopEvent, QueueView, UsedAction, UsedEvent,
    UsedUpdate, VirtqDesc, VirtqUsedElem,
};
use crate::request::Fault;
use crate::world::World;
use vstd::prelude::*;

verus! {

impl World {
    /// The descriptor number `idx` of `queue`.
    pub open spec fn descriptor(self, queue: QueueView, idx: u16) -> Result<VirtqDesc, Fault> {
        if idx >= queue.size {
            Err(Fault::MissingDescriptor)
        } else if queue.descriptor_address(idx) > u64::MAX {
            Err(Fault::DescriptorAddressOverflow)
        } else {
            match self.locate(queue.descriptor_address(idx) as u64) {
                Some(hva) => Ok(crate::world::descriptor_at(self.ram, hva as int)),
                None => Err(Fault::MissingDescriptor),
            }
        }
    }

    /// The head of the chain that the device takes next from `queue`, if there
    /// is one: the queue is ready, its available ring is mapped, and the ring's
    /// index has moved on.
    pub open spec fn next_chain(self, queue: QueueView) -> Option<u16> {
        match self.locate(queue.avail_ring) {
            Some(ring) => if queue.ready && self.half(
                crate::queue::host_offset(ring, crate::queue::RING_IDX_OFFSET as int),
            ) != queue.last_avail_idx {
                Some(self.half(crate::queue::host_offset(ring, queue.avail_entry_offset())))
            } else {
                None
            },
            None => None,
        }
    }

    /// The host after the chain that starts at `head` is handed back through
    /// the used ring of `queue`, with `len` bytes used.
    pub open spec fn handed_back(self, queue: QueueView, head: u16, len: u32) -> Self {
        match self.locate(queue.used_ring) {
            Some(ring) => self.with_ram(
                crate::world::publish(self.ram, self.used_update(queue, ring, head, len)),
            ),
            None => self,
        }
    }

    /// The writes that hand a chain back through the used ring at `ring`.
    pub open spec fn used_update(
        self,
        queue: QueueView,
        ring: u64,
        head: u16,
        len: u32,
    ) -> UsedUpdate {
        let idx_hva = crate::queue::host_offset(ring, crate::queue::RING_IDX_OFFSET as int);
        let idx = self.half(idx_hva);
        UsedUpdate {
            elem_hva: crate::queue::host_offset(ring, queue.used_elem_offset(idx)),
            elem: VirtqUsedElem { id: head as u32, len },
            idx_hva,
            idx: crate::queue::next_idx(idx),
        }
    }
}

/// Handing a chain back writes its element to the slot of the used ring that
/// the ring's index names, moves that index on by one, and changes nothing else.
pub proof fn law_used_ring_gets_the_chain(
    world: World,
    queue: QueueView,
    ring: u64,
    head: u16,
    len: u32,
)
    requires
        queue.size > 0,
        world.locate(queue.used_ring) == Some(ring),
        ring + crate::queue::RING_ENTRIES_OFFSET + crate::queue::USED_ELEM_SIZE * queue.size
            <= u64::MAX,
    ensures
        ({
            let after = world.handed_back(queue, head, len);
            let idx_at = (ring + crate::queue::RING_IDX_OFFSET) as u64;
            let elem_at = ring + queue.used_elem_offset(world.half(idx_at));
            &&& after.half(idx_at) == crate::queue::next_idx(world.half(idx_at))
            &&& crate::world::load(after.ram, elem_at, 4) == head
            &&& crate::world::load(after.ram, elem_at + 4, 4) == len
            &&& forall|x: int|
                !(idx_at <= x < idx_at + 2) && !(elem_at <= x < elem_at + 8)
                    ==> #[trigger] after.ram[x] == world.ram[x]
        }),
{
    let after = world.handed_back(queue, head, len);
    let idx_at = (ring + crate::queue::RING_IDX_OFFSET) as u64;
    let idx = world.half(idx_at);
    let elem_at = ring + queue.used_elem_offset(idx);
    let update = world.used_update(queue, ring, head, len);
    vstd::arithmetic::div_mod::lemma_mod_bound(idx as int, queue.size as int);
    vstd::arithmetic::div_mod::lemma_small_mod(idx_at as nat, 0x1_0000_0000_0000_0000);
    vstd::arithmetic::div_mod::lemma_small_mod(elem_at as nat, 0x1_0000_0000_0000_0000);
    assert(update.idx_hva == idx_at);
    assert(update.elem_hva == elem_at);
    let with_id = crate::world::store(world.ram, elem_at, 4, head as nat);
    let with_elem = crate::world::store(with_id, elem_at + 4, 4, len as nat);
    assert(after.ram == crate::world::store(with_elem, idx_at as int, 2, update.idx as nat));
    reveal_with_fuel(crate::world::radix, 5);
    crate::world::lemma_load_store(world.ram, elem_at, 4, head as nat);
    crate::world::lemma_load_store(with_id, elem_at + 4, 4, len as nat);
    crate::world::lemma_load_store(with_elem, idx_at as int, 2, update.idx as nat);
    assert forall|x: int| !(idx_at <= x < idx_at + 2) implies #[trigger] after.ram[x]
        == with_elem[x] by {
        crate::world::lemma_store_outside(with_elem, idx_at as int, 2, update.idx as nat, x);
    }
    assert forall|x: int| !(elem_at + 4 <= x < elem_at + 8) implies #[trigger] with_elem[x]
        == with_id[x] by {
        crate::world::lemma_store_outside(with_id, elem_at + 4, 4, len as nat, x);
    }
    assert forall|x: int| !(elem_at <= x < elem_at + 4) implies #[trigger] with_id[x]
        == world.ram[x] by {
        crate::world::lemma_store_outside(world.ram, elem_at, 4, head as nat, x);
    }
    crate::world::lemma_load_same(after.ram, with_elem, elem_at, 4);
    crate::world::lemma_load_same(with_elem, with_id, elem_at, 4);
    crate::world::lemma_load_same(after.ram, with_elem, elem_at + 4, 4);
    assert forall|x: int|
        !(idx_at <= x < idx_at + 2) && !(elem_at <= x < elem_at + 8) implies #[trigger] after.ram[x]
        == world.ram[x] by {
        assert(after.ram[x] == with_elem[x]);
        assert(with_elem[x] == with_id[x]);
    }
}

/// A queue that follows the rules on sizes keeps following them, whatever a
/// driver asks for and however many entries are taken.
pub proof fn law_queue_size_stays_valid(queue: QueueView, size: u16)
    requires
        queue.wf(),
    ensures
        queue.with_size(size).wf(),
        queue.advanced().wf(),
        QueueView::unconfigured(queue.idx, queue.max_size).wf(),
        queue.with_size(size).size == size <==> queue.accepts(size) || queue.size == size,
{
}

/// Taking an entry moves the queue on to the next slot of the available ring,
/// and from the last slot to the first.
pub proof fn law_entries_are_taken_round_robin(queue: QueueView)
    requires
        queue.wf(),
        queue.size > 0,
    ensures
        ({
            let slot = queue.last_avail_idx % queue.size;
            let next = queue.advanced().last_avail_idx % queue.size;
            next == if slot + 1 == queue.size {
                0
            } else {
                slot + 1
            }
        }),
{
    let k = choose|k: nat| queue.size == #[trigger] vstd::arithmetic::power2::pow2(k);
    lemma_size_divides(queue.size, k);
    let size = queue.size as int;
    let last = queue.last_avail_idx as int;
    let times = 0x1_0000int / size;
    vstd::arithmetic::div_mod::lemma_fundamental_div_mod(0x1_0000, size);
    vstd::arithmetic::div_mod::lemma_fundamental_div_mod(last, size);
    let slot = last % size;
    vstd::arithmetic::div_mod::lemma_mod_bound(last, size);
    if last + 1 == 0x1_0000 {
        // The index wraps where a round ends.
        assert(0x1_0000 == size * times);
        vstd::arithmetic::div_mod::lemma_mod_multiples_vanish(times, 0, size);
        vstd::arithmetic::div_mod::lemma_add_mod_noop(last, 1, size);
        if slot + 1 < size {
            vstd::arithmetic::div_mod::lemma_small_mod((slot + 1) as nat, size as nat);
            if size > 1 {
                vstd::arithmetic::div_mod::lemma_small_mod(1, size as nat);
            }
        }
    } else {
        vstd::arithmetic::div_mod::lemma_small_mod((last + 1) as nat, 0x1_0000);
        vstd::arithmetic::div_mod::lemma_add_mod_noop(last, 1, size);
        if slot + 1 == size {
            if size > 1 {
                vstd::arithmetic::div_mod::lemma_small_mod(1, size as nat);
            }
            vstd::arithmetic::div_mod::lemma_mod_self_0(size);
        } else {
            vstd::arithmetic::div_mod::lemma_small_mod(1, size as nat);
            vstd::arithmetic::div_mod::lemma_small_mod((slot + 1) as nat, size as nat);
        }
    }
}

pub proof fn lemma_size_divides(size: u16, k: nat)
    requires
        size == vstd::arithmetic::power2::pow2(k),
    ensures
        0x1_0000int % (size as int) == 0,
{
    vstd::arithmetic::power2::lemma2_to64();
    if k >= 16 {
        if k > 16 {
            vstd::arithmetic::power2::lemma_pow2_strictly_increases(16, k);
        }
        assert(false);
    }
    let times = vstd::arithmetic::power2::pow2((16 - k) as nat);
    vstd::arithmetic::power2::lemma_pow2_adds((16 - k) as nat, k);
    vstd::arithmetic::div_mod::lemma_mod_multiples_basic(times as int, size as int);
}

/// Host addresses wrap at 64 bits: inside of memory an offset is added, and past
/// its end counting begins at 0 again.
pub proof fn law_host_addresses_wrap(hva: u64, offset: int)
    requires
        0 <= offset <= u64::MAX,
    ensures
        crate::queue::host_offset(hva, offset) == if hva + offset <= u64::MAX {
            hva + offset
        } else {
            hva + offset - 0x1_0000_0000_0000_0000
        },
{
}

/// Descriptor number `idx` stands 16 bytes behind the one before it, the first
/// at the start of the table. A descriptor of the queue is looked for exactly
/// there, and read where it is found; one past the end of the queue, or one that
/// is not found, does not exist.
pub proof fn law_descriptors_stand_in_a_table(queue: QueueView, idx: u16, other: u16, hva: u64)
    ensures
        idx < queue.size && queue.desc_table + 16 * idx <= u64::MAX ==> queue.descriptor_action(
            DescriptorEvent::Begin { idx },
        ) == (DescriptorAction::Locate { gpa: (queue.desc_table + 16 * idx) as u64 }),
        idx < queue.size && queue.desc_table + 16 * idx > u64::MAX ==> queue.descriptor_action(
            DescriptorEvent::Begin { idx },
        ) == DescriptorAction::AddressOverflow,
        idx >= queue.size ==> queue.descriptor_action(DescriptorEvent::Begin { idx })
            == DescriptorAction::Missing,
        queue.descriptor_action(DescriptorEvent::Entry(Some(hva))) == (DescriptorAction::Read {
            hva,
        }),
        queue.descriptor_action(DescriptorEvent::Entry(None)) == DescriptorAction::Missing,
        queue.descriptor_address(0) == queue.desc_table,
        queue.descriptor_address(idx) - queue.descriptor_address(other) == 16 * (idx - other),
{
}

/// The available ring has its index 2 bytes and its entries 4 bytes behind its
/// start, each entry of 2 bytes. The device looks for a ready queue's ring where
/// the driver has put it, reads its index, and if that has moved on, the entry
/// at its own position, counted modulo the size. It takes one entry at a time.
pub proof fn law_entries_are_read_in_the_ring(
    queue: QueueView,
    ring: u64,
    idx: u16,
    head: u16,
)
    ensures
        queue.ready ==> queue.pop_action(PopEvent::Begin) == (PopAction::Locate {
            gpa: queue.avail_ring,
        }),
        !queue.ready ==> queue.pop_action(PopEvent::Begin) == PopAction::Empty,
        queue.pop_action(PopEvent::Ring(None)) == PopAction::Empty,
        ring + 2 <= u64::MAX ==> queue.pop_action(PopEvent::Ring(Some(ring))) == (
        PopAction::ReadIndex { ring, hva: (ring + 2) as u64 }),
        idx == queue.last_avail_idx ==> queue.pop_action(PopEvent::Index { ring, idx })
            == PopAction::Empty,
        idx != queue.last_avail_idx && queue.size == 0 ==> queue.pop_action(
            PopEvent::Index { ring, idx },
        ) == PopAction::ZeroSize,
        idx != queue.last_avail_idx && queue.size > 0 && ring + 4 + 2 * queue.size <= u64::MAX
            ==> queue.pop_action(PopEvent::Index { ring, idx }) == (PopAction::ReadEntry {
            hva: (ring + 4 + 2 * (queue.last_avail_idx as int % queue.size as int)) as u64,
        }),
        queue.pop_action(PopEvent::Entry { head }) == (PopAction::Popped { head }),
        queue.after_pop(PopEvent::Begin) == queue,
        queue.after_pop(PopEvent::Ring(Some(ring))) == queue,
        queue.after_pop(PopEvent::Ring(None)) == queue,
        queue.after_pop(PopEvent::Index { ring, idx }) == queue,
        queue.after_pop(PopEvent::Entry { head }) == queue.advanced(),
        queue.advanced().last_avail_idx == if queue.last_avail_idx == 0xFFFF {
            0
        } else {
            queue.last_avail_idx + 1
        },
        queue.advanced() == (QueueView {
            last_avail_idx: queue.advanced().last_avail_idx,
            ..queue
        }),
{
    if queue.size > 0 {
        vstd::arithmetic::div_mod::lemma_mod_bound(
            queue.last_avail_idx as int,
            queue.size as int,
        );
    }
}

/// The used ring has its index 2 bytes and its elements 4 bytes behind its
/// start, each element of 8 bytes. A chain is handed back in the slot that the
/// ring's index names, counted modulo the size, with its head and its length,
/// and the index moves on by one.
pub proof fn law_elements_are_written_in_the_ring(
    queue: QueueView,
    head: u16,
    len: u32,
    ring: u64,
    idx: u16,
)
    ensures
        queue.used_action(head, len, UsedEvent::Begin) == (UsedAction::Locate {
            gpa: queue.used_ring,
        }),
        queue.used_action(head, len, UsedEvent::Ring(None)) == UsedAction::InvalidInput,
        ring + 2 <= u64::MAX ==> queue.used_action(head, len, UsedEvent::Ring(Some(ring))) == (
        UsedAction::ReadIndex { ring, hva: (ring + 2) as u64 }),
        queue.size == 0 ==> queue.used_action(head, len, UsedEvent::Index { ring, idx })
            == UsedAction::ZeroSize,
        queue.size > 0 && ring + 4 + 8 * queue.size <= u64::MAX ==> queue.used_action(
            head,
            len,
            UsedEvent::Index { ring, idx },
        ) == UsedAction::Publish(
            UsedUpdate {
                elem_hva: (ring + 4 + 8 * (idx as int % queue.size as int)) as u64,
                elem: VirtqUsedElem { id: head as u32, len },
                idx_hva: (ring + 2) as u64,
                idx: (if idx == 0xFFFF {
                    0
                } else {
                    idx + 1
                }) as u16,
            },
        ),
{
    if queue.size > 0 {
        vstd::arithmetic::div_mod::lemma_mod_bound(idx as int, queue.size as int);
    }
}

/// A descriptor has a successor if the lowest bit of its flags is set, and is
/// for the device to write if the bit above that is set. It describes no buffer
/// if its address or its length is zero.
pub proof fn law_flags_are_bits(desc: VirtqDesc)
    ensures
        desc.has_next() <==> desc.flags % 2 == 1,
        desc.is_writable() <==> desc.flags / 2 % 2 == 1,
        desc.is_void() <==> desc.addr == 0 || desc.len == 0,
{
    let flags = desc.flags;
    assert((flags & 1u16 != 0) == (flags % 2 == 1)) by (bit_vector);
    assert((flags & 2u16 != 0) == (flags / 2 % 2 == 1)) by (bit_vector);
}

/// A driver sets the size of a queue to a power of two up to the most that the
/// device supports; any other size changes nothing. No other setting changes
/// either way, and a queue that is not configured has none.
pub proof fn law_sizes_are_chosen(queue: QueueView, size: u16, idx: u16, max_size: u16)
    ensures
        size != 0 && size & ((size - 1) as u16) == 0 && size <= queue.max_size
            ==> queue.with_size(size) == (QueueView { size, ..queue }),
        size == 0 || size & ((size - 1) as u16) != 0 || size > queue.max_size
            ==> queue.with_size(size) == queue,
        QueueView::unconfigured(idx, max_size) == (QueueView {
            idx,
            size: 0,
            max_size,
            ready: false,
            desc_table: 0,
            avail_ring: 0,
            used_ring: 0,
            last_avail_idx: 0,
        }),
{
    crate::bits::law_powers_of_two_have_one_bit(size);
}

} // verus!
