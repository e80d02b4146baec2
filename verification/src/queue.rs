//! The split virtqueue: its configuration, and the decisions that its three
//! operations make between one access to guest memory and the next.
//!
//! Guest memory is not reached from here. An operation that needs it is a
//! function from what is known so far (an event) to what to do next (an
//! action): the caller carries the action out and hands the outcome back.
use crate::bits::power_of_two;
use vstd::prelude::*;

verus! {

/// Virtio descriptor flags
pub const VRING_DESC_F_NEXT: u16 = 1;

pub const VRING_DESC_F_WRITE: u16 = 2;

pub const VRING_DESC_F_INDIRECT: u16 = 4;

/// Bytes that one entry of the descriptor table takes.
pub const DESC_SIZE: u64 = 16;

/// Bytes that one element of the used ring takes.
pub const USED_ELEM_SIZE: u64 = 8;

/// Where the index stands in an available or used ring.
pub const RING_IDX_OFFSET: u64 = 2;

/// Where the entries of an available or used ring start.
pub const RING_ENTRIES_OFFSET: u64 = 4;

/// The descriptor table element.
#[derive(Debug, Clone, Copy)]
pub struct VirtqDesc {
    /// Address (guest-physical).
    pub addr: u64,
    /// Length.
    pub len: u32,
    /// The flags as indicated above.
    pub flags: u16,
    /// Next field if flags & NEXT
    pub next: u16,
}

/// The available ring.
pub struct VirtqAvail {
    pub flags: u16,
    pub idx: u16,
    /// Flexible array member
    pub ring: [u16; 0],
}

/// The used ring element.
#[derive(Debug, Clone, Copy)]
pub struct VirtqUsedElem {
    /// Index of start of used descriptor chain.
    pub id: u32,
    /// Total length of the descriptor chain which was used (written to).
    pub len: u32,
}

/// The used ring.
pub struct VirtqUsed {
    pub flags: u16,
    pub idx: u16,
    /// Flexible array member
    pub ring: [VirtqUsedElem; 0],
}

impl VirtqDesc {
    /// The chain goes on at `next`.
    pub open spec fn has_next(self) -> bool {
        self.flags & VRING_DESC_F_NEXT != 0
    }

    /// The buffer is for the device to write, so it holds nothing from the driver.
    pub open spec fn is_writable(self) -> bool {
        self.flags & VRING_DESC_F_WRITE != 0
    }

    /// The descriptor describes no buffer.
    pub open spec fn is_void(self) -> bool {
        self.addr == 0 || self.len == 0
    }
}

/// What is known while an entry is taken from the available ring. Host
/// addresses are virtual.
#[derive(Debug, Clone, Copy)]
pub enum PopEvent {
    /// Nothing yet.
    Begin,
    /// Where the available ring lies in host memory, if it is mapped.
    Ring(Option<u64>),
    /// The ring at `ring` has the index `idx`.
    Index { ring: u64, idx: u16 },
    /// The next entry of the ring names the descriptor `head`.
    Entry { head: u16 },
}

/// What to do next to take an entry from the available ring.
#[derive(Debug, Clone, Copy)]
pub enum PopAction {
    /// Find the ring, which starts at the guest address `gpa`.
    Locate { gpa: u64 },
    /// Read the index of the ring at `ring`, which stands at `hva`.
    ReadIndex { ring: u64, hva: u64 },
    /// Read the next entry, which stands at `hva`.
    ReadEntry { hva: u64 },
    /// Done: the chain that starts at `head` is the device's.
    Popped { head: u16 },
    /// Done: there is no entry to take.
    Empty,
    /// The queue has no slots, so it has no next entry.
    ZeroSize,
}

/// What is known while a descriptor is looked up.
#[derive(Debug, Clone, Copy)]
pub enum DescriptorEvent {
    /// The number of the descriptor.
    Begin { idx: u16 },
    /// Where the descriptor lies in host memory, if it is mapped.
    Entry(Option<u64>),
}

/// What to do next to look a descriptor up.
#[derive(Debug, Clone, Copy)]
pub enum DescriptorAction {
    /// Find the descriptor, which starts at the guest address `gpa`.
    Locate { gpa: u64 },
    /// Read the descriptor, which stands at `hva`: it is the one asked for.
    Read { hva: u64 },
    /// There is no such descriptor.
    Missing,
    /// The descriptor's guest address is not representable.
    AddressOverflow,
}

/// What is known while a chain is handed back through the used ring.
#[derive(Debug, Clone, Copy)]
pub enum UsedEvent {
    /// Nothing yet.
    Begin,
    /// Where the used ring lies in host memory, if it is mapped.
    Ring(Option<u64>),
    /// The ring at `ring` has the index `idx`.
    Index { ring: u64, idx: u16 },
}

/// What to do next to hand a chain back through the used ring.
#[derive(Debug, Clone, Copy)]
pub enum UsedAction {
    /// Find the ring, which starts at the guest address `gpa`.
    Locate { gpa: u64 },
    /// Read the index of the ring at `ring`, which stands at `hva`.
    ReadIndex { ring: u64, hva: u64 },
    /// Write the element, then the ring's new index.
    Publish(UsedUpdate),
    /// The used ring is not mapped: nothing is written.
    InvalidInput,
    /// The queue has no slots, so there is no element to write.
    ZeroSize,
}

/// The two writes that hand one chain back: `elem` at `elem_hva` first, then
/// `idx` at `idx_hva`.
#[derive(Debug, Clone, Copy)]
pub struct UsedUpdate {
    pub elem_hva: u64,
    pub elem: VirtqUsedElem,
    pub idx_hva: u64,
    pub idx: u16,
}

/// What a [`VirtQueue`] holds.
pub struct QueueView {
    pub idx: u16,
    pub size: u16,
    pub max_size: u16,
    pub ready: bool,
    pub desc_table: u64,
    pub avail_ring: u64,
    pub used_ring: u64,
    pub last_avail_idx: u16,
}

/// The address `offset` bytes past `hva`.
pub open spec fn host_offset(hva: u64, offset: int) -> u64 {
    ((hva + offset) % 0x1_0000_0000_0000_0000) as u64
}

/// The ring index after `idx`: indices wrap at 16 bits.
pub open spec fn next_idx(idx: u16) -> u16 {
    ((idx + 1) % 0x1_0000) as u16
}

impl QueueView {
    /// A queue that nothing has configured yet.
    pub open spec fn unconfigured(idx: u16, max_size: u16) -> Self {
        QueueView {
            idx,
            size: 0,
            max_size,
            ready: false,
            desc_table: 0,
            avail_ring: 0,
            used_ring: 0,
            last_avail_idx: 0,
        }
    }

    /// A driver may choose `size`: a power of two that the device supports.
    pub open spec fn accepts(self, size: u16) -> bool {
        &&& size <= self.max_size
        &&& crate::bits::is_power_of_two(size as int)
    }

    /// The size is unset, or one that a driver may choose.
    pub open spec fn wf(self) -> bool {
        self.size == 0 || self.accepts(self.size)
    }

    /// The queue after a driver asks for `size`.
    pub open spec fn with_size(self, size: u16) -> Self {
        if self.accepts(size) {
            QueueView { size, ..self }
        } else {
            self
        }
    }

    /// Offset of the entry in the available ring that the device takes next.
    pub open spec fn avail_entry_offset(self) -> int {
        RING_ENTRIES_OFFSET + 2 * (self.last_avail_idx % self.size)
    }

    /// Offset of the element in the used ring that belongs to the index `idx`.
    pub open spec fn used_elem_offset(self, idx: u16) -> int {
        RING_ENTRIES_OFFSET + USED_ELEM_SIZE * (idx % self.size)
    }

    /// Guest address of the descriptor number `idx`.
    pub open spec fn descriptor_address(self, idx: u16) -> int {
        self.desc_table + DESC_SIZE * idx
    }

    pub open spec fn pop_action(self, event: PopEvent) -> PopAction {
        match event {
            PopEvent::Begin => if self.ready {
                PopAction::Locate { gpa: self.avail_ring }
            } else {
                PopAction::Empty
            },
            PopEvent::Ring(None) => PopAction::Empty,
            PopEvent::Ring(Some(ring)) => PopAction::ReadIndex {
                ring,
                hva: host_offset(ring, RING_IDX_OFFSET as int),
            },
            PopEvent::Index { ring, idx } => if idx == self.last_avail_idx {
                PopAction::Empty
            } else if self.size == 0 {
                PopAction::ZeroSize
            } else {
                PopAction::ReadEntry { hva: host_offset(ring, self.avail_entry_offset()) }
            },
            PopEvent::Entry { head } => PopAction::Popped { head },
        }
    }

    /// The queue after `event`: only a popped entry moves it on.
    pub open spec fn after_pop(self, event: PopEvent) -> Self {
        match event {
            PopEvent::Entry { .. } => self.advanced(),
            _ => self,
        }
    }

    /// The queue after one entry of the available ring was taken.
    pub open spec fn advanced(self) -> Self {
        QueueView { last_avail_idx: next_idx(self.last_avail_idx), ..self }
    }

    pub open spec fn descriptor_action(self, event: DescriptorEvent) -> DescriptorAction {
        match event {
            DescriptorEvent::Begin { idx } => if idx >= self.size {
                DescriptorAction::Missing
            } else if self.descriptor_address(idx) > u64::MAX {
                DescriptorAction::AddressOverflow
            } else {
                DescriptorAction::Locate { gpa: self.descriptor_address(idx) as u64 }
            },
            DescriptorEvent::Entry(None) => DescriptorAction::Missing,
            DescriptorEvent::Entry(Some(hva)) => DescriptorAction::Read { hva },
        }
    }

    pub open spec fn used_action(self, head_idx: u16, len: u32, event: UsedEvent) -> UsedAction {
        match event {
            UsedEvent::Begin => UsedAction::Locate { gpa: self.used_ring },
            UsedEvent::Ring(None) => UsedAction::InvalidInput,
            UsedEvent::Ring(Some(ring)) => UsedAction::ReadIndex {
                ring,
                hva: host_offset(ring, RING_IDX_OFFSET as int),
            },
            UsedEvent::Index { ring, idx } => if self.size == 0 {
                UsedAction::ZeroSize
            } else {
                UsedAction::Publish(
                    UsedUpdate {
                        elem_hva: host_offset(ring, self.used_elem_offset(idx)),
                        elem: VirtqUsedElem { id: head_idx as u32, len },
                        idx_hva: host_offset(ring, RING_IDX_OFFSET as int),
                        idx: next_idx(idx),
                    },
                )
            },
        }
    }
}

/// A helper struct to manage a Virtqueue configuration and state.
#[derive(Debug)]
pub struct VirtQueue {
    /// The index of the queue.
    idx: u16,
    /// The size of the queue (number of descriptors).
    size: u16,
    /// The maximum size supported.
    max_size: u16,
    /// Whether the queue is ready.
    ready: bool,
    /// Guest Physical Address of the Descriptor Table.
    desc_table: u64,
    /// Guest Physical Address of the Available Ring.
    avail_ring: u64,
    /// Guest Physical Address of the Used Ring.
    used_ring: u64,
    /// The last index we saw in the available ring.
    last_avail_idx: u16,
}

impl View for VirtQueue {
    type V = QueueView;

    closed spec fn view(&self) -> QueueView {
        QueueView {
            idx: self.idx,
            size: self.size,
            max_size: self.max_size,
            ready: self.ready,
            desc_table: self.desc_table,
            avail_ring: self.avail_ring,
            used_ring: self.used_ring,
            last_avail_idx: self.last_avail_idx,
        }
    }
}

impl VirtQueue {
    pub fn new(idx: u16, max_size: u16) -> (queue: Self)
        ensures
            queue@ == QueueView::unconfigured(idx, max_size),
    {
        Self {
            idx,
            size: 0,
            max_size,
            ready: false,
            desc_table: 0,
            avail_ring: 0,
            used_ring: 0,
            last_avail_idx: 0,
        }
    }

    /// Forgets all that the driver configured and all that was taken.
    pub fn reset(&mut self)
        ensures
            final(self)@ == QueueView::unconfigured(old(self)@.idx, old(self)@.max_size),
    {
        self.size = 0;
        self.ready = false;
        self.desc_table = 0;
        self.avail_ring = 0;
        self.used_ring = 0;
        self.last_avail_idx = 0;
    }

    pub fn is_ready(&self) -> (ready: bool)
        ensures
            ready == self@.ready,
    {
        self.ready
    }

    pub fn set_ready(&mut self, ready: bool)
        ensures
            final(self)@ == (QueueView { ready, ..old(self)@ }),
    {
        self.ready = ready;
    }

    pub fn size(&self) -> (size: u16)
        ensures
            size == self@.size,
    {
        self.size
    }

    /// Sets the size, which must be a power of 2 and at most the maximum;
    /// any other size changes nothing.
    pub fn set_size(&mut self, size: u16)
        ensures
            final(self)@ == old(self)@.with_size(size),
    {
        if size > self.max_size || !power_of_two(size) {
            return ;
        }
        self.size = size;
    }

    pub fn set_desc_addr(&mut self, addr: u64)
        ensures
            final(self)@ == (QueueView { desc_table: addr, ..old(self)@ }),
    {
        self.desc_table = addr;
    }

    pub fn set_avail_addr(&mut self, addr: u64)
        ensures
            final(self)@ == (QueueView { avail_ring: addr, ..old(self)@ }),
    {
        self.avail_ring = addr;
    }

    pub fn set_used_addr(&mut self, addr: u64)
        ensures
            final(self)@ == (QueueView { used_ring: addr, ..old(self)@ }),
    {
        self.used_ring = addr;
    }

    pub fn desc_table_addr(&self) -> (addr: u64)
        ensures
            addr == self@.desc_table,
    {
        self.desc_table
    }

    pub fn avail_ring_addr(&self) -> (addr: u64)
        ensures
            addr == self@.avail_ring,
    {
        self.avail_ring
    }

    pub fn used_ring_addr(&self) -> (addr: u64)
        ensures
            addr == self@.used_ring,
    {
        self.used_ring
    }

    pub fn last_avail_idx(&self) -> (idx: u16)
        ensures
            idx == self@.last_avail_idx,
    {
        self.last_avail_idx
    }

    pub fn set_last_avail_idx(&mut self, idx: u16)
        ensures
            final(self)@ == (QueueView { last_avail_idx: idx, ..old(self)@ }),
    {
        self.last_avail_idx = idx;
    }

    pub fn inc_last_avail_idx(&mut self)
        ensures
            final(self)@ == old(self)@.advanced(),
    {
        self.last_avail_idx = self.last_avail_idx.wrapping_add(1);
    }

    /// Takes the next entry from the available ring, one step for each event:
    /// finds the ring, reads its index, reads the entry, and moves on.
    pub fn pop_available(&mut self, event: PopEvent) -> (action: PopAction)
        ensures
            action == old(self)@.pop_action(event),
            final(self)@ == old(self)@.after_pop(event),
    {
        match event {
            PopEvent::Begin => {
                if !self.ready {
                    return PopAction::Empty;
                }
                PopAction::Locate { gpa: self.avail_ring }
            },
            PopEvent::Ring(None) => PopAction::Empty,
            PopEvent::Ring(Some(ring)) => PopAction::ReadIndex {
                ring,
                hva: ring.wrapping_add(RING_IDX_OFFSET),
            },
            PopEvent::Index { ring, idx } => {
                if self.last_avail_idx == idx {
                    return PopAction::Empty;
                }
                if self.size == 0 {
                    return PopAction::ZeroSize;
                }
                let ring_offset: u64 = RING_ENTRIES_OFFSET + (self.last_avail_idx % self.size) as u64
                    * 2;
                PopAction::ReadEntry { hva: ring.wrapping_add(ring_offset) }
            },
            PopEvent::Entry { head } => {
                self.inc_last_avail_idx();
                PopAction::Popped { head }
            },
        }
    }

    /// Looks up the descriptor with the number given, one step for each event:
    /// finds it, then reads it.
    pub fn get_descriptor(&self, event: DescriptorEvent) -> (action: DescriptorAction)
        ensures
            action == self@.descriptor_action(event),
    {
        match event {
            DescriptorEvent::Begin { idx } => {
                if idx >= self.size {
                    return DescriptorAction::Missing;
                }
                let offset: u64 = idx as u64 * DESC_SIZE;
                match self.desc_table.checked_add(offset) {
                    Some(gpa) => DescriptorAction::Locate { gpa },
                    None => DescriptorAction::AddressOverflow,
                }
            },
            DescriptorEvent::Entry(None) => DescriptorAction::Missing,
            DescriptorEvent::Entry(Some(hva)) => DescriptorAction::Read { hva },
        }
    }

    /// Hands the chain that starts at `head_idx` back to the driver, with `len`
    /// bytes used, one step for each event: finds the used ring, reads its
    /// index, and publishes the element.
    pub fn add_used(&self, head_idx: u16, len: u32, event: UsedEvent) -> (action: UsedAction)
        ensures
            action == self@.used_action(head_idx, len, event),
    {
        match event {
            UsedEvent::Begin => UsedAction::Locate { gpa: self.used_ring },
            UsedEvent::Ring(None) => UsedAction::InvalidInput,
            UsedEvent::Ring(Some(ring)) => UsedAction::ReadIndex {
                ring,
                hva: ring.wrapping_add(RING_IDX_OFFSET),
            },
            UsedEvent::Index { ring, idx } => {
                if self.size == 0 {
                    return UsedAction::ZeroSize;
                }
                let ring_offset: u64 = RING_ENTRIES_OFFSET + (idx % self.size) as u64
                    * USED_ELEM_SIZE;
                UsedAction::Publish(
                    UsedUpdate {
                        elem_hva: ring.wrapping_add(ring_offset),
                        elem: VirtqUsedElem { id: head_idx as u32, len },
                        idx_hva: ring.wrapping_add(RING_IDX_OFFSET),
                        idx: idx.wrapping_add(1),
                    },
                )
            },
        }
    }
}

} // verus!
