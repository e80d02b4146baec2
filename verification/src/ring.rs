//! The ring buffer that two VMs share: a header of two 64-bit indices, the
//! write index first, and the data slots behind it.
use crate::request::Fault;
use vstd::prelude::*;

verus! {

/// Bytes that the header of a shared ring takes.
pub const RING_HEADER_SIZE: u64 = 16;

/// Where the read index stands in the header.
pub const READ_IDX_OFFSET: u64 = 8;

/// One shared ring of a connection.
#[derive(Debug, Clone, Copy)]
pub struct SharedRing {
    /// Which of the connection's rings this is.
    pub index: usize,
    /// Host address of the header.
    pub base: u64,
    /// Number of data slots.
    pub capacity: u64,
}

impl SharedRing {
    /// The header does not wrap around.
    pub open spec fn wf(self) -> bool {
        self.base + RING_HEADER_SIZE <= u64::MAX
    }

    /// Host address of the data slot that belongs to the position `idx`.
    pub open spec fn slot(self, idx: int) -> u64 {
        crate::queue::host_offset((self.base + RING_HEADER_SIZE) as u64, idx % self.capacity as int)
    }

    /// The ring number `index`, in a buffer of `size` bytes at `base`.
    pub open spec fn spec_at(index: usize, base: usize, size: usize) -> Result<Self, Fault> {
        if base + RING_HEADER_SIZE > u64::MAX || size < RING_HEADER_SIZE {
            Err(Fault::BadRingBuffer)
        } else {
            Ok(
                SharedRing {
                    index,
                    base: base as u64,
                    capacity: (size - RING_HEADER_SIZE) as u64,
                },
            )
        }
    }

    /// The ring number `index`, in a buffer of `size` bytes at `base`.
    pub fn at(index: usize, base: usize, size: usize) -> (ring: Result<Self, Fault>)
        ensures
            ring == Self::spec_at(index, base, size),
            ring is Ok ==> ring->Ok_0.wf(),
    {
        let base: u64 = base as u64;
        let size: u64 = size as u64;
        if base > u64::MAX - RING_HEADER_SIZE || size < RING_HEADER_SIZE {
            return Err(Fault::BadRingBuffer);
        }
        Ok(SharedRing { index, base, capacity: size - RING_HEADER_SIZE })
    }

    /// Host address of the data slot that belongs to the position `idx`.
    pub fn slot_address(&self, idx: u64) -> (hva: u64)
        requires
            self.wf(),
            self.capacity > 0,
        ensures
            hva == self.slot(idx as int),
    {
        (self.base + RING_HEADER_SIZE).wrapping_add(idx % self.capacity)
    }

    /// Host address of the read index.
    pub fn read_idx_address(&self) -> (hva: u64)
        requires
            self.wf(),
        ensures
            hva == self.base + READ_IDX_OFFSET,
    {
        self.base + READ_IDX_OFFSET
    }
}

} // verus!
