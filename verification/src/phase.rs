//! Where a transfer stands: which request is out, and what is to be remembered
//! until the answer comes.
use crate::queue::{UsedUpdate, VirtqDesc};
use crate::request::{Fault, Request, Step};
use crate::ring::SharedRing;
use vstd::prelude::*;

verus! {

/// A buffer of the receive queue that is about to be filled from a shared ring.
#[derive(Debug, Clone, Copy)]
pub struct Fetch {
    /// The ring that the data comes from.
    pub ring: SharedRing,
    /// The chain that the buffer belongs to.
    pub head: u16,
    /// The ring's read index.
    pub read_idx: u64,
    /// How many bytes the ring holds.
    pub available: u64,
}

/// Where the receive queue's processing stands.
#[derive(Debug, Clone, Copy)]
pub enum RxPhase {
    /// Looking whether `ring` holds data.
    Poll { ring: SharedRing },
    /// Finding the available ring.
    AvailRing { ring: SharedRing, gpa: u64 },
    /// Reading the index of the available ring at `avail`.
    AvailIndex { ring: SharedRing, avail: u64, hva: u64 },
    /// Reading the next entry of the available ring.
    AvailEntry { ring: SharedRing, hva: u64 },
    /// A chain was taken; looking how much data `ring` holds.
    Indices { ring: SharedRing, head: u16 },
    /// Finding the chain's descriptor.
    Table { fetch: Fetch, gpa: u64 },
    /// Reading the chain's descriptor.
    Descriptor { fetch: Fetch, hva: u64 },
    /// Finding the buffer that `desc` describes.
    Buffer { fetch: Fetch, desc: VirtqDesc },
    /// Copying `len` bytes to the buffer at `to`, of which `done` are there.
    Copy { fetch: Fetch, to: u64, len: u32, done: u32 },
    /// `len` bytes are copied; moving the ring's read index on to `read_idx`.
    StoreRead { ring: SharedRing, head: u16, read_idx: u64, len: u32 },
    /// Finding the used ring.
    UsedRing { ring: SharedRing, head: u16, len: u32, gpa: u64 },
    /// Reading the index of the used ring at `used`.
    UsedIndex { ring: SharedRing, head: u16, len: u32, used: u64, hva: u64 },
    /// Handing the chain back.
    Publish { ring: SharedRing, update: UsedUpdate },
}

/// Where the transmit queue's processing stands.
#[derive(Debug, Clone, Copy)]
pub enum TxPhase {
    /// Finding the available ring.
    AvailRing { gpa: u64 },
    /// Reading the index of the available ring at `avail`.
    AvailIndex { avail: u64, hva: u64 },
    /// Reading the next entry of the available ring.
    AvailEntry { hva: u64 },
    /// Finding a descriptor of the chain that starts at `head`.
    Table { head: u16, gpa: u64 },
    /// Reading a descriptor of the chain that starts at `head`.
    Descriptor { head: u16, hva: u64 },
    /// Finding the buffer that `desc` describes.
    Buffer { head: u16, desc: VirtqDesc },
    /// Reading `count` bytes of the buffer that `desc` describes.
    Data { head: u16, desc: VirtqDesc, hva: u64, count: u64 },
    /// Finding the used ring.
    UsedRing { head: u16, len: u32, valid: bool, gpa: u64 },
    /// Reading the index of the used ring at `used`.
    UsedIndex { head: u16, len: u32, valid: bool, used: u64, hva: u64 },
    /// Handing the chain back.
    Publish { valid: bool, update: UsedUpdate },
    /// Looking how much room `ring` has.
    Indices { ring: SharedRing },
    /// Writing byte number `done` of the data to `ring`.
    Byte { ring: SharedRing, write_idx: u64, read_idx: u64, done: usize },
    /// Moving the ring's write index on to `write_idx`.
    StoreWrite { ring: SharedRing, write_idx: u64 },
}

/// Where a transfer stands.
#[derive(Debug, Clone, Copy)]
pub enum Phase {
    /// No transfer is under way.
    Idle,
    /// The transfer cannot go on.
    Aborted(Fault),
    /// The receive queue is being processed.
    Rx(RxPhase),
    /// The transmit queue is being processed.
    Tx(TxPhase),
}

/// A ring that can be worked with and is not the last that could be counted.
pub open spec fn ring_wf(ring: SharedRing) -> bool {
    ring.wf() && ring.index < usize::MAX
}

impl RxPhase {
    /// The request that is out.
    pub open spec fn request(self) -> Request {
        match self {
            RxPhase::Poll { ring } => Request::LoadWriteThenRead { hva: ring.base },
            RxPhase::AvailRing { gpa, .. } => Request::Locate { gpa },
            RxPhase::AvailIndex { hva, .. } => Request::ReadHalf { hva },
            RxPhase::AvailEntry { hva, .. } => Request::ReadHalf { hva },
            RxPhase::Indices { ring, .. } => Request::LoadReadThenWrite { hva: ring.base },
            RxPhase::Table { gpa, .. } => Request::Locate { gpa },
            RxPhase::Descriptor { hva, .. } => Request::ReadDescriptor { hva },
            RxPhase::Buffer { desc, .. } => Request::Translate { gpa: desc.addr },
            RxPhase::Copy { fetch, to, done, .. } => Request::CopyByte {
                from: fetch.ring.slot(fetch.read_idx + done),
                to: crate::queue::host_offset(to, done as int),
            },
            RxPhase::StoreRead { ring, read_idx, .. } => Request::StoreIndex {
                hva: (ring.base + crate::ring::READ_IDX_OFFSET) as u64,
                index: read_idx,
            },
            RxPhase::UsedRing { gpa, .. } => Request::Locate { gpa },
            RxPhase::UsedIndex { hva, .. } => Request::ReadHalf { hva },
            RxPhase::Publish { update, .. } => Request::Publish(update),
        }
    }

    pub open spec fn wf(self) -> bool {
        match self {
            RxPhase::Poll { ring } => ring_wf(ring),
            RxPhase::AvailRing { ring, .. } => ring_wf(ring),
            RxPhase::AvailIndex { ring, .. } => ring_wf(ring),
            RxPhase::AvailEntry { ring, .. } => ring_wf(ring),
            RxPhase::Indices { ring, .. } => ring_wf(ring),
            RxPhase::Table { fetch, .. } => fetch.wf(),
            RxPhase::Descriptor { fetch, .. } => fetch.wf(),
            RxPhase::Buffer { fetch, .. } => fetch.wf(),
            RxPhase::Copy { fetch, len, done, .. } => {
                &&& fetch.wf()
                &&& fetch.ring.capacity > 0
                &&& done < len <= fetch.available
            },
            RxPhase::StoreRead { ring, .. } => ring_wf(ring),
            RxPhase::UsedRing { ring, .. } => ring_wf(ring),
            RxPhase::UsedIndex { ring, .. } => ring_wf(ring),
            RxPhase::Publish { ring, .. } => ring_wf(ring),
        }
    }

    fn request_now(&self) -> (request: Request)
        requires
            self.wf(),
        ensures
            request == self.request(),
    {
        match *self {
            RxPhase::Poll { ring } => Request::LoadWriteThenRead { hva: ring.base },
            RxPhase::AvailRing { gpa, .. } => Request::Locate { gpa },
            RxPhase::AvailIndex { hva, .. } => Request::ReadHalf { hva },
            RxPhase::AvailEntry { hva, .. } => Request::ReadHalf { hva },
            RxPhase::Indices { ring, .. } => Request::LoadReadThenWrite { hva: ring.base },
            RxPhase::Table { gpa, .. } => Request::Locate { gpa },
            RxPhase::Descriptor { hva, .. } => Request::ReadDescriptor { hva },
            RxPhase::Buffer { desc, .. } => Request::Translate { gpa: desc.addr },
            RxPhase::Copy { fetch, to, done, .. } => Request::CopyByte {
                from: fetch.ring.slot_address(fetch.read_idx + done as u64),
                to: to.wrapping_add(done as u64),
            },
            RxPhase::StoreRead { ring, read_idx, .. } => Request::StoreIndex {
                hva: ring.read_idx_address(),
                index: read_idx,
            },
            RxPhase::UsedRing { gpa, .. } => Request::Locate { gpa },
            RxPhase::UsedIndex { hva, .. } => Request::ReadHalf { hva },
            RxPhase::Publish { update, .. } => Request::Publish(update),
        }
    }
}

impl Fetch {
    /// The ring can be worked with, and its write index is representable.
    pub open spec fn wf(self) -> bool {
        ring_wf(self.ring) && self.read_idx + self.available <= u64::MAX
    }
}

impl TxPhase {
    /// The request that is out, while `data` is what the chain holds so far.
    pub open spec fn request(self, data: Seq<u8>) -> Request {
        match self {
            TxPhase::AvailRing { gpa } => Request::Locate { gpa },
            TxPhase::AvailIndex { hva, .. } => Request::ReadHalf { hva },
            TxPhase::AvailEntry { hva } => Request::ReadHalf { hva },
            TxPhase::Table { gpa, .. } => Request::Locate { gpa },
            TxPhase::Descriptor { hva, .. } => Request::ReadDescriptor { hva },
            TxPhase::Buffer { desc, .. } => Request::Translate { gpa: desc.addr },
            TxPhase::Data { hva, count, .. } => Request::ReadBytes { hva, len: count },
            TxPhase::UsedRing { gpa, .. } => Request::Locate { gpa },
            TxPhase::UsedIndex { hva, .. } => Request::ReadHalf { hva },
            TxPhase::Publish { update, .. } => Request::Publish(update),
            TxPhase::Indices { ring } => Request::LoadWriteThenRead { hva: ring.base },
            TxPhase::Byte { ring, write_idx, done, .. } => Request::WriteByte {
                hva: ring.slot(write_idx as int),
                value: data[done as int],
            },
            TxPhase::StoreWrite { ring, write_idx } => Request::StoreIndex {
                hva: ring.base,
                index: write_idx,
            },
        }
    }

    pub open spec fn wf(self, data: Seq<u8>) -> bool {
        match self {
            TxPhase::Indices { ring } => ring_wf(ring),
            TxPhase::Byte { ring, write_idx, read_idx, done } => {
                &&& ring_wf(ring)
                &&& read_idx <= write_idx
                &&& write_idx - read_idx < ring.capacity
                &&& done < data.len()
            },
            TxPhase::StoreWrite { ring, .. } => ring_wf(ring),
            _ => true,
        }
    }

    fn request_now(&self, data: &Vec<u8>) -> (request: Request)
        requires
            self.wf(data@),
        ensures
            request == self.request(data@),
    {
        match *self {
            TxPhase::AvailRing { gpa } => Request::Locate { gpa },
            TxPhase::AvailIndex { hva, .. } => Request::ReadHalf { hva },
            TxPhase::AvailEntry { hva } => Request::ReadHalf { hva },
            TxPhase::Table { gpa, .. } => Request::Locate { gpa },
            TxPhase::Descriptor { hva, .. } => Request::ReadDescriptor { hva },
            TxPhase::Buffer { desc, .. } => Request::Translate { gpa: desc.addr },
            TxPhase::Data { hva, count, .. } => Request::ReadBytes { hva, len: count },
            TxPhase::UsedRing { gpa, .. } => Request::Locate { gpa },
            TxPhase::UsedIndex { hva, .. } => Request::ReadHalf { hva },
            TxPhase::Publish { update, .. } => Request::Publish(update),
            TxPhase::Indices { ring } => Request::LoadWriteThenRead { hva: ring.base },
            TxPhase::Byte { ring, write_idx, done, .. } => Request::WriteByte {
                hva: ring.slot_address(write_idx),
                value: data[done],
            },
            TxPhase::StoreWrite { ring, write_idx } => Request::StoreIndex {
                hva: ring.base,
                index: write_idx,
            },
        }
    }
}

impl Phase {
    /// What the transfer waits for, while `data` is what the chain holds so far.
    pub open spec fn step(self, data: Seq<u8>) -> Step {
        match self {
            Phase::Idle => Step::Idle,
            Phase::Aborted(fault) => Step::Abort(fault),
            Phase::Rx(rx) => Step::Ask(rx.request()),
            Phase::Tx(tx) => Step::Ask(tx.request(data)),
        }
    }

    pub open spec fn wf(self, data: Seq<u8>) -> bool {
        match self {
            Phase::Rx(rx) => rx.wf(),
            Phase::Tx(tx) => tx.wf(data),
            _ => true,
        }
    }

    /// What the transfer waits for.
    pub fn current_step(&self, data: &Vec<u8>) -> (step: Step)
        requires
            self.wf(data@),
        ensures
            step == self.step(data@),
    {
        match *self {
            Phase::Idle => Step::Idle,
            Phase::Aborted(fault) => Step::Abort(fault),
            Phase::Rx(rx) => Step::Ask(rx.request_now()),
            Phase::Tx(tx) => Step::Ask(tx.request_now(data)),
        }
    }
}

} // verus!
