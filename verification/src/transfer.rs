//! How the device moves on from one answer of the host to the next.
//!
//! This module says it of [`ConsoleView`], what a console holds; the console
//! itself does it.
use crate::connection::ConnectionView;
use crate::phase::{Fetch, Phase, RxPhase, TxPhase};
use crate::queue::{
    DescriptorAction, DescriptorEvent, PopAction, PopEvent, QueueView, UsedAction, UsedEvent,
    VirtqDesc,
};
use crate::request::{Fault, ReplyView, Step};
use crate::ring::SharedRing;
use crate::state::{AccessWidth, StateView};
use vstd::prelude::*;

verus! {

/// What a console holds.
#[verifier::ext_equal]
pub struct ConsoleView {
    pub base_gpa: usize,
    pub length: usize,
    pub irq_id: usize,
    pub state: StateView,
    pub connection: Option<ConnectionView>,
    /// Where the transfer under way stands.
    pub phase: Phase,
    /// What was read so far from the chain that is being sent.
    pub data: Seq<u8>,
    /// The transmit queue is to be processed after the receive queue.
    pub tx_follows: bool,
}

/// How many bytes go into the buffer of `desc`: no more than the ring holds,
/// the buffer takes, and `limit` bytes of contiguous memory allow.
pub open spec fn copy_len(desc: VirtqDesc, available: u64, limit: u64) -> u32 {
    let ring_or_buffer = if available < desc.len {
        available
    } else {
        desc.len as u64
    };
    if limit < ring_or_buffer {
        limit as u32
    } else {
        ring_or_buffer as u32
    }
}

/// How many bytes of the buffer of `desc` are sent: no more than `limit` bytes
/// of contiguous memory allow.
pub open spec fn read_len(desc: VirtqDesc, limit: u64) -> u64 {
    if limit < desc.len {
        limit
    } else {
        desc.len as u64
    }
}

/// As much is copied into a buffer as the ring holds, the buffer takes and
/// contiguous memory allows: no more than any of the three, and all of one of
/// them. As much is read from a buffer as it holds and contiguous memory allows,
/// likewise.
pub proof fn law_lengths_respect_limits(desc: VirtqDesc, available: u64, limit: u64)
    ensures
        copy_len(desc, available, limit) <= available,
        copy_len(desc, available, limit) <= desc.len,
        copy_len(desc, available, limit) <= limit,
        copy_len(desc, available, limit) == available || copy_len(desc, available, limit)
            == desc.len || copy_len(desc, available, limit) == limit,
        read_len(desc, limit) <= desc.len,
        read_len(desc, limit) <= limit,
        read_len(desc, limit) == desc.len || read_len(desc, limit) == limit,
{
}

impl ConsoleView {
    pub open spec fn wf(self) -> bool {
        &&& self.state.wf()
        &&& self.connection is Some ==> self.connection->Some_0.paired()
        &&& self.phase.wf(self.data)
        &&& self.data.len() <= usize::MAX
    }

    /// What the console waits for.
    pub open spec fn step(self) -> Step {
        self.phase.step(self.data)
    }

    pub open spec fn is_idle(self) -> bool {
        self.phase is Idle
    }

    pub open spec fn enter(self, phase: Phase) -> Self {
        ConsoleView { phase, ..self }
    }

    pub open spec fn rx(self, phase: RxPhase) -> Self {
        self.enter(Phase::Rx(phase))
    }

    pub open spec fn tx(self, phase: TxPhase) -> Self {
        self.enter(Phase::Tx(phase))
    }

    pub open spec fn abort(self, fault: Fault) -> Self {
        self.enter(Phase::Aborted(fault))
    }

    pub open spec fn with_rx_queue(self, queue: QueueView) -> Self {
        ConsoleView { state: StateView { rx_queue: queue, ..self.state }, ..self }
    }

    pub open spec fn with_tx_queue(self, queue: QueueView) -> Self {
        ConsoleView { state: StateView { tx_queue: queue, ..self.state }, ..self }
    }

    /// Begins a transfer. The receive queue always comes first; the transmit
    /// queue follows if it was the one notified.
    pub open spec fn notified(self, queue_idx: u32) -> Self {
        ConsoleView { tx_follows: queue_idx == 1, ..self }.rx_ring(0)
    }

    /// Begins a transfer in which only the receive queue is processed.
    pub open spec fn received(self) -> Self {
        ConsoleView { tx_follows: false, ..self }.rx_ring(0)
    }

    /// The console after the driver writes `val` at `offset`.
    pub open spec fn written(self, offset: usize, val: u32) -> Self {
        if offset == crate::config::VIRTIO_MMIO_QUEUE_NOTIFY {
            self.notified(val)
        } else {
            ConsoleView { state: self.state.after_write(offset, val), ..self }
        }
    }

    /// `addr` belongs to a register, and a read of `width` there gives a
    /// defined value.
    pub open spec fn can_read(self, addr: usize, width: AccessWidth) -> bool {
        self.base_gpa <= addr && crate::state::readable(addr - self.base_gpa, width)
    }

    /// The console connected for sending to `vm_id` as well.
    pub open spec fn with_send_connection(self, vm_id: usize, buffer: usize) -> Self {
        ConsoleView {
            connection: Some(
                match self.connection {
                    Some(c) => c.with_send(vm_id, buffer),
                    None => ConnectionView::sending(
                        vm_id,
                        buffer,
                        crate::console::DEFAULT_BUFFER_SIZE,
                    ),
                },
            ),
            ..self
        }
    }

    /// The console no longer connected for sending to `vm_id`.
    pub open spec fn without_send_connection(self, vm_id: usize) -> Self {
        ConsoleView {
            connection: match self.connection {
                Some(c) => Some(c.without_send(vm_id)),
                None => None,
            },
            ..self
        }
    }

    /// The console connected for receiving from `vm_id` as well.
    pub open spec fn with_recv_connection(self, vm_id: usize, buffer: usize) -> Self {
        ConsoleView {
            connection: Some(
                match self.connection {
                    Some(c) => c.with_recv(vm_id, buffer),
                    None => ConnectionView::receiving(
                        vm_id,
                        buffer,
                        crate::console::DEFAULT_BUFFER_SIZE,
                    ),
                },
            ),
            ..self
        }
    }

    /// The console no longer connected for receiving from `vm_id`.
    pub open spec fn without_recv_connection(self, vm_id: usize) -> Self {
        ConsoleView {
            connection: match self.connection {
                Some(c) => Some(c.without_recv(vm_id)),
                None => None,
            },
            ..self
        }
    }

    // The receive queue.

    /// Turns to the receive ring number `index`, or ends the receive queue's
    /// processing when there is none.
    pub open spec fn rx_ring(self, index: int) -> Self {
        match self.connection {
            Some(c) => if 0 <= index < c.recv_count() {
                match SharedRing::spec_at(index as usize, c.recv_buffers[index], c.buffer_size) {
                    Ok(ring) => self.rx(RxPhase::Poll { ring }),
                    Err(fault) => self.abort(fault),
                }
            } else {
                self.rx_end()
            },
            None => self.rx_end(),
        }
    }

    pub open spec fn rx_end(self) -> Self {
        if self.tx_follows {
            ConsoleView { tx_follows: false, ..self }.tx_pop(PopEvent::Begin)
        } else {
            self.enter(Phase::Idle)
        }
    }

    /// Moves on with taking a chain for data from `ring`. When there is no
    /// chain to take, the next ring has its turn.
    pub open spec fn rx_pop(self, ring: SharedRing, event: PopEvent) -> Self {
        let moved = self.with_rx_queue(self.state.rx_queue.after_pop(event));
        match self.state.rx_queue.pop_action(event) {
            PopAction::Locate { gpa } => moved.rx(RxPhase::AvailRing { ring, gpa }),
            PopAction::ReadIndex { ring: avail, hva } => moved.rx(
                RxPhase::AvailIndex { ring, avail, hva },
            ),
            PopAction::ReadEntry { hva } => moved.rx(RxPhase::AvailEntry { ring, hva }),
            PopAction::Popped { head } => moved.rx(RxPhase::Indices { ring, head }),
            PopAction::Empty => moved.rx_ring(ring.index + 1),
            PopAction::ZeroSize => moved.abort(Fault::ZeroQueueSize),
        }
    }

    /// Moves on with looking up the descriptor of the chain that was taken.
    pub open spec fn rx_descriptor(self, fetch: Fetch, event: DescriptorEvent) -> Self {
        match self.state.rx_queue.descriptor_action(event) {
            DescriptorAction::Locate { gpa } => self.rx(RxPhase::Table { fetch, gpa }),
            DescriptorAction::Read { hva } => self.rx(RxPhase::Descriptor { fetch, hva }),
            DescriptorAction::Missing => self.abort(Fault::MissingDescriptor),
            DescriptorAction::AddressOverflow => self.abort(Fault::DescriptorAddressOverflow),
        }
    }

    /// Moves on with copying `len` bytes to the buffer at `to`, once `done` of
    /// them are there.
    pub open spec fn rx_copy(self, fetch: Fetch, to: u64, len: u32, done: int) -> Self {
        if done >= len {
            self.rx(
                RxPhase::StoreRead {
                    ring: fetch.ring,
                    head: fetch.head,
                    read_idx: (fetch.read_idx + len) as u64,
                    len,
                },
            )
        } else if fetch.ring.capacity == 0 {
            self.abort(Fault::NoDataSlots)
        } else {
            self.rx(RxPhase::Copy { fetch, to, len, done: done as u32 })
        }
    }

    /// Moves on with handing the chain back. After that the ring is looked at
    /// again, whether or not the used ring could be found.
    pub open spec fn rx_used(
        self,
        ring: SharedRing,
        head: u16,
        len: u32,
        event: UsedEvent,
    ) -> Self {
        match self.state.rx_queue.used_action(head, len, event) {
            UsedAction::Locate { gpa } => self.rx(RxPhase::UsedRing { ring, head, len, gpa }),
            UsedAction::ReadIndex { ring: used, hva } => self.rx(
                RxPhase::UsedIndex { ring, head, len, used, hva },
            ),
            UsedAction::Publish(update) => self.rx(RxPhase::Publish { ring, update }),
            UsedAction::InvalidInput => self.rx(RxPhase::Poll { ring }),
            UsedAction::ZeroSize => self.abort(Fault::ZeroQueueSize),
        }
    }

    /// The console after `reply` came in while the receive queue was processed.
    pub open spec fn rx_next(self, phase: RxPhase, reply: ReplyView) -> Self {
        match (phase, reply) {
            (RxPhase::Poll { ring }, ReplyView::Indices { write_idx, read_idx }) => {
                if write_idx < read_idx {
                    self.abort(Fault::IndicesCrossed)
                } else if write_idx == read_idx {
                    self.rx_ring(ring.index + 1)
                } else {
                    self.rx_pop(ring, PopEvent::Begin)
                }
            },
            (RxPhase::AvailRing { ring, .. }, ReplyView::Located(at)) => self.rx_pop(
                ring,
                PopEvent::Ring(at),
            ),
            (RxPhase::AvailIndex { ring, avail, .. }, ReplyView::Half(idx)) => self.rx_pop(
                ring,
                PopEvent::Index { ring: avail, idx },
            ),
            (RxPhase::AvailEntry { ring, .. }, ReplyView::Half(head)) => self.rx_pop(
                ring,
                PopEvent::Entry { head },
            ),
            (RxPhase::Indices { ring, head }, ReplyView::Indices { write_idx, read_idx }) => {
                if write_idx < read_idx {
                    self.abort(Fault::IndicesCrossed)
                } else {
                    self.rx_descriptor(
                        Fetch { ring, head, read_idx, available: (write_idx - read_idx) as u64 },
                        DescriptorEvent::Begin { idx: head },
                    )
                }
            },
            (RxPhase::Table { fetch, .. }, ReplyView::Located(at)) => self.rx_descriptor(
                fetch,
                DescriptorEvent::Entry(at),
            ),
            (RxPhase::Descriptor { fetch, .. }, ReplyView::Descriptor(desc)) => self.rx(
                RxPhase::Buffer { fetch, desc },
            ),
            (RxPhase::Buffer { fetch, desc }, ReplyView::Translated(to)) => match to {
                Some((hpa, limit)) => self.rx_copy(
                    fetch,
                    hpa,
                    copy_len(desc, fetch.available, limit),
                    0,
                ),
                None => self.rx_used(fetch.ring, fetch.head, 0, UsedEvent::Begin),
            },
            (RxPhase::Copy { fetch, to, len, done }, ReplyView::Done) => self.rx_copy(
                fetch,
                to,
                len,
                done + 1,
            ),
            (RxPhase::StoreRead { ring, head, len, .. }, ReplyView::Done) => self.rx_used(
                ring,
                head,
                len,
                UsedEvent::Begin,
            ),
            (RxPhase::UsedRing { ring, head, len, .. }, ReplyView::Located(at)) => self.rx_used(
                ring,
                head,
                len,
                UsedEvent::Ring(at),
            ),
            (RxPhase::UsedIndex { ring, head, len, used, .. }, ReplyView::Half(idx)) => {
                self.rx_used(ring, head, len, UsedEvent::Index { ring: used, idx })
            },
            (RxPhase::Publish { ring, .. }, ReplyView::Done) => self.rx(RxPhase::Poll { ring }),
            _ => self,
        }
    }

    // The transmit queue.

    /// Moves on with taking a chain from the transmit queue. When there is no
    /// chain to take, the transfer ends.
    pub open spec fn tx_pop(self, event: PopEvent) -> Self {
        let moved = self.with_tx_queue(self.state.tx_queue.after_pop(event));
        match self.state.tx_queue.pop_action(event) {
            PopAction::Locate { gpa } => moved.tx(TxPhase::AvailRing { gpa }),
            PopAction::ReadIndex { ring: avail, hva } => moved.tx(
                TxPhase::AvailIndex { avail, hva },
            ),
            PopAction::ReadEntry { hva } => moved.tx(TxPhase::AvailEntry { hva }),
            PopAction::Popped { head } => ConsoleView {
                data: Seq::empty(),
                ..moved
            }.tx_descriptor(head, DescriptorEvent::Begin { idx: head }),
            PopAction::Empty => moved.enter(Phase::Idle),
            PopAction::ZeroSize => moved.abort(Fault::ZeroQueueSize),
        }
    }

    /// Moves on with looking up a descriptor of the chain that starts at `head`.
    pub open spec fn tx_descriptor(self, head: u16, event: DescriptorEvent) -> Self {
        match self.state.tx_queue.descriptor_action(event) {
            DescriptorAction::Locate { gpa } => self.tx(TxPhase::Table { head, gpa }),
            DescriptorAction::Read { hva } => self.tx(TxPhase::Descriptor { head, hva }),
            DescriptorAction::Missing => self.abort(Fault::MissingDescriptor),
            DescriptorAction::AddressOverflow => self.abort(Fault::DescriptorAddressOverflow),
        }
    }

    /// Moves on once the buffer of `desc` has been dealt with.
    pub open spec fn tx_link(self, head: u16, desc: VirtqDesc) -> Self {
        if !desc.has_next() {
            self.tx_used(head, self.data.len() as u32, true, UsedEvent::Begin)
        } else if desc.next >= self.state.tx_queue.size {
            self.tx_invalid(head)
        } else {
            self.tx_descriptor(head, DescriptorEvent::Begin { idx: desc.next })
        }
    }

    /// Hands a chain back that cannot be sent.
    pub open spec fn tx_invalid(self, head: u16) -> Self {
        self.tx_used(head, 0, false, UsedEvent::Begin)
    }

    /// Moves on with handing the chain back.
    pub open spec fn tx_used(self, head: u16, len: u32, valid: bool, event: UsedEvent) -> Self {
        match self.state.tx_queue.used_action(head, len, event) {
            UsedAction::Locate { gpa } => self.tx(TxPhase::UsedRing { head, len, valid, gpa }),
            UsedAction::ReadIndex { ring: used, hva } => self.tx(
                TxPhase::UsedIndex { head, len, valid, used, hva },
            ),
            UsedAction::Publish(update) => self.tx(TxPhase::Publish { valid, update }),
            UsedAction::InvalidInput => self.tx_used_done(valid),
            UsedAction::ZeroSize => self.abort(Fault::ZeroQueueSize),
        }
    }

    /// Moves on once the chain is handed back, whether or not the used ring
    /// could be found: the data of a valid chain is sent, with an interrupt.
    pub open spec fn tx_used_done(self, valid: bool) -> Self {
        if valid {
            ConsoleView { state: self.state.with_interrupt(), ..self }.tx_ring(0)
        } else {
            self.tx_pop(PopEvent::Begin)
        }
    }

    /// Turns to the send ring number `index`, or to the next chain when there
    /// is none.
    pub open spec fn tx_ring(self, index: int) -> Self {
        match self.connection {
            Some(c) => if 0 <= index < c.send_count() {
                match SharedRing::spec_at(index as usize, c.send_buffers[index], c.buffer_size) {
                    Ok(ring) => self.tx(TxPhase::Indices { ring }),
                    Err(fault) => self.abort(fault),
                }
            } else {
                self.tx_pop(PopEvent::Begin)
            },
            None => self.tx_pop(PopEvent::Begin),
        }
    }

    /// Moves on with sending the data to `ring`, once `done` bytes of it are
    /// there: up to the end of the data, or until the ring is full.
    pub open spec fn tx_byte(
        self,
        ring: SharedRing,
        write_idx: u64,
        read_idx: u64,
        done: int,
    ) -> Self {
        if done >= self.data.len() {
            self.tx(TxPhase::StoreWrite { ring, write_idx })
        } else if write_idx < read_idx {
            self.abort(Fault::IndicesCrossed)
        } else if write_idx - read_idx >= ring.capacity {
            self.tx(TxPhase::StoreWrite { ring, write_idx })
        } else {
            self.tx(TxPhase::Byte { ring, write_idx, read_idx, done: done as usize })
        }
    }

    /// The console after `reply` came in while the transmit queue was processed.
    pub open spec fn tx_next(self, phase: TxPhase, reply: ReplyView) -> Self {
        match (phase, reply) {
            (TxPhase::AvailRing { .. }, ReplyView::Located(at)) => self.tx_pop(PopEvent::Ring(at)),
            (TxPhase::AvailIndex { avail, .. }, ReplyView::Half(idx)) => self.tx_pop(
                PopEvent::Index { ring: avail, idx },
            ),
            (TxPhase::AvailEntry { .. }, ReplyView::Half(head)) => self.tx_pop(
                PopEvent::Entry { head },
            ),
            (TxPhase::Table { head, .. }, ReplyView::Located(at)) => self.tx_descriptor(
                head,
                DescriptorEvent::Entry(at),
            ),
            (TxPhase::Descriptor { head, .. }, ReplyView::Descriptor(desc)) => {
                if desc.is_void() {
                    self.tx_invalid(head)
                } else if desc.is_writable() {
                    self.tx_link(head, desc)
                } else {
                    self.tx(TxPhase::Buffer { head, desc })
                }
            },
            (TxPhase::Buffer { head, desc }, ReplyView::Translated(to)) => match to {
                Some((hpa, limit)) => self.tx(
                    TxPhase::Data { head, desc, hva: hpa, count: read_len(desc, limit) },
                ),
                None => self.tx_invalid(head),
            },
            (TxPhase::Data { head, desc, .. }, ReplyView::Bytes(bytes)) => ConsoleView {
                data: self.data + bytes,
                ..self
            }.tx_link(head, desc),
            (TxPhase::UsedRing { head, len, valid, .. }, ReplyView::Located(at)) => self.tx_used(
                head,
                len,
                valid,
                UsedEvent::Ring(at),
            ),
            (TxPhase::UsedIndex { head, len, valid, used, .. }, ReplyView::Half(idx)) => {
                self.tx_used(head, len, valid, UsedEvent::Index { ring: used, idx })
            },
            (TxPhase::Publish { valid, .. }, ReplyView::Done) => self.tx_used_done(valid),
            (TxPhase::Indices { ring }, ReplyView::Indices { write_idx, read_idx }) => {
                self.tx_byte(ring, write_idx, read_idx, 0)
            },
            (TxPhase::Byte { ring, write_idx, read_idx, done }, ReplyView::Done) => {
                if write_idx == u64::MAX {
                    self.abort(Fault::IndexOverflow)
                } else {
                    self.tx_byte(ring, (write_idx + 1) as u64, read_idx, done + 1)
                }
            },
            (TxPhase::StoreWrite { ring, .. }, ReplyView::Done) => self.tx_ring(ring.index + 1),
            _ => self,
        }
    }

    /// The console after `reply` came in.
    pub open spec fn next(self, reply: ReplyView) -> Self {
        match self.phase {
            Phase::Rx(phase) => self.rx_next(phase, reply),
            Phase::Tx(phase) => self.tx_next(phase, reply),
            _ => self,
        }
    }
}

} // verus!
