//! The console device.
use crate::config::VIRTIO_MMIO_CONFIG;
use crate::config::VIRTIO_MMIO_QUEUE_NOTIFY;
use crate::connection::{ConnectionView, DeviceConsoleConnection};
use crate::phase::{Fetch, Phase, RxPhase, TxPhase};
use crate::queue::{
    DescriptorAction, DescriptorEvent, PopAction, PopEvent, UsedAction, UsedEvent, VirtqDesc,
    VRING_DESC_F_NEXT, VRING_DESC_F_WRITE,
};
use crate::request::{Fault, Reply, Step};
use crate::ring::SharedRing;
use crate::state::{AccessWidth, StateView, VirtioConsoleState, CONFIG_SIZE};
use crate::transfer::ConsoleView;
use vstd::prelude::*;

verus! {

/// Size of the buffers of a connection that the device makes itself.
pub const DEFAULT_BUFFER_SIZE: usize = 4096;

/// Virtio Serial (Console) Device Implementation.
///
/// Registers are read and written at once. Moving data takes accesses to
/// memory that the device does not make itself: after a call that begins a
/// transfer, [`VirtioConsole::step`] says what is to be done, and
/// [`VirtioConsole::resume`] takes the answer, until the device is idle.
#[derive(Debug)]
pub struct VirtioConsole {
    base_gpa: usize,
    length: usize,
    irq_id: usize,
    state: VirtioConsoleState,
    connection: Option<DeviceConsoleConnection>,
    phase: Phase,
    data: Vec<u8>,
    tx_follows: bool,
}

pub open spec fn connection_view(connection: Option<DeviceConsoleConnection>) -> Option<
    ConnectionView,
> {
    match connection {
        Some(c) => Some(c@),
        None => None,
    }
}

impl View for VirtioConsole {
    type V = ConsoleView;

    closed spec fn view(&self) -> ConsoleView {
        ConsoleView {
            base_gpa: self.base_gpa,
            length: self.length,
            irq_id: self.irq_id,
            state: self.state@,
            connection: connection_view(self.connection),
            phase: self.phase,
            data: self.data@,
            tx_follows: self.tx_follows,
        }
    }
}

fn min_len(a: usize, b: usize) -> (m: usize)
    ensures
        m == if a <= b {
            a
        } else {
            b
        },
{
    if a <= b {
        a
    } else {
        b
    }
}

/// How many bytes go into the buffer of `desc`.
fn bytes_to_copy(desc: &VirtqDesc, available: u64, limit: u64) -> (len: u32)
    ensures
        len == crate::transfer::copy_len(*desc, available, limit),
{
    let mut len: u64 = desc.len as u64;
    if available < len {
        len = available;
    }
    if limit < len {
        len = limit;
    }
    len as u32
}

/// How many bytes of the buffer of `desc` are sent.
fn bytes_to_read(desc: &VirtqDesc, limit: u64) -> (len: u64)
    ensures
        len == crate::transfer::read_len(*desc, limit),
{
    if limit < desc.len as u64 {
        limit
    } else {
        desc.len as u64
    }
}

impl VirtioConsole {
    /// Creates a new VirtioConsole device instance.
    ///
    /// # Arguments
    /// * `base_gpa` - The base Guest Physical Address of the device.
    /// * `length` - The length of the MMIO region.
    /// * `irq_id` - The interrupt request ID assigned to this device.
    pub fn new(base_gpa: usize, length: usize, irq_id: usize) -> (console: Self)
        ensures
            console@ == (ConsoleView {
                base_gpa,
                length,
                irq_id,
                state: StateView::initial(),
                connection: None,
                phase: Phase::Idle,
                data: Seq::empty(),
                tx_follows: false,
            }),
            console@.wf(),
    {
        Self {
            base_gpa,
            length,
            irq_id,
            state: VirtioConsoleState::new(),
            connection: None,
            phase: Phase::Idle,
            data: Vec::new(),
            tx_follows: false,
        }
    }

    /// What the device waits for.
    pub fn step(&self) -> (step: Step)
        requires
            self@.wf(),
        ensures
            step == self@.step(),
    {
        self.phase.current_step(&self.data)
    }

    /// Goes on with the transfer, now that the request that
    /// [`VirtioConsole::step`] gave is answered.
    pub fn resume(&mut self, reply: Reply)
        requires
            old(self)@.wf(),
            old(self)@.step() is Ask,
            reply@.answers(old(self)@.step()->Ask_0),
        ensures
            final(self)@ == old(self)@.next(reply@),
            final(self)@.wf(),
    {
        match self.phase {
            Phase::Rx(phase) => self.rx_resume(phase, reply),
            Phase::Tx(phase) => self.tx_resume(phase, reply),
            _ => {},
        }
    }

    fn enter(&mut self, phase: Phase)
        requires
            old(self)@.wf(),
            phase.wf(old(self)@.data),
        ensures
            final(self)@ == old(self)@.enter(phase),
            final(self)@.wf(),
    {
        self.phase = phase;
    }

    fn rx(&mut self, phase: RxPhase)
        requires
            old(self)@.wf(),
            phase.wf(),
        ensures
            final(self)@ == old(self)@.rx(phase),
            final(self)@.wf(),
    {
        self.enter(Phase::Rx(phase));
    }

    fn tx(&mut self, phase: TxPhase)
        requires
            old(self)@.wf(),
            phase.wf(old(self)@.data),
        ensures
            final(self)@ == old(self)@.tx(phase),
            final(self)@.wf(),
    {
        self.enter(Phase::Tx(phase));
    }

    fn abort(&mut self, fault: Fault)
        requires
            old(self)@.wf(),
        ensures
            final(self)@ == old(self)@.abort(fault),
            final(self)@.wf(),
    {
        self.enter(Phase::Aborted(fault));
    }

    /// Begins to process the receive queue: reads data from the shared ring
    /// buffers and writes it to the guest's buffers.
    fn process_rx_queue(&mut self)
        requires
            old(self)@.wf(),
        ensures
            final(self)@ == old(self)@.rx_ring(0),
            final(self)@.wf(),
    {
        self.rx_ring(0);
    }

    fn rx_ring(&mut self, index: usize)
        requires
            old(self)@.wf(),
        ensures
            final(self)@ == old(self)@.rx_ring(index as int),
            final(self)@.wf(),
    {
        let opened: Option<Result<SharedRing, Fault>> = match &self.connection {
            Some(c) => {
                if index < min_len(c.recv_vm_ids.len(), c.recv_buffers.len()) {
                    Some(SharedRing::at(index, c.recv_buffers[index], c.buffer_size))
                } else {
                    None
                }
            },
            None => None,
        };
        match opened {
            Some(Ok(ring)) => self.rx(RxPhase::Poll { ring }),
            Some(Err(fault)) => self.abort(fault),
            None => self.rx_end(),
        }
    }

    fn rx_end(&mut self)
        requires
            old(self)@.wf(),
        ensures
            final(self)@ == old(self)@.rx_end(),
            final(self)@.wf(),
    {
        if self.tx_follows {
            self.tx_follows = false;
            self.process_tx_queue();
        } else {
            self.enter(Phase::Idle);
        }
    }

    fn rx_pop(&mut self, ring: SharedRing, event: PopEvent)
        requires
            old(self)@.wf(),
            crate::phase::ring_wf(ring),
        ensures
            final(self)@ == old(self)@.rx_pop(ring, event),
            final(self)@.wf(),
    {
        let action: PopAction = self.state.rx_queue_mut().pop_available(event);
        match action {
            PopAction::Locate { gpa } => self.rx(RxPhase::AvailRing { ring, gpa }),
            PopAction::ReadIndex { ring: avail, hva } => {
                self.rx(RxPhase::AvailIndex { ring, avail, hva })
            },
            PopAction::ReadEntry { hva } => self.rx(RxPhase::AvailEntry { ring, hva }),
            PopAction::Popped { head } => self.rx(RxPhase::Indices { ring, head }),
            PopAction::Empty => self.rx_ring(ring.index + 1),
            PopAction::ZeroSize => self.abort(Fault::ZeroQueueSize),
        }
    }

    fn rx_descriptor(&mut self, fetch: Fetch, event: DescriptorEvent)
        requires
            old(self)@.wf(),
            fetch.wf(),
        ensures
            final(self)@ == old(self)@.rx_descriptor(fetch, event),
            final(self)@.wf(),
    {
        match self.state.rx_queue().get_descriptor(event) {
            DescriptorAction::Locate { gpa } => self.rx(RxPhase::Table { fetch, gpa }),
            DescriptorAction::Read { hva } => self.rx(RxPhase::Descriptor { fetch, hva }),
            DescriptorAction::Missing => self.abort(Fault::MissingDescriptor),
            DescriptorAction::AddressOverflow => self.abort(Fault::DescriptorAddressOverflow),
        }
    }

    fn rx_copy(&mut self, fetch: Fetch, to: u64, len: u32, done: u32)
        requires
            old(self)@.wf(),
            fetch.wf(),
            len <= fetch.available,
        ensures
            final(self)@ == old(self)@.rx_copy(fetch, to, len, done as int),
            final(self)@.wf(),
    {
        if done >= len {
            self.rx(
                RxPhase::StoreRead {
                    ring: fetch.ring,
                    head: fetch.head,
                    read_idx: fetch.read_idx + len as u64,
                    len,
                },
            );
        } else if fetch.ring.capacity == 0 {
            self.abort(Fault::NoDataSlots);
        } else {
            self.rx(RxPhase::Copy { fetch, to, len, done });
        }
    }

    fn rx_used(&mut self, ring: SharedRing, head: u16, len: u32, event: UsedEvent)
        requires
            old(self)@.wf(),
            crate::phase::ring_wf(ring),
        ensures
            final(self)@ == old(self)@.rx_used(ring, head, len, event),
            final(self)@.wf(),
    {
        match self.state.rx_queue().add_used(head, len, event) {
            UsedAction::Locate { gpa } => self.rx(RxPhase::UsedRing { ring, head, len, gpa }),
            UsedAction::ReadIndex { ring: used, hva } => {
                self.rx(RxPhase::UsedIndex { ring, head, len, used, hva })
            },
            UsedAction::Publish(update) => self.rx(RxPhase::Publish { ring, update }),
            UsedAction::InvalidInput => self.rx(RxPhase::Poll { ring }),
            UsedAction::ZeroSize => self.abort(Fault::ZeroQueueSize),
        }
    }

    fn rx_resume(&mut self, phase: RxPhase, reply: Reply)
        requires
            old(self)@.wf(),
            old(self)@.phase == Phase::Rx(phase),
            reply@.answers(phase.request()),
        ensures
            final(self)@ == old(self)@.rx_next(phase, reply@),
            final(self)@.wf(),
    {
        match (phase, reply) {
            (RxPhase::Poll { ring }, Reply::Indices { write_idx, read_idx }) => {
                if write_idx < read_idx {
                    self.abort(Fault::IndicesCrossed);
                } else if write_idx == read_idx {
                    self.rx_ring(ring.index + 1);
                } else {
                    self.rx_pop(ring, PopEvent::Begin);
                }
            },
            (RxPhase::AvailRing { ring, .. }, Reply::Located(at)) => {
                self.rx_pop(ring, PopEvent::Ring(at));
            },
            (RxPhase::AvailIndex { ring, avail, .. }, Reply::Half(idx)) => {
                self.rx_pop(ring, PopEvent::Index { ring: avail, idx });
            },
            (RxPhase::AvailEntry { ring, .. }, Reply::Half(head)) => {
                self.rx_pop(ring, PopEvent::Entry { head });
            },
            (RxPhase::Indices { ring, head }, Reply::Indices { write_idx, read_idx }) => {
                if write_idx < read_idx {
                    self.abort(Fault::IndicesCrossed);
                } else {
                    let fetch = Fetch { ring, head, read_idx, available: write_idx - read_idx };
                    self.rx_descriptor(fetch, DescriptorEvent::Begin { idx: head });
                }
            },
            (RxPhase::Table { fetch, .. }, Reply::Located(at)) => {
                self.rx_descriptor(fetch, DescriptorEvent::Entry(at));
            },
            (RxPhase::Descriptor { fetch, .. }, Reply::Descriptor(desc)) => {
                self.rx(RxPhase::Buffer { fetch, desc });
            },
            (RxPhase::Buffer { fetch, desc }, Reply::Translated(to)) => match to {
                Some((hpa, limit)) => {
                    let len: u32 = bytes_to_copy(&desc, fetch.available, limit);
                    proof {
                        crate::transfer::law_lengths_respect_limits(desc, fetch.available, limit);
                    }
                    self.rx_copy(fetch, hpa, len, 0);
                },
                None => self.rx_used(fetch.ring, fetch.head, 0, UsedEvent::Begin),
            },
            (RxPhase::Copy { fetch, to, len, done }, Reply::Done) => {
                self.rx_copy(fetch, to, len, done + 1);
            },
            (RxPhase::StoreRead { ring, head, len, .. }, Reply::Done) => {
                self.rx_used(ring, head, len, UsedEvent::Begin);
            },
            (RxPhase::UsedRing { ring, head, len, .. }, Reply::Located(at)) => {
                self.rx_used(ring, head, len, UsedEvent::Ring(at));
            },
            (RxPhase::UsedIndex { ring, head, len, used, .. }, Reply::Half(idx)) => {
                self.rx_used(ring, head, len, UsedEvent::Index { ring: used, idx });
            },
            (RxPhase::Publish { ring, .. }, Reply::Done) => {
                self.rx(RxPhase::Poll { ring });
            },
            _ => {},
        }
    }

    /// Begins to process the transmit queue: reads data from the guest's
    /// buffers and writes it to the shared ring buffers of connected VMs.
    fn process_tx_queue(&mut self)
        requires
            old(self)@.wf(),
        ensures
            final(self)@ == old(self)@.tx_pop(PopEvent::Begin),
            final(self)@.wf(),
    {
        self.tx_pop(PopEvent::Begin);
    }

    fn tx_pop(&mut self, event: PopEvent)
        requires
            old(self)@.wf(),
        ensures
            final(self)@ == old(self)@.tx_pop(event),
            final(self)@.wf(),
    {
        let action: PopAction = self.state.tx_queue_mut().pop_available(event);
        match action {
            PopAction::Locate { gpa } => self.tx(TxPhase::AvailRing { gpa }),
            PopAction::ReadIndex { ring: avail, hva } => {
                self.tx(TxPhase::AvailIndex { avail, hva })
            },
            PopAction::ReadEntry { hva } => self.tx(TxPhase::AvailEntry { hva }),
            PopAction::Popped { head } => {
                self.phase = Phase::Idle;
                self.data = Vec::new();
                self.tx_descriptor(head, DescriptorEvent::Begin { idx: head });
            },
            PopAction::Empty => self.enter(Phase::Idle),
            PopAction::ZeroSize => self.abort(Fault::ZeroQueueSize),
        }
    }

    fn tx_descriptor(&mut self, head: u16, event: DescriptorEvent)
        requires
            old(self)@.wf(),
        ensures
            final(self)@ == old(self)@.tx_descriptor(head, event),
            final(self)@.wf(),
    {
        match self.state.tx_queue().get_descriptor(event) {
            DescriptorAction::Locate { gpa } => self.tx(TxPhase::Table { head, gpa }),
            DescriptorAction::Read { hva } => self.tx(TxPhase::Descriptor { head, hva }),
            DescriptorAction::Missing => self.abort(Fault::MissingDescriptor),
            DescriptorAction::AddressOverflow => self.abort(Fault::DescriptorAddressOverflow),
        }
    }

    fn tx_link(&mut self, head: u16, desc: VirtqDesc)
        requires
            old(self)@.wf(),
        ensures
            final(self)@ == old(self)@.tx_link(head, desc),
            final(self)@.wf(),
    {
        if (desc.flags & VRING_DESC_F_NEXT) == 0 {
            self.tx_used(head, self.data.len() as u32, true, UsedEvent::Begin);
        } else if desc.next >= self.state.tx_queue().size() {
            self.tx_invalid(head);
        } else {
            self.tx_descriptor(head, DescriptorEvent::Begin { idx: desc.next });
        }
    }

    fn tx_invalid(&mut self, head: u16)
        requires
            old(self)@.wf(),
        ensures
            final(self)@ == old(self)@.tx_invalid(head),
            final(self)@.wf(),
    {
        self.tx_used(head, 0, false, UsedEvent::Begin);
    }

    fn tx_used(&mut self, head: u16, len: u32, valid: bool, event: UsedEvent)
        requires
            old(self)@.wf(),
        ensures
            final(self)@ == old(self)@.tx_used(head, len, valid, event),
            final(self)@.wf(),
    {
        match self.state.tx_queue().add_used(head, len, event) {
            UsedAction::Locate { gpa } => self.tx(TxPhase::UsedRing { head, len, valid, gpa }),
            UsedAction::ReadIndex { ring: used, hva } => {
                self.tx(TxPhase::UsedIndex { head, len, valid, used, hva })
            },
            UsedAction::Publish(update) => self.tx(TxPhase::Publish { valid, update }),
            UsedAction::InvalidInput => self.tx_used_done(valid),
            UsedAction::ZeroSize => self.abort(Fault::ZeroQueueSize),
        }
    }

    fn tx_used_done(&mut self, valid: bool)
        requires
            old(self)@.wf(),
        ensures
            final(self)@ == old(self)@.tx_used_done(valid),
            final(self)@.wf(),
    {
        if valid {
            self.state.raise_vring_interrupt();
            self.tx_ring(0);
        } else {
            self.tx_pop(PopEvent::Begin);
        }
    }

    fn tx_ring(&mut self, index: usize)
        requires
            old(self)@.wf(),
        ensures
            final(self)@ == old(self)@.tx_ring(index as int),
            final(self)@.wf(),
    {
        let opened: Option<Result<SharedRing, Fault>> = match &self.connection {
            Some(c) => {
                if index < min_len(c.send_vm_ids.len(), c.send_buffers.len()) {
                    Some(SharedRing::at(index, c.send_buffers[index], c.buffer_size))
                } else {
                    None
                }
            },
            None => None,
        };
        match opened {
            Some(Ok(ring)) => self.tx(TxPhase::Indices { ring }),
            Some(Err(fault)) => self.abort(fault),
            None => self.tx_pop(PopEvent::Begin),
        }
    }

    fn tx_byte(&mut self, ring: SharedRing, write_idx: u64, read_idx: u64, done: usize)
        requires
            old(self)@.wf(),
            crate::phase::ring_wf(ring),
        ensures
            final(self)@ == old(self)@.tx_byte(ring, write_idx, read_idx, done as int),
            final(self)@.wf(),
    {
        if done >= self.data.len() {
            self.tx(TxPhase::StoreWrite { ring, write_idx });
        } else if write_idx < read_idx {
            self.abort(Fault::IndicesCrossed);
        } else if write_idx - read_idx >= ring.capacity {
            self.tx(TxPhase::StoreWrite { ring, write_idx });
        } else {
            self.tx(TxPhase::Byte { ring, write_idx, read_idx, done });
        }
    }

    fn tx_resume(&mut self, phase: TxPhase, reply: Reply)
        requires
            old(self)@.wf(),
            old(self)@.phase == Phase::Tx(phase),
            reply@.answers(phase.request(old(self)@.data)),
        ensures
            final(self)@ == old(self)@.tx_next(phase, reply@),
            final(self)@.wf(),
    {
        match (phase, reply) {
            (TxPhase::AvailRing { .. }, Reply::Located(at)) => {
                self.tx_pop(PopEvent::Ring(at));
            },
            (TxPhase::AvailIndex { avail, .. }, Reply::Half(idx)) => {
                self.tx_pop(PopEvent::Index { ring: avail, idx });
            },
            (TxPhase::AvailEntry { .. }, Reply::Half(head)) => {
                self.tx_pop(PopEvent::Entry { head });
            },
            (TxPhase::Table { head, .. }, Reply::Located(at)) => {
                self.tx_descriptor(head, DescriptorEvent::Entry(at));
            },
            (TxPhase::Descriptor { head, .. }, Reply::Descriptor(desc)) => {
                if desc.addr == 0 || desc.len == 0 {
                    self.tx_invalid(head);
                } else if (desc.flags & VRING_DESC_F_WRITE) == 0 {
                    self.tx(TxPhase::Buffer { head, desc });
                } else {
                    self.tx_link(head, desc);
                }
            },
            (TxPhase::Buffer { head, desc }, Reply::Translated(to)) => match to {
                Some((hpa, limit)) => {
                    let count: u64 = bytes_to_read(&desc, limit);
                    self.tx(TxPhase::Data { head, desc, hva: hpa, count });
                },
                None => self.tx_invalid(head),
            },
            (TxPhase::Data { head, desc, .. }, Reply::Bytes(bytes)) => {
                let mut bytes = bytes;
                self.data.append(&mut bytes);
                assert(self.data.len() <= usize::MAX);
                self.tx_link(head, desc);
            },
            (TxPhase::UsedRing { head, len, valid, .. }, Reply::Located(at)) => {
                self.tx_used(head, len, valid, UsedEvent::Ring(at));
            },
            (TxPhase::UsedIndex { head, len, valid, used, .. }, Reply::Half(idx)) => {
                self.tx_used(head, len, valid, UsedEvent::Index { ring: used, idx });
            },
            (TxPhase::Publish { valid, .. }, Reply::Done) => {
                self.tx_used_done(valid);
            },
            (TxPhase::Indices { ring }, Reply::Indices { write_idx, read_idx }) => {
                self.tx_byte(ring, write_idx, read_idx, 0);
            },
            (TxPhase::Byte { ring, write_idx, read_idx, done }, Reply::Done) => {
                if write_idx == u64::MAX {
                    self.abort(Fault::IndexOverflow);
                } else {
                    assert(done < self.data.len());
                    self.tx_byte(ring, write_idx + 1, read_idx, done + 1);
                }
            },
            (TxPhase::StoreWrite { ring, .. }, Reply::Done) => {
                self.tx_ring(ring.index + 1);
            },
            _ => {},
        }
    }

    /// Handles queue notifications (Doorbell).
    ///
    /// This begins a transfer. The receive queue is always processed, so that
    /// data from other VMs arrives even if the guest only notifies the transmit
    /// queue, which then follows.
    fn notify_queue(&mut self, queue_idx: u32)
        requires
            old(self)@.wf(),
        ensures
            final(self)@ == old(self)@.notified(queue_idx),
            final(self)@.wf(),
    {
        self.tx_follows = queue_idx == 1;
        self.process_rx_queue();
    }

    /// Whether the device has been connected to a VM.
    pub fn is_connected(&self) -> (yes: bool)
        ensures
            yes == (self@.connection is Some),
    {
        self.connection.is_some()
    }

    /// Adds a connection for sending data to a target VM.
    pub fn add_send_connection(&mut self, vm_id: usize, buffer: usize)
        requires
            old(self)@.wf(),
        ensures
            final(self)@ == old(self)@.with_send_connection(vm_id, buffer),
            final(self)@.wf(),
    {
        if let Some(conn) = &mut self.connection {
            conn.add_send_vm(vm_id, buffer);
        } else {
            let new_conn = DeviceConsoleConnection::new(
                vec![vm_id],
                Vec::new(),
                vec![buffer],
                Vec::new(),
                DEFAULT_BUFFER_SIZE,
            );
            self.connection = Some(new_conn);
        }
    }

    /// Removes a connection for sending data to a target VM.
    pub fn remove_send_connection(&mut self, vm_id: usize)
        requires
            old(self)@.wf(),
        ensures
            final(self)@ == old(self)@.without_send_connection(vm_id),
            final(self)@.wf(),
    {
        if let Some(conn) = &mut self.connection {
            proof {
                crate::connection::law_connection_stays_paired(conn@, vm_id, 0);
            }
            conn.remove_send_vm(vm_id);
        }
    }

    /// Adds a connection for receiving data from a source VM, and begins a
    /// transfer at once, in case that data is already there.
    pub fn add_recv_connection(&mut self, vm_id: usize, buffer: usize)
        requires
            old(self)@.wf(),
            old(self)@.is_idle(),
        ensures
            final(self)@ == old(self)@.with_recv_connection(vm_id, buffer).received(),
            final(self)@.wf(),
    {
        if let Some(conn) = &mut self.connection {
            conn.add_recv_vm(vm_id, buffer);
        } else {
            let new_conn = DeviceConsoleConnection::new(
                Vec::new(),
                vec![vm_id],
                Vec::new(),
                vec![buffer],
                DEFAULT_BUFFER_SIZE,
            );
            self.connection = Some(new_conn);
        }
        self.tx_follows = false;
        self.process_rx_queue();
    }

    /// Removes a connection for receiving data from a source VM.
    pub fn remove_recv_connection(&mut self, vm_id: usize)
        requires
            old(self)@.wf(),
        ensures
            final(self)@ == old(self)@.without_recv_connection(vm_id),
            final(self)@.wf(),
    {
        if let Some(conn) = &mut self.connection {
            proof {
                crate::connection::law_connection_stays_paired(conn@, vm_id, 0);
            }
            conn.remove_recv_vm(vm_id);
        }
    }

    /// The guest physical addresses that belong to the device: the first, and
    /// the one past the last.
    pub fn address_range(&self) -> (range: (usize, usize))
        requires
            self@.base_gpa + self@.length <= usize::MAX,
        ensures
            range.0 == self@.base_gpa,
            range.1 == self@.base_gpa + self@.length,
    {
        (self.base_gpa, self.base_gpa + self.length)
    }

    /// Whether [`VirtioConsole::handle_read`] can read `width` at `addr`.
    pub fn can_read(&self, addr: usize, width: AccessWidth) -> (yes: bool)
        ensures
            yes == self@.can_read(addr, width),
    {
        if addr < self.base_gpa {
            return false;
        }
        let offset: usize = addr - self.base_gpa;
        if offset < VIRTIO_MMIO_CONFIG || offset >= VIRTIO_MMIO_CONFIG + CONFIG_SIZE {
            return true;
        }
        let room: usize = VIRTIO_MMIO_CONFIG + CONFIG_SIZE - offset;
        match width {
            AccessWidth::Byte => true,
            AccessWidth::Word => room >= 2,
            AccessWidth::Dword => room >= 4,
            AccessWidth::Qword => true,
        }
    }

    /// Handles MMIO read operations.
    pub fn handle_read(&self, addr: usize, width: AccessWidth) -> (value: usize)
        requires
            self@.can_read(addr, width),
        ensures
            value == self@.state.register((addr - self@.base_gpa) as usize, width),
    {
        self.state.read_register(addr - self.base_gpa, width) as usize
    }

    /// Handles MMIO write operations. A write to the notification register
    /// begins a transfer; any other takes effect at once. All registers are 32
    /// bits wide, whatever the width of the access.
    pub fn handle_write(&mut self, addr: usize, _width: AccessWidth, val: usize)
        requires
            old(self)@.wf(),
            old(self)@.is_idle(),
            old(self)@.base_gpa <= addr,
        ensures
            final(self)@ == old(self)@.written((addr - old(self)@.base_gpa) as usize, val as u32),
            final(self)@.wf(),
    {
        let offset: usize = addr - self.base_gpa;
        let val: u32 = val as u32;
        if offset == VIRTIO_MMIO_QUEUE_NOTIFY {
            self.notify_queue(val);
            return ;
        }
        self.state.write_register(offset, val);
    }
}

} // verus!
