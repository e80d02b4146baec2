//! What holds whatever the host answers, and whatever other VMs do to memory
//! meanwhile: the device keeps to the rings that it is connected to.
use crate::connection::ConnectionView;
use crate::phase::{Phase, RxPhase, TxPhase};
use crate::queue::{PopEvent, UsedEvent, VirtqDesc};
use crate::request::{Fault, ReplyView, Request, Step};
use crate::ring::SharedRing;
use crate::transfer::ConsoleView;
use vstd::prelude::*;

verus! {

impl RxPhase {
    /// The ring that data is being received from.
    pub open spec fn ring(self) -> SharedRing {
        match self {
            RxPhase::Poll { ring } => ring,
            RxPhase::AvailRing { ring, .. } => ring,
            RxPhase::AvailIndex { ring, .. } => ring,
            RxPhase::AvailEntry { ring, .. } => ring,
            RxPhase::Indices { ring, .. } => ring,
            RxPhase::Table { fetch, .. } => fetch.ring,
            RxPhase::Descriptor { fetch, .. } => fetch.ring,
            RxPhase::Buffer { fetch, .. } => fetch.ring,
            RxPhase::Copy { fetch, .. } => fetch.ring,
            RxPhase::StoreRead { ring, .. } => ring,
            RxPhase::UsedRing { ring, .. } => ring,
            RxPhase::UsedIndex { ring, .. } => ring,
            RxPhase::Publish { ring, .. } => ring,
        }
    }
}

impl TxPhase {
    /// The ring that data is being sent to.
    pub open spec fn ring(self) -> Option<SharedRing> {
        match self {
            TxPhase::Indices { ring } => Some(ring),
            TxPhase::Byte { ring, .. } => Some(ring),
            TxPhase::StoreWrite { ring, .. } => Some(ring),
            _ => None,
        }
    }
}

impl ConnectionView {
    /// `ring` is one of the rings that data is sent to.
    pub open spec fn sends_to(self, ring: SharedRing) -> bool {
        &&& ring.index < self.send_count()
        &&& self.send_ring(ring.index as int) == Ok::<SharedRing, Fault>(ring)
    }

    /// `ring` is one of the rings that data is received from.
    pub open spec fn receives_from(self, ring: SharedRing) -> bool {
        &&& ring.index < self.recv_count()
        &&& self.recv_ring(ring.index as int) == Ok::<SharedRing, Fault>(ring)
    }

    /// `hva` is a data slot of a ring that data is sent to.
    pub open spec fn send_slot(self, hva: u64) -> bool {
        exists|ring: SharedRing| self.sends_to(ring) && #[trigger] ring.has_slot(hva as int)
    }

    /// `hva` is a data slot of a ring that data is received from.
    pub open spec fn recv_slot(self, hva: u64) -> bool {
        exists|ring: SharedRing| self.receives_from(ring) && #[trigger] ring.has_slot(hva as int)
    }

    /// `hva` is the write index of a ring that data is sent to, or the read
    /// index of one that data is received from.
    pub open spec fn own_index(self, hva: u64) -> bool {
        ||| exists|ring: SharedRing| #[trigger] self.sends_to(ring) && hva == ring.base
        ||| exists|ring: SharedRing| #[trigger]
            self.receives_from(ring) && hva == ring.base + crate::ring::READ_IDX_OFFSET
    }
}

impl SharedRing {
    /// `at` is the address of a data slot, if the buffer lies in host memory.
    pub open spec fn has_slot(self, at: int) -> bool {
        self.in_memory() ==> self.base + crate::ring::RING_HEADER_SIZE <= at < self.end()
    }
}

impl ConsoleView {
    /// The ring that the transfer works on, if there is one, is connected.
    pub open spec fn on_connected_ring(self) -> bool {
        match self.phase {
            Phase::Rx(phase) => self.connection matches Some(c) && c.receives_from(phase.ring()),
            Phase::Tx(phase) => match phase.ring() {
                Some(ring) => self.connection matches Some(c) && c.sends_to(ring),
                None => true,
            },
            _ => true,
        }
    }
}

/// `after` works on a connected ring, if on any, and has the connections and
/// the place of `before`.
pub open spec fn keeps_to_its_rings(before: ConsoleView, after: ConsoleView) -> bool {
    &&& after.on_connected_ring()
    &&& after.connection == before.connection
    &&& after.base_gpa == before.base_gpa
    &&& after.length == before.length
    &&& after.irq_id == before.irq_id
}

/// The connections can be counted.
pub open spec fn countable(connection: Option<ConnectionView>) -> bool {
    connection matches Some(c) ==> c.send_count() <= usize::MAX && c.recv_count() <= usize::MAX
}

proof fn lemma_tx_pop_keeps(c: ConsoleView, event: PopEvent)
    ensures
        keeps_to_its_rings(c, c.tx_pop(event)),
{
}

proof fn lemma_tx_ring_keeps(c: ConsoleView, index: int)
    requires
        countable(c.connection),
        0 <= index,
    ensures
        keeps_to_its_rings(c, c.tx_ring(index)),
{
    lemma_tx_pop_keeps(c, PopEvent::Begin);
    if let Some(connection) = c.connection {
        if index < connection.send_count() {
            assert((index as usize) as int == index);
        }
    }
}

proof fn lemma_tx_used_keeps(c: ConsoleView, head: u16, len: u32, valid: bool, event: UsedEvent)
    requires
        countable(c.connection),
    ensures
        keeps_to_its_rings(c, c.tx_used(head, len, valid, event)),
        keeps_to_its_rings(c, c.tx_used_done(valid)),
{
    lemma_tx_pop_keeps(c, PopEvent::Begin);
    lemma_tx_ring_keeps(ConsoleView { state: c.state.with_interrupt(), ..c }, 0);
}

proof fn lemma_tx_link_keeps(c: ConsoleView, head: u16, desc: VirtqDesc)
    requires
        countable(c.connection),
    ensures
        keeps_to_its_rings(c, c.tx_link(head, desc)),
{
    lemma_tx_used_keeps(c, head, c.data.len() as u32, true, UsedEvent::Begin);
    lemma_tx_used_keeps(c, head, 0, false, UsedEvent::Begin);
}

proof fn lemma_rx_ring_keeps(c: ConsoleView, index: int)
    requires
        countable(c.connection),
        0 <= index,
    ensures
        keeps_to_its_rings(c, c.rx_ring(index)),
{
    lemma_tx_pop_keeps(ConsoleView { tx_follows: false, ..c }, PopEvent::Begin);
    if let Some(connection) = c.connection {
        if index < connection.recv_count() {
            assert((index as usize) as int == index);
        }
    }
}

proof fn lemma_rx_pop_keeps(c: ConsoleView, ring: SharedRing, event: PopEvent)
    requires
        countable(c.connection),
        c.connection matches Some(connection) && connection.receives_from(ring),
    ensures
        keeps_to_its_rings(c, c.rx_pop(ring, event)),
{
    lemma_rx_ring_keeps(
        c.with_rx_queue(c.state.rx_queue.after_pop(event)),
        ring.index + 1,
    );
}

proof fn lemma_rx_next_keeps(c: ConsoleView, phase: RxPhase, reply: ReplyView)
    requires
        countable(c.connection),
        c.phase == Phase::Rx(phase),
        c.on_connected_ring(),
    ensures
        keeps_to_its_rings(c, c.rx_next(phase, reply)),
{
    let ring = phase.ring();
    lemma_rx_ring_keeps(c, ring.index + 1);
    match (phase, reply) {
        (RxPhase::Poll { .. }, ReplyView::Indices { .. }) => {
            lemma_rx_pop_keeps(c, ring, PopEvent::Begin);
        },
        (RxPhase::AvailRing { .. }, ReplyView::Located(at)) => {
            lemma_rx_pop_keeps(c, ring, PopEvent::Ring(at));
        },
        (RxPhase::AvailIndex { avail, .. }, ReplyView::Half(idx)) => {
            lemma_rx_pop_keeps(c, ring, PopEvent::Index { ring: avail, idx });
        },
        (RxPhase::AvailEntry { .. }, ReplyView::Half(head)) => {
            lemma_rx_pop_keeps(c, ring, PopEvent::Entry { head });
        },
        _ => {},
    }
}

proof fn lemma_tx_next_keeps(c: ConsoleView, phase: TxPhase, reply: ReplyView)
    requires
        countable(c.connection),
        c.phase == Phase::Tx(phase),
        c.on_connected_ring(),
    ensures
        keeps_to_its_rings(c, c.tx_next(phase, reply)),
{
    match (phase, reply) {
        (TxPhase::AvailRing { .. }, ReplyView::Located(at)) => {
            lemma_tx_pop_keeps(c, PopEvent::Ring(at));
        },
        (TxPhase::AvailIndex { avail, .. }, ReplyView::Half(idx)) => {
            lemma_tx_pop_keeps(c, PopEvent::Index { ring: avail, idx });
        },
        (TxPhase::AvailEntry { .. }, ReplyView::Half(head)) => {
            lemma_tx_pop_keeps(c, PopEvent::Entry { head });
        },
        (TxPhase::Descriptor { head, .. }, ReplyView::Descriptor(desc)) => {
            lemma_tx_used_keeps(c, head, 0, false, UsedEvent::Begin);
            lemma_tx_link_keeps(c, head, desc);
        },
        (TxPhase::Buffer { head, .. }, ReplyView::Translated(_)) => {
            lemma_tx_used_keeps(c, head, 0, false, UsedEvent::Begin);
        },
        (TxPhase::Data { head, desc, .. }, ReplyView::Bytes(bytes)) => {
            lemma_tx_link_keeps(ConsoleView { data: c.data + bytes, ..c }, head, desc);
        },
        (TxPhase::UsedRing { head, len, valid, .. }, ReplyView::Located(at)) => {
            lemma_tx_used_keeps(c, head, len, valid, UsedEvent::Ring(at));
        },
        (TxPhase::UsedIndex { head, len, valid, used, .. }, ReplyView::Half(idx)) => {
            lemma_tx_used_keeps(c, head, len, valid, UsedEvent::Index { ring: used, idx });
        },
        (TxPhase::Publish { valid, .. }, ReplyView::Done) => {
            lemma_tx_used_keeps(c, 0, 0, valid, UsedEvent::Begin);
        },
        (TxPhase::StoreWrite { ring, .. }, ReplyView::Done) => {
            lemma_tx_ring_keeps(c, ring.index + 1);
        },
        _ => {},
    }
}

/// Whatever the host answers, the device does not leave the rings that it is
/// connected to, nor forget its connections.
pub proof fn law_transfer_stays_on_connected_rings(c: ConsoleView, reply: ReplyView)
    requires
        countable(c.connection),
        c.on_connected_ring(),
    ensures
        keeps_to_its_rings(c, c.next(reply)),
{
    match c.phase {
        Phase::Rx(phase) => lemma_rx_next_keeps(c, phase, reply),
        Phase::Tx(phase) => lemma_tx_next_keeps(c, phase, reply),
        _ => {},
    }
}

/// A transfer begins on connected rings.
pub proof fn law_transfer_begins_on_connected_rings(c: ConsoleView, queue_idx: u32)
    requires
        countable(c.connection),
    ensures
        c.notified(queue_idx).on_connected_ring(),
        c.received().on_connected_ring(),
{
    lemma_rx_ring_keeps(ConsoleView { tx_follows: queue_idx == 1, ..c }, 0);
    lemma_rx_ring_keeps(ConsoleView { tx_follows: false, ..c }, 0);
}

/// The device writes data bytes only to slots of rings that it sends to, takes
/// bytes only from slots of rings that it receives from, and moves on only the
/// write index of the former and the read index of the latter.
pub proof fn law_only_connected_rings_are_touched(c: ConsoleView)
    requires
        c.wf(),
        c.on_connected_ring(),
    ensures
        match c.step() {
            Step::Ask(Request::WriteByte { hva, .. }) => c.connection->Some_0.send_slot(hva),
            Step::Ask(Request::CopyByte { from, .. }) => c.connection->Some_0.recv_slot(from),
            Step::Ask(Request::StoreIndex { hva, .. }) => c.connection->Some_0.own_index(hva),
            _ => true,
        },
{
    match c.phase {
        Phase::Rx(RxPhase::Copy { fetch, done, .. }) => {
            let ring = fetch.ring;
            if ring.in_memory() {
                crate::ring_laws::lemma_slot(ring, fetch.read_idx + done);
            }
            let from = ring.slot(fetch.read_idx + done);
            assert(c.connection->Some_0.receives_from(ring) && ring.has_slot(from as int));
            assert(c.connection->Some_0.recv_slot(from));
        },
        Phase::Tx(TxPhase::Byte { ring, write_idx, .. }) => {
            if ring.in_memory() {
                crate::ring_laws::lemma_slot(ring, write_idx as int);
            }
            let hva = ring.slot(write_idx as int);
            assert(c.connection->Some_0.sends_to(ring) && ring.has_slot(hva as int));
            assert(c.connection->Some_0.send_slot(hva));
        },
        Phase::Rx(RxPhase::StoreRead { ring, .. }) => {
            assert(c.connection->Some_0.receives_from(ring));
            assert(c.connection->Some_0.own_index((ring.base + crate::ring::READ_IDX_OFFSET) as u64));
        },
        Phase::Tx(TxPhase::StoreWrite { ring, .. }) => {
            assert(c.connection->Some_0.sends_to(ring));
            assert(c.connection->Some_0.own_index(ring.base));
        },
        _ => {},
    }
}

} // verus!
