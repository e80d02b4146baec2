//! What the console makes of its callers' requests, and when a transfer cannot
//! go on.
use crate::connection::ConnectionView;
use crate::phase::{Fetch, Phase, RxPhase, TxPhase};
use crate::queue::{QueueView, VirtqDesc};
use crate::request::{Fault, ReplyView, Request, Step};
use crate::ring::SharedRing;
use crate::state::{AccessWidth, StateView};
use crate::transfer::ConsoleView;
use vstd::prelude::*;

verus! {

/// The first VM that a device is connected to makes the connection, with buffers
/// of 4096 bytes; later ones are added to it. Nothing else changes, and removing
/// a VM from a device that is not connected changes nothing at all.
pub proof fn law_connections_are_made(c: ConsoleView, vm_id: usize, buffer: usize)
    ensures
        c.connection is None ==> c.with_send_connection(vm_id, buffer) == (ConsoleView {
            connection: Some(
                ConnectionView {
                    send_vm_ids: seq![vm_id],
                    recv_vm_ids: Seq::empty(),
                    send_buffers: seq![buffer],
                    recv_buffers: Seq::empty(),
                    buffer_size: 4096,
                },
            ),
            ..c
        }),
        c.connection is None ==> c.with_recv_connection(vm_id, buffer) == (ConsoleView {
            connection: Some(
                ConnectionView {
                    send_vm_ids: Seq::empty(),
                    recv_vm_ids: seq![vm_id],
                    send_buffers: Seq::empty(),
                    recv_buffers: seq![buffer],
                    buffer_size: 4096,
                },
            ),
            ..c
        }),
        c.connection is None ==> c.without_send_connection(vm_id) == c,
        c.connection is None ==> c.without_recv_connection(vm_id) == c,
        c.connection matches Some(connection) ==> {
            &&& c.with_send_connection(vm_id, buffer) == (ConsoleView {
                connection: Some(
                    ConnectionView {
                        send_vm_ids: connection.send_vm_ids.push(vm_id),
                        send_buffers: connection.send_buffers.push(buffer),
                        ..connection
                    },
                ),
                ..c
            })
            &&& c.with_recv_connection(vm_id, buffer) == (ConsoleView {
                connection: Some(
                    ConnectionView {
                        recv_vm_ids: connection.recv_vm_ids.push(vm_id),
                        recv_buffers: connection.recv_buffers.push(buffer),
                        ..connection
                    },
                ),
                ..c
            })
            &&& c.without_send_connection(vm_id) == (ConsoleView {
                connection: Some(connection.without_send(vm_id)),
                ..c
            })
            &&& c.without_recv_connection(vm_id) == (ConsoleView {
                connection: Some(connection.without_recv(vm_id)),
                ..c
            })
        },
{
}

/// A write at the offset 0x50 is a notification, which changes no register. Any
/// other write changes registers alone.
pub proof fn law_only_one_register_notifies(c: ConsoleView, offset: usize, val: u32)
    ensures
        c.written(0x50, val) == c.notified(val),
        c.notified(val).state == c.state,
        c.notified(val).connection == c.connection,
        c.received().state == c.state,
        c.received().connection == c.connection,
        offset != 0x50 ==> c.written(offset, val) == (ConsoleView {
            state: c.state.after_write(offset, val),
            ..c
        }),
{
    assert(c.state.tx_queue.after_pop(crate::queue::PopEvent::Begin) == c.state.tx_queue);
}

/// A read can be made from the device's first address on, unless it would go
/// past the 12 bytes of the configuration space.
pub proof fn law_reads_begin_at_the_base(c: ConsoleView, addr: usize)
    ensures
        addr < c.base_gpa ==> forall|width: AccessWidth| !#[trigger] c.can_read(addr, width),
        addr >= c.base_gpa ==> {
            let offset = addr - c.base_gpa;
            &&& c.can_read(addr, AccessWidth::Byte)
            &&& c.can_read(addr, AccessWidth::Word) <==> offset != 0x10b
            &&& c.can_read(addr, AccessWidth::Dword) <==> !(0x109 <= offset < 0x10c)
            &&& c.can_read(addr, AccessWidth::Qword)
        },
{
    crate::register_laws::law_reads_stay_in_the_config_space(addr - c.base_gpa);
}

/// Before a chain is taken, and before data is sent, the write index is loaded
/// first, so that what it counts is there. Once a chain is taken, the read index
/// is loaded first. An idle device asks for nothing, and a stopped one says why.
pub proof fn law_indices_are_loaded_in_order(c: ConsoleView, ring: SharedRing, head: u16)
    ensures
        c.rx(RxPhase::Poll { ring }).step() == Step::Ask(
            Request::LoadWriteThenRead { hva: ring.base },
        ),
        c.tx(TxPhase::Indices { ring }).step() == Step::Ask(
            Request::LoadWriteThenRead { hva: ring.base },
        ),
        c.rx(RxPhase::Indices { ring, head }).step() == Step::Ask(
            Request::LoadReadThenWrite { hva: ring.base },
        ),
        c.phase is Idle ==> c.step() is Idle,
        c.phase matches Phase::Aborted(fault) ==> c.step() == Step::Abort(fault),
{
}

/// A buffer that is too small for the header of a ring, or whose header wraps
/// around, stops the transfer when its turn comes.
pub proof fn law_bad_buffers_stop_a_transfer(
    c: ConsoleView,
    connection: ConnectionView,
    index: int,
)
    requires
        c.connection == Some(connection),
        connection.paired(),
        0 <= index,
    ensures
        index < connection.recv_vm_ids.len() && (connection.buffer_size < 16
            || connection.recv_buffers[index] + 16 > u64::MAX) ==> c.rx_ring(index) == (ConsoleView {
            phase: Phase::Aborted(Fault::BadRingBuffer),
            ..c
        }),
        index < connection.send_vm_ids.len() && (connection.buffer_size < 16
            || connection.send_buffers[index] + 16 > u64::MAX) ==> c.tx_ring(index) == (ConsoleView {
            phase: Phase::Aborted(Fault::BadRingBuffer),
            ..c
        }),
{
    crate::connection::law_every_vm_has_a_ring(connection);
}

/// A read index past the write index stops the transfer: before a chain is
/// taken, after it, and before data is sent. Where there is no data to send, the
/// indices do not matter.
pub proof fn law_crossed_indices_stop_a_transfer(
    c: ConsoleView,
    ring: SharedRing,
    head: u16,
    write_idx: u64,
    read_idx: u64,
)
    requires
        write_idx < read_idx,
    ensures
        ({
            let reply = ReplyView::Indices { write_idx, read_idx };
            let stopped = ConsoleView { phase: Phase::Aborted(Fault::IndicesCrossed), ..c };
            &&& c.rx(RxPhase::Poll { ring }).next(reply) == stopped
            &&& c.rx(RxPhase::Indices { ring, head }).next(reply) == stopped
            &&& c.data.len() > 0 ==> c.tx(TxPhase::Indices { ring }).next(reply) == stopped
            &&& c.data.len() == 0 ==> c.tx(TxPhase::Indices { ring }).next(reply).step()
                == Step::Ask(Request::StoreIndex { hva: ring.base, index: write_idx })
        }),
{
}

/// A queue without a size stops the transfer when a chain waits in it.
pub proof fn law_queues_without_a_size_stop_a_transfer(
    c: ConsoleView,
    ring: SharedRing,
    avail: u64,
    hva: u64,
    idx: u16,
)
    ensures
        c.state.rx_queue.size == 0 && idx != c.state.rx_queue.last_avail_idx ==> c.rx(
            RxPhase::AvailIndex { ring, avail, hva },
        ).next(ReplyView::Half(idx)) == (ConsoleView {
            phase: Phase::Aborted(Fault::ZeroQueueSize),
            ..c
        }),
        c.state.tx_queue.size == 0 && idx != c.state.tx_queue.last_avail_idx ==> c.tx(
            TxPhase::AvailIndex { avail, hva },
        ).next(ReplyView::Half(idx)) == (ConsoleView {
            phase: Phase::Aborted(Fault::ZeroQueueSize),
            ..c
        }),
{
}

/// A chain that names a descriptor past the end of the queue, or one that is not
/// mapped, or whose address is not representable, stops the transfer.
pub proof fn law_missing_descriptors_stop_a_transfer(
    c: ConsoleView,
    fetch: Fetch,
    head: u16,
    gpa: u64,
    hva: u64,
    write_idx: u64,
)
    requires
        fetch.head == head,
        fetch.read_idx <= write_idx,
    ensures
        ({
            let indices = ReplyView::Indices { write_idx, read_idx: fetch.read_idx };
            let taken = c.rx(RxPhase::Indices { ring: fetch.ring, head }).next(indices);
            let rx = c.state.rx_queue;
            let tx = c.state.tx_queue;
            let moved = ConsoleView {
                state: StateView {
                    tx_queue: QueueView {
                        last_avail_idx: ((tx.last_avail_idx + 1) % 0x1_0000) as u16,
                        ..tx
                    },
                    ..c.state
                },
                data: Seq::empty(),
                ..c
            };
            let popped = c.tx(TxPhase::AvailEntry { hva }).next(ReplyView::Half(head));
            let missing = Phase::Aborted(Fault::MissingDescriptor);
            let too_far = Phase::Aborted(Fault::DescriptorAddressOverflow);
            &&& head >= rx.size ==> taken == (ConsoleView { phase: missing, ..c })
            &&& head < rx.size && rx.desc_table + 16 * head > u64::MAX ==> taken == (ConsoleView {
                phase: too_far,
                ..c
            })
            &&& c.rx(RxPhase::Table { fetch, gpa }).next(ReplyView::Located(None)) == (
            ConsoleView { phase: missing, ..c })
            &&& head >= tx.size ==> popped == (ConsoleView { phase: missing, ..moved })
            &&& head < tx.size && tx.desc_table + 16 * head > u64::MAX ==> popped == (
            ConsoleView { phase: too_far, ..moved })
            &&& c.tx(TxPhase::Table { head, gpa }).next(ReplyView::Located(None)) == (
            ConsoleView { phase: missing, ..c })
        }),
{
}

/// A ring without data slots stops the transfer where bytes would have to be
/// copied from it, and a write index that cannot grow stops it where a byte was
/// sent.
pub proof fn law_rings_out_of_bounds_stop_a_transfer(
    c: ConsoleView,
    fetch: Fetch,
    desc: VirtqDesc,
    to: u64,
    limit: u64,
    ring: SharedRing,
    read_idx: u64,
    done: usize,
)
    ensures
        fetch.ring.capacity == 0 && fetch.available > 0 && desc.len > 0 && limit > 0 ==> c.rx(
            RxPhase::Buffer { fetch, desc },
        ).next(ReplyView::Translated(Some((to, limit)))) == (ConsoleView {
            phase: Phase::Aborted(Fault::NoDataSlots),
            ..c
        }),
        c.tx(TxPhase::Byte { ring, write_idx: u64::MAX, read_idx, done }).next(ReplyView::Done) == (
        ConsoleView { phase: Phase::Aborted(Fault::IndexOverflow), ..c }),
{
}

/// Data is sent byte by byte, each to the slot that the write index names, until
/// there is no more data or the ring is full; then the write index is stored. A
/// ring that is full, or holds more than it can, takes nothing.
pub proof fn law_bytes_are_sent_one_by_one(
    c: ConsoleView,
    ring: SharedRing,
    write_idx: u64,
    read_idx: u64,
    done: usize,
)
    requires
        ring.base + 16 + ring.capacity <= u64::MAX,
        read_idx <= write_idx,
    ensures
        ({
            let begun = c.tx(TxPhase::Indices { ring }).next(
                ReplyView::Indices { write_idx, read_idx },
            );
            let next = c.tx(TxPhase::Byte { ring, write_idx, read_idx, done }).next(
                ReplyView::Done,
            );
            &&& c.data.len() == 0 || write_idx - read_idx >= ring.capacity ==> begun.step()
                == Step::Ask(Request::StoreIndex { hva: ring.base, index: write_idx })
            &&& c.data.len() > 0 && write_idx - read_idx < ring.capacity ==> begun.step()
                == Step::Ask(
                Request::WriteByte {
                    hva: (ring.base + 16 + write_idx as int % ring.capacity as int) as u64,
                    value: c.data[0],
                },
            )
            &&& write_idx < u64::MAX && (done + 1 >= c.data.len() || write_idx + 1 - read_idx
                >= ring.capacity) ==> next.step() == Step::Ask(
                Request::StoreIndex { hva: ring.base, index: (write_idx + 1) as u64 },
            )
            &&& write_idx < u64::MAX && done + 1 < c.data.len() && done < usize::MAX && write_idx
                + 1 - read_idx < ring.capacity ==> next.step() == Step::Ask(
                Request::WriteByte {
                    hva: (ring.base + 16 + (write_idx + 1) % (ring.capacity as int)) as u64,
                    value: c.data[done + 1],
                },
            )
        }),
{
    if ring.capacity > 0 {
        crate::ring_laws::law_slots_follow_the_header(ring, write_idx as int);
        crate::ring_laws::law_slots_follow_the_header(ring, write_idx + 1);
    }
}

} // verus!
