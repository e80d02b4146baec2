//! What holds of the registers across several accesses.
use crate::config::{
    VIRTIO_MMIO_CONFIG, VIRTIO_MMIO_DEVICE_FEATURES, VIRTIO_MMIO_DEVICE_FEATURES_SEL,
    VIRTIO_MMIO_DRIVER_FEATURES, VIRTIO_MMIO_DRIVER_FEATURES_SEL, VIRTIO_MMIO_INTERRUPT_ACK,
    VIRTIO_MMIO_INTERRUPT_STATUS, VIRTIO_MMIO_INT_VRING, VIRTIO_MMIO_QUEUE_AVAIL_HIGH,
    VIRTIO_MMIO_QUEUE_AVAIL_LOW, VIRTIO_MMIO_QUEUE_DESC_HIGH, VIRTIO_MMIO_QUEUE_DESC_LOW,
    VIRTIO_MMIO_QUEUE_NUM, VIRTIO_MMIO_QUEUE_READY, VIRTIO_MMIO_QUEUE_SEL,
    VIRTIO_MMIO_QUEUE_USED_HIGH, VIRTIO_MMIO_QUEUE_USED_LOW, VIRTIO_MMIO_STATUS,
};
use crate::queue::QueueView;
use crate::state::{AccessWidth, StateView};
use vstd::prelude::*;

verus! {

/// `offset` is a register that a driver can write.
pub open spec fn is_writable(offset: usize) -> bool {
    ||| offset == VIRTIO_MMIO_DEVICE_FEATURES_SEL
    ||| offset == VIRTIO_MMIO_DRIVER_FEATURES
    ||| offset == VIRTIO_MMIO_DRIVER_FEATURES_SEL
    ||| offset == VIRTIO_MMIO_QUEUE_SEL
    ||| offset == VIRTIO_MMIO_STATUS
    ||| offset == VIRTIO_MMIO_INTERRUPT_ACK
    ||| is_queue_register(offset)
}

/// `offset` is a register of the selected queue.
pub open spec fn is_queue_register(offset: usize) -> bool {
    ||| offset == VIRTIO_MMIO_QUEUE_NUM
    ||| offset == VIRTIO_MMIO_QUEUE_READY
    ||| offset == VIRTIO_MMIO_QUEUE_DESC_LOW
    ||| offset == VIRTIO_MMIO_QUEUE_DESC_HIGH
    ||| offset == VIRTIO_MMIO_QUEUE_AVAIL_LOW
    ||| offset == VIRTIO_MMIO_QUEUE_AVAIL_HIGH
    ||| offset == VIRTIO_MMIO_QUEUE_USED_LOW
    ||| offset == VIRTIO_MMIO_QUEUE_USED_HIGH
}

/// Whatever a driver writes, wherever, what it cannot change keeps its value,
/// and the queues stay well-formed.
pub proof fn law_state_stays_well_formed(s: StateView, offset: usize, val: u32)
    requires
        s.wf(),
    ensures
        s.after_write(offset, val).wf(),
        s.with_interrupt().wf(),
        StateView::initial().wf(),
{
}

/// A write of zero to the status register puts the device into the state it had
/// at first.
pub proof fn law_reset_restores_the_initial_state(s: StateView)
    requires
        s.wf(),
    ensures
        s.after_write(VIRTIO_MMIO_STATUS, 0) == StateView::initial(),
{
}

/// Any other status reads back as it was written, and nothing else changes.
pub proof fn law_status_reads_back(s: StateView, val: u32, width: AccessWidth)
    requires
        val != 0,
    ensures
        s.after_write(VIRTIO_MMIO_STATUS, val).register(VIRTIO_MMIO_STATUS, width) == val,
        s.after_write(VIRTIO_MMIO_STATUS, val) == (StateView { status: val, ..s }),
{
}

/// The address of a queue structure is set by halves, in either order, and each
/// half reads back as it was written.
pub proof fn law_queue_addresses_read_back(s: StateView, high: u32, low: u32, width: AccessWidth)
    requires
        s.selected() is Some,
    ensures
        ({
            let address = crate::bits::join_halves(high, low);
            let desc = s.after_write(VIRTIO_MMIO_QUEUE_DESC_LOW, low).after_write(
                VIRTIO_MMIO_QUEUE_DESC_HIGH,
                high,
            );
            let avail = s.after_write(VIRTIO_MMIO_QUEUE_AVAIL_LOW, low).after_write(
                VIRTIO_MMIO_QUEUE_AVAIL_HIGH,
                high,
            );
            let used = s.after_write(VIRTIO_MMIO_QUEUE_USED_LOW, low).after_write(
                VIRTIO_MMIO_QUEUE_USED_HIGH,
                high,
            );
            &&& desc.selected()->Some_0.desc_table == address
            &&& desc.register(VIRTIO_MMIO_QUEUE_DESC_LOW, width) == low
            &&& desc.register(VIRTIO_MMIO_QUEUE_DESC_HIGH, width) == high
            &&& desc == s.after_write(VIRTIO_MMIO_QUEUE_DESC_HIGH, high).after_write(
                VIRTIO_MMIO_QUEUE_DESC_LOW,
                low,
            )
            &&& avail.selected()->Some_0.avail_ring == address
            &&& avail.register(VIRTIO_MMIO_QUEUE_AVAIL_LOW, width) == low
            &&& avail.register(VIRTIO_MMIO_QUEUE_AVAIL_HIGH, width) == high
            &&& avail == s.after_write(VIRTIO_MMIO_QUEUE_AVAIL_HIGH, high).after_write(
                VIRTIO_MMIO_QUEUE_AVAIL_LOW,
                low,
            )
            &&& used.selected()->Some_0.used_ring == address
            &&& used.register(VIRTIO_MMIO_QUEUE_USED_LOW, width) == low
            &&& used.register(VIRTIO_MMIO_QUEUE_USED_HIGH, width) == high
            &&& used == s.after_write(VIRTIO_MMIO_QUEUE_USED_HIGH, high).after_write(
                VIRTIO_MMIO_QUEUE_USED_LOW,
                low,
            )
        }),
{
    let queue = s.selected()->Some_0;
    crate::bits::law_halves_join(high, low, queue.desc_table);
    crate::bits::law_halves_join(
        crate::bits::high_half(queue.desc_table),
        low,
        queue.desc_table,
    );
    crate::bits::law_halves_join(high, crate::bits::low_half(queue.desc_table), queue.desc_table);
    crate::bits::law_halves_join(
        crate::bits::high_half(queue.avail_ring),
        low,
        queue.avail_ring,
    );
    crate::bits::law_halves_join(high, crate::bits::low_half(queue.avail_ring), queue.avail_ring);
    crate::bits::law_halves_join(crate::bits::high_half(queue.used_ring), low, queue.used_ring);
    crate::bits::law_halves_join(high, crate::bits::low_half(queue.used_ring), queue.used_ring);
}

/// The size and the ready bit of a queue read back: the size if a driver may
/// choose it, and ready only for a written one.
pub proof fn law_queue_settings_read_back(s: StateView, val: u32, width: AccessWidth)
    requires
        s.selected() is Some,
    ensures
        s.after_write(VIRTIO_MMIO_QUEUE_READY, val).register(VIRTIO_MMIO_QUEUE_READY, width) == if val
            == 1 {
            1u32
        } else {
            0u32
        },
        s.after_write(VIRTIO_MMIO_QUEUE_NUM, val).register(VIRTIO_MMIO_QUEUE_NUM, width)
            == if s.selected()->Some_0.accepts(val as u16) {
            (val as u16) as u32
        } else {
            s.register(VIRTIO_MMIO_QUEUE_NUM, width)
        },
{
}

/// Writing to a register of a queue changes the selected queue alone.
pub proof fn law_queue_writes_stay_in_the_queue(s: StateView, offset: usize, val: u32)
    requires
        is_queue_register(offset),
    ensures
        ({
            let after = s.after_write(offset, val);
            &&& s.queue_sel != 0 ==> after.rx_queue == s.rx_queue
            &&& s.queue_sel != 1 ==> after.tx_queue == s.tx_queue
            &&& after == (StateView {
                rx_queue: after.rx_queue,
                tx_queue: after.tx_queue,
                ..s
            })
        }),
{
}

/// While no existing queue is selected, the registers of a queue read zero and
/// take no writes.
pub proof fn law_missing_queue_has_no_registers(
    s: StateView,
    offset: usize,
    val: u32,
    width: AccessWidth,
)
    requires
        s.queue_sel >= 2,
        is_queue_register(offset),
    ensures
        s.register(offset, width) == 0,
        s.after_write(offset, val) == s,
{
}

/// A write to a register that a driver cannot write, or that does not exist,
/// changes nothing.
pub proof fn law_other_writes_change_nothing(s: StateView, offset: usize, val: u32)
    requires
        !is_writable(offset),
    ensures
        s.after_write(offset, val) == s,
{
}

/// Acknowledging clears the acknowledged interrupts and keeps the others; after
/// an interrupt is raised it can be seen, until it is acknowledged.
pub proof fn law_interrupts_stay_until_acknowledged(s: StateView, ack: u32, width: AccessWidth)
    ensures
        ({
            let acked = s.after_write(VIRTIO_MMIO_INTERRUPT_ACK, ack);
            let raised = s.with_interrupt();
            &&& acked.register(VIRTIO_MMIO_INTERRUPT_STATUS, width) & ack == 0
            &&& acked.register(VIRTIO_MMIO_INTERRUPT_STATUS, width) & !ack == s.interrupt_status
                & !ack
            &&& raised.register(VIRTIO_MMIO_INTERRUPT_STATUS, width) & VIRTIO_MMIO_INT_VRING
                == VIRTIO_MMIO_INT_VRING
            &&& raised.after_write(VIRTIO_MMIO_INTERRUPT_ACK, VIRTIO_MMIO_INT_VRING).register(
                VIRTIO_MMIO_INTERRUPT_STATUS,
                width,
            ) & VIRTIO_MMIO_INT_VRING == 0
        }),
{
    let i = s.interrupt_status;
    assert((i & !ack) & ack == 0) by (bit_vector);
    assert((i & !ack) & !ack == i & !ack) by (bit_vector);
    assert((i | 1u32) & 1u32 == 1u32) by (bit_vector);
    let r = i | 1u32;
    assert((r & !1u32) & 1u32 == 0) by (bit_vector);
}

/// The features that the driver accepts are set by halves, in either order.
pub proof fn law_driver_features_are_set_by_halves(s: StateView, high: u32, low: u32, sel: u32)
    requires
        sel != 0,
    ensures
        ({
            let lower = s.after_write(VIRTIO_MMIO_DRIVER_FEATURES_SEL, 0).after_write(
                VIRTIO_MMIO_DRIVER_FEATURES,
                low,
            );
            let both = lower.after_write(VIRTIO_MMIO_DRIVER_FEATURES_SEL, sel).after_write(
                VIRTIO_MMIO_DRIVER_FEATURES,
                high,
            );
            let upper = s.after_write(VIRTIO_MMIO_DRIVER_FEATURES_SEL, sel).after_write(
                VIRTIO_MMIO_DRIVER_FEATURES,
                high,
            );
            let both_again = upper.after_write(VIRTIO_MMIO_DRIVER_FEATURES_SEL, 0).after_write(
                VIRTIO_MMIO_DRIVER_FEATURES,
                low,
            );
            &&& both.guest_features == crate::bits::join_halves(high, low)
            &&& both_again.guest_features == crate::bits::join_halves(high, low)
        }),
{
    crate::bits::law_halves_join(high, crate::bits::low_half(s.guest_features), s.guest_features);
    crate::bits::law_halves_join(crate::bits::high_half(s.guest_features), low, s.guest_features);
}

/// The device offers the features of its version of the standard and no others.
pub proof fn law_device_offers_version_one(s: StateView, sel: u32, width: AccessWidth)
    requires
        s.wf(),
    ensures
        s.after_write(VIRTIO_MMIO_DEVICE_FEATURES_SEL, sel).register(
            VIRTIO_MMIO_DEVICE_FEATURES,
            width,
        ) == if sel == 0 {
            0u32
        } else {
            1u32
        },
{
    assert(1u64 << 32 == 0x1_0000_0000u64) by (bit_vector);
}

/// Each field of the configuration space reads back whole at its own place.
#[verifier::spinoff_prover]
pub proof fn law_config_fields_read_back(s: StateView)
    ensures
        s.register(VIRTIO_MMIO_CONFIG, AccessWidth::Word) == s.config.cols,
        s.register((VIRTIO_MMIO_CONFIG + 2) as usize, AccessWidth::Word) == s.config.rows,
        s.register((VIRTIO_MMIO_CONFIG + 4) as usize, AccessWidth::Dword) == s.config.max_nr_ports,
        s.register((VIRTIO_MMIO_CONFIG + 8) as usize, AccessWidth::Dword) == s.config.emerg_wr,
{
    reveal_with_fuel(crate::state::le_value, 5);
    let config = s.config;
    assert(config.bytes().subrange(0, 2).len() == 2);
    assert(config.bytes().subrange(2, 4).len() == 2);
    assert(config.bytes().subrange(4, 8).len() == 4);
    assert(config.bytes().subrange(8, 12).len() == 4);
}

/// What stands at each offset of the register file, and that there is nothing
/// anywhere else outside of the configuration space.
pub proof fn law_registers_stand_at_their_offsets(s: StateView, offset: usize, width: AccessWidth)
    requires
        s.wf(),
    ensures
        s.register(0x0, width) == 0x7472_6976,
        s.register(0x4, width) == 2,
        s.register(0x8, width) == 3,
        s.register(0xc, width) == 0x554d_4551,
        s.device_features_sel == 0 ==> s.register(0x10, width) == 0,
        s.device_features_sel != 0 ==> s.register(0x10, width) == 1,
        s.register(0x34, width) == 256,
        s.register(0x60, width) == s.interrupt_status,
        s.register(0x70, width) == s.status,
        s.register(0xfc, width) == 0,
        s.queue_sel == 0 ==> reads_of(s, s.rx_queue, width),
        s.queue_sel == 1 ==> reads_of(s, s.tx_queue, width),
        s.queue_sel > 1 ==> s.register(0x38, width) == 0 && s.register(0x44, width) == 0
            && s.register(0x80, width) == 0 && s.register(0x84, width) == 0 && s.register(
            0x90,
            width,
        ) == 0 && s.register(0x94, width) == 0 && s.register(0xa0, width) == 0 && s.register(
            0xa4,
            width,
        ) == 0,
        offset >= 0x10c || (offset < 0x100 && offset != 0x0 && offset != 0x4 && offset != 0x8
            && offset != 0xc && offset != 0x10 && offset != 0x34 && offset != 0x38 && offset != 0x44
            && offset != 0x60 && offset != 0x70 && offset != 0x80 && offset != 0x84 && offset
            != 0x90 && offset != 0x94 && offset != 0xa0 && offset != 0xa4) ==> s.register(
            offset,
            width,
        ) == 0,
{
    assert(1u64 << 32 == 0x1_0000_0000u64) by (bit_vector);
    crate::bits::law_halves_are_places(s.rx_queue.desc_table, 0, 0);
    crate::bits::law_halves_are_places(s.rx_queue.avail_ring, 0, 0);
    crate::bits::law_halves_are_places(s.rx_queue.used_ring, 0, 0);
    crate::bits::law_halves_are_places(s.tx_queue.desc_table, 0, 0);
    crate::bits::law_halves_are_places(s.tx_queue.avail_ring, 0, 0);
    crate::bits::law_halves_are_places(s.tx_queue.used_ring, 0, 0);
}

/// The registers of a queue show `queue`: its size, whether it is ready, and the
/// two halves of each of its addresses.
pub open spec fn reads_of(s: StateView, queue: QueueView, width: AccessWidth) -> bool {
    &&& s.register(0x38, width) == queue.size
    &&& s.register(0x44, width) == (if queue.ready {
        1int
    } else {
        0int
    })
    &&& s.register(0x84, width) * 0x1_0000_0000 + s.register(0x80, width) == queue.desc_table
    &&& s.register(0x94, width) * 0x1_0000_0000 + s.register(0x90, width) == queue.avail_ring
    &&& s.register(0xa4, width) * 0x1_0000_0000 + s.register(0xa0, width) == queue.used_ring
}

/// The configuration space is 12 bytes: 80 columns, 24 rows, one port, and zeros.
/// A wider read is made of the bytes from its offset on, the first the least
/// significant; there are no 64-bit reads.
#[verifier::spinoff_prover]
pub proof fn law_config_space_is_bytes(s: StateView, i: int)
    requires
        s.wf(),
        0 <= i < 12,
    ensures
        s.register((0x100 + i) as usize, AccessWidth::Byte) == (if i == 0 {
            80int
        } else if i == 2 {
            24int
        } else if i == 4 {
            1int
        } else {
            0int
        }),
        i <= 10 ==> s.register((0x100 + i) as usize, AccessWidth::Word) == s.register(
            (0x100 + i) as usize,
            AccessWidth::Byte,
        ) + 0x100 * s.register((0x101 + i) as usize, AccessWidth::Byte),
        i <= 8 ==> s.register((0x100 + i) as usize, AccessWidth::Dword) == s.register(
            (0x100 + i) as usize,
            AccessWidth::Word,
        ) + 0x1_0000 * s.register((0x102 + i) as usize, AccessWidth::Word),
        s.register((0x100 + i) as usize, AccessWidth::Qword) == 0,
{
    reveal_with_fuel(crate::state::le_value, 5);
    let bytes = s.config.bytes();
    assert(bytes.subrange(i, i + 1).len() == 1);
    assert(bytes.subrange(i, i).len() == 0);
    if i <= 10 {
        assert(bytes.subrange(i + 1, i + 2).len() == 1);
        let two = bytes.subrange(i, i + 2);
        assert(two.len() == 2);
        assert(two.skip(1)[0] == bytes[i + 1]);
    }
    if i <= 8 {
        let four = bytes.subrange(i, i + 4);
        let upper = bytes.subrange(i + 2, i + 4);
        assert(upper.skip(1)[0] == bytes[i + 3]);
        assert(four.skip(1)[0] == bytes[i + 1]);
        assert(four.skip(1).skip(1)[0] == bytes[i + 2]);
        assert(four.skip(1).skip(1).skip(1)[0] == bytes[i + 3]);
    }
}

/// A read of the configuration space is defined where it does not go past its
/// 12 bytes, and any other read always is.
pub proof fn law_reads_stay_in_the_config_space(offset: int)
    ensures
        crate::state::readable(offset, AccessWidth::Byte),
        crate::state::readable(offset, AccessWidth::Word) <==> offset != 0x10b,
        crate::state::readable(offset, AccessWidth::Dword) <==> !(0x109 <= offset < 0x10c),
        crate::state::readable(offset, AccessWidth::Qword),
{
}

/// A device that no driver has touched has the bit of version one among its
/// features, both queues unconfigured with 256 slots at most, and zero elsewhere.
pub proof fn law_initial_state_is_clear()
    ensures
        ({
            let s = StateView::initial();
            let queue = QueueView {
                idx: 0,
                size: 0,
                max_size: 256,
                ready: false,
                desc_table: 0,
                avail_ring: 0,
                used_ring: 0,
                last_avail_idx: 0,
            };
            &&& s.status == 0 && s.interrupt_status == 0 && s.guest_features == 0
            &&& s.device_features_sel == 0 && s.driver_features_sel == 0 && s.queue_sel == 0
            &&& s.host_features == 0x1_0000_0000
            &&& s.rx_queue == queue
            &&& s.tx_queue == (QueueView { idx: 1, ..queue })
        }),
{
    assert(1u64 << 32 == 0x1_0000_0000u64) by (bit_vector);
}

/// A write outside of the registers of a queue sets one field of the device, and
/// changes nothing else: a selector, one half of the accepted features, the
/// status, or the interrupts that are acknowledged. A status of zero resets it
/// all. Writes elsewhere change nothing.
pub proof fn law_device_registers_are_written(s: StateView, offset: usize, val: u32)
    requires
        s.wf(),
    ensures
        s.after_write(0x14, val) == (StateView { device_features_sel: val, ..s }),
        s.after_write(0x24, val) == (StateView { driver_features_sel: val, ..s }),
        s.after_write(0x30, val) == (StateView { queue_sel: val, ..s }),
        s.driver_features_sel == 0 ==> s.after_write(0x20, val) == (StateView {
            guest_features: (s.guest_features / 0x1_0000_0000 * 0x1_0000_0000 + val) as u64,
            ..s
        }),
        s.driver_features_sel != 0 ==> s.after_write(0x20, val) == (StateView {
            guest_features: (val * 0x1_0000_0000 + s.guest_features % 0x1_0000_0000) as u64,
            ..s
        }),
        s.after_write(0x64, val) == (StateView {
            interrupt_status: s.interrupt_status & !val,
            ..s
        }),
        val != 0 ==> s.after_write(0x70, val) == (StateView { status: val, ..s }),
        s.after_write(0x70, 0) == StateView::initial(),
        s.queue_sel > 1 && offset != 0x14 && offset != 0x20 && offset != 0x24 && offset != 0x30
            && offset != 0x64 && offset != 0x70 ==> s.after_write(offset, val) == s,
        offset != 0x14 && offset != 0x20 && offset != 0x24 && offset != 0x30 && offset != 0x38
            && offset != 0x44 && offset != 0x64 && offset != 0x70 && offset != 0x80 && offset
            != 0x84 && offset != 0x90 && offset != 0x94 && offset != 0xa0 && offset != 0xa4
            ==> s.after_write(offset, val) == s,
        s.with_interrupt() == (StateView { interrupt_status: s.interrupt_status | 1, ..s }),
{
    crate::bits::law_halves_are_places(s.guest_features, val, val);
}

/// While the receive queue is selected, a write to a register of a queue sets one
/// field of that queue, the ready bit or one half of an address, and changes
/// nothing else. A written number of slots counts modulo 2 to the power of 16,
/// and is taken if it is a power of two up to 256.
pub proof fn law_receive_queue_is_configured(s: StateView, val: u32)
    requires
        s.wf(),
        s.queue_sel == 0,
    ensures
        s.after_write(0x44, val) == (StateView {
            rx_queue: QueueView { ready: val == 1, ..s.rx_queue },
            ..s
        }),
        ({
            let size = (val % 0x1_0000) as u16;
            s.after_write(0x38, val) == (StateView {
                rx_queue: if size != 0 && size & ((size - 1) as u16) == 0 && size <= 256 {
                    QueueView { size, ..s.rx_queue }
                } else {
                    s.rx_queue
                },
                ..s
            })
        }),
        s.after_write(0x80, val) == (StateView {
            rx_queue: QueueView {
                desc_table: (s.rx_queue.desc_table / 0x1_0000_0000 * 0x1_0000_0000 + val) as u64,
                ..s.rx_queue
            },
            ..s
        }),
        s.after_write(0x84, val) == (StateView {
            rx_queue: QueueView {
                desc_table: (val * 0x1_0000_0000 + s.rx_queue.desc_table % 0x1_0000_0000) as u64,
                ..s.rx_queue
            },
            ..s
        }),
        s.after_write(0x90, val) == (StateView {
            rx_queue: QueueView {
                avail_ring: (s.rx_queue.avail_ring / 0x1_0000_0000 * 0x1_0000_0000 + val) as u64,
                ..s.rx_queue
            },
            ..s
        }),
        s.after_write(0x94, val) == (StateView {
            rx_queue: QueueView {
                avail_ring: (val * 0x1_0000_0000 + s.rx_queue.avail_ring % 0x1_0000_0000) as u64,
                ..s.rx_queue
            },
            ..s
        }),
        s.after_write(0xa0, val) == (StateView {
            rx_queue: QueueView {
                used_ring: (s.rx_queue.used_ring / 0x1_0000_0000 * 0x1_0000_0000 + val) as u64,
                ..s.rx_queue
            },
            ..s
        }),
        s.after_write(0xa4, val) == (StateView {
            rx_queue: QueueView {
                used_ring: (val * 0x1_0000_0000 + s.rx_queue.used_ring % 0x1_0000_0000) as u64,
                ..s.rx_queue
            },
            ..s
        }),
{
    assert(val as u16 == val % 0x1_0000) by (bit_vector);
    crate::queue_laws::law_sizes_are_chosen(s.rx_queue, (val % 0x1_0000) as u16, 0, 0);
    crate::bits::law_halves_are_places(s.rx_queue.desc_table, val, val);
    crate::bits::law_halves_are_places(s.rx_queue.avail_ring, val, val);
    crate::bits::law_halves_are_places(s.rx_queue.used_ring, val, val);
}

/// While the transmit queue is selected, a write to a register of a queue sets one
/// field of that queue, the ready bit or one half of an address, and changes
/// nothing else. A written number of slots counts modulo 2 to the power of 16,
/// and is taken if it is a power of two up to 256.
pub proof fn law_transmit_queue_is_configured(s: StateView, val: u32)
    requires
        s.wf(),
        s.queue_sel == 1,
    ensures
        s.after_write(0x44, val) == (StateView {
            tx_queue: QueueView { ready: val == 1, ..s.tx_queue },
            ..s
        }),
        ({
            let size = (val % 0x1_0000) as u16;
            s.after_write(0x38, val) == (StateView {
                tx_queue: if size != 0 && size & ((size - 1) as u16) == 0 && size <= 256 {
                    QueueView { size, ..s.tx_queue }
                } else {
                    s.tx_queue
                },
                ..s
            })
        }),
        s.after_write(0x80, val) == (StateView {
            tx_queue: QueueView {
                desc_table: (s.tx_queue.desc_table / 0x1_0000_0000 * 0x1_0000_0000 + val) as u64,
                ..s.tx_queue
            },
            ..s
        }),
        s.after_write(0x84, val) == (StateView {
            tx_queue: QueueView {
                desc_table: (val * 0x1_0000_0000 + s.tx_queue.desc_table % 0x1_0000_0000) as u64,
                ..s.tx_queue
            },
            ..s
        }),
        s.after_write(0x90, val) == (StateView {
            tx_queue: QueueView {
                avail_ring: (s.tx_queue.avail_ring / 0x1_0000_0000 * 0x1_0000_0000 + val) as u64,
                ..s.tx_queue
            },
            ..s
        }),
        s.after_write(0x94, val) == (StateView {
            tx_queue: QueueView {
                avail_ring: (val * 0x1_0000_0000 + s.tx_queue.avail_ring % 0x1_0000_0000) as u64,
                ..s.tx_queue
            },
            ..s
        }),
        s.after_write(0xa0, val) == (StateView {
            tx_queue: QueueView {
                used_ring: (s.tx_queue.used_ring / 0x1_0000_0000 * 0x1_0000_0000 + val) as u64,
                ..s.tx_queue
            },
            ..s
        }),
        s.after_write(0xa4, val) == (StateView {
            tx_queue: QueueView {
                used_ring: (val * 0x1_0000_0000 + s.tx_queue.used_ring % 0x1_0000_0000) as u64,
                ..s.tx_queue
            },
            ..s
        }),
{
    assert(val as u16 == val % 0x1_0000) by (bit_vector);
    crate::queue_laws::law_sizes_are_chosen(s.tx_queue, (val % 0x1_0000) as u16, 0, 0);
    crate::bits::law_halves_are_places(s.tx_queue.desc_table, val, val);
    crate::bits::law_halves_are_places(s.tx_queue.avail_ring, val, val);
    crate::bits::law_halves_are_places(s.tx_queue.used_ring, val, val);
}

/// A write to a register of a queue shows in that register alone: every other
/// register reads as it did, whatever is written and however it is read.
pub proof fn law_queue_writes_show_nowhere_else(
    s: StateView,
    offset: usize,
    other: usize,
    val: u32,
    width: AccessWidth,
)
    requires
        s.wf(),
        offset == 0x38 || offset == 0x44 || offset == 0x80 || offset == 0x84 || offset == 0x90
            || offset == 0x94 || offset == 0xa0 || offset == 0xa4,
        other != offset,
    ensures
        s.after_write(offset, val).register(other, width) == s.register(other, width),
{
    let queue = s.selected()->Some_0;
    crate::bits::law_halves_join(
        crate::bits::high_half(queue.desc_table),
        val,
        queue.desc_table,
    );
    crate::bits::law_halves_join(val, crate::bits::low_half(queue.desc_table), queue.desc_table);
    crate::bits::law_halves_join(
        crate::bits::high_half(queue.avail_ring),
        val,
        queue.avail_ring,
    );
    crate::bits::law_halves_join(val, crate::bits::low_half(queue.avail_ring), queue.avail_ring);
    crate::bits::law_halves_join(crate::bits::high_half(queue.used_ring), val, queue.used_ring);
    crate::bits::law_halves_join(val, crate::bits::low_half(queue.used_ring), queue.used_ring);
}

} // verus!
