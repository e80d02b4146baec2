//! The register file of the console device.
use crate::bits::{high_word, low_word, with_high_word, with_low_word};
use crate::config::{
    VIRTIO_DEVICE_ID_CONSOLE, VIRTIO_F_VERSION_1, VIRTIO_MAGIC, VIRTIO_MMIO_CONFIG,
    VIRTIO_MMIO_CONFIG_GENERATION, VIRTIO_MMIO_DEVICE_FEATURES, VIRTIO_MMIO_DEVICE_FEATURES_SEL,
    VIRTIO_MMIO_DEVICE_ID, VIRTIO_MMIO_DRIVER_FEATURES, VIRTIO_MMIO_DRIVER_FEATURES_SEL,
    VIRTIO_MMIO_INTERRUPT_ACK, VIRTIO_MMIO_INTERRUPT_STATUS, VIRTIO_MMIO_INT_VRING,
    VIRTIO_MMIO_MAGIC_VALUE, VIRTIO_MMIO_QUEUE_AVAIL_HIGH, VIRTIO_MMIO_QUEUE_AVAIL_LOW,
    VIRTIO_MMIO_QUEUE_DESC_HIGH, VIRTIO_MMIO_QUEUE_DESC_LOW, VIRTIO_MMIO_QUEUE_NUM,
    VIRTIO_MMIO_QUEUE_NUM_MAX, VIRTIO_MMIO_QUEUE_READY, VIRTIO_MMIO_QUEUE_SEL,
    VIRTIO_MMIO_QUEUE_USED_HIGH, VIRTIO_MMIO_QUEUE_USED_LOW, VIRTIO_MMIO_STATUS,
    VIRTIO_MMIO_VENDOR_ID, VIRTIO_MMIO_VERSION,
};
use crate::queue::{QueueView, VirtQueue};
use vstd::prelude::*;

verus! {

/// Slots that a queue may have at most.
pub const QUEUE_MAX_SIZE: u16 = 256;

/// The version of the register layout.
pub const MMIO_VERSION: u32 = 2;

/// The vendor that the device reports.
pub const VENDOR_ID: u32 = 0x554d4551;

/// Bytes that the configuration space takes.
pub const CONFIG_SIZE: usize = 12;

/// The width of an access to a register.
#[derive(Debug, Clone, Copy, PartialEq, Eq, Structural)]
pub enum AccessWidth {
    /// 8-bit access.
    Byte,
    /// 16-bit access.
    Word,
    /// 32-bit access.
    Dword,
    /// 64-bit access.
    Qword,
}

/// Virtio Console Configuration Space.
#[derive(Debug, Clone, Copy)]
pub struct ConsoleConfig {
    pub cols: u16,
    pub rows: u16,
    pub max_nr_ports: u32,
    pub emerg_wr: u32,
}

/// The number that `bytes` stand for, the least significant byte first.
pub open spec fn le_value(bytes: Seq<u8>) -> nat
    decreases bytes.len(),
{
    if bytes.len() == 0 {
        0
    } else {
        bytes[0] as nat + 256 * le_value(bytes.skip(1))
    }
}

impl ConsoleConfig {
    /// The settings of a console with 80 columns, 24 rows and one port.
    pub open spec fn standard() -> Self {
        ConsoleConfig { cols: 80, rows: 24, max_nr_ports: 1, emerg_wr: 0 }
    }

    /// The configuration space as bytes: the fields one after the other, each
    /// with its least significant byte first.
    pub open spec fn bytes(self) -> Seq<u8> {
        seq![
            (self.cols % 256) as u8,
            (self.cols / 256) as u8,
            (self.rows % 256) as u8,
            (self.rows / 256) as u8,
            (self.max_nr_ports % 256) as u8,
            (self.max_nr_ports / 256 % 256) as u8,
            (self.max_nr_ports / 65536 % 256) as u8,
            (self.max_nr_ports / 16777216) as u8,
            (self.emerg_wr % 256) as u8,
            (self.emerg_wr / 256 % 256) as u8,
            (self.emerg_wr / 65536 % 256) as u8,
            (self.emerg_wr / 16777216) as u8,
        ]
    }

    fn byte(&self, idx: usize) -> (byte: u8)
        requires
            idx < CONFIG_SIZE,
        ensures
            byte == self.bytes()[idx as int],
    {
        match idx {
            0 => (self.cols % 256) as u8,
            1 => (self.cols / 256) as u8,
            2 => (self.rows % 256) as u8,
            3 => (self.rows / 256) as u8,
            4 => (self.max_nr_ports % 256) as u8,
            5 => (self.max_nr_ports / 256 % 256) as u8,
            6 => (self.max_nr_ports / 65536 % 256) as u8,
            7 => (self.max_nr_ports / 16777216) as u8,
            8 => (self.emerg_wr % 256) as u8,
            9 => (self.emerg_wr / 256 % 256) as u8,
            10 => (self.emerg_wr / 65536 % 256) as u8,
            _ => (self.emerg_wr / 16777216) as u8,
        }
    }

    /// Reads `width` at `idx`. There are no 64-bit reads: they give 0.
    fn read(&self, idx: usize, width: AccessWidth) -> (value: u32)
        requires
            config_access_fits(idx as int, width),
        ensures
            value == config_value(*self, idx as int, width),
    {
        proof {
            reveal_with_fuel(le_value, 5);
        }
        match width {
            AccessWidth::Byte => self.byte(idx) as u32,
            AccessWidth::Word => self.byte(idx) as u32 + 256 * (self.byte(idx + 1) as u32),
            AccessWidth::Dword => self.byte(idx) as u32 + 256 * (self.byte(idx + 1) as u32) + 65536
                * (self.byte(idx + 2) as u32) + 16777216 * (self.byte(idx + 3) as u32),
            AccessWidth::Qword => 0,
        }
    }
}

/// Bytes that a read of the configuration space looks at.
pub open spec fn config_read_len(width: AccessWidth) -> int {
    match width {
        AccessWidth::Byte => 1,
        AccessWidth::Word => 2,
        AccessWidth::Dword => 4,
        AccessWidth::Qword => 0,
    }
}

/// A read at `idx` stays inside the configuration space.
pub open spec fn config_access_fits(idx: int, width: AccessWidth) -> bool {
    0 <= idx < CONFIG_SIZE && idx + config_read_len(width) <= CONFIG_SIZE
}

/// What a read of `width` at `idx` gives.
pub open spec fn config_value(config: ConsoleConfig, idx: int, width: AccessWidth) -> u32 {
    le_value(config.bytes().subrange(idx, idx + config_read_len(width))) as u32
}

/// What the device's registers hold.
pub struct StateView {
    pub status: u32,
    pub interrupt_status: u32,
    pub host_features: u64,
    pub guest_features: u64,
    pub device_features_sel: u32,
    pub driver_features_sel: u32,
    pub queue_sel: u32,
    pub rx_queue: QueueView,
    pub tx_queue: QueueView,
    pub config: ConsoleConfig,
}

impl StateView {
    /// The state of a device that no driver has touched.
    pub open spec fn initial() -> Self {
        StateView {
            status: 0,
            interrupt_status: 0,
            host_features: VIRTIO_F_VERSION_1,
            guest_features: 0,
            device_features_sel: 0,
            driver_features_sel: 0,
            queue_sel: 0,
            rx_queue: QueueView::unconfigured(0, QUEUE_MAX_SIZE),
            tx_queue: QueueView::unconfigured(1, QUEUE_MAX_SIZE),
            config: ConsoleConfig::standard(),
        }
    }

    /// What no driver can change has its initial value, and the queues are
    /// well-formed.
    pub open spec fn wf(self) -> bool {
        &&& self.host_features == Self::initial().host_features
        &&& self.config == Self::initial().config
        &&& self.rx_queue.idx == 0 && self.rx_queue.max_size == QUEUE_MAX_SIZE
        &&& self.tx_queue.idx == 1 && self.tx_queue.max_size == QUEUE_MAX_SIZE
        &&& self.rx_queue.wf()
        &&& self.tx_queue.wf()
    }

    /// The queue that the driver has selected.
    pub open spec fn selected(self) -> Option<QueueView> {
        if self.queue_sel == 0 {
            Some(self.rx_queue)
        } else if self.queue_sel == 1 {
            Some(self.tx_queue)
        } else {
            None
        }
    }

    /// The state with `queue` in place of the selected queue.
    pub open spec fn with_selected(self, queue: QueueView) -> Self {
        if self.queue_sel == 0 {
            StateView { rx_queue: queue, ..self }
        } else if self.queue_sel == 1 {
            StateView { tx_queue: queue, ..self }
        } else {
            self
        }
    }

    /// The state after a chain with data from the driver was handed back.
    pub open spec fn with_interrupt(self) -> Self {
        StateView { interrupt_status: self.interrupt_status | VIRTIO_MMIO_INT_VRING, ..self }
    }

    /// What the driver reads at `offset`. A register that belongs to a queue
    /// reads 0 when no queue is selected, and so does one that does not exist.
    pub open spec fn register(self, offset: usize, width: AccessWidth) -> u32 {
        if offset == VIRTIO_MMIO_MAGIC_VALUE {
            VIRTIO_MAGIC
        } else if offset == VIRTIO_MMIO_VERSION {
            MMIO_VERSION
        } else if offset == VIRTIO_MMIO_DEVICE_ID {
            VIRTIO_DEVICE_ID_CONSOLE
        } else if offset == VIRTIO_MMIO_VENDOR_ID {
            VENDOR_ID
        } else if offset == VIRTIO_MMIO_DEVICE_FEATURES {
            if self.device_features_sel == 0 {
                crate::bits::low_half(self.host_features)
            } else {
                crate::bits::high_half(self.host_features)
            }
        } else if offset == VIRTIO_MMIO_QUEUE_NUM_MAX {
            QUEUE_MAX_SIZE as u32
        } else if offset == VIRTIO_MMIO_INTERRUPT_STATUS {
            self.interrupt_status
        } else if offset == VIRTIO_MMIO_STATUS {
            self.status
        } else if VIRTIO_MMIO_CONFIG <= offset < VIRTIO_MMIO_CONFIG + CONFIG_SIZE {
            config_value(self.config, offset - VIRTIO_MMIO_CONFIG, width)
        } else {
            match self.selected() {
                Some(queue) => queue_register(queue, offset),
                None => 0,
            }
        }
    }

    /// The state after the driver writes `val` at `offset`. A write to a
    /// register that belongs to a queue changes nothing when no queue is
    /// selected, and neither does one to a register that cannot be written.
    pub open spec fn after_write(self, offset: usize, val: u32) -> Self {
        if offset == VIRTIO_MMIO_DEVICE_FEATURES_SEL {
            StateView { device_features_sel: val, ..self }
        } else if offset == VIRTIO_MMIO_DRIVER_FEATURES {
            StateView {
                guest_features: if self.driver_features_sel == 0 {
                    crate::bits::join_halves(crate::bits::high_half(self.guest_features), val)
                } else {
                    crate::bits::join_halves(val, crate::bits::low_half(self.guest_features))
                },
                ..self
            }
        } else if offset == VIRTIO_MMIO_DRIVER_FEATURES_SEL {
            StateView { driver_features_sel: val, ..self }
        } else if offset == VIRTIO_MMIO_QUEUE_SEL {
            StateView { queue_sel: val, ..self }
        } else if offset == VIRTIO_MMIO_STATUS {
            if val == 0 {
                self.after_reset()
            } else {
                StateView { status: val, ..self }
            }
        } else if offset == VIRTIO_MMIO_INTERRUPT_ACK {
            StateView { interrupt_status: self.interrupt_status & !val, ..self }
        } else {
            match self.selected() {
                Some(queue) => self.with_selected(queue_after_write(queue, offset, val)),
                None => self,
            }
        }
    }

    /// The state after a reset: only what no driver can change is kept.
    pub open spec fn after_reset(self) -> Self {
        StateView {
            host_features: self.host_features,
            rx_queue: QueueView::unconfigured(self.rx_queue.idx, self.rx_queue.max_size),
            tx_queue: QueueView::unconfigured(self.tx_queue.idx, self.tx_queue.max_size),
            config: self.config,
            ..Self::initial()
        }
    }
}

/// What the driver reads at `offset` while `queue` is selected, if the register
/// there belongs to a queue, and 0 otherwise.
pub open spec fn queue_register(queue: QueueView, offset: usize) -> u32 {
    if offset == VIRTIO_MMIO_QUEUE_READY {
        if queue.ready {
            1
        } else {
            0
        }
    } else if offset == VIRTIO_MMIO_QUEUE_NUM {
        queue.size as u32
    } else if offset == VIRTIO_MMIO_QUEUE_DESC_LOW {
        crate::bits::low_half(queue.desc_table)
    } else if offset == VIRTIO_MMIO_QUEUE_DESC_HIGH {
        crate::bits::high_half(queue.desc_table)
    } else if offset == VIRTIO_MMIO_QUEUE_AVAIL_LOW {
        crate::bits::low_half(queue.avail_ring)
    } else if offset == VIRTIO_MMIO_QUEUE_AVAIL_HIGH {
        crate::bits::high_half(queue.avail_ring)
    } else if offset == VIRTIO_MMIO_QUEUE_USED_LOW {
        crate::bits::low_half(queue.used_ring)
    } else if offset == VIRTIO_MMIO_QUEUE_USED_HIGH {
        crate::bits::high_half(queue.used_ring)
    } else {
        0
    }
}

/// `queue` after the driver writes `val` at `offset` while it is selected.
pub open spec fn queue_after_write(queue: QueueView, offset: usize, val: u32) -> QueueView {
    if offset == VIRTIO_MMIO_QUEUE_NUM {
        queue.with_size(val as u16)
    } else if offset == VIRTIO_MMIO_QUEUE_READY {
        QueueView { ready: val == 1, ..queue }
    } else if offset == VIRTIO_MMIO_QUEUE_DESC_LOW {
        QueueView { desc_table: with_low(queue.desc_table, val), ..queue }
    } else if offset == VIRTIO_MMIO_QUEUE_DESC_HIGH {
        QueueView { desc_table: with_high(queue.desc_table, val), ..queue }
    } else if offset == VIRTIO_MMIO_QUEUE_AVAIL_LOW {
        QueueView { avail_ring: with_low(queue.avail_ring, val), ..queue }
    } else if offset == VIRTIO_MMIO_QUEUE_AVAIL_HIGH {
        QueueView { avail_ring: with_high(queue.avail_ring, val), ..queue }
    } else if offset == VIRTIO_MMIO_QUEUE_USED_LOW {
        QueueView { used_ring: with_low(queue.used_ring, val), ..queue }
    } else if offset == VIRTIO_MMIO_QUEUE_USED_HIGH {
        QueueView { used_ring: with_high(queue.used_ring, val), ..queue }
    } else {
        queue
    }
}

/// `value` with its lower half replaced.
pub open spec fn with_low(value: u64, low: u32) -> u64 {
    crate::bits::join_halves(crate::bits::high_half(value), low)
}

/// `value` with its upper half replaced.
pub open spec fn with_high(value: u64, high: u32) -> u64 {
    crate::bits::join_halves(high, crate::bits::low_half(value))
}

/// A read at `offset` gives a defined value: it does not cross the end of the
/// configuration space.
pub open spec fn readable(offset: int, width: AccessWidth) -> bool {
    VIRTIO_MMIO_CONFIG <= offset < VIRTIO_MMIO_CONFIG + CONFIG_SIZE ==> config_access_fits(
        offset - VIRTIO_MMIO_CONFIG,
        width,
    )
}

/// Internal state of the Virtio Console device.
#[derive(Debug)]
pub struct VirtioConsoleState {
    status: u32,
    interrupt_status: u32,
    host_features: u64,
    guest_features: u64,
    device_features_sel: u32,
    driver_features_sel: u32,
    queue_sel: u32,
    /// Queue 0: buffers for the device to fill.
    rx_queue: VirtQueue,
    /// Queue 1: data from the driver.
    tx_queue: VirtQueue,
    config: ConsoleConfig,
}

impl View for VirtioConsoleState {
    type V = StateView;

    closed spec fn view(&self) -> StateView {
        StateView {
            status: self.status,
            interrupt_status: self.interrupt_status,
            host_features: self.host_features,
            guest_features: self.guest_features,
            device_features_sel: self.device_features_sel,
            driver_features_sel: self.driver_features_sel,
            queue_sel: self.queue_sel,
            rx_queue: self.rx_queue@,
            tx_queue: self.tx_queue@,
            config: self.config,
        }
    }
}

impl VirtioConsoleState {
    /// Initializes the internal state with default values.
    pub fn new() -> (state: Self)
        ensures
            state@ == StateView::initial(),
    {
        Self {
            status: 0,
            interrupt_status: 0,
            host_features: VIRTIO_F_VERSION_1,
            guest_features: 0,
            device_features_sel: 0,
            driver_features_sel: 0,
            queue_sel: 0,
            rx_queue: VirtQueue::new(0, QUEUE_MAX_SIZE),
            tx_queue: VirtQueue::new(1, QUEUE_MAX_SIZE),
            config: ConsoleConfig { cols: 80, rows: 24, max_nr_ports: 1, emerg_wr: 0 },
        }
    }

    /// Returns a mutable reference to the currently selected queue.
    fn current_queue_mut(&mut self) -> (queue: Option<&mut VirtQueue>)
        ensures
            match queue {
                Some(q) => {
                    &&& old(self)@.selected() == Some(q@)
                    &&& final(self)@ == old(self)@.with_selected(final(q)@)
                },
                None => {
                    &&& old(self)@.selected() is None
                    &&& final(self)@ == old(self)@
                },
            },
    {
        match self.queue_sel {
            0 => Some(&mut self.rx_queue),
            1 => Some(&mut self.tx_queue),
            _ => None,
        }
    }

    /// Returns a reference to the currently selected queue.
    fn current_queue(&self) -> (queue: Option<&VirtQueue>)
        ensures
            match queue {
                Some(q) => self@.selected() == Some(q@),
                None => self@.selected() is None,
            },
    {
        match self.queue_sel {
            0 => Some(&self.rx_queue),
            1 => Some(&self.tx_queue),
            _ => None,
        }
    }

    /// The receive queue.
    pub(crate) fn rx_queue_mut(&mut self) -> (queue: &mut VirtQueue)
        ensures
            queue@ == old(self)@.rx_queue,
            final(self)@ == (StateView { rx_queue: final(queue)@, ..old(self)@ }),
    {
        &mut self.rx_queue
    }

    /// The receive queue.
    pub fn rx_queue(&self) -> (queue: &VirtQueue)
        ensures
            queue@ == self@.rx_queue,
    {
        &self.rx_queue
    }

    /// The transmit queue.
    pub(crate) fn tx_queue_mut(&mut self) -> (queue: &mut VirtQueue)
        ensures
            queue@ == old(self)@.tx_queue,
            final(self)@ == (StateView { tx_queue: final(queue)@, ..old(self)@ }),
    {
        &mut self.tx_queue
    }

    /// The transmit queue.
    pub fn tx_queue(&self) -> (queue: &VirtQueue)
        ensures
            queue@ == self@.tx_queue,
    {
        &self.tx_queue
    }

    /// Notes that a queue has used buffers.
    pub(crate) fn raise_vring_interrupt(&mut self)
        ensures
            final(self)@ == old(self)@.with_interrupt(),
    {
        self.interrupt_status |= VIRTIO_MMIO_INT_VRING;
    }

    /// Resets the device state to initial values.
    pub fn reset(&mut self)
        ensures
            final(self)@ == old(self)@.after_reset(),
    {
        self.status = 0;
        self.interrupt_status = 0;
        self.guest_features = 0;
        self.device_features_sel = 0;
        self.driver_features_sel = 0;
        self.queue_sel = 0;
        self.rx_queue.reset();
        self.tx_queue.reset();
    }

    /// Reads the register at `offset`.
    pub fn read_register(&self, offset: usize, width: AccessWidth) -> (value: u32)
        requires
            readable(offset as int, width),
        ensures
            value == self@.register(offset, width),
    {
        match offset {
            // Constant registers
            VIRTIO_MMIO_MAGIC_VALUE => VIRTIO_MAGIC,
            VIRTIO_MMIO_VERSION => MMIO_VERSION,
            VIRTIO_MMIO_DEVICE_ID => VIRTIO_DEVICE_ID_CONSOLE,
            VIRTIO_MMIO_VENDOR_ID => VENDOR_ID,
            VIRTIO_MMIO_CONFIG_GENERATION => 0,
            // Feature bits
            VIRTIO_MMIO_DEVICE_FEATURES => {
                if self.device_features_sel == 0 {
                    low_word(self.host_features)
                } else {
                    high_word(self.host_features)
                }
            },
            // Status registers
            VIRTIO_MMIO_INTERRUPT_STATUS => self.interrupt_status,
            VIRTIO_MMIO_STATUS => self.status,
            // Queue configuration
            VIRTIO_MMIO_QUEUE_NUM_MAX => QUEUE_MAX_SIZE as u32,
            _ => {
                if offset >= VIRTIO_MMIO_CONFIG && offset < VIRTIO_MMIO_CONFIG + CONFIG_SIZE {
                    return self.config.read(offset - VIRTIO_MMIO_CONFIG, width);
                }
                match self.current_queue() {
                    Some(queue) => Self::read_queue_register(queue, offset),
                    None => 0,
                }
            },
        }
    }

    fn read_queue_register(queue: &VirtQueue, offset: usize) -> (value: u32)
        ensures
            value == queue_register(queue@, offset),
    {
        match offset {
            VIRTIO_MMIO_QUEUE_READY => {
                if queue.is_ready() {
                    1
                } else {
                    0
                }
            },
            VIRTIO_MMIO_QUEUE_NUM => queue.size() as u32,
            VIRTIO_MMIO_QUEUE_DESC_LOW => low_word(queue.desc_table_addr()),
            VIRTIO_MMIO_QUEUE_DESC_HIGH => high_word(queue.desc_table_addr()),
            VIRTIO_MMIO_QUEUE_AVAIL_LOW => low_word(queue.avail_ring_addr()),
            VIRTIO_MMIO_QUEUE_AVAIL_HIGH => high_word(queue.avail_ring_addr()),
            VIRTIO_MMIO_QUEUE_USED_LOW => low_word(queue.used_ring_addr()),
            VIRTIO_MMIO_QUEUE_USED_HIGH => high_word(queue.used_ring_addr()),
            _ => 0,
        }
    }

    /// Writes `val` to the register at `offset`.
    pub fn write_register(&mut self, offset: usize, val: u32)
        ensures
            final(self)@ == old(self)@.after_write(offset, val),
    {
        match offset {
            VIRTIO_MMIO_DEVICE_FEATURES_SEL => {
                self.device_features_sel = val;
            },
            VIRTIO_MMIO_DRIVER_FEATURES => {
                self.guest_features =
                if self.driver_features_sel == 0 {
                    with_low_word(self.guest_features, val)
                } else {
                    with_high_word(self.guest_features, val)
                };
            },
            VIRTIO_MMIO_DRIVER_FEATURES_SEL => {
                self.driver_features_sel = val;
            },
            VIRTIO_MMIO_QUEUE_SEL => {
                self.queue_sel = val;
            },
            VIRTIO_MMIO_STATUS => {
                self.status = val;
                if val == 0 {
                    self.reset();
                }
            },
            VIRTIO_MMIO_INTERRUPT_ACK => {
                self.interrupt_status &= !val;
            },
            _ => {
                if let Some(queue) = self.current_queue_mut() {
                    Self::write_queue_register(queue, offset, val);
                }
            },
        }
    }

    fn write_queue_register(queue: &mut VirtQueue, offset: usize, val: u32)
        ensures
            final(queue)@ == queue_after_write(old(queue)@, offset, val),
    {
        match offset {
            VIRTIO_MMIO_QUEUE_NUM => queue.set_size(val as u16),
            VIRTIO_MMIO_QUEUE_READY => queue.set_ready(val == 1),
            VIRTIO_MMIO_QUEUE_DESC_LOW => {
                queue.set_desc_addr(with_low_word(queue.desc_table_addr(), val))
            },
            VIRTIO_MMIO_QUEUE_DESC_HIGH => {
                queue.set_desc_addr(with_high_word(queue.desc_table_addr(), val))
            },
            VIRTIO_MMIO_QUEUE_AVAIL_LOW => {
                queue.set_avail_addr(with_low_word(queue.avail_ring_addr(), val))
            },
            VIRTIO_MMIO_QUEUE_AVAIL_HIGH => {
                queue.set_avail_addr(with_high_word(queue.avail_ring_addr(), val))
            },
            VIRTIO_MMIO_QUEUE_USED_LOW => {
                queue.set_used_addr(with_low_word(queue.used_ring_addr(), val))
            },
            VIRTIO_MMIO_QUEUE_USED_HIGH => {
                queue.set_used_addr(with_high_word(queue.used_ring_addr(), val))
            },
            _ => {},
        }
    }
}

} // verus!
