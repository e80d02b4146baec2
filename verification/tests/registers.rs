use virtio_console::config::{
    VIRTIO_DEVICE_ID_CONSOLE, VIRTIO_MAGIC, VIRTIO_MMIO_CONFIG, VIRTIO_MMIO_CONFIG_GENERATION,
    VIRTIO_MMIO_DEVICE_FEATURES, VIRTIO_MMIO_DEVICE_FEATURES_SEL, VIRTIO_MMIO_DEVICE_ID,
    VIRTIO_MMIO_DRIVER_FEATURES, VIRTIO_MMIO_INTERRUPT_ACK, VIRTIO_MMIO_INTERRUPT_STATUS,
    VIRTIO_MMIO_MAGIC_VALUE, VIRTIO_MMIO_QUEUE_AVAIL_HIGH, VIRTIO_MMIO_QUEUE_AVAIL_LOW,
    VIRTIO_MMIO_QUEUE_DESC_HIGH, VIRTIO_MMIO_QUEUE_DESC_LOW, VIRTIO_MMIO_QUEUE_NOTIFY,
    VIRTIO_MMIO_QUEUE_NUM, VIRTIO_MMIO_QUEUE_NUM_MAX, VIRTIO_MMIO_QUEUE_READY,
    VIRTIO_MMIO_QUEUE_SEL, VIRTIO_MMIO_QUEUE_USED_HIGH, VIRTIO_MMIO_QUEUE_USED_LOW,
    VIRTIO_MMIO_STATUS, VIRTIO_MMIO_VENDOR_ID, VIRTIO_MMIO_VERSION,
};
use virtio_console::console::VirtioConsole;
use virtio_console::request::Step;
use virtio_console::state::AccessWidth;

const BASE: usize = 0x0a00_0000;

fn device() -> VirtioConsole {
    VirtioConsole::new(BASE, 0x200, 33)
}

fn read(c: &VirtioConsole, offset: usize) -> usize {
    c.handle_read(BASE + offset, AccessWidth::Dword)
}

fn write(c: &mut VirtioConsole, offset: usize, val: usize) {
    c.handle_write(BASE + offset, AccessWidth::Dword, val);
}

#[test]
fn constant_registers() {
    let c = device();
    assert_eq!(read(&c, VIRTIO_MMIO_MAGIC_VALUE), VIRTIO_MAGIC as usize);
    assert_eq!(VIRTIO_MAGIC, 0x74726976);
    assert_eq!(read(&c, VIRTIO_MMIO_VERSION), 2);
    assert_eq!(read(&c, VIRTIO_MMIO_DEVICE_ID), VIRTIO_DEVICE_ID_CONSOLE as usize);
    assert_eq!(VIRTIO_DEVICE_ID_CONSOLE, 3);
    assert_eq!(read(&c, VIRTIO_MMIO_VENDOR_ID), 0x554d4551);
    assert_eq!(read(&c, VIRTIO_MMIO_CONFIG_GENERATION), 0);
    assert_eq!(read(&c, VIRTIO_MMIO_QUEUE_NUM_MAX), 256);
}

#[test]
fn address_range_is_base_and_length() {
    assert_eq!(device().address_range(), (BASE, BASE + 0x200));
}

#[test]
fn constant_registers_cannot_be_written() {
    let mut c = device();
    for offset in [
        VIRTIO_MMIO_MAGIC_VALUE,
        VIRTIO_MMIO_VERSION,
        VIRTIO_MMIO_DEVICE_ID,
        VIRTIO_MMIO_VENDOR_ID,
        VIRTIO_MMIO_QUEUE_NUM_MAX,
        VIRTIO_MMIO_INTERRUPT_STATUS,
        0x1f0,
    ] {
        let before = read(&c, offset);
        write(&mut c, offset, 0x1234_5678);
        assert_eq!(read(&c, offset), before);
    }
}

#[test]
fn device_features_by_halves() {
    let mut c = device();
    assert_eq!(read(&c, VIRTIO_MMIO_DEVICE_FEATURES), 0);
    write(&mut c, VIRTIO_MMIO_DEVICE_FEATURES_SEL, 1);
    assert_eq!(read(&c, VIRTIO_MMIO_DEVICE_FEATURES), 1);
    write(&mut c, VIRTIO_MMIO_DEVICE_FEATURES_SEL, 7);
    assert_eq!(read(&c, VIRTIO_MMIO_DEVICE_FEATURES), 1);
    write(&mut c, VIRTIO_MMIO_DRIVER_FEATURES, 0xFFFF_FFFF);
    assert_eq!(read(&c, VIRTIO_MMIO_DRIVER_FEATURES), 0);
}

#[test]
fn queue_addresses_read_back_by_halves() {
    let mut c = device();
    write(&mut c, VIRTIO_MMIO_QUEUE_SEL, 1);
    for (low, high) in [
        (VIRTIO_MMIO_QUEUE_DESC_LOW, VIRTIO_MMIO_QUEUE_DESC_HIGH),
        (VIRTIO_MMIO_QUEUE_AVAIL_LOW, VIRTIO_MMIO_QUEUE_AVAIL_HIGH),
        (VIRTIO_MMIO_QUEUE_USED_LOW, VIRTIO_MMIO_QUEUE_USED_HIGH),
    ] {
        write(&mut c, low, 0x8000_1000 + low);
        write(&mut c, high, 0x1_0000_0002 + high);
        assert_eq!(read(&c, low), 0x8000_1000 + low);
        assert_eq!(read(&c, high), 2 + high);
    }
    assert_eq!(read(&c, VIRTIO_MMIO_QUEUE_DESC_LOW), 0x8000_1000 + VIRTIO_MMIO_QUEUE_DESC_LOW);
    write(&mut c, VIRTIO_MMIO_QUEUE_SEL, 0);
    assert_eq!(read(&c, VIRTIO_MMIO_QUEUE_DESC_LOW), 0);
    assert_eq!(read(&c, VIRTIO_MMIO_QUEUE_USED_HIGH), 0);
}

#[test]
fn queue_size_and_ready() {
    let mut c = device();
    write(&mut c, VIRTIO_MMIO_QUEUE_NUM, 64);
    assert_eq!(read(&c, VIRTIO_MMIO_QUEUE_NUM), 64);
    for bad in [0, 3, 100, 512] {
        write(&mut c, VIRTIO_MMIO_QUEUE_NUM, bad);
        assert_eq!(read(&c, VIRTIO_MMIO_QUEUE_NUM), 64);
    }
    // Only the lower 16 bits count.
    write(&mut c, VIRTIO_MMIO_QUEUE_NUM, 0x7_0010);
    assert_eq!(read(&c, VIRTIO_MMIO_QUEUE_NUM), 16);
    write(&mut c, VIRTIO_MMIO_QUEUE_READY, 1);
    assert_eq!(read(&c, VIRTIO_MMIO_QUEUE_READY), 1);
    write(&mut c, VIRTIO_MMIO_QUEUE_READY, 2);
    assert_eq!(read(&c, VIRTIO_MMIO_QUEUE_READY), 0);
}

#[test]
fn a_missing_queue_has_no_registers() {
    let mut c = device();
    write(&mut c, VIRTIO_MMIO_QUEUE_NUM, 8);
    write(&mut c, VIRTIO_MMIO_QUEUE_SEL, 2);
    write(&mut c, VIRTIO_MMIO_QUEUE_NUM, 16);
    write(&mut c, VIRTIO_MMIO_QUEUE_READY, 1);
    write(&mut c, VIRTIO_MMIO_QUEUE_DESC_LOW, 0x1000);
    assert_eq!(read(&c, VIRTIO_MMIO_QUEUE_NUM), 0);
    assert_eq!(read(&c, VIRTIO_MMIO_QUEUE_READY), 0);
    assert_eq!(read(&c, VIRTIO_MMIO_QUEUE_DESC_LOW), 0);
    write(&mut c, VIRTIO_MMIO_QUEUE_SEL, 0);
    assert_eq!(read(&c, VIRTIO_MMIO_QUEUE_NUM), 8);
    assert_eq!(read(&c, VIRTIO_MMIO_QUEUE_READY), 0);
    write(&mut c, VIRTIO_MMIO_QUEUE_SEL, 1);
    assert_eq!(read(&c, VIRTIO_MMIO_QUEUE_NUM), 0);
}

#[test]
fn status_reads_back_and_zero_resets() {
    let mut c = device();
    write(&mut c, VIRTIO_MMIO_STATUS, 0x8F);
    assert_eq!(read(&c, VIRTIO_MMIO_STATUS), 0x8F);
    write(&mut c, VIRTIO_MMIO_DEVICE_FEATURES_SEL, 1);
    write(&mut c, VIRTIO_MMIO_QUEUE_SEL, 1);
    write(&mut c, VIRTIO_MMIO_QUEUE_NUM, 128);
    write(&mut c, VIRTIO_MMIO_QUEUE_AVAIL_LOW, 0x2000);
    write(&mut c, VIRTIO_MMIO_QUEUE_READY, 1);
    write(&mut c, VIRTIO_MMIO_STATUS, 0);
    assert_eq!(read(&c, VIRTIO_MMIO_STATUS), 0);
    // The low half of the features shows again, and queue 0 is selected.
    assert_eq!(read(&c, VIRTIO_MMIO_DEVICE_FEATURES), 0);
    write(&mut c, VIRTIO_MMIO_QUEUE_SEL, 1);
    assert_eq!(read(&c, VIRTIO_MMIO_QUEUE_NUM), 0);
    assert_eq!(read(&c, VIRTIO_MMIO_QUEUE_AVAIL_LOW), 0);
    assert_eq!(read(&c, VIRTIO_MMIO_QUEUE_READY), 0);
}

#[test]
fn acknowledging_nothing_is_harmless() {
    let mut c = device();
    write(&mut c, VIRTIO_MMIO_INTERRUPT_ACK, 0xFFFF_FFFF);
    assert_eq!(read(&c, VIRTIO_MMIO_INTERRUPT_STATUS), 0);
}

#[test]
fn configuration_space() {
    let c = device();
    let at = BASE + VIRTIO_MMIO_CONFIG;
    assert_eq!(c.handle_read(at, AccessWidth::Word), 80);
    assert_eq!(c.handle_read(at + 2, AccessWidth::Word), 24);
    assert_eq!(c.handle_read(at, AccessWidth::Dword), 80 + 24 * 65536);
    assert_eq!(c.handle_read(at + 4, AccessWidth::Dword), 1);
    assert_eq!(c.handle_read(at + 8, AccessWidth::Dword), 0);
    assert_eq!(c.handle_read(at, AccessWidth::Byte), 80);
    assert_eq!(c.handle_read(at + 1, AccessWidth::Byte), 0);
    assert_eq!(c.handle_read(at + 2, AccessWidth::Byte), 24);
    assert_eq!(c.handle_read(at + 11, AccessWidth::Byte), 0);
    assert_eq!(c.handle_read(at, AccessWidth::Qword), 0);
    // Past its end there are no registers.
    assert_eq!(c.handle_read(at + 12, AccessWidth::Dword), 0);
}

#[test]
fn reads_must_stay_inside_the_configuration_space() {
    let c = device();
    let at = BASE + VIRTIO_MMIO_CONFIG;
    assert!(c.can_read(at + 8, AccessWidth::Dword));
    assert!(!c.can_read(at + 9, AccessWidth::Dword));
    assert!(c.can_read(at + 10, AccessWidth::Word));
    assert!(!c.can_read(at + 11, AccessWidth::Word));
    assert!(c.can_read(at + 11, AccessWidth::Byte));
    assert!(c.can_read(at + 11, AccessWidth::Qword));
    assert!(c.can_read(at + 12, AccessWidth::Dword));
    assert!(!c.can_read(BASE - 1, AccessWidth::Byte));
}

#[test]
fn notification_without_connections_ends_at_once() {
    let mut c = device();
    for queue in 0..4 {
        write(&mut c, VIRTIO_MMIO_QUEUE_NOTIFY, queue);
        assert!(matches!(c.step(), Step::Idle));
    }
}
