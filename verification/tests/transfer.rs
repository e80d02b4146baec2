use std::collections::HashMap;
use virtio_console::config::{
    VIRTIO_MMIO_INTERRUPT_ACK, VIRTIO_MMIO_INTERRUPT_STATUS, VIRTIO_MMIO_QUEUE_AVAIL_LOW,
    VIRTIO_MMIO_QUEUE_DESC_HIGH, VIRTIO_MMIO_QUEUE_DESC_LOW, VIRTIO_MMIO_QUEUE_NOTIFY,
    VIRTIO_MMIO_QUEUE_NUM, VIRTIO_MMIO_QUEUE_READY, VIRTIO_MMIO_QUEUE_SEL,
    VIRTIO_MMIO_QUEUE_USED_LOW,
};
use virtio_console::console::VirtioConsole;
use virtio_console::queue::{VirtqDesc, VRING_DESC_F_NEXT, VRING_DESC_F_WRITE};
use virtio_console::request::{Fault, Reply, Request, Step};
use virtio_console::state::AccessWidth;

const BASE: usize = 0x0a00_0000;

const DESC: u64 = 0x1000;
const AVAIL: u64 = 0x2000;
const USED: u64 = 0x3000;

/// Guest memory starts here in host physical memory, and host physical memory
/// starts at `LINEAR` in host virtual memory.
const PHYS: u64 = 0x4000_0000;
const LINEAR: u64 = 0xFFFF_0000_0000;

const RING: u64 = 0x9_0000;
const CAPACITY: u64 = 4080;

/// A host with memory of its own. Pages of the guest are 4096 bytes.
struct Host {
    ram: HashMap<u64, u8>,
    unmapped: Vec<u64>,
    limit: Option<u64>,
    log: Vec<Request>,
}

impl Host {
    fn new() -> Host {
        Host { ram: HashMap::new(), unmapped: Vec::new(), limit: None, log: Vec::new() }
    }

    fn load(&self, at: u64, n: u64) -> u64 {
        let mut value = 0;
        for i in (0..n).rev() {
            value = value * 256 + *self.ram.get(&(at + i)).unwrap_or(&0) as u64;
        }
        value
    }

    fn store(&mut self, at: u64, n: u64, value: u64) {
        for i in 0..n {
            self.ram.insert(at + i, (value >> (8 * i)) as u8);
        }
    }

    fn translate(&self, gpa: u64) -> Option<(u64, u64)> {
        if self.unmapped.contains(&(gpa & !0xfff)) {
            None
        } else {
            Some((PHYS + gpa, self.limit.unwrap_or(0x1000 - gpa % 0x1000)))
        }
    }

    fn serve(&mut self, request: Request) -> Reply {
        self.log.push(request);
        match request {
            Request::Locate { gpa } => {
                Reply::Located(self.translate(gpa).map(|(hpa, _)| hpa + LINEAR))
            }
            Request::Translate { gpa } => Reply::Translated(self.translate(gpa)),
            Request::ReadHalf { hva } => Reply::Half(self.load(hva, 2) as u16),
            Request::ReadDescriptor { hva } => Reply::Descriptor(VirtqDesc {
                addr: self.load(hva, 8),
                len: self.load(hva + 8, 4) as u32,
                flags: self.load(hva + 12, 2) as u16,
                next: self.load(hva + 14, 2) as u16,
            }),
            Request::ReadBytes { hva, len } => {
                Reply::Bytes((0..len).map(|i| self.load(hva + i, 1) as u8).collect())
            }
            Request::LoadWriteThenRead { hva } | Request::LoadReadThenWrite { hva } => {
                Reply::Indices { write_idx: self.load(hva, 8), read_idx: self.load(hva + 8, 8) }
            }
            Request::WriteByte { hva, value } => {
                self.store(hva, 1, value as u64);
                Reply::Done
            }
            Request::CopyByte { from, to } => {
                let byte = self.load(from, 1);
                self.store(to, 1, byte);
                Reply::Done
            }
            Request::StoreIndex { hva, index } => {
                self.store(hva, 8, index);
                Reply::Done
            }
            Request::Publish(u) => {
                self.store(u.elem_hva, 4, u.elem.id as u64);
                self.store(u.elem_hva + 4, 4, u.elem.len as u64);
                self.store(u.idx_hva, 2, u.idx as u64);
                Reply::Done
            }
        }
    }

    /// Answers the console until it has no more requests.
    fn run(&mut self, c: &mut VirtioConsole) -> Step {
        loop {
            match c.step() {
                Step::Ask(request) => {
                    let reply = self.serve(request);
                    c.resume(reply);
                }
                step => return step,
            }
        }
    }

    // What the guest does. Queue structures are reached at their virtual
    // address, data buffers at their physical one.

    fn set_desc(&mut self, idx: u64, addr: u64, len: u32, flags: u16, next: u16) {
        let at = LINEAR + PHYS + DESC + 16 * idx;
        self.store(at, 8, addr);
        self.store(at + 8, 4, len as u64);
        self.store(at + 12, 2, flags as u64);
        self.store(at + 14, 2, next as u64);
    }

    /// Puts `heads` into the available ring of a queue with eight slots.
    fn offer(&mut self, heads: &[u16]) {
        let ring = LINEAR + PHYS + AVAIL;
        let mut idx = self.load(ring + 2, 2);
        for head in heads {
            self.store(ring + 4 + 2 * (idx % 8), 2, *head as u64);
            idx = (idx + 1) % 0x1_0000;
        }
        self.store(ring + 2, 2, idx);
    }

    fn used_idx(&self) -> u64 {
        self.load(LINEAR + PHYS + USED + 2, 2)
    }

    /// The used element number `n`, as id and length.
    fn used(&self, n: u64) -> (u64, u64) {
        let at = LINEAR + PHYS + USED + 4 + 8 * (n % 8);
        (self.load(at, 4), self.load(at + 4, 4))
    }

    fn put(&mut self, gpa: u64, bytes: &[u8]) {
        for (i, b) in bytes.iter().enumerate() {
            self.store(PHYS + gpa + i as u64, 1, *b as u64);
        }
    }

    fn get(&self, gpa: u64, len: u64) -> Vec<u8> {
        (0..len).map(|i| self.load(PHYS + gpa + i, 1) as u8).collect()
    }

    // The shared rings.

    fn set_ring(&mut self, base: u64, write_idx: u64, read_idx: u64) {
        self.store(base, 8, write_idx);
        self.store(base + 8, 8, read_idx);
    }

    fn fill_ring(&mut self, base: u64, bytes: &[u8]) {
        let mut w = self.load(base, 8);
        for b in bytes {
            self.store(base + 16 + w % CAPACITY, 1, *b as u64);
            w += 1;
        }
        self.store(base, 8, w);
    }

    fn ring(&self, base: u64) -> Vec<u8> {
        let w = self.load(base, 8);
        let r = self.load(base + 8, 8);
        (r..w).map(|i| self.load(base + 16 + i % CAPACITY, 1) as u8).collect()
    }
}

fn write(c: &mut VirtioConsole, offset: usize, val: usize) {
    c.handle_write(BASE + offset, AccessWidth::Dword, val);
}

fn interrupts(c: &VirtioConsole) -> usize {
    c.handle_read(BASE + VIRTIO_MMIO_INTERRUPT_STATUS, AccessWidth::Dword)
}

/// A console whose queue `queue` has eight slots and is ready.
fn console_with_queue(queue: usize) -> VirtioConsole {
    let mut c = VirtioConsole::new(BASE, 0x200, 33);
    write(&mut c, VIRTIO_MMIO_QUEUE_SEL, queue);
    write(&mut c, VIRTIO_MMIO_QUEUE_NUM, 8);
    write(&mut c, VIRTIO_MMIO_QUEUE_DESC_LOW, DESC as usize);
    write(&mut c, VIRTIO_MMIO_QUEUE_AVAIL_LOW, AVAIL as usize);
    write(&mut c, VIRTIO_MMIO_QUEUE_USED_LOW, USED as usize);
    write(&mut c, VIRTIO_MMIO_QUEUE_READY, 1);
    c
}

fn notify(c: &mut VirtioConsole, host: &mut Host, queue: usize) -> Step {
    write(c, VIRTIO_MMIO_QUEUE_NOTIFY, queue);
    host.run(c)
}

fn fault(step: Step) -> Fault {
    match step {
        Step::Abort(fault) => fault,
        _ => panic!("the transfer went on"),
    }
}

fn sender(host: &mut Host) -> VirtioConsole {
    let mut c = console_with_queue(1);
    c.add_send_connection(2, RING as usize);
    host.set_ring(RING, 0, 0);
    c
}

fn receiver(host: &mut Host) -> VirtioConsole {
    let mut c = console_with_queue(0);
    host.set_ring(RING, 0, 0);
    c.add_recv_connection(1, RING as usize);
    assert!(matches!(host.run(&mut c), Step::Idle));
    c
}

#[test]
fn a_chain_goes_to_the_ring() {
    let mut host = Host::new();
    let mut c = sender(&mut host);
    host.put(0x5000, b"Ping ");
    host.put(0x6000, b"never sent");
    host.put(0x7000, b"0\n");
    host.set_desc(3, 0x5000, 5, VRING_DESC_F_NEXT, 1);
    host.set_desc(1, 0x6000, 10, VRING_DESC_F_NEXT | VRING_DESC_F_WRITE, 6);
    host.set_desc(6, 0x7000, 2, 0, 0);
    host.offer(&[3]);
    assert!(matches!(notify(&mut c, &mut host, 1), Step::Idle));
    assert_eq!(host.ring(RING), b"Ping 0\n".to_vec());
    assert_eq!(host.used_idx(), 1);
    assert_eq!(host.used(0), (3, 7));
    assert_eq!(interrupts(&c), 1);
    write(&mut c, VIRTIO_MMIO_INTERRUPT_ACK, 1);
    assert_eq!(interrupts(&c), 0);
}

#[test]
fn chains_are_sent_in_order_to_every_vm() {
    let mut host = Host::new();
    let mut c = sender(&mut host);
    c.add_send_connection(3, 0xA_0000);
    host.set_ring(0xA_0000, 4000, 4000);
    for (i, word) in [b"one", b"two", b"six"].iter().enumerate() {
        host.put(0x5000 + 16 * i as u64, *word);
        host.set_desc(i as u64, 0x5000 + 16 * i as u64, 3, 0, 0);
    }
    host.offer(&[1, 0, 2]);
    assert!(matches!(notify(&mut c, &mut host, 1), Step::Idle));
    assert_eq!(host.ring(RING), b"twoonesix".to_vec());
    assert_eq!(host.ring(0xA_0000), b"twoonesix".to_vec());
    assert_eq!(host.used_idx(), 3);
    assert_eq!(host.used(0), (1, 3));
    assert_eq!(host.used(1), (0, 3));
    assert_eq!(host.used(2), (2, 3));
}

#[test]
fn a_removed_vm_gets_nothing() {
    let mut host = Host::new();
    let mut c = sender(&mut host);
    c.add_send_connection(3, 0xA_0000);
    c.remove_send_connection(2);
    c.remove_send_connection(77);
    host.put(0x5000, b"x");
    host.set_desc(0, 0x5000, 1, 0, 0);
    host.offer(&[0]);
    assert!(matches!(notify(&mut c, &mut host, 1), Step::Idle));
    assert_eq!(host.ring(RING), b"".to_vec());
    assert_eq!(host.ring(0xA_0000), b"x".to_vec());
}

#[test]
fn without_a_connection_data_is_taken_and_dropped() {
    let mut host = Host::new();
    let mut c = console_with_queue(1);
    host.put(0x5000, b"x");
    host.set_desc(0, 0x5000, 1, 0, 0);
    host.offer(&[0]);
    assert!(matches!(notify(&mut c, &mut host, 1), Step::Idle));
    assert_eq!(host.used(0), (0, 1));
    assert_eq!(interrupts(&c), 1);
}

#[test]
fn a_full_ring_keeps_what_it_has_and_takes_what_fits() {
    let mut host = Host::new();
    let mut c = sender(&mut host);
    host.set_ring(RING, CAPACITY + 10, 13);
    host.put(0x5000, b"abcdef");
    host.set_desc(0, 0x5000, 6, 0, 0);
    host.offer(&[0]);
    assert!(matches!(notify(&mut c, &mut host, 1), Step::Idle));
    assert_eq!(host.load(RING, 8), CAPACITY + 13);
    assert_eq!(host.load(RING + 8, 8), 13);
    let ring = host.ring(RING);
    assert_eq!(ring.len() as u64, CAPACITY);
    assert_eq!(ring[ring.len() - 3..].to_vec(), b"abc".to_vec());
    // The chain counts as used in full.
    assert_eq!(host.used(0), (0, 6));
}

#[test]
fn data_wraps_around_the_end_of_the_ring() {
    let mut host = Host::new();
    let mut c = sender(&mut host);
    host.set_ring(RING, CAPACITY - 2, CAPACITY - 2);
    host.put(0x5000, b"wxyz");
    host.set_desc(0, 0x5000, 4, 0, 0);
    host.offer(&[0]);
    assert!(matches!(notify(&mut c, &mut host, 1), Step::Idle));
    assert_eq!(host.load(RING + 16 + CAPACITY - 1, 1) as u8, b'x');
    assert_eq!(host.load(RING + 16, 1) as u8, b'y');
    assert_eq!(host.ring(RING), b"wxyz".to_vec());
}

#[test]
fn a_buffer_is_cut_at_the_end_of_contiguous_memory() {
    let mut host = Host::new();
    let mut c = sender(&mut host);
    host.put(0x5ffe, b"abcd");
    host.set_desc(0, 0x5ffe, 4, 0, 0);
    host.offer(&[0]);
    assert!(matches!(notify(&mut c, &mut host, 1), Step::Idle));
    assert_eq!(host.ring(RING), b"ab".to_vec());
    assert_eq!(host.used(0), (0, 2));
}

#[test]
fn invalid_chains_are_handed_back_empty() {
    let mut host = Host::new();
    let mut c = sender(&mut host);
    host.unmapped.push(0x8000);
    host.put(0x5000, b"abc");
    host.set_desc(0, 0, 3, 0, 0); // no address
    host.set_desc(1, 0x5000, 0, 0, 0); // no length
    host.set_desc(2, 0x5000, 3, VRING_DESC_F_NEXT, 8); // no such successor
    host.set_desc(3, 0x5000, 3, VRING_DESC_F_NEXT, 4);
    host.set_desc(4, 0x8000, 3, 0, 0); // not mapped
    host.offer(&[0, 1, 2, 3]);
    assert!(matches!(notify(&mut c, &mut host, 1), Step::Idle));
    assert_eq!(host.ring(RING), b"".to_vec());
    assert_eq!(host.used_idx(), 4);
    for head in 0..4 {
        assert_eq!(host.used(head), (head, 0));
    }
    assert_eq!(interrupts(&c), 0);
    // The next valid chain holds its own data only.
    host.set_desc(5, 0x5001, 1, 0, 0);
    host.offer(&[5]);
    assert!(matches!(notify(&mut c, &mut host, 1), Step::Idle));
    assert_eq!(host.ring(RING), b"b".to_vec());
    assert_eq!(host.used(4), (5, 1));
}

#[test]
fn an_unmapped_used_ring_does_not_stop_the_data() {
    let mut host = Host::new();
    let mut c = sender(&mut host);
    host.unmapped.push(USED);
    host.put(0x5000, b"abc");
    host.set_desc(0, 0x5000, 3, 0, 0);
    host.offer(&[0]);
    assert!(matches!(notify(&mut c, &mut host, 1), Step::Idle));
    assert_eq!(host.ring(RING), b"abc".to_vec());
    assert_eq!(host.used_idx(), 0);
    assert_eq!(interrupts(&c), 1);
}

#[test]
fn an_unmapped_available_ring_is_empty() {
    let mut host = Host::new();
    let mut c = sender(&mut host);
    host.set_desc(0, 0x5000, 3, 0, 0);
    host.offer(&[0]);
    host.unmapped.push(AVAIL);
    assert!(matches!(notify(&mut c, &mut host, 1), Step::Idle));
    assert_eq!(host.used_idx(), 0);
}

#[test]
fn ring_indices_wrap_at_sixteen_bits() {
    let mut host = Host::new();
    let mut c = sender(&mut host);
    host.put(0x5000, b"q");
    host.set_desc(0, 0x5000, 1, 0, 0);
    for _ in 0..0x1_0001u32 {
        host.offer(&[0]);
        assert!(matches!(notify(&mut c, &mut host, 1), Step::Idle));
        host.log.clear();
        let w = host.load(RING, 8);
        host.set_ring(RING, w, w);
    }
    assert_eq!(host.used_idx(), 1);
    assert_eq!(host.load(RING, 8), 0x1_0001);
}

#[test]
fn data_comes_in_when_a_vm_is_connected() {
    let mut host = Host::new();
    let mut c = console_with_queue(0);
    host.set_ring(RING, 0, 0);
    host.fill_ring(RING, b"hello");
    host.set_desc(2, 0x5000, 64, VRING_DESC_F_WRITE, 0);
    host.offer(&[2]);
    c.add_recv_connection(1, RING as usize);
    assert!(matches!(host.run(&mut c), Step::Idle));
    assert_eq!(host.get(0x5000, 5), b"hello".to_vec());
    assert_eq!(host.used_idx(), 1);
    assert_eq!(host.used(0), (2, 5));
    assert_eq!(host.ring(RING), b"".to_vec());
    assert_eq!(host.load(RING + 8, 8), 5);
    // Receiving raises no interrupt.
    assert_eq!(interrupts(&c), 0);
}

#[test]
fn data_is_spread_over_the_buffers_in_order() {
    let mut host = Host::new();
    let mut c = receiver(&mut host);
    host.set_ring(RING, CAPACITY - 3, CAPACITY - 3);
    host.fill_ring(RING, b"0123456789");
    host.set_desc(0, 0x5000, 4, VRING_DESC_F_WRITE, 0);
    host.set_desc(1, 0x6000, 4, VRING_DESC_F_WRITE, 0);
    host.offer(&[1, 0]);
    assert!(matches!(notify(&mut c, &mut host, 0), Step::Idle));
    assert_eq!(host.get(0x6000, 4), b"0123".to_vec());
    assert_eq!(host.get(0x5000, 4), b"4567".to_vec());
    assert_eq!(host.used(0), (1, 4));
    assert_eq!(host.used(1), (0, 4));
    // What has no buffer stays in the ring.
    assert_eq!(host.ring(RING), b"89".to_vec());
    host.set_desc(2, 0x7000, 4, VRING_DESC_F_WRITE, 0);
    host.offer(&[2]);
    assert!(matches!(notify(&mut c, &mut host, 0), Step::Idle));
    assert_eq!(host.get(0x7000, 2), b"89".to_vec());
    assert_eq!(host.used(2), (2, 2));
}

#[test]
fn a_receiving_buffer_is_cut_at_the_end_of_contiguous_memory() {
    let mut host = Host::new();
    let mut c = receiver(&mut host);
    host.fill_ring(RING, b"abcd");
    host.set_desc(0, 0x5fff, 4, VRING_DESC_F_WRITE, 0);
    host.set_desc(1, 0x6000, 4, VRING_DESC_F_WRITE, 0);
    host.offer(&[0, 1]);
    assert!(matches!(notify(&mut c, &mut host, 0), Step::Idle));
    assert_eq!(host.used(0), (0, 1));
    assert_eq!(host.used(1), (1, 3));
    assert_eq!(host.get(0x5fff, 4), b"abcd".to_vec());
}

#[test]
fn a_limit_past_32_bits_does_not_cut_a_receiving_buffer() {
    for limit in [0x1_0000_0000, 0x1_0000_0002, u64::MAX] {
        let mut host = Host::new();
        let mut c = receiver(&mut host);
        host.fill_ring(RING, b"abcde");
        host.limit = Some(limit);
        host.set_desc(0, 0x5000, 8, VRING_DESC_F_WRITE, 0);
        host.offer(&[0]);
        assert!(matches!(notify(&mut c, &mut host, 0), Step::Idle));
        assert_eq!(host.get(0x5000, 8), b"abcde\0\0\0".to_vec());
        assert_eq!(host.used(0), (0, 5));
        assert_eq!(host.ring(RING), b"".to_vec());
        assert_eq!(host.load(RING + 8, 8), 5);
    }
}

#[test]
fn a_count_past_32_bits_does_not_cut_a_receiving_buffer() {
    let mut host = Host::new();
    let mut c = receiver(&mut host);
    host.set_ring(RING, 0x1_0000_0001, 0);
    host.set_desc(0, 0x5000, 8, VRING_DESC_F_WRITE, 0);
    host.offer(&[0]);
    assert!(matches!(notify(&mut c, &mut host, 0), Step::Idle));
    assert_eq!(host.used(0), (0, 8));
    assert_eq!(host.load(RING + 8, 8), 8);
}

#[test]
fn an_unmapped_receiving_buffer_keeps_the_data_in_the_ring() {
    let mut host = Host::new();
    let mut c = receiver(&mut host);
    host.unmapped.push(0x8000);
    host.fill_ring(RING, b"abc");
    host.set_desc(0, 0x8000, 16, VRING_DESC_F_WRITE, 0);
    host.offer(&[0]);
    assert!(matches!(notify(&mut c, &mut host, 0), Step::Idle));
    assert_eq!(host.used(0), (0, 0));
    assert_eq!(host.ring(RING), b"abc".to_vec());
}

#[test]
fn rings_are_emptied_one_after_the_other() {
    let mut host = Host::new();
    let mut c = receiver(&mut host);
    host.set_ring(0xA_0000, 0, 0);
    host.fill_ring(0xA_0000, b"second");
    host.fill_ring(RING, b"first");
    for i in 0..3 {
        host.set_desc(i, 0x5000 + 0x100 * i, 16, VRING_DESC_F_WRITE, 0);
    }
    host.offer(&[0, 1, 2]);
    c.add_recv_connection(4, 0xA_0000);
    assert!(matches!(host.run(&mut c), Step::Idle));
    assert_eq!(host.get(0x5000, 5), b"first".to_vec());
    assert_eq!(host.get(0x5100, 6), b"second".to_vec());
    assert_eq!(host.used_idx(), 2);
    c.remove_recv_connection(1);
    host.fill_ring(RING, b"lost");
    host.fill_ring(0xA_0000, b"kept");
    assert!(matches!(notify(&mut c, &mut host, 0), Step::Idle));
    assert_eq!(host.get(0x5200, 4), b"kept".to_vec());
    assert_eq!(host.ring(RING), b"lost".to_vec());
}

#[test]
fn what_one_vm_sends_the_other_receives() {
    let mut host_a = Host::new();
    let mut a = sender(&mut host_a);
    host_a.put(0x5000, b"Ping 4\n");
    host_a.set_desc(0, 0x5000, 7, 0, 0);
    host_a.offer(&[0]);
    assert!(matches!(notify(&mut a, &mut host_a, 1), Step::Idle));

    let mut host_b = Host::new();
    let mut b = console_with_queue(0);
    share_ring(&host_a, &mut host_b);
    host_b.set_desc(5, 0x7000, 64, VRING_DESC_F_WRITE, 0);
    host_b.offer(&[5]);
    b.add_recv_connection(1, RING as usize);
    assert!(matches!(host_b.run(&mut b), Step::Idle));
    assert_eq!(host_b.get(0x7000, 7), b"Ping 4\n".to_vec());
    assert_eq!(host_b.used(0), (5, 7));
}

/// Copies the shared ring from one host to the other: both map the same memory.
fn share_ring(from: &Host, to: &mut Host) {
    for i in 0..16 + CAPACITY {
        let byte = from.load(RING + i, 1);
        to.store(RING + i, 1, byte);
    }
}

#[test]
fn many_chains_travel_into_many_buffers() {
    let mut host_a = Host::new();
    let mut a = sender(&mut host_a);
    host_a.set_ring(RING, 4078, 4078);
    let words: [&[u8]; 4] = [b"alpha ", b"beta ", b"gamma ", b"delta"];
    for (i, word) in words.iter().enumerate() {
        host_a.put(0x5000 + 16 * i as u64, word);
        host_a.set_desc(i as u64, 0x5000 + 16 * i as u64, word.len() as u32, 0, 0);
    }
    // The chain in the middle is invalid: its data goes nowhere.
    host_a.set_desc(6, 0, 5, 0, 0);
    host_a.offer(&[0, 1, 6, 2, 3]);
    assert!(matches!(notify(&mut a, &mut host_a, 1), Step::Idle));
    assert_eq!(host_a.used_idx(), 5);
    let returned: Vec<(u64, u64)> = (0..5).map(|n| host_a.used(n)).collect();
    assert_eq!(returned, vec![(0, 6), (1, 5), (6, 0), (2, 6), (3, 5)]);

    let mut host_b = Host::new();
    let mut b = console_with_queue(0);
    share_ring(&host_a, &mut host_b);
    // An unmapped buffer takes nothing, and one at the end of a page what is
    // left of the page.
    host_b.unmapped.push(0x8000);
    host_b.set_desc(0, 0x5000, 7, VRING_DESC_F_WRITE, 0);
    host_b.set_desc(1, 0x6FFD, 100, VRING_DESC_F_WRITE, 0);
    host_b.set_desc(2, 0x8000, 4, VRING_DESC_F_WRITE, 0);
    host_b.set_desc(3, 0x9000, 30, VRING_DESC_F_WRITE, 0);
    host_b.set_desc(4, 0xA000, 30, VRING_DESC_F_WRITE, 0);
    host_b.offer(&[0, 1, 2, 3, 4]);
    b.add_recv_connection(1, RING as usize);
    assert!(matches!(host_b.run(&mut b), Step::Idle));
    assert_eq!(host_b.used_idx(), 4);
    let lens: Vec<(u64, u64)> = (0..4).map(|n| host_b.used(n)).collect();
    assert_eq!(lens, vec![(0, 7), (1, 3), (2, 0), (3, 12)]);
    assert_eq!(lens.iter().map(|(_, len)| len).sum::<u64>(), 22);
    let mut joined = host_b.get(0x5000, 7);
    joined.extend(host_b.get(0x6FFD, 3));
    joined.extend(host_b.get(0x9000, 12));
    assert_eq!(joined, b"alpha beta gamma delta".to_vec());
    // The ring is empty again, and only its read index has moved.
    assert_eq!(host_b.load(RING, 8), 4078 + 22);
    assert_eq!(host_b.load(RING + 8, 8), 4078 + 22);
    for i in 16..16 + CAPACITY {
        assert_eq!(host_b.load(RING + i, 1), host_a.load(RING + i, 1));
    }
}

#[test]
fn each_ring_takes_what_it_has_room_for() {
    let mut host = Host::new();
    let mut c = sender(&mut host);
    c.add_send_connection(3, 0xA_0000);
    host.fill_ring(RING, b"old ");
    // The second ring has room for four bytes.
    host.set_ring(0xA_0000, 2 * CAPACITY - 4, CAPACITY);
    host.store(0xA_0000 + 16, 1, b'!' as u64);
    host.put(0x5000, b"abc");
    host.put(0x6000, b"defg");
    host.put(0x7000, b"hi");
    host.set_desc(0, 0x5000, 3, 0, 0);
    host.set_desc(1, 0x6000, 4, 0, 0);
    host.set_desc(2, 0x7000, 2, 0, 0);
    host.offer(&[0, 1, 2]);
    assert!(matches!(notify(&mut c, &mut host, 1), Step::Idle));
    assert_eq!(host.ring(RING), b"old abcdefghi".to_vec());
    let second = host.ring(0xA_0000);
    assert_eq!(second.len() as u64, CAPACITY);
    assert_eq!(second[0], b'!');
    assert_eq!(second[CAPACITY as usize - 4..].to_vec(), b"abcd".to_vec());
    assert_eq!(host.load(0xA_0000 + 8, 8), CAPACITY);
    assert_eq!(host.load(0xA_0000, 8), 2 * CAPACITY);
    assert_eq!(host.used_idx(), 3);
}

#[test]
fn receiving_writes_no_more_than_it_brings_in() {
    let mut host = Host::new();
    let mut c = duplex(&mut host);
    host.put(0x5000, b"................");
    let sending: Vec<u64> = (0x1_1000..0x1_4000).map(|at| host.load(LINEAR + PHYS + at, 1)).collect();
    assert!(matches!(notify(&mut c, &mut host, 0), Step::Idle));
    assert_eq!(host.get(0x5000, 16), b"in..............".to_vec());
    assert_eq!(host.used(0), (0, 2));
    assert_eq!(host.load(RING, 8), 2);
    assert_eq!(host.load(RING + 8, 8), 2);
    let after: Vec<u64> = (0x1_1000..0x1_4000).map(|at| host.load(LINEAR + PHYS + at, 1)).collect();
    assert_eq!(after, sending);
    assert_eq!(interrupts(&c), 0);
    // The chain that waits to be sent is still there.
    assert!(matches!(notify(&mut c, &mut host, 1), Step::Idle));
    assert_eq!(host.ring(0xA_0000), b"out".to_vec());
}

#[test]
fn a_ring_that_is_listed_twice_keeps_its_unread_bytes() {
    let mut host = Host::new();
    let mut c = sender(&mut host);
    c.add_send_connection(3, RING as usize);
    host.fill_ring(RING, b"old ");
    host.put(0x5000, b"new ");
    host.set_desc(0, 0x5000, 4, 0, 0);
    host.offer(&[0]);
    assert!(matches!(notify(&mut c, &mut host, 1), Step::Idle));
    assert_eq!(host.ring(RING), b"old new new ".to_vec());
    assert_eq!(host.load(RING + 8, 8), 0);
}

#[test]
fn overlapping_receiving_buffers_leave_the_ring_as_it_was() {
    let mut host = Host::new();
    let mut c = receiver(&mut host);
    c.add_recv_connection(7, RING as usize);
    assert!(matches!(host.run(&mut c), Step::Idle));
    host.fill_ring(RING, b"abcdef");
    host.set_desc(0, 0x5000, 4, VRING_DESC_F_WRITE, 0);
    host.set_desc(1, 0x5002, 4, VRING_DESC_F_WRITE, 0);
    host.offer(&[0, 1]);
    assert!(matches!(notify(&mut c, &mut host, 0), Step::Idle));
    assert_eq!(host.get(0x5000, 6), b"abef\0\0".to_vec());
    assert_eq!(host.load(RING, 8), 6);
    assert_eq!(host.load(RING + 8, 8), 6);
    let slots: Vec<u8> = (0..6).map(|i| host.load(RING + 16 + i, 1) as u8).collect();
    assert_eq!(slots, b"abcdef".to_vec());
}

#[test]
fn a_later_ring_waits_until_the_earlier_one_is_empty() {
    let mut host = Host::new();
    let mut c = receiver(&mut host);
    host.set_ring(0xA_0000, 0, 0);
    c.add_recv_connection(4, 0xA_0000);
    assert!(matches!(host.run(&mut c), Step::Idle));
    host.fill_ring(RING, b"12345");
    host.fill_ring(0xA_0000, b"678");
    for i in 0..3 {
        host.set_desc(i, 0x5000 + 0x100 * i, 4, VRING_DESC_F_WRITE, 0);
    }
    host.offer(&[0]);
    assert!(matches!(notify(&mut c, &mut host, 0), Step::Idle));
    assert_eq!(host.ring(RING), b"5".to_vec());
    assert_eq!(host.ring(0xA_0000), b"678".to_vec());
    host.offer(&[1, 2]);
    assert!(matches!(notify(&mut c, &mut host, 0), Step::Idle));
    assert_eq!(host.used(1), (1, 1));
    assert_eq!(host.used(2), (2, 3));
    assert_eq!(host.ring(RING), b"".to_vec());
    assert_eq!(host.ring(0xA_0000), b"".to_vec());
}

#[test]
fn sending_leaves_free_slots_alone() {
    let mut host = Host::new();
    let mut c = sender(&mut host);
    for i in 0..CAPACITY {
        host.store(RING + 16 + i, 1, 0xEE);
    }
    host.set_ring(RING, CAPACITY - 1, CAPACITY - 1);
    host.put(0x5000, b"xyz");
    host.set_desc(0, 0x5000, 3, 0, 0);
    host.offer(&[0]);
    assert!(matches!(notify(&mut c, &mut host, 1), Step::Idle));
    assert_eq!(host.load(RING + 16 + CAPACITY - 1, 1), b'x' as u64);
    assert_eq!(host.load(RING + 16, 1), b'y' as u64);
    assert_eq!(host.load(RING + 17, 1), b'z' as u64);
    for i in 2..CAPACITY - 1 {
        assert_eq!(host.load(RING + 16 + i, 1), 0xEE);
    }
}

#[test]
fn a_device_is_connected_from_the_first_vm_on() {
    let mut c = VirtioConsole::new(BASE, 0x200, 33);
    assert!(!c.is_connected());
    c.remove_send_connection(2);
    c.remove_recv_connection(2);
    assert!(!c.is_connected());
    c.add_send_connection(2, RING as usize);
    assert!(c.is_connected());
    c.remove_send_connection(2);
    assert!(c.is_connected());
}

/// A console with both queues ready; the transmit queue's structures lie
/// 0x10000 further on.
fn duplex(host: &mut Host) -> VirtioConsole {
    let mut c = console_with_queue(0);
    write(&mut c, VIRTIO_MMIO_QUEUE_SEL, 1);
    write(&mut c, VIRTIO_MMIO_QUEUE_NUM, 8);
    write(&mut c, VIRTIO_MMIO_QUEUE_DESC_LOW, 0x1_1000);
    write(&mut c, VIRTIO_MMIO_QUEUE_AVAIL_LOW, 0x1_2000);
    write(&mut c, VIRTIO_MMIO_QUEUE_USED_LOW, 0x1_3000);
    write(&mut c, VIRTIO_MMIO_QUEUE_READY, 1);
    host.set_ring(RING, 0, 0);
    host.set_ring(0xA_0000, 0, 0);
    c.add_send_connection(2, 0xA_0000);
    c.add_recv_connection(2, RING as usize);
    assert!(matches!(host.run(&mut c), Step::Idle));
    // One chain for data to come in, one with data to send.
    host.fill_ring(RING, b"in");
    host.set_desc(0, 0x5000, 16, VRING_DESC_F_WRITE, 0);
    host.offer(&[0]);
    host.put(0x6000, b"out");
    host.store(LINEAR + PHYS + 0x1_1000, 8, 0x6000);
    host.store(LINEAR + PHYS + 0x1_1008, 4, 3);
    host.store(LINEAR + PHYS + 0x1_2002, 2, 1);
    c
}

#[test]
fn notifying_the_transmit_queue_also_receives() {
    let mut host = Host::new();
    let mut c = duplex(&mut host);
    host.log.clear();
    assert!(matches!(notify(&mut c, &mut host, 1), Step::Idle));
    assert_eq!(host.get(0x5000, 2), b"in".to_vec());
    assert_eq!(host.ring(0xA_0000), b"out".to_vec());
    // Receiving comes first.
    let copied = host.log.iter().position(|r| matches!(r, Request::CopyByte { .. })).unwrap();
    let sent = host.log.iter().position(|r| matches!(r, Request::WriteByte { .. })).unwrap();
    assert!(copied < sent);
}

#[test]
fn notifying_another_queue_only_receives() {
    for queue in [0, 2, 0x7fff_ffff] {
        let mut host = Host::new();
        let mut c = duplex(&mut host);
        assert!(matches!(notify(&mut c, &mut host, queue), Step::Idle));
        assert_eq!(host.get(0x5000, 2), b"in".to_vec());
        assert_eq!(host.ring(0xA_0000), b"".to_vec());
        assert_eq!(interrupts(&c), 0);
    }
}

#[test]
fn a_queue_without_a_size_aborts() {
    let mut host = Host::new();
    let mut c = VirtioConsole::new(BASE, 0x200, 33);
    write(&mut c, VIRTIO_MMIO_QUEUE_SEL, 1);
    write(&mut c, VIRTIO_MMIO_QUEUE_AVAIL_LOW, AVAIL as usize);
    write(&mut c, VIRTIO_MMIO_QUEUE_READY, 1);
    host.offer(&[0]);
    assert_eq!(fault(notify(&mut c, &mut host, 1)), Fault::ZeroQueueSize);
}

#[test]
fn a_missing_descriptor_aborts() {
    let mut host = Host::new();
    let mut c = sender(&mut host);
    host.offer(&[8]);
    assert_eq!(fault(notify(&mut c, &mut host, 1)), Fault::MissingDescriptor);

    let mut host = Host::new();
    let mut c = sender(&mut host);
    host.unmapped.push(DESC);
    host.offer(&[0]);
    assert_eq!(fault(notify(&mut c, &mut host, 1)), Fault::MissingDescriptor);

    let mut host = Host::new();
    let mut c = receiver(&mut host);
    host.fill_ring(RING, b"x");
    host.offer(&[8]);
    assert_eq!(fault(notify(&mut c, &mut host, 0)), Fault::MissingDescriptor);
}

#[test]
fn a_descriptor_table_past_the_address_space_aborts() {
    let mut host = Host::new();
    let mut c = sender(&mut host);
    write(&mut c, VIRTIO_MMIO_QUEUE_DESC_LOW, 0xFFFF_FFF0);
    write(&mut c, VIRTIO_MMIO_QUEUE_DESC_HIGH, 0xFFFF_FFFF);
    host.offer(&[1]);
    assert_eq!(fault(notify(&mut c, &mut host, 1)), Fault::DescriptorAddressOverflow);
}

#[test]
fn crossed_indices_abort() {
    let mut host = Host::new();
    let mut c = sender(&mut host);
    host.set_ring(RING, 3, 4);
    host.put(0x5000, b"x");
    host.set_desc(0, 0x5000, 1, 0, 0);
    host.offer(&[0]);
    assert_eq!(fault(notify(&mut c, &mut host, 1)), Fault::IndicesCrossed);

    let mut host = Host::new();
    let mut c = receiver(&mut host);
    host.set_ring(RING, 3, 4);
    assert_eq!(fault(notify(&mut c, &mut host, 0)), Fault::IndicesCrossed);
}

#[test]
fn crossed_indices_do_not_matter_without_data() {
    let mut host = Host::new();
    let mut c = sender(&mut host);
    host.set_ring(RING, 3, 4);
    host.set_desc(0, 0x5000, 1, VRING_DESC_F_WRITE, 0);
    host.offer(&[0]);
    assert!(matches!(notify(&mut c, &mut host, 1), Step::Idle));
    assert_eq!(host.used(0), (0, 0));
    assert_eq!(interrupts(&c), 1);
    assert_eq!(host.load(RING, 8), 3);
}

#[test]
fn a_write_index_at_its_end_aborts() {
    let mut host = Host::new();
    let mut c = sender(&mut host);
    host.set_ring(RING, u64::MAX, u64::MAX);
    host.put(0x5000, b"x");
    host.set_desc(0, 0x5000, 1, 0, 0);
    host.offer(&[0]);
    assert_eq!(fault(notify(&mut c, &mut host, 1)), Fault::IndexOverflow);
}

#[test]
fn a_ring_buffer_past_the_address_space_aborts() {
    let mut host = Host::new();
    let mut c = console_with_queue(0);
    c.add_recv_connection(1, usize::MAX - 15);
    assert_eq!(fault(host.run(&mut c)), Fault::BadRingBuffer);

    let mut host = Host::new();
    let mut c = console_with_queue(1);
    c.add_send_connection(1, usize::MAX - 15);
    host.put(0x5000, b"x");
    host.set_desc(0, 0x5000, 1, 0, 0);
    host.offer(&[0]);
    assert_eq!(fault(notify(&mut c, &mut host, 1)), Fault::BadRingBuffer);
    assert_eq!(host.used(0), (0, 1));
}

#[test]
fn the_device_asks_in_the_order_of_the_protocol() {
    let mut host = Host::new();
    let mut c = sender(&mut host);
    host.put(0x5000, b"z");
    host.set_desc(0, 0x5000, 1, 0, 0);
    host.offer(&[0]);
    host.log.clear();
    assert!(matches!(notify(&mut c, &mut host, 1), Step::Idle));
    let virt = LINEAR + PHYS;
    assert!(matches!(host.log[0], Request::Locate { gpa: AVAIL }));
    assert!(matches!(host.log[1], Request::ReadHalf { hva } if hva == virt + AVAIL + 2));
    assert!(matches!(host.log[2], Request::ReadHalf { hva } if hva == virt + AVAIL + 4));
    assert!(matches!(host.log[3], Request::Locate { gpa: DESC }));
    assert!(matches!(host.log[4], Request::ReadDescriptor { hva } if hva == virt + DESC));
    assert!(matches!(host.log[5], Request::Translate { gpa: 0x5000 }));
    assert!(matches!(host.log[6], Request::ReadBytes { hva, len: 1 } if hva == PHYS + 0x5000));
    assert!(matches!(host.log[7], Request::Locate { gpa: USED }));
    assert!(matches!(host.log[8], Request::ReadHalf { hva } if hva == virt + USED + 2));
    assert!(matches!(host.log[9], Request::Publish(_)));
    assert!(matches!(host.log[10], Request::LoadWriteThenRead { hva: RING }));
    assert!(matches!(host.log[11], Request::WriteByte { hva, value: b'z' } if hva == RING + 16));
    assert!(matches!(host.log[12], Request::StoreIndex { hva: RING, index: 1 }));
    assert!(matches!(host.log[13], Request::Locate { gpa: AVAIL }));
    assert!(matches!(host.log[14], Request::ReadHalf { .. }));
    assert_eq!(host.log.len(), 15);
}

#[test]
fn only_connected_rings_are_touched() {
    let mut host = Host::new();
    let mut c = duplex(&mut host);
    host.set_ring(0xA_0000, CAPACITY - 1, CAPACITY - 1);
    host.log.clear();
    assert!(matches!(notify(&mut c, &mut host, 1), Step::Idle));
    for request in &host.log {
        match *request {
            Request::WriteByte { hva, .. } => {
                assert!(0xA_0010 <= hva && hva < 0xA_0010 + CAPACITY);
            }
            Request::CopyByte { from, to } => {
                assert!(RING + 16 <= from && from < RING + 16 + CAPACITY);
                assert!(PHYS + 0x5000 <= to && to < PHYS + 0x5010);
            }
            Request::StoreIndex { hva, .. } => assert!(hva == 0xA_0000 || hva == RING + 8),
            _ => {}
        }
    }
}
