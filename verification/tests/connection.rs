use virtio_console::connection::DeviceConsoleConnection;

fn sample() -> DeviceConsoleConnection {
    DeviceConsoleConnection::new(
        vec![1, 2, 3],
        vec![4, 5],
        vec![0x1000, 0x2000, 0x3000],
        vec![0x4000, 0x5000],
        4096,
    )
}

#[test]
fn new_keeps_what_it_is_given() {
    let c = sample();
    assert_eq!(c.send_vm_ids, vec![1, 2, 3]);
    assert_eq!(c.recv_vm_ids, vec![4, 5]);
    assert_eq!(c.send_buffers, vec![0x1000, 0x2000, 0x3000]);
    assert_eq!(c.recv_buffers, vec![0x4000, 0x5000]);
    assert_eq!(c.buffer_size, 4096);
}

#[test]
fn added_vms_come_last() {
    let mut c = sample();
    c.add_send_vm(9, 0x9000);
    c.add_recv_vm(8, 0x8000);
    assert_eq!(c.send_vm_ids, vec![1, 2, 3, 9]);
    assert_eq!(c.send_buffers, vec![0x1000, 0x2000, 0x3000, 0x9000]);
    assert_eq!(c.recv_vm_ids, vec![4, 5, 8]);
    assert_eq!(c.recv_buffers, vec![0x4000, 0x5000, 0x8000]);
}

#[test]
fn removed_vm_takes_its_buffer_along() {
    let mut c = sample();
    c.remove_send_vm(2);
    c.remove_recv_vm(4);
    assert_eq!(c.send_vm_ids, vec![1, 3]);
    assert_eq!(c.send_buffers, vec![0x1000, 0x3000]);
    assert_eq!(c.recv_vm_ids, vec![5]);
    assert_eq!(c.recv_buffers, vec![0x5000]);
}

#[test]
fn only_the_first_entry_of_a_vm_is_removed() {
    let mut c = DeviceConsoleConnection::new(vec![7, 7], vec![], vec![10, 20], vec![], 4096);
    c.remove_send_vm(7);
    assert_eq!(c.send_vm_ids, vec![7]);
    assert_eq!(c.send_buffers, vec![20]);
}

#[test]
fn removing_an_unknown_vm_changes_nothing() {
    let mut c = sample();
    c.remove_send_vm(77);
    c.remove_recv_vm(77);
    assert_eq!(c.send_vm_ids, vec![1, 2, 3]);
    assert_eq!(c.recv_buffers, vec![0x4000, 0x5000]);
}

#[test]
fn removing_what_was_added_restores_the_connection() {
    let mut c = sample();
    c.add_send_vm(9, 0x9000);
    c.remove_send_vm(9);
    c.add_recv_vm(9, 0x9000);
    c.remove_recv_vm(9);
    assert_eq!(c.send_vm_ids, vec![1, 2, 3]);
    assert_eq!(c.send_buffers, vec![0x1000, 0x2000, 0x3000]);
    assert_eq!(c.recv_vm_ids, vec![4, 5]);
    assert_eq!(c.recv_buffers, vec![0x4000, 0x5000]);
}

#[test]
fn clone_is_independent() {
    let c = sample();
    let mut d = c.clone();
    d.add_send_vm(9, 0x9000);
    assert_eq!(c.send_vm_ids, vec![1, 2, 3]);
    assert_eq!(d.send_vm_ids, vec![1, 2, 3, 9]);
}
