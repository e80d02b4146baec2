# virtio_console

A virtio console device for a hypervisor. Guests send bytes through the
transmit queue; the device puts them into ring buffers shared with other VMs,
and brings in, through the receive queue, what other VMs have sent.

- `src/` is the device, verified with Verus: registers, virtqueues, shared
  rings, and the state machine that moves data. It never touches memory: it
  asks for one access at a time and goes on with the answer. The modules
  `*_laws` hold the theorems about it, for hosts whose memory nobody else
  touches; each says which rings, queues and buffers must not overlap. Among
  them: sending overwrites no byte that waits in a ring, and receiving changes
  nothing of a ring but its read index; a whole run of the transmit queue
  appends the data of the valid chains to every connected ring, as far as there
  is room (`tx_run_laws`); a whole run of the receive queue brings in what the
  rings hold, in order, as far as there are buffers (`rx_run_laws`); and so the
  bytes that one VM sends are the bytes that the other VM receives, however many
  chains and buffers they take (`vm_laws`).
- `tests/` runs the device against a simulated host.
- `app/` plugs the device into the hypervisor: locking, raw memory accesses,
  translation of guest addresses, and the device framework's trait.

When the guest, or the VM at the other end of a ring, leaves memory in a state
that the device cannot work with, the transfer ends with a `Fault`, and `app/`
panics.
