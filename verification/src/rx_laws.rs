//! What the receive queue's processing comes to, for a host whose memory
//! nobody else touches.
use crate::phase::{Fetch, Phase, RxPhase};
use crate::queue::{DescriptorEvent, PopEvent, QueueView, UsedEvent, VirtqDesc};
use crate::request::Fault;
use crate::ring::SharedRing;
use crate::transfer::ConsoleView;
use crate::world::{System, World};
use vstd::prelude::*;

verus! {

impl World {
    /// How many bytes `ring` holds.
    pub open spec fn held(self, ring: SharedRing) -> int {
        self.write_idx(ring.base) - self.read_idx(ring.base)
    }

    /// Where bytes are to be copied from `ring` to the buffer of `desc`, the
    /// ring has slots for them.
    pub open spec fn can_fill(self, ring: SharedRing, desc: VirtqDesc) -> bool {
        match self.translate(desc.addr) {
            Some((_, limit)) => crate::transfer::copy_len(desc, self.held(ring) as u64, limit) > 0
                ==> ring.capacity > 0,
            None => true,
        }
    }
}

/// A ring that holds nothing is passed over.
pub proof fn law_rx_passes_an_empty_ring(c: ConsoleView, world: World, ring: SharedRing)
    requires
        world.held(ring) == 0,
    ensures
        (System { console: c.rx(RxPhase::Poll { ring }), world }).reaches(
            System { console: c.rx_ring(ring.index + 1), world },
        ),
{
    let s0 = System { console: c.rx(RxPhase::Poll { ring }), world };
    assert(s0.tick() == System { console: c.rx_ring(ring.index + 1), world });
    crate::world::lemma_reaches_tick(s0);
}

/// When the guest has no chain for data to go into, the ring keeps it, and the
/// next ring has its turn.
pub proof fn law_rx_leaves_data_without_a_chain(c: ConsoleView, world: World, ring: SharedRing)
    requires
        world.held(ring) > 0,
        world.next_chain(c.state.rx_queue) is None,
    ensures
        (System { console: c.rx(RxPhase::Poll { ring }), world }).reaches(
            System { console: c.rx_ring(ring.index + 1), world },
        ),
{
    let queue = c.state.rx_queue;
    let goal = System { console: c.rx_ring(ring.index + 1), world };
    let s0 = System { console: c.rx(RxPhase::Poll { ring }), world };
    let s1 = System { console: c.rx_pop(ring, PopEvent::Begin), world };
    assert(s0.tick() == s1);
    crate::world::lemma_reaches_tick(s0);
    if queue.ready {
        let at = world.locate(queue.avail_ring);
        let s2 = System { console: c.rx_pop(ring, PopEvent::Ring(at)), world };
        assert(s1.console == c.rx(RxPhase::AvailRing { ring, gpa: queue.avail_ring }));
        assert(s1.tick() == s2);
        crate::world::lemma_reaches_next(s0, s1, s2);
        if let Some(avail) = at {
            let hva = crate::queue::host_offset(avail, crate::queue::RING_IDX_OFFSET as int);
            assert(s2.console == c.rx(RxPhase::AvailIndex { ring, avail, hva }));
            assert(s2.tick() == goal);
            crate::world::lemma_reaches_next(s0, s2, goal);
        } else {
            assert(s2 == goal);
        }
    } else {
        assert(s1 == goal);
    }
}

/// When a ring holds data and the guest has a chain, the chain is taken, and it
/// is looked again how much data there is.
proof fn lemma_chain_is_taken(c: ConsoleView, world: World, ring: SharedRing)
    requires
        c.state.rx_queue.size > 0,
        world.held(ring) > 0,
        world.next_chain(c.state.rx_queue) is Some,
    ensures
        ({
            let head = world.next_chain(c.state.rx_queue)->Some_0;
            (System { console: c.rx(RxPhase::Poll { ring }), world }).reaches(
                System {
                    console: c.with_rx_queue(c.state.rx_queue.advanced()).rx(
                        RxPhase::Indices { ring, head },
                    ),
                    world,
                },
            )
        }),
{
    let queue = c.state.rx_queue;
    let avail = world.locate(queue.avail_ring)->Some_0;
    let head = world.next_chain(queue)->Some_0;
    let idx_hva = crate::queue::host_offset(avail, crate::queue::RING_IDX_OFFSET as int);
    let idx = world.half(idx_hva);
    let hva = crate::queue::host_offset(avail, queue.avail_entry_offset());
    let s0 = System { console: c.rx(RxPhase::Poll { ring }), world };
    let s1 = System { console: c.rx_pop(ring, PopEvent::Begin), world };
    let s2 = System { console: c.rx_pop(ring, PopEvent::Ring(Some(avail))), world };
    let s3 = System { console: c.rx_pop(ring, PopEvent::Index { ring: avail, idx }), world };
    let s4 = System { console: c.rx_pop(ring, PopEvent::Entry { head }), world };
    assert(s0.tick() == s1);
    assert(s1.console == c.rx(RxPhase::AvailRing { ring, gpa: queue.avail_ring }));
    assert(s1.tick() == s2);
    assert(s2.console == c.rx(RxPhase::AvailIndex { ring, avail, hva: idx_hva }));
    assert(s2.tick() == s3);
    assert(s3.console == c.rx(RxPhase::AvailEntry { ring, hva }));
    assert(s3.tick() == s4);
    crate::world::lemma_reaches_tick(s0);
    crate::world::lemma_reaches_next(s0, s1, s2);
    crate::world::lemma_reaches_next(s0, s2, s3);
    crate::world::lemma_reaches_next(s0, s3, s4);
}

/// From the taken chain to the point where its buffer is looked for.
proof fn lemma_descriptor_is_read(c: ConsoleView, world: World, ring: SharedRing, head: u16)
    requires
        world.held(ring) >= 0,
        world.descriptor(c.state.rx_queue, head) is Ok,
    ensures
        ({
            let desc = world.descriptor(c.state.rx_queue, head)->Ok_0;
            let fetch = Fetch {
                ring,
                head,
                read_idx: world.read_idx(ring.base),
                available: world.held(ring) as u64,
            };
            (System { console: c.rx(RxPhase::Indices { ring, head }), world }).reaches(
                System { console: c.rx(RxPhase::Buffer { fetch, desc }), world },
            )
        }),
{
    let queue = c.state.rx_queue;
    let desc = world.descriptor(queue, head)->Ok_0;
    let fetch = Fetch {
        ring,
        head,
        read_idx: world.read_idx(ring.base),
        available: world.held(ring) as u64,
    };
    let gpa = queue.descriptor_address(head) as u64;
    let hva = world.locate(gpa)->Some_0;
    let s0 = System { console: c.rx(RxPhase::Indices { ring, head }), world };
    let s1 = System { console: c.rx(RxPhase::Table { fetch, gpa }), world };
    let s2 = System { console: c.rx(RxPhase::Descriptor { fetch, hva }), world };
    let s3 = System { console: c.rx(RxPhase::Buffer { fetch, desc }), world };
    assert(c.rx_descriptor(fetch, DescriptorEvent::Begin { idx: head }) == s1.console);
    assert(s0.tick() == s1);
    assert(s1.tick() == s2);
    assert(s2.tick() == s3);
    crate::world::lemma_reaches_tick(s0);
    crate::world::lemma_reaches_next(s0, s1, s2);
    crate::world::lemma_reaches_next(s0, s2, s3);
}

/// The bytes are copied one by one, and then the ring's read index moves on.
proof fn lemma_bytes_come_in(
    c: ConsoleView,
    world: World,
    fetch: Fetch,
    to: u64,
    len: u32,
    done: nat,
)
    requires
        done <= len,
        done < len ==> fetch.ring.capacity > 0,
    ensures
        (System {
            console: c.rx_copy(fetch, to, len, done as int),
            world: world.with_ram(
                crate::ring_laws::copy_slots(
                    world.ram,
                    fetch.ring,
                    fetch.read_idx as int,
                    to,
                    done,
                ),
            ),
        }).reaches(
            System {
                console: c.rx_copy(fetch, to, len, len as int),
                world: world.with_ram(
                    crate::ring_laws::copy_slots(
                        world.ram,
                        fetch.ring,
                        fetch.read_idx as int,
                        to,
                        len as nat,
                    ),
                ),
            },
        ),
    decreases len - done,
{
    let ring = fetch.ring;
    let r = fetch.read_idx as int;
    let goal = System {
        console: c.rx_copy(fetch, to, len, len as int),
        world: world.with_ram(
            crate::ring_laws::copy_slots(world.ram, ring, r, to, len as nat),
        ),
    };
    let s0 = System {
        console: c.rx_copy(fetch, to, len, done as int),
        world: world.with_ram(crate::ring_laws::copy_slots(world.ram, ring, r, to, done)),
    };
    if done == len {
        crate::world::lemma_reaches_self(s0);
    } else {
        let next = done + 1;
        let s1 = System {
            console: c.rx_copy(fetch, to, len, next as int),
            world: world.with_ram(crate::ring_laws::copy_slots(world.ram, ring, r, to, next)),
        };
        assert(s0.console == c.rx(RxPhase::Copy { fetch, to, len, done: done as u32 }));
        assert(s0.tick() == s1);
        crate::world::lemma_reaches_tick(s0);
        lemma_bytes_come_in(c, world, fetch, to, len, next);
        crate::world::lemma_reaches_trans(s0, s1, goal);
    }
}

/// A chain of the receive queue that is done with is handed back through the
/// used ring, if that is mapped, and the ring is looked at again.
pub proof fn law_rx_hands_the_chain_back(
    c: ConsoleView,
    world: World,
    ring: SharedRing,
    head: u16,
    len: u32,
)
    requires
        c.state.rx_queue.size > 0,
    ensures
        (System { console: c.rx_used(ring, head, len, UsedEvent::Begin), world }).reaches(
            System {
                console: c.rx(RxPhase::Poll { ring }),
                world: world.handed_back(c.state.rx_queue, head, len),
            },
        ),
{
    let queue = c.state.rx_queue;
    let goal = System {
        console: c.rx(RxPhase::Poll { ring }),
        world: world.handed_back(queue, head, len),
    };
    let s0 = System { console: c.rx_used(ring, head, len, UsedEvent::Begin), world };
    let at = world.locate(queue.used_ring);
    let s1 = System { console: c.rx_used(ring, head, len, UsedEvent::Ring(at)), world };
    assert(s0.console == c.rx(RxPhase::UsedRing { ring, head, len, gpa: queue.used_ring }));
    assert(s0.tick() == s1);
    crate::world::lemma_reaches_tick(s0);
    if let Some(used) = at {
        let hva = crate::queue::host_offset(used, crate::queue::RING_IDX_OFFSET as int);
        let update = world.used_update(queue, used, head, len);
        let s2 = System { console: c.rx(RxPhase::Publish { ring, update }), world };
        assert(s1.console == c.rx(RxPhase::UsedIndex { ring, head, len, used, hva }));
        assert(s1.tick() == s2);
        assert(s2.tick() == goal);
        crate::world::lemma_reaches_next(s0, s1, s2);
        crate::world::lemma_reaches_next(s0, s2, goal);
    }
}

/// The host after a chain of the receive queue, whose first descriptor leads to
/// the buffer at `buffer`, has been filled from `ring` and handed back.
pub open spec fn rx_filled(
    c: ConsoleView,
    world: World,
    ring: SharedRing,
    head: u16,
    buffer: Option<(u64, u64)>,
) -> World {
    let queue = c.state.rx_queue;
    match buffer {
        Some((to, limit)) => {
            let desc = world.descriptor(queue, head)->Ok_0;
            let len = crate::transfer::copy_len(desc, world.held(ring) as u64, limit);
            world.pulled(ring, to, len as nat).handed_back(queue, head, len)
        },
        None => world.handed_back(queue, head, 0),
    }
}

/// From the point where the buffer is looked for to the point where the chain
/// is handed back and the ring is looked at again.
proof fn lemma_buffer_is_filled(
    c: ConsoleView,
    world: World,
    ring: SharedRing,
    head: u16,
    desc: VirtqDesc,
)
    requires
        c.state.rx_queue.size > 0,
        ring.wf(),
        world.held(ring) > 0,
        world.can_fill(ring, desc),
        world.descriptor(c.state.rx_queue, head) == Ok::<VirtqDesc, Fault>(desc),
    ensures
        ({
            let fetch = Fetch {
                ring,
                head,
                read_idx: world.read_idx(ring.base),
                available: world.held(ring) as u64,
            };
            (System { console: c.rx(RxPhase::Buffer { fetch, desc }), world }).reaches(
                System {
                    console: c.rx(RxPhase::Poll { ring }),
                    world: rx_filled(c, world, ring, head, world.translate(desc.addr)),
                },
            )
        }),
{
    let fetch = Fetch {
        ring,
        head,
        read_idx: world.read_idx(ring.base),
        available: world.held(ring) as u64,
    };
    let start = System { console: c.rx(RxPhase::Buffer { fetch, desc }), world };
    match world.translate(desc.addr) {
        None => {
            let s1 = System { console: c.rx_used(ring, head, 0, UsedEvent::Begin), world };
            assert(start.tick() == s1);
            crate::world::lemma_reaches_tick(start);
            law_rx_hands_the_chain_back(c, world, ring, head, 0);
            crate::world::lemma_reaches_trans(
                start,
                s1,
                System {
                    console: c.rx(RxPhase::Poll { ring }),
                    world: world.handed_back(c.state.rx_queue, head, 0),
                },
            );
        },
        Some((to, limit)) => {
            let available = fetch.available;
            let len = crate::transfer::copy_len(desc, available, limit);
            crate::transfer::law_lengths_respect_limits(desc, available, limit);
            let s1 = System { console: c.rx_copy(fetch, to, len, 0), world };
            assert(start.tick() == s1);
            crate::world::lemma_reaches_tick(start);
            lemma_copy_and_hand_back(c, world, fetch, to, len);
            crate::world::lemma_reaches_trans(
                start,
                s1,
                System {
                    console: c.rx(RxPhase::Poll { ring }),
                    world: world.pulled(ring, to, len as nat).handed_back(
                        c.state.rx_queue,
                        head,
                        len,
                    ),
                },
            );
        },
    }
}

/// From the first byte that is copied to the point where the chain is handed
/// back and the ring is looked at again.
proof fn lemma_copy_and_hand_back(c: ConsoleView, world: World, fetch: Fetch, to: u64, len: u32)
    requires
        c.state.rx_queue.size > 0,
        fetch.ring.wf(),
        len > 0 ==> fetch.ring.capacity > 0,
        fetch.read_idx == world.read_idx(fetch.ring.base),
        fetch.read_idx + len <= u64::MAX,
    ensures
        (System { console: c.rx_copy(fetch, to, len, 0), world }).reaches(
            System {
                console: c.rx(RxPhase::Poll { ring: fetch.ring }),
                world: world.pulled(fetch.ring, to, len as nat).handed_back(
                    c.state.rx_queue,
                    fetch.head,
                    len,
                ),
            },
        ),
{
    let ring = fetch.ring;
    let head = fetch.head;
    let r = fetch.read_idx;
    let ram = crate::ring_laws::copy_slots(world.ram, ring, r as int, to, len as nat);
    let start = System { console: c.rx_copy(fetch, to, len, 0), world };
    let s1 = System {
        console: c.rx(RxPhase::StoreRead { ring, head, read_idx: (r + len) as u64, len }),
        world: world.with_ram(ram),
    };
    let pulled = world.pulled(ring, to, len as nat);
    let s2 = System { console: c.rx_used(ring, head, len, UsedEvent::Begin), world: pulled };
    lemma_bytes_come_in(c, world, fetch, to, len, 0);
    assert(world.with_ram(world.ram) == world);
    assert(c.rx_copy(fetch, to, len, len as int) == s1.console);
    assert(start.reaches(s1));
    assert(s1.world.after(s1.console.step()->Ask_0) == pulled);
    assert(s1.tick() == s2);
    crate::world::lemma_reaches_next(start, s1, s2);
    law_rx_hands_the_chain_back(c, pulled, ring, head, len);
    crate::world::lemma_reaches_trans(
        start,
        s2,
        System {
            console: c.rx(RxPhase::Poll { ring }),
            world: pulled.handed_back(c.state.rx_queue, head, len),
        },
    );
}

/// While a ring holds data and the guest has a chain, the chain is taken, the
/// oldest bytes of the ring go to its buffer, as many as fit, and the chain is
/// handed back with their number. A chain whose buffer is not mapped is handed
/// back with no bytes, and the ring keeps its data. Then the ring is looked at
/// again.
pub proof fn law_rx_fills_a_chain(c: ConsoleView, world: World, ring: SharedRing)
    requires
        c.state.rx_queue.size > 0,
        ring.wf(),
        world.held(ring) > 0,
        world.next_chain(c.state.rx_queue) is Some,
        match world.descriptor(c.state.rx_queue, world.next_chain(c.state.rx_queue)->Some_0) {
            Ok(desc) => world.can_fill(ring, desc),
            Err(_) => false,
        },
    ensures
        ({
            let queue = c.state.rx_queue;
            let head = world.next_chain(queue)->Some_0;
            let desc = world.descriptor(queue, head)->Ok_0;
            (System { console: c.rx(RxPhase::Poll { ring }), world }).reaches(
                System {
                    console: c.with_rx_queue(queue.advanced()).rx(RxPhase::Poll { ring }),
                    world: rx_filled(c, world, ring, head, world.translate(desc.addr)),
                },
            )
        }),
{
    let queue = c.state.rx_queue;
    let head = world.next_chain(queue)->Some_0;
    let desc = world.descriptor(queue, head)->Ok_0;
    let taken = c.with_rx_queue(queue.advanced());
    let fetch = Fetch {
        ring,
        head,
        read_idx: world.read_idx(ring.base),
        available: world.held(ring) as u64,
    };
    let start = System { console: c.rx(RxPhase::Poll { ring }), world };
    let s1 = System { console: taken.rx(RxPhase::Indices { ring, head }), world };
    let s2 = System { console: taken.rx(RxPhase::Buffer { fetch, desc }), world };
    lemma_chain_is_taken(c, world, ring);
    assert(world.descriptor(queue.advanced(), head) == world.descriptor(queue, head));
    lemma_descriptor_is_read(taken, world, ring, head);
    crate::world::lemma_reaches_trans(start, s1, s2);
    lemma_buffer_is_filled(taken, world, ring, head, desc);
    lemma_filled_ignores_position(c, world, ring, head, world.translate(desc.addr));
    crate::world::lemma_reaches_trans(
        start,
        s2,
        System {
            console: taken.rx(RxPhase::Poll { ring }),
            world: rx_filled(c, world, ring, head, world.translate(desc.addr)),
        },
    );
}

/// Which chain is next does not matter for how a chain is filled.
proof fn lemma_filled_ignores_position(
    c: ConsoleView,
    world: World,
    ring: SharedRing,
    head: u16,
    buffer: Option<(u64, u64)>,
)
    ensures
        rx_filled(
            c.with_rx_queue(c.state.rx_queue.advanced()),
            world,
            ring,
            head,
            buffer,
        ) == rx_filled(c, world, ring, head, buffer),
{
    let queue = c.state.rx_queue;
    assert(world.descriptor(queue.advanced(), head) == world.descriptor(queue, head));
    match buffer {
        Some((to, limit)) => {
            let desc = world.descriptor(queue, head)->Ok_0;
            let len = crate::transfer::copy_len(desc, world.held(ring) as u64, limit);
            let pulled = world.pulled(ring, to, len as nat);
            assert(pulled.handed_back(queue.advanced(), head, len) == pulled.handed_back(
                queue,
                head,
                len,
            ));
        },
        None => {
            assert(world.handed_back(queue.advanced(), head, 0) == world.handed_back(
                queue,
                head,
                0,
            ));
        },
    }
}

/// What the receive queue's processing has come to when it ends.
pub struct Received {
    pub console: ConsoleView,
    pub world: World,
}

/// Where the receive queue's processing from the ring number `index` on gets
/// to, if it takes no more than `turns` turns, each for one chain or for one
/// ring that is done with, and all of the chains can be dealt with.
pub open spec fn rx_outcome(c: ConsoleView, world: World, index: int, turns: nat) -> Option<
    Received,
>
    decreases turns,
{
    let queue = c.state.rx_queue;
    match c.connection {
        None => Some(Received { console: c, world }),
        Some(connection) => if index >= connection.recv_count() {
            Some(Received { console: c, world })
        } else if turns == 0 || index < 0 {
            None
        } else {
            match connection.recv_ring(index) {
                Err(_) => None,
                Ok(ring) => if world.held(ring) < 0 {
                    None
                } else if world.held(ring) == 0 {
                    rx_outcome(c, world, index + 1, (turns - 1) as nat)
                } else {
                    match world.next_chain(queue) {
                        None => rx_outcome(c, world, index + 1, (turns - 1) as nat),
                        Some(head) => match world.descriptor(queue, head) {
                            Ok(desc) => if queue.size > 0 && world.can_fill(ring, desc) {
                                rx_outcome(
                                    c.with_rx_queue(queue.advanced()),
                                    rx_filled(c, world, ring, head, world.translate(desc.addr)),
                                    index,
                                    (turns - 1) as nat,
                                )
                            } else {
                                None
                            },
                            Err(_) => None,
                        },
                    }
                },
            }
        },
    }
}

impl crate::connection::ConnectionView {
    /// The ring number `index` that data is received from.
    pub open spec fn recv_ring(self, index: int) -> Result<SharedRing, Fault> {
        SharedRing::spec_at(index as usize, self.recv_buffers[index], self.buffer_size)
    }
}

/// Every connected ring is emptied, in order, as far as the guest has chains for
/// the data, before the receive queue's processing ends.
pub proof fn law_rx_deals_with_every_ring(c: ConsoleView, world: World, index: int, turns: nat)
    requires
        0 <= index,
        c.connection is Some ==> c.connection->Some_0.recv_count() <= usize::MAX,
        rx_outcome(c, world, index, turns) is Some,
    ensures
        ({
            let end = rx_outcome(c, world, index, turns)->Some_0;
            (System { console: c.rx_ring(index), world }).reaches(
                System { console: end.console.rx_end(), world: end.world },
            )
        }),
    decreases turns,
{
    let queue = c.state.rx_queue;
    let end = rx_outcome(c, world, index, turns)->Some_0;
    let goal = System { console: end.console.rx_end(), world: end.world };
    let start = System { console: c.rx_ring(index), world };
    crate::world::lemma_reaches_self(start);
    if let Some(connection) = c.connection {
        if index < connection.recv_count() {
            let ring = connection.recv_ring(index)->Ok_0;
            assert(start.console == c.rx(RxPhase::Poll { ring }));
            assert(ring.index == index);
            if world.held(ring) == 0 {
                law_rx_passes_an_empty_ring(c, world, ring);
                law_rx_deals_with_every_ring(c, world, index + 1, (turns - 1) as nat);
                crate::world::lemma_reaches_trans(
                    start,
                    System { console: c.rx_ring(index + 1), world },
                    goal,
                );
            } else if let Some(head) = world.next_chain(queue) {
                let desc = world.descriptor(queue, head)->Ok_0;
                let c2 = c.with_rx_queue(queue.advanced());
                let w2 = rx_filled(c, world, ring, head, world.translate(desc.addr));
                law_rx_fills_a_chain(c, world, ring);
                law_rx_deals_with_every_ring(c2, w2, index, (turns - 1) as nat);
                assert(c2.rx_ring(index) == c2.rx(RxPhase::Poll { ring }));
                crate::world::lemma_reaches_trans(
                    start,
                    System { console: c2.rx_ring(index), world: w2 },
                    goal,
                );
            } else {
                law_rx_leaves_data_without_a_chain(c, world, ring);
                law_rx_deals_with_every_ring(c, world, index + 1, (turns - 1) as nat);
                crate::world::lemma_reaches_trans(
                    start,
                    System { console: c.rx_ring(index + 1), world },
                    goal,
                );
            }
        }
    }
}

/// A notification of the transmit queue brings in what other VMs have sent
/// before it sends what the guest has to send; a notification of any other
/// queue only brings in.
pub proof fn law_notification_brings_in_then_sends(
    c: ConsoleView,
    world: World,
    queue_idx: u32,
    turns: nat,
    chains: nat,
    fuel: nat,
)
    requires
        c.connection is Some ==> c.connection->Some_0.recv_count() <= usize::MAX,
        rx_outcome(
            ConsoleView { tx_follows: queue_idx == 1, ..c },
            world,
            0,
            turns,
        ) is Some,
    ensures
        ({
            let noted = ConsoleView { tx_follows: queue_idx == 1, ..c };
            let end = rx_outcome(noted, world, 0, turns)->Some_0;
            let start = System { console: c.notified(queue_idx), world };
            let ready = ConsoleView { tx_follows: false, ..end.console };
            &&& queue_idx != 1 ==> start.reaches(
                System { console: end.console.enter(Phase::Idle), world: end.world },
            )
            &&& queue_idx == 1 ==> match crate::tx_laws::tx_outcome(
                ready,
                end.world,
                chains,
                fuel,
            ) {
                Some(sent) => start.reaches(sent),
                None => true,
            }
        }),
{
    let noted = ConsoleView { tx_follows: queue_idx == 1, ..c };
    let end = rx_outcome(noted, world, 0, turns)->Some_0;
    let start = System { console: c.notified(queue_idx), world };
    law_rx_deals_with_every_ring(noted, world, 0, turns);
    law_rx_changes_only_its_position(noted, world, 0, turns);
    let mid = System { console: end.console.rx_end(), world: end.world };
    assert(start.reaches(mid));
    if queue_idx == 1 {
        let ready = ConsoleView { tx_follows: false, ..end.console };
        if let Some(sent) = crate::tx_laws::tx_outcome(ready, end.world, chains, fuel) {
            crate::tx_laws::law_tx_deals_with_every_chain(ready, end.world, chains, fuel);
            crate::world::lemma_reaches_trans(start, mid, sent);
        }
    }
}

/// The receive queue's processing changes nothing of the device but the receive
/// queue's position: the interrupt status, the transmit queue and the
/// connections stay as they are, whatever memory holds.
pub proof fn law_rx_changes_only_its_position(c: ConsoleView, world: World, index: int, turns: nat)
    requires
        rx_outcome(c, world, index, turns) is Some,
    ensures
        ({
            let end = rx_outcome(c, world, index, turns)->Some_0;
            let last_avail_idx = end.console.state.rx_queue.last_avail_idx;
            end.console == c.with_rx_queue(QueueView { last_avail_idx, ..c.state.rx_queue })
        }),
    decreases turns,
{
    let queue = c.state.rx_queue;
    if let Some(connection) = c.connection {
        if index < connection.recv_count() {
            let ring = connection.recv_ring(index)->Ok_0;
            if world.held(ring) == 0 || world.next_chain(queue) is None {
                law_rx_changes_only_its_position(c, world, index + 1, (turns - 1) as nat);
            } else {
                let head = world.next_chain(queue)->Some_0;
                let desc = world.descriptor(queue, head)->Ok_0;
                law_rx_changes_only_its_position(
                    c.with_rx_queue(queue.advanced()),
                    rx_filled(c, world, ring, head, world.translate(desc.addr)),
                    index,
                    (turns - 1) as nat,
                );
            }
        }
    }
}

} // verus!
