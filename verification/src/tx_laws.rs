//! What the transmit queue's processing comes to, for a host whose memory
//! nobody else touches.
use crate::connection::ConnectionView;
use crate::phase::{Phase, TxPhase};
use crate::queue::{DescriptorEvent, PopEvent, QueueView, UsedEvent, VirtqDesc};
use crate::request::Fault;
use crate::ring::SharedRing;
use crate::transfer::ConsoleView;
use crate::world::{System, World};
use vstd::prelude::*;

verus! {

/// How a descriptor chain turns out.
pub enum Verdict {
    /// The chain can be sent.
    Valid,
    /// The chain cannot be sent, and is handed back as it is.
    Invalid,
    /// A descriptor of the chain cannot be had.
    Broken(Fault),
    /// The chain is longer than was looked at.
    Unending,
}

/// A descriptor chain from end to end.
pub struct Chain {
    pub verdict: Verdict,
    /// The bytes from the driver, up to where the chain turned bad, if it did.
    pub data: Seq<u8>,
}

impl World {
    /// What the driver has put into the buffer of `desc`: nothing into one that
    /// is for the device to write. `None` if the buffer is not mapped.
    pub open spec fn payload(self, desc: VirtqDesc) -> Option<Seq<u8>> {
        if desc.is_writable() {
            Some(Seq::empty())
        } else {
            match self.translate(desc.addr) {
                Some((hpa, limit)) => Some(
                    self.bytes(hpa, crate::transfer::read_len(desc, limit)),
                ),
                None => None,
            }
        }
    }

    /// The chain of `queue` that goes on at the descriptor `idx`, after `data`,
    /// looking at no more than `fuel` descriptors.
    pub open spec fn chain(self, queue: QueueView, idx: u16, data: Seq<u8>, fuel: nat) -> Chain
        decreases fuel,
    {
        if fuel == 0 {
            Chain { verdict: Verdict::Unending, data }
        } else {
            match self.descriptor(queue, idx) {
                Err(fault) => Chain { verdict: Verdict::Broken(fault), data },
                Ok(desc) => if desc.is_void() {
                    Chain { verdict: Verdict::Invalid, data }
                } else {
                    match self.payload(desc) {
                        None => Chain { verdict: Verdict::Invalid, data },
                        Some(bytes) => if !desc.has_next() {
                            Chain { verdict: Verdict::Valid, data: data + bytes }
                        } else if desc.next >= queue.size {
                            Chain { verdict: Verdict::Invalid, data: data + bytes }
                        } else {
                            self.chain(queue, desc.next, data + bytes, (fuel - 1) as nat)
                        },
                    }
                },
            }
        }
    }
}

impl ConsoleView {
    pub open spec fn with_data(self, data: Seq<u8>) -> Self {
        ConsoleView { data, ..self }
    }

    /// The console once the chain that starts at `head` has turned out as `chain`.
    pub open spec fn tx_chain_end(self, head: u16, chain: Chain) -> Self {
        let c = self.with_data(chain.data);
        match chain.verdict {
            Verdict::Valid => c.tx_used(head, chain.data.len() as u32, true, UsedEvent::Begin),
            Verdict::Invalid => c.tx_invalid(head),
            Verdict::Broken(fault) => c.abort(fault),
            Verdict::Unending => c,
        }
    }
}

/// Collecting a chain reads every descriptor from the first to the one without a
/// successor, and gathers what the driver put into the buffers, in order.
/// Nothing is written meanwhile.
pub proof fn law_chain_is_gathered(
    c: ConsoleView,
    world: World,
    head: u16,
    idx: u16,
    fuel: nat,
)
    requires
        !(world.chain(c.state.tx_queue, idx, c.data, fuel).verdict is Unending),
    ensures
        (System { console: c.tx_descriptor(head, DescriptorEvent::Begin { idx }), world }).reaches(
            System {
                console: c.tx_chain_end(
                    head,
                    world.chain(c.state.tx_queue, idx, c.data, fuel),
                ),
                world,
            },
        ),
    decreases fuel, 1int,
{
    let queue = c.state.tx_queue;
    let chain = world.chain(queue, idx, c.data, fuel);
    let goal = System { console: c.tx_chain_end(head, chain), world };
    let s0 = System { console: c.tx_descriptor(head, DescriptorEvent::Begin { idx }), world };
    crate::world::lemma_reaches_self(s0);
    assert(c.with_data(c.data) =~= c);
    if idx >= queue.size || queue.descriptor_address(idx) > u64::MAX {
        assert(s0 == goal);
    } else {
        let gpa = queue.descriptor_address(idx) as u64;
        assert(s0.console == c.tx(TxPhase::Table { head, gpa }));
        let s1 = System {
            console: c.tx_descriptor(head, DescriptorEvent::Entry(world.locate(gpa))),
            world,
        };
        assert(s0.tick() == s1);
        crate::world::lemma_reaches_next(s0, s0, s1);
        if let Some(hva) = world.locate(gpa) {
            let desc = crate::world::descriptor_at(world.ram, hva as int);
            assert(s1.console == c.tx(TxPhase::Descriptor { head, hva }));
            if desc.is_void() {
                assert(s1.tick() == goal);
                crate::world::lemma_reaches_next(s0, s1, goal);
            } else if desc.is_writable() {
                assert(c.data + Seq::<u8>::empty() =~= c.data);
                let s2 = System { console: c.tx_link(head, desc), world };
                assert(s1.tick() == s2);
                crate::world::lemma_reaches_next(s0, s1, s2);
                lemma_link(c, world, head, desc, fuel);
                crate::world::lemma_reaches_trans(s0, s2, goal);
            } else {
                let s2 = System { console: c.tx(TxPhase::Buffer { head, desc }), world };
                assert(s1.tick() == s2);
                crate::world::lemma_reaches_next(s0, s1, s2);
                match world.translate(desc.addr) {
                    None => {
                        assert(s2.tick() == goal);
                        crate::world::lemma_reaches_next(s0, s2, goal);
                    },
                    Some((hpa, limit)) => {
                        let count = crate::transfer::read_len(desc, limit);
                        let s3 = System {
                            console: c.tx(TxPhase::Data { head, desc, hva: hpa, count }),
                            world,
                        };
                        assert(s2.tick() == s3);
                        crate::world::lemma_reaches_next(s0, s2, s3);
                        let c2 = c.with_data(c.data + world.bytes(hpa, count));
                        let s4 = System { console: c2.tx_link(head, desc), world };
                        assert(s3.tick() == s4);
                        crate::world::lemma_reaches_next(s0, s3, s4);
                        lemma_link(c2, world, head, desc, fuel);
                        assert(c2.tx_chain_end(head, chain) == c.tx_chain_end(head, chain));
                        crate::world::lemma_reaches_trans(s0, s4, goal);
                    },
                }
            }
        } else {
            assert(s1 == goal);
        }
    }
}

/// The step from one descriptor of a chain, whose buffer is dealt with, to the
/// end of the chain.
proof fn lemma_link(c: ConsoleView, world: World, head: u16, desc: VirtqDesc, fuel: nat)
    requires
        fuel > 0,
        desc.has_next() && desc.next < c.state.tx_queue.size ==> !(world.chain(
            c.state.tx_queue,
            desc.next,
            c.data,
            (fuel - 1) as nat,
        ).verdict is Unending),
    ensures
        ({
            let queue = c.state.tx_queue;
            let chain = if !desc.has_next() {
                Chain { verdict: Verdict::Valid, data: c.data }
            } else if desc.next >= queue.size {
                Chain { verdict: Verdict::Invalid, data: c.data }
            } else {
                world.chain(queue, desc.next, c.data, (fuel - 1) as nat)
            };
            (System { console: c.tx_link(head, desc), world }).reaches(
                System { console: c.tx_chain_end(head, chain), world },
            )
        }),
    decreases fuel, 0int,
{
    let s0 = System { console: c.tx_link(head, desc), world };
    crate::world::lemma_reaches_self(s0);
    assert(c.with_data(c.data) =~= c);
    if desc.has_next() && desc.next < c.state.tx_queue.size {
        law_chain_is_gathered(c, world, head, desc.next, (fuel - 1) as nat);
    }
}

impl World {
    /// `data` can be sent to the rings of `connection` from number `index` on:
    /// their buffers can be worked with, their indices are in order, and their
    /// write indices stay representable.
    pub open spec fn can_forward(
        self,
        connection: ConnectionView,
        data: Seq<u8>,
        index: int,
    ) -> bool
        decreases connection.send_count() - index,
    {
        if 0 <= index < connection.send_count() {
            match connection.send_ring(index) {
                Ok(ring) => {
                    &&& data.len() > 0 ==> self.read_idx(ring.base) <= self.write_idx(ring.base)
                    &&& self.write_idx(ring.base) + self.push_len(ring, data) <= u64::MAX
                    &&& self.pushed(ring, data).can_forward(connection, data, index + 1)
                },
                Err(_) => false,
            }
        } else {
            true
        }
    }

    /// The host after `data` is sent to the rings of `connection` from number
    /// `index` on.
    pub open spec fn forwarded(
        self,
        connection: ConnectionView,
        data: Seq<u8>,
        index: int,
    ) -> Self
        decreases connection.send_count() - index,
    {
        if 0 <= index < connection.send_count() {
            match connection.send_ring(index) {
                Ok(ring) => self.pushed(ring, data).forwarded(connection, data, index + 1),
                Err(_) => self,
            }
        } else {
            self
        }
    }
}

impl ConnectionView {
    /// The ring number `index` that data is sent to.
    pub open spec fn send_ring(self, index: int) -> Result<SharedRing, Fault> {
        SharedRing::spec_at(index as usize, self.send_buffers[index], self.buffer_size)
    }
}

/// A chain that waits in the available ring is taken, and the queue moves on by
/// one entry.
pub proof fn law_tx_takes_the_next_chain(c: ConsoleView, world: World)
    requires
        c.state.tx_queue.size > 0,
        world.next_chain(c.state.tx_queue) is Some,
    ensures
        ({
            let head = world.next_chain(c.state.tx_queue)->Some_0;
            (System { console: c.tx_pop(PopEvent::Begin), world }).reaches(
                System {
                    console: c.with_tx_queue(c.state.tx_queue.advanced()).with_data(
                        Seq::empty(),
                    ).tx_descriptor(head, DescriptorEvent::Begin { idx: head }),
                    world,
                },
            )
        }),
{
    let queue = c.state.tx_queue;
    let ring = world.locate(queue.avail_ring)->Some_0;
    let head = world.next_chain(queue)->Some_0;
    let idx_hva = crate::queue::host_offset(ring, crate::queue::RING_IDX_OFFSET as int);
    let idx = world.half(idx_hva);
    let hva = crate::queue::host_offset(ring, queue.avail_entry_offset());
    let s0 = System { console: c.tx_pop(PopEvent::Begin), world };
    let s1 = System { console: c.tx_pop(PopEvent::Ring(Some(ring))), world };
    let s2 = System { console: c.tx_pop(PopEvent::Index { ring, idx }), world };
    let s3 = System { console: c.tx_pop(PopEvent::Entry { head }), world };
    assert(s0.console == c.tx(TxPhase::AvailRing { gpa: queue.avail_ring }));
    assert(s0.tick() == s1);
    assert(s1.console == c.tx(TxPhase::AvailIndex { avail: ring, hva: idx_hva }));
    assert(s1.tick() == s2);
    assert(s2.console == c.tx(TxPhase::AvailEntry { hva }));
    assert(s2.tick() == s3);
    crate::world::lemma_reaches_tick(s0);
    crate::world::lemma_reaches_next(s0, s1, s2);
    crate::world::lemma_reaches_next(s0, s2, s3);
}

/// When no chain waits, the transfer ends, with nothing written.
pub proof fn law_tx_ends_when_no_chain_waits(c: ConsoleView, world: World)
    requires
        world.next_chain(c.state.tx_queue) is None,
    ensures
        (System { console: c.tx_pop(PopEvent::Begin), world }).reaches(
            System { console: c.enter(Phase::Idle), world },
        ),
{
    let queue = c.state.tx_queue;
    let goal = System { console: c.enter(Phase::Idle), world };
    let s0 = System { console: c.tx_pop(PopEvent::Begin), world };
    crate::world::lemma_reaches_self(s0);
    if queue.ready {
        assert(s0.console == c.tx(TxPhase::AvailRing { gpa: queue.avail_ring }));
        let at = world.locate(queue.avail_ring);
        let s1 = System { console: c.tx_pop(PopEvent::Ring(at)), world };
        assert(s0.tick() == s1);
        crate::world::lemma_reaches_next(s0, s0, s1);
        if let Some(ring) = at {
            let hva = crate::queue::host_offset(ring, crate::queue::RING_IDX_OFFSET as int);
            assert(s1.console == c.tx(TxPhase::AvailIndex { avail: ring, hva }));
            assert(s1.tick() == goal);
            crate::world::lemma_reaches_next(s0, s1, goal);
        } else {
            assert(s1 == goal);
        }
    } else {
        assert(s0 == goal);
    }
}

/// A chain that is done with is handed back through the used ring, if that is
/// mapped.
pub proof fn law_tx_hands_the_chain_back(
    c: ConsoleView,
    world: World,
    head: u16,
    len: u32,
    valid: bool,
)
    requires
        c.state.tx_queue.size > 0,
    ensures
        (System { console: c.tx_used(head, len, valid, UsedEvent::Begin), world }).reaches(
            System {
                console: c.tx_used_done(valid),
                world: world.handed_back(c.state.tx_queue, head, len),
            },
        ),
{
    let queue = c.state.tx_queue;
    let goal = System {
        console: c.tx_used_done(valid),
        world: world.handed_back(queue, head, len),
    };
    let s0 = System { console: c.tx_used(head, len, valid, UsedEvent::Begin), world };
    let at = world.locate(queue.used_ring);
    let s1 = System { console: c.tx_used(head, len, valid, UsedEvent::Ring(at)), world };
    assert(s0.console == c.tx(TxPhase::UsedRing { head, len, valid, gpa: queue.used_ring }));
    assert(s0.tick() == s1);
    crate::world::lemma_reaches_tick(s0);
    if let Some(ring) = at {
        let hva = crate::queue::host_offset(ring, crate::queue::RING_IDX_OFFSET as int);
        let idx = world.half(hva);
        let update = world.used_update(queue, ring, head, len);
        let s2 = System { console: c.tx(TxPhase::Publish { valid, update }), world };
        assert(s1.console == c.tx(TxPhase::UsedIndex { head, len, valid, used: ring, hva }));
        assert(s1.tick() == s2);
        assert(s2.tick() == goal);
        crate::world::lemma_reaches_next(s0, s1, s2);
        crate::world::lemma_reaches_next(s0, s2, goal);
    }
}

/// The bytes of a chain go to a ring one by one, and then the ring's write index
/// moves on.
proof fn lemma_bytes_go_out(c: ConsoleView, world: World, ring: SharedRing, done: nat)
    requires
        c.data.len() <= usize::MAX,
        c.data.len() > 0 ==> world.read_idx(ring.base) <= world.write_idx(ring.base),
        world.write_idx(ring.base) + world.push_len(ring, c.data) <= u64::MAX,
        done <= world.push_len(ring, c.data),
    ensures
        ({
            let w = world.write_idx(ring.base);
            let r = world.read_idx(ring.base);
            let n = world.push_len(ring, c.data);
            (System {
                console: c.tx_byte(ring, (w + done) as u64, r, done as int),
                world: world.with_ram(
                    crate::ring_laws::write_slots(world.ram, ring, w as int, c.data, done),
                ),
            }).reaches(
                System {
                    console: c.tx(TxPhase::StoreWrite { ring, write_idx: (w + n) as u64 }),
                    world: world.with_ram(
                        crate::ring_laws::write_slots(world.ram, ring, w as int, c.data, n),
                    ),
                },
            )
        }),
    decreases world.push_len(ring, c.data) - done,
{
    let w = world.write_idx(ring.base);
    let r = world.read_idx(ring.base);
    let n = world.push_len(ring, c.data);
    let goal = System {
        console: c.tx(TxPhase::StoreWrite { ring, write_idx: (w + n) as u64 }),
        world: world.with_ram(
            crate::ring_laws::write_slots(world.ram, ring, w as int, c.data, n),
        ),
    };
    let s0 = System {
        console: c.tx_byte(ring, (w + done) as u64, r, done as int),
        world: world.with_ram(
            crate::ring_laws::write_slots(world.ram, ring, w as int, c.data, done),
        ),
    };
    if done == n {
        crate::world::lemma_reaches_self(s0);
    } else {
        let next = done + 1;
        let s1 = System {
            console: c.tx_byte(ring, (w + next) as u64, r, next as int),
            world: world.with_ram(
                crate::ring_laws::write_slots(world.ram, ring, w as int, c.data, next),
            ),
        };
        assert(s0.console == c.tx(
            TxPhase::Byte {
                ring,
                write_idx: (w + done) as u64,
                read_idx: r,
                done: done as usize,
            },
        ));
        assert(s0.tick() == s1);
        crate::world::lemma_reaches_tick(s0);
        lemma_bytes_go_out(c, world, ring, next);
        crate::world::lemma_reaches_trans(s0, s1, goal);
    }
}

/// The data of a valid chain goes to every ring that is connected for sending,
/// one after the other.
pub proof fn law_tx_forwards_the_data(
    c: ConsoleView,
    connection: ConnectionView,
    world: World,
    index: int,
)
    requires
        c.connection == Some(connection),
        connection.send_count() <= usize::MAX,
        c.data.len() <= usize::MAX,
        0 <= index,
        world.can_forward(connection, c.data, index),
    ensures
        (System { console: c.tx_ring(index), world }).reaches(
            System {
                console: c.tx_pop(PopEvent::Begin),
                world: world.forwarded(connection, c.data, index),
            },
        ),
    decreases connection.send_count() - index,
{
    let s0 = System { console: c.tx_ring(index), world };
    crate::world::lemma_reaches_self(s0);
    if index < connection.send_count() {
        let ring = connection.send_ring(index)->Ok_0;
        let w = world.write_idx(ring.base);
        let r = world.read_idx(ring.base);
        let n = world.push_len(ring, c.data);
        let after = world.pushed(ring, c.data);
        let s1 = System { console: c.tx_byte(ring, w, r, 0), world };
        let s2 = System {
            console: c.tx(TxPhase::StoreWrite { ring, write_idx: (w + n) as u64 }),
            world: world.with_ram(
                crate::ring_laws::write_slots(world.ram, ring, w as int, c.data, n),
            ),
        };
        let s3 = System { console: c.tx_ring(index + 1), world: after };
        assert(s0.console == c.tx(TxPhase::Indices { ring }));
        assert(s0.tick() == s1);
        crate::world::lemma_reaches_next(s0, s0, s1);
        lemma_bytes_go_out(c, world, ring, 0);
        assert(world.with_ram(world.ram) == world);
        crate::world::lemma_reaches_trans(s0, s1, s2);
        assert(s2.tick() == s3);
        crate::world::lemma_reaches_next(s0, s2, s3);
        law_tx_forwards_the_data(c, connection, after, index + 1);
        crate::world::lemma_reaches_trans(
            s0,
            s3,
            System {
                console: c.tx_pop(PopEvent::Begin),
                world: after.forwarded(connection, c.data, index + 1),
            },
        );
    }
}

impl World {
    /// `data` can be sent to all the rings of `connection`.
    pub open spec fn can_send(self, connection: Option<ConnectionView>, data: Seq<u8>) -> bool {
        match connection {
            Some(c) => c.send_count() <= usize::MAX && self.can_forward(c, data, 0),
            None => true,
        }
    }

    /// The host after `data` is sent to all the rings of `connection`.
    pub open spec fn sent(self, connection: Option<ConnectionView>, data: Seq<u8>) -> Self {
        match connection {
            Some(c) => self.forwarded(c, data, 0),
            None => self,
        }
    }
}

impl ConsoleView {
    /// The console after a chain with `data` is sent.
    pub open spec fn tx_after_valid(self, data: Seq<u8>) -> Self {
        let taken = self.with_tx_queue(self.state.tx_queue.advanced());
        ConsoleView { state: taken.state.with_interrupt(), data, ..taken }
    }

    /// The console after a chain that cannot be sent, with `data` in its good part.
    pub open spec fn tx_after_invalid(self, data: Seq<u8>) -> Self {
        self.with_tx_queue(self.state.tx_queue.advanced()).with_data(data)
    }
}

/// A valid chain is taken, its data is collected, the chain is handed back with
/// the number of bytes, the interrupt is raised, and the data goes to every
/// connected VM. Then the next chain has its turn.
pub proof fn law_tx_sends_a_valid_chain(c: ConsoleView, world: World, fuel: nat)
    requires
        c.state.tx_queue.size > 0,
        world.next_chain(c.state.tx_queue) is Some,
        ({
            let queue = c.state.tx_queue;
            let head = world.next_chain(queue)->Some_0;
            let chain = world.chain(queue, head, Seq::empty(), fuel);
            &&& chain.verdict is Valid
            &&& chain.data.len() <= usize::MAX
            &&& world.handed_back(queue, head, chain.data.len() as u32).can_send(
                c.connection,
                chain.data,
            )
        }),
    ensures
        ({
            let queue = c.state.tx_queue;
            let head = world.next_chain(queue)->Some_0;
            let data = world.chain(queue, head, Seq::empty(), fuel).data;
            (System { console: c.tx_pop(PopEvent::Begin), world }).reaches(
                System {
                    console: c.tx_after_valid(data).tx_pop(PopEvent::Begin),
                    world: world.handed_back(queue, head, data.len() as u32).sent(
                        c.connection,
                        data,
                    ),
                },
            )
        }),
{
    let queue = c.state.tx_queue;
    let head = world.next_chain(queue)->Some_0;
    let chain = world.chain(queue, head, Seq::empty(), fuel);
    let data = chain.data;
    let taken = c.with_tx_queue(queue.advanced());
    let start = System { console: c.tx_pop(PopEvent::Begin), world };
    law_tx_takes_the_next_chain(c, world);
    let fresh = taken.with_data(Seq::empty());
    lemma_chain_ignores_position(world, queue, queue.advanced(), head, Seq::empty(), fuel);
    law_chain_is_gathered(fresh, world, head, head, fuel);
    let s1 = System {
        console: fresh.tx_descriptor(head, DescriptorEvent::Begin { idx: head }),
        world,
    };
    let full = taken.with_data(data);
    let s2 = System {
        console: full.tx_used(head, data.len() as u32, true, UsedEvent::Begin),
        world,
    };
    assert(fresh.tx_chain_end(head, chain) == s2.console);
    crate::world::lemma_reaches_trans(start, s1, s2);
    law_tx_hands_the_chain_back(full, world, head, data.len() as u32, true);
    let back = world.handed_back(queue, head, data.len() as u32);
    let sending = c.tx_after_valid(data);
    let s3 = System { console: sending.tx_ring(0), world: back };
    assert(world.handed_back(queue.advanced(), head, data.len() as u32) == back);
    assert(full.tx_used_done(true) == s3.console);
    crate::world::lemma_reaches_trans(start, s2, s3);
    if let Some(connection) = c.connection {
        law_tx_forwards_the_data(sending, connection, back, 0);
        crate::world::lemma_reaches_trans(
            start,
            s3,
            System {
                console: sending.tx_pop(PopEvent::Begin),
                world: back.forwarded(connection, data, 0),
            },
        );
    }
}

/// Which chain is next does not matter for what a chain holds.
pub proof fn lemma_chain_ignores_position(
    world: World,
    a: QueueView,
    b: QueueView,
    idx: u16,
    data: Seq<u8>,
    fuel: nat,
)
    requires
        a.size == b.size,
        a.desc_table == b.desc_table,
    ensures
        world.chain(a, idx, data, fuel) == world.chain(b, idx, data, fuel),
    decreases fuel,
{
    if fuel > 0 {
        assert(world.descriptor(a, idx) == world.descriptor(b, idx));
        if let Ok(desc) = world.descriptor(a, idx) {
            if let Some(bytes) = world.payload(desc) {
                lemma_chain_ignores_position(
                    world,
                    a,
                    b,
                    desc.next,
                    data + bytes,
                    (fuel - 1) as nat,
                );
            }
        }
    }
}

/// An invalid chain is taken and handed back with no bytes; no interrupt is
/// raised, and no data goes anywhere. Then the next chain has its turn.
pub proof fn law_tx_returns_an_invalid_chain(c: ConsoleView, world: World, fuel: nat)
    requires
        c.state.tx_queue.size > 0,
        world.next_chain(c.state.tx_queue) is Some,
        ({
            let queue = c.state.tx_queue;
            let head = world.next_chain(queue)->Some_0;
            world.chain(queue, head, Seq::empty(), fuel).verdict is Invalid
        }),
    ensures
        ({
            let queue = c.state.tx_queue;
            let head = world.next_chain(queue)->Some_0;
            let data = world.chain(queue, head, Seq::empty(), fuel).data;
            (System { console: c.tx_pop(PopEvent::Begin), world }).reaches(
                System {
                    console: c.tx_after_invalid(data).tx_pop(PopEvent::Begin),
                    world: world.handed_back(queue, head, 0),
                },
            )
        }),
{
    let queue = c.state.tx_queue;
    let head = world.next_chain(queue)->Some_0;
    let chain = world.chain(queue, head, Seq::empty(), fuel);
    let taken = c.with_tx_queue(queue.advanced());
    let start = System { console: c.tx_pop(PopEvent::Begin), world };
    law_tx_takes_the_next_chain(c, world);
    let fresh = taken.with_data(Seq::empty());
    lemma_chain_ignores_position(world, queue, queue.advanced(), head, Seq::empty(), fuel);
    law_chain_is_gathered(fresh, world, head, head, fuel);
    let s1 = System {
        console: fresh.tx_descriptor(head, DescriptorEvent::Begin { idx: head }),
        world,
    };
    let full = taken.with_data(chain.data);
    let s2 = System { console: full.tx_invalid(head), world };
    assert(fresh.tx_chain_end(head, chain) == s2.console);
    crate::world::lemma_reaches_trans(start, s1, s2);
    law_tx_hands_the_chain_back(full, world, head, 0, false);
    assert(world.handed_back(queue.advanced(), head, 0) == world.handed_back(queue, head, 0));
    crate::world::lemma_reaches_trans(
        start,
        s2,
        System { console: full.tx_pop(PopEvent::Begin), world: world.handed_back(queue, head, 0) },
    );
}

/// Where the transmit queue's processing ends, if no more than `chains` chains
/// wait, none longer than `fuel` descriptors, and all of them can be dealt with.
pub open spec fn tx_outcome(c: ConsoleView, world: World, chains: nat, fuel: nat) -> Option<System>
    decreases chains,
{
    let queue = c.state.tx_queue;
    match world.next_chain(queue) {
        None => Some(System { console: c.enter(Phase::Idle), world }),
        Some(head) => {
            let chain = world.chain(queue, head, Seq::empty(), fuel);
            if chains == 0 || queue.size == 0 {
                None
            } else if chain.verdict is Valid {
                let back = world.handed_back(queue, head, chain.data.len() as u32);
                if chain.data.len() <= usize::MAX && back.can_send(c.connection, chain.data) {
                    tx_outcome(
                        c.tx_after_valid(chain.data),
                        back.sent(c.connection, chain.data),
                        (chains - 1) as nat,
                        fuel,
                    )
                } else {
                    None
                }
            } else if chain.verdict is Invalid {
                tx_outcome(
                    c.tx_after_invalid(chain.data),
                    world.handed_back(queue, head, 0),
                    (chains - 1) as nat,
                    fuel,
                )
            } else {
                None
            }
        },
    }
}

/// Every chain that waits in the transmit queue is dealt with, in order, before
/// the transfer ends.
pub proof fn law_tx_deals_with_every_chain(c: ConsoleView, world: World, chains: nat, fuel: nat)
    requires
        tx_outcome(c, world, chains, fuel) is Some,
    ensures
        (System { console: c.tx_pop(PopEvent::Begin), world }).reaches(
            tx_outcome(c, world, chains, fuel)->Some_0,
        ),
    decreases chains,
{
    let queue = c.state.tx_queue;
    let start = System { console: c.tx_pop(PopEvent::Begin), world };
    let end = tx_outcome(c, world, chains, fuel)->Some_0;
    match world.next_chain(queue) {
        None => {
            law_tx_ends_when_no_chain_waits(c, world);
        },
        Some(head) => {
            let chain = world.chain(queue, head, Seq::empty(), fuel);
            if chain.verdict is Valid {
                let back = world.handed_back(queue, head, chain.data.len() as u32);
                let c2 = c.tx_after_valid(chain.data);
                let w2 = back.sent(c.connection, chain.data);
                law_tx_sends_a_valid_chain(c, world, fuel);
                law_tx_deals_with_every_chain(c2, w2, (chains - 1) as nat, fuel);
                crate::world::lemma_reaches_trans(
                    start,
                    System { console: c2.tx_pop(PopEvent::Begin), world: w2 },
                    end,
                );
            } else {
                let c2 = c.tx_after_invalid(chain.data);
                let w2 = world.handed_back(queue, head, 0);
                law_tx_returns_an_invalid_chain(c, world, fuel);
                law_tx_deals_with_every_chain(c2, w2, (chains - 1) as nat, fuel);
                crate::world::lemma_reaches_trans(
                    start,
                    System { console: c2.tx_pop(PopEvent::Begin), world: w2 },
                    end,
                );
            }
        },
    }
}

} // verus!
