//! What a whole run of the receive queue comes to, from the first ring to the
//! last, where the rings, the queue and the buffers lie apart from each other
//! and nobody else touches memory.
use crate::connection::ConnectionView;
use crate::phase::Phase;
use crate::queue::{QueueView, VirtqUsedElem};
use crate::ring::SharedRing;
use crate::rx_laws::Received;
use crate::transfer::ConsoleView;
use crate::world::{System, World};
use vstd::prelude::*;

verus! {

impl ConnectionView {
    /// The rings that data is received from.
    pub open spec fn recv_rings(self) -> Seq<SharedRing> {
        Seq::new(self.recv_count(), |k: int| self.recv_ring(k)->Ok_0)
    }

    /// Every ring that data is received from has a number and a buffer that can
    /// be worked with.
    pub open spec fn recvs_usable(self) -> bool {
        &&& self.recv_count() <= usize::MAX
        &&& forall|k: int| 0 <= k < self.recv_count() ==> #[trigger] self.recv_ring(k) is Ok
    }
}

impl ConsoleView {
    /// The rings that data is received from.
    pub open spec fn recv_rings(self) -> Seq<SharedRing> {
        match self.connection {
            Some(connection) => connection.recv_rings(),
            None => Seq::empty(),
        }
    }
}

/// A chain that the guest has offered for data to go into.
pub struct Offer {
    pub head: u16,
    /// Where the buffer of the chain's first descriptor lies, if it is mapped,
    /// and how many bytes it takes.
    pub buffer: Option<(u64, u32)>,
}

/// What has become of an offer.
pub struct Fill {
    /// The ring that the bytes are from.
    pub ring: int,
    pub head: u16,
    /// Where the bytes are.
    pub to: u64,
    /// How many there are.
    pub len: u32,
}

impl Fill {
    /// `x` is the address of one of the bytes.
    pub open spec fn covers(self, x: int) -> bool {
        self.to <= x < self.to + self.len
    }
}

impl Offer {
    /// How many bytes go in.
    pub open spec fn takes(self) -> nat {
        match self.buffer {
            Some((_, size)) => size as nat,
            None => 0,
        }
    }

    /// `x` is an address of the buffer.
    pub open spec fn covers(self, x: int) -> bool {
        self.buffer matches Some((to, size)) && to <= x < to + size
    }

    /// The buffer lies in host memory.
    pub open spec fn in_memory(self) -> bool {
        self.buffer matches Some((to, size)) ==> to + size <= u64::MAX
    }

    /// How many bytes go in from a ring that holds `held`.
    pub open spec fn share(self, held: nat) -> nat {
        if held <= self.takes() {
            held
        } else {
            self.takes()
        }
    }

    /// The offer, filled from the ring number `ring`, which holds `held` bytes.
    pub open spec fn filled(self, ring: int, held: nat) -> Fill {
        Fill {
            ring,
            head: self.head,
            to: match self.buffer {
                Some((to, _)) => to,
                None => 0,
            },
            len: self.share(held) as u32,
        }
    }
}

/// What becomes of `offers` when the rings from number `index` on have their
/// turns, one after the other, and hold as many bytes as `held` says.
pub open spec fn fills(offers: Seq<Offer>, held: Seq<nat>, index: int) -> Seq<Fill>
    decreases held.len() - index, offers.len(),
{
    if index < 0 || held.len() <= index {
        Seq::empty()
    } else if held[index] == 0 || offers.len() == 0 {
        fills(offers, held, index + 1)
    } else {
        let n = offers[0].share(held[index]);
        seq![offers[0].filled(index, held[index])] + fills(
            offers.skip(1),
            held.update(index, (held[index] - n) as nat),
            index,
        )
    }
}

/// The bytes that `fills` have from the ring number `ring`, one after the other,
/// as they are found in memory.
pub open spec fn joined(world: World, fills: Seq<Fill>, ring: int) -> Seq<u8>
    decreases fills.len(),
{
    if fills.len() == 0 {
        Seq::empty()
    } else if fills[0].ring == ring {
        world.bytes(fills[0].to, fills[0].len as u64) + joined(world, fills.skip(1), ring)
    } else {
        joined(world, fills.skip(1), ring)
    }
}

/// What is handed back for `fills`: each head once, in order, with the number of
/// bytes that were brought in.
pub open spec fn rx_returns(fills: Seq<Fill>) -> Seq<VirtqUsedElem> {
    Seq::new(
        fills.len(),
        |j: int| VirtqUsedElem { id: fills[j].head as u32, len: fills[j].len },
    )
}

/// `x` is an address of the buffer of one of `offers`.
pub open spec fn offers_cover(offers: Seq<Offer>, x: int) -> bool {
    exists|j: int| 0 <= j < offers.len() && (#[trigger] offers[j]).covers(x)
}

/// The buffers of two offers have no byte in common.
pub open spec fn offers_apart(a: Offer, b: Offer) -> bool {
    forall|x: int| !(#[trigger] a.covers(x) && b.covers(x))
}

impl World {
    /// What the chain of `queue` that starts at `head` offers.
    pub open spec fn offer(self, queue: QueueView, head: u16) -> Offer {
        Offer {
            head,
            buffer: match self.descriptor(queue, head) {
                Ok(desc) => match self.translate(desc.addr) {
                    Some((to, limit)) => Some(
                        (
                            to,
                            if limit < desc.len {
                                limit as u32
                            } else {
                                desc.len
                            },
                        ),
                    ),
                    None => None,
                },
                Err(_) => None,
            },
        }
    }

    /// What the chains that wait in `queue` offer, the next one first.
    pub open spec fn offers(self, queue: QueueView) -> Seq<Offer> {
        Seq::new(self.waiting(queue), |j: int| self.offer(queue, self.waiting_head(queue, j)))
    }

    /// How many bytes each of `rings` holds.
    pub open spec fn all_held(self, rings: Seq<SharedRing>) -> Seq<nat> {
        Seq::new(rings.len(), |k: int| self.held(rings[k]) as nat)
    }

    /// The indices of every one of `rings` are in order.
    pub open spec fn rings_ordered(self, rings: Seq<SharedRing>) -> bool {
        forall|k: int| 0 <= k < rings.len() ==> self.ring_ordered(#[trigger] rings[k])
    }

    /// In `other`, `n` bytes are taken out of `ring`: its read index has grown
    /// by as much, and nothing else of it has changed.
    pub open spec fn ring_gave(self, other: World, ring: SharedRing, n: nat) -> bool {
        &&& n <= self.contents(ring).len()
        &&& other.contents(ring) == self.contents(ring).skip(n as int)
        &&& other.read_idx(ring.base) == self.read_idx(ring.base) + n
        &&& other.write_idx(ring.base) == self.write_idx(ring.base)
        &&& other.ring_ordered(ring)
        &&& self.ring_ok(ring) ==> other.ring_ok(ring)
        &&& forall|x: int|
            ring.covers(x) && !(ring.base + crate::ring::READ_IDX_OFFSET <= x < ring.base
                + crate::ring::RING_HEADER_SIZE) ==> #[trigger] other.ram[x] == self.ram[x]
    }
}

/// The memory that the receive queue's processing may write: the used ring, the
/// rings that data is received from, and the buffers that are offered.
pub open spec fn rx_area(c: ConsoleView, world: World) -> Set<int> {
    Set::new(
        |x: int|
            world.used_covers(c.state.rx_queue, x) || crate::areas::rings_cover(c.recv_rings(), x)
                || offers_cover(world.offers(c.state.rx_queue), x),
    )
}

/// Each of `offers` lies in host memory, apart from the used ring of `queue`,
/// from `rings` and from the other offers.
pub open spec fn offers_laid_out(
    world: World,
    queue: QueueView,
    rings: Seq<SharedRing>,
    offers: Seq<Offer>,
) -> bool {
    &&& forall|j: int| 0 <= j < offers.len() ==> (#[trigger] offers[j]).in_memory()
    &&& forall|j: int, x: int|
        0 <= j < offers.len() && #[trigger] offers[j].covers(x) ==> !world.used_covers(queue, x)
            && !crate::areas::rings_cover(rings, x)
    &&& forall|i: int, j: int|
        0 <= i < offers.len() && 0 <= j < offers.len() && i != j ==> offers_apart(
            #[trigger] offers[i],
            #[trigger] offers[j],
        )
}

/// The rings that data is received from, the receive queue, and the buffers that
/// wait in it lie apart from each other, so far as they are mapped.
pub open spec fn rx_laid_out(c: ConsoleView, world: World) -> bool {
    let queue = c.state.rx_queue;
    let rings = c.recv_rings();
    let area = rx_area(c, world);
    &&& queue.wf()
    &&& c.connection matches Some(connection) ==> connection.recvs_usable()
    &&& crate::areas::rings_laid_out(rings)
    &&& world.used_in_memory(queue)
    &&& forall|x: int|
        #[trigger] world.used_covers(queue, x) ==> !crate::areas::rings_cover(rings, x)
    &&& offers_laid_out(world, queue, rings, world.offers(queue))
    &&& world.avail_apart(queue, area)
    &&& forall|j: int|
        0 <= j < world.waiting(queue) ==> world.descriptor_apart(
            queue,
            #[trigger] world.waiting_head(queue, j),
            area,
        )
}

/// The next chain is filled from the ring number `index`.
pub open spec fn rx_turn(c: ConsoleView, world: World, index: int) -> Received {
    let queue = c.state.rx_queue;
    let head = world.waiting_head(queue, 0);
    let desc = world.descriptor(queue, head)->Ok_0;
    Received {
        console: c.with_rx_queue(queue.advanced()),
        world: crate::rx_laws::rx_filled(
            c,
            world,
            c.recv_rings()[index],
            head,
            world.translate(desc.addr),
        ),
    }
}

/// The ring number `index` holds data, and the next chain can be filled from it.
pub open spec fn rx_can_turn(c: ConsoleView, world: World, index: int) -> bool {
    let queue = c.state.rx_queue;
    let rings = c.recv_rings();
    &&& 0 <= index < rings.len()
    &&& world.held(rings[index]) > 0
    &&& world.waiting(queue) > 0
    &&& queue.size > 0
    &&& world.descriptor(queue, world.waiting_head(queue, 0)) matches Ok(desc)
        && world.can_fill(rings[index], desc)
}

/// The run is one turn and the rest of the run.
proof fn lemma_rx_outcome_turns(c: ConsoleView, world: World, index: int, turns: nat)
    requires
        0 <= index,
        c.connection matches Some(connection) ==> connection.recvs_usable(),
    ensures
        ({
            let rings = c.recv_rings();
            let outcome = crate::rx_laws::rx_outcome(c, world, index, turns);
            let turn = rx_turn(c, world, index);
            if index >= rings.len() {
                outcome == Some(Received { console: c, world })
            } else if turns == 0 || world.held(rings[index]) < 0 {
                outcome is None
            } else if world.held(rings[index]) == 0 || world.waiting(c.state.rx_queue) == 0 {
                outcome == crate::rx_laws::rx_outcome(c, world, index + 1, (turns - 1) as nat)
            } else if rx_can_turn(c, world, index) {
                outcome == crate::rx_laws::rx_outcome(
                    turn.console,
                    turn.world,
                    index,
                    (turns - 1) as nat,
                )
            } else {
                outcome is None
            }
        }),
{
    crate::areas::lemma_next_chain_waits(world, c.state.rx_queue);
    if let Some(connection) = c.connection {
        if index < connection.recv_count() {
            assert(connection.recv_ring(index) is Ok);
            assert(c.recv_rings()[index] == connection.recv_ring(index)->Ok_0);
        }
    }
}

/// The host after the first offer has its share of what the ring number `index`
/// holds, before the chain is handed back.
pub open spec fn rx_moved(c: ConsoleView, world: World, index: int) -> World {
    let ring = c.recv_rings()[index];
    let offer = world.offers(c.state.rx_queue)[0];
    match offer.buffer {
        Some((to, _)) => world.pulled(ring, to, offer.share(world.held(ring) as nat)),
        None => world,
    }
}

/// What moving the bytes of one turn does to memory.
proof fn lemma_rx_moved(c: ConsoleView, world: World, index: int)
    requires
        rx_laid_out(c, world),
        world.rings_ordered(c.recv_rings()),
        rx_can_turn(c, world, index),
    ensures
        ({
            let queue = c.state.rx_queue;
            let ring = c.recv_rings()[index];
            let offer = world.offers(queue)[0];
            let n = offer.share(world.held(ring) as nat);
            let fill = offer.filled(index, world.held(ring) as nat);
            let moved = rx_moved(c, world, index);
            &&& moved.guest == world.guest
            &&& moved.linear == world.linear
            &&& fill.len == n
            &&& moved.bytes(fill.to, fill.len as u64) == world.contents(ring).take(n as int)
            &&& world.ring_gave(moved, ring, n)
            &&& forall|x: int|
                !ring.covers(x) && !fill.covers(x) ==> #[trigger] moved.ram[x] == world.ram[x]
            &&& forall|x: int| #[trigger] fill.covers(x) ==> offer.covers(x)
            &&& rx_turn(c, world, index).world == moved.handed_back(queue, offer.head, n as u32)
        }),
{
    let queue = c.state.rx_queue;
    let ring = c.recv_rings()[index];
    let offers = world.offers(queue);
    let offer = offers[0];
    let held = world.held(ring) as nat;
    let n = offer.share(held);
    let desc = world.descriptor(queue, offer.head)->Ok_0;
    assert(ring.in_memory());
    assert(world.ring_ordered(ring));
    assert(offer == world.offer(queue, world.waiting_head(queue, 0)));
    assert(offer.in_memory());
    match offer.buffer {
        Some((to, size)) => {
            if n > 0 && !(to + n <= ring.base || ring.end() <= to) {
                let x = if to <= ring.base {
                    ring.base as int
                } else {
                    to as int
                };
                assert(ring.covers(x));
                assert(crate::areas::rings_cover(c.recv_rings(), x));
                assert(offers[0].covers(x));
                assert(false);
            }
            let limit = world.translate(desc.addr)->Some_0.1;
            assert(crate::transfer::copy_len(desc, held as u64, limit) == n);
            crate::ring_laws::law_pull_takes_the_oldest(world, ring, to, n);
        },
        None => {
            assert(world.bytes(0, 0) =~= world.contents(ring).take(0));
            assert(world.contents(ring).skip(0) =~= world.contents(ring));
        },
    }
}

/// What one turn does to memory.
proof fn lemma_rx_turn(c: ConsoleView, world: World, index: int)
    requires
        rx_laid_out(c, world),
        world.rings_ordered(c.recv_rings()),
        rx_can_turn(c, world, index),
    ensures
        ({
            let queue = c.state.rx_queue;
            let rings = c.recv_rings();
            let offer = world.offers(queue)[0];
            let held = world.held(rings[index]) as nat;
            let fill = offer.filled(index, held);
            let after = rx_turn(c, world, index).world;
            &&& world.same_outside(after, rx_area(c, world))
            &&& forall|x: int|
                !world.used_covers(queue, x) && !crate::areas::rings_cover(rings, x)
                    && !fill.covers(x) ==> #[trigger] after.ram[x] == world.ram[x]
            &&& after.bytes(fill.to, fill.len as u64) == world.contents(rings[index]).take(
                fill.len as int,
            )
            &&& fill.len == offer.share(held)
            &&& world.ring_gave(after, rings[index], fill.len as nat)
            &&& forall|k: int|
                0 <= k < rings.len() && k != index ==> world.same_ring(after, #[trigger] rings[k])
        }),
{
    let queue = c.state.rx_queue;
    let rings = c.recv_rings();
    let ring = rings[index];
    let offers = world.offers(queue);
    let offer = offers[0];
    let held = world.held(ring) as nat;
    let n = offer.share(held);
    let fill = offer.filled(index, held);
    let moved = rx_moved(c, world, index);
    let after = rx_turn(c, world, index).world;
    let area = rx_area(c, world);
    lemma_rx_moved(c, world, index);
    assert(moved.used_in_memory(queue));
    crate::areas::lemma_handing_back_writes_the_used_ring(moved, queue, offer.head, n as u32);
    assert forall|x: int| #[trigger] moved.used_covers(queue, x) == world.used_covers(queue, x) by {}
    assert forall|x: int|
        !world.used_covers(queue, x) && !crate::areas::rings_cover(rings, x) && !fill.covers(
            x,
        ) implies #[trigger] after.ram[x] == world.ram[x] by {
        assert(!rings[index].covers(x));
        assert(!moved.used_covers(queue, x));
        assert(after.ram[x] == moved.ram[x]);
    }
    assert forall|x: int| !area.contains(x) implies #[trigger] after.ram[x] == world.ram[x] by {
        assert(!world.used_covers(queue, x));
        assert(!crate::areas::rings_cover(rings, x));
        assert(!offers[0].covers(x)) by {
            assert(!offers_cover(offers, x));
        }
    }
    assert forall|k: int| 0 <= k < rings.len() implies moved.same_ring(after, #[trigger] rings[k]) by {
        assert forall|x: int| rings[k].covers(x) implies #[trigger] after.ram[x] == moved.ram[x] by {
            assert(crate::areas::rings_cover(rings, x));
            assert(!world.used_covers(queue, x));
            assert(!moved.used_covers(queue, x));
        }
    }
    crate::areas::lemma_ring_same(moved, after, ring);
    assert(world.ring_gave(after, ring, n)) by {
        assert(moved.same_ring(after, rings[index]));
        assert forall|x: int|
            ring.covers(x) && !(ring.base + crate::ring::READ_IDX_OFFSET <= x < ring.base
                + crate::ring::RING_HEADER_SIZE) implies #[trigger] after.ram[x] == world.ram[x] by {
            assert(moved.ram[x] == world.ram[x]);
        }
    }
    assert forall|k: int| 0 <= k < rings.len() && k != index implies world.same_ring(
        after,
        #[trigger] rings[k],
    ) by {
        assert(moved.same_ring(after, rings[k]));
        assert(crate::areas::rings_apart(rings[k], rings[index]));
        assert forall|x: int| rings[k].covers(x) implies #[trigger] after.ram[x] == world.ram[x] by {
            assert(crate::areas::rings_cover(rings, x));
            assert(!offers[0].covers(x));
            assert(moved.ram[x] == world.ram[x]);
        }
    }
    assert(after.bytes(fill.to, fill.len as u64) =~= moved.bytes(fill.to, fill.len as u64)) by {
        assert forall|i: int| 0 <= i < fill.len implies #[trigger] after.bytes(
            fill.to,
            fill.len as u64,
        )[i] == moved.bytes(fill.to, fill.len as u64)[i] by {
            let x = fill.to + i;
            assert(offers[0].covers(x));
            assert(!moved.used_covers(queue, x));
        }
    }
}

/// The offers that waited behind the one that was taken.
proof fn lemma_rx_offers_stay(world: World, after: World, queue: QueueView, area: Set<int>)
    requires
        world.same_outside(after, area),
        world.avail_apart(queue, area),
        queue.size > 0,
        world.waiting(queue) > 0,
        forall|j: int|
            0 <= j < world.waiting(queue) ==> world.descriptor_apart(
                queue,
                #[trigger] world.waiting_head(queue, j),
                area,
            ),
    ensures
        forall|j: int|
            0 <= j < after.waiting(queue.advanced()) ==> after.descriptor_apart(
                queue.advanced(),
                #[trigger] after.waiting_head(queue.advanced(), j),
                area,
            ),
        after.offers(queue.advanced()) == world.offers(queue).skip(1),
{
    let queue2 = queue.advanced();
    let old_offers = world.offers(queue);
    let new_offers = after.offers(queue2);
    crate::areas::lemma_waiting_goes_on(world, after, queue, area);
    assert forall|j: int| 0 <= j < after.waiting(queue2) implies after.descriptor_apart(
        queue2,
        #[trigger] after.waiting_head(queue2, j),
        area,
    ) by {
        let head = world.waiting_head(queue, j + 1);
        crate::areas::lemma_descriptor_same(world, after, queue, head, area);
    }
    assert forall|j: int| 0 <= j < new_offers.len() implies new_offers[j]
        == #[trigger] old_offers.skip(1)[j] by {
        let head = world.waiting_head(queue, j + 1);
        assert(after.waiting_head(queue2, j) == head);
        crate::areas::lemma_descriptor_same(world, after, queue, head, area);
        assert(after.descriptor(queue2, head) == after.descriptor(queue, head));
    }
    assert(new_offers =~= old_offers.skip(1));
}

/// What is apart from an area is apart from a part of it.
proof fn lemma_apart_from_part(world: World, queue: QueueView, part: Set<int>, area: Set<int>)
    requires
        forall|x: int| #[trigger] part.contains(x) ==> area.contains(x),
    ensures
        world.avail_apart(queue, area) ==> world.avail_apart(queue, part),
        forall|idx: u16|
            world.descriptor_apart(queue, idx, area) ==> #[trigger] world.descriptor_apart(
                queue,
                idx,
                part,
            ),
{
}

/// A turn leaves everything where it was, and the offers that waited behind the
/// one that it filled.
proof fn lemma_rx_stays_laid_out(c: ConsoleView, world: World, c2: ConsoleView, after: World)
    requires
        rx_laid_out(c, world),
        c.state.rx_queue.size > 0,
        world.waiting(c.state.rx_queue) > 0,
        world.same_outside(after, rx_area(c, world)),
        c2.state.rx_queue == c.state.rx_queue.advanced(),
        c2.connection == c.connection,
    ensures
        rx_laid_out(c2, after),
        after.offers(c2.state.rx_queue) == world.offers(c.state.rx_queue).skip(1),
        forall|x: int| #[trigger] rx_area(c2, after).contains(x) ==> rx_area(c, world).contains(x),
        forall|x: int|
            #[trigger] world.offers(c.state.rx_queue)[0].covers(x) ==> !rx_area(
                c2,
                after,
            ).contains(x),
{
    let queue = c.state.rx_queue;
    let queue2 = c2.state.rx_queue;
    let rings = c.recv_rings();
    let area = rx_area(c, world);
    let part = rx_area(c2, after);
    let offers = world.offers(queue);
    let rest = after.offers(queue2);
    lemma_rx_offers_stay(world, after, queue, area);
    crate::areas::lemma_waiting_goes_on(world, after, queue, area);
    assert forall|x: int| #[trigger] after.used_covers(queue2, x) == world.used_covers(queue, x) by {}
    assert forall|j: int| 0 <= j < rest.len() implies #[trigger] rest[j] == offers[j + 1] by {
        assert(rest[j] == offers.skip(1)[j]);
    }
    assert forall|x: int| #[trigger] part.contains(x) implies area.contains(x) by {
        if offers_cover(rest, x) {
            let j = choose|j: int| 0 <= j < rest.len() && (#[trigger] rest[j]).covers(x);
            assert(offers[j + 1].covers(x));
        }
    }
    lemma_apart_from_part(after, queue2, part, area);
    assert forall|x: int| #[trigger] offers[0].covers(x) implies !part.contains(x) by {
        if offers_cover(rest, x) {
            let j = choose|j: int| 0 <= j < rest.len() && (#[trigger] rest[j]).covers(x);
            assert(rest[j] == offers[j + 1]);
            assert(offers_apart(offers[0], offers[j + 1]));
        }
    }
    assert(offers_laid_out(after, queue2, rings, rest)) by {
        assert forall|j: int, x: int|
            0 <= j < rest.len() && #[trigger] rest[j].covers(x) implies !after.used_covers(
            queue2,
            x,
        ) && !crate::areas::rings_cover(rings, x) by {
            assert(offers[j + 1].covers(x));
        }
        assert forall|i: int, j: int|
            0 <= i < rest.len() && 0 <= j < rest.len() && i != j implies offers_apart(
            #[trigger] rest[i],
            #[trigger] rest[j],
        ) by {
            assert(offers_apart(offers[i + 1], offers[j + 1]));
        }
    }
}

/// What rings hold after one of them gave `n` bytes.
proof fn lemma_held_after_turn(
    world: World,
    after: World,
    rings: Seq<SharedRing>,
    index: int,
    n: nat,
)
    requires
        crate::areas::rings_laid_out(rings),
        world.rings_ordered(rings),
        0 <= index < rings.len(),
        world.ring_gave(after, rings[index], n),
        forall|k: int|
            0 <= k < rings.len() && k != index ==> world.same_ring(after, #[trigger] rings[k]),
    ensures
        after.rings_ordered(rings),
        after.all_held(rings) == world.all_held(rings).update(
            index,
            (world.all_held(rings)[index] - n) as nat,
        ),
        forall|k: int|
            0 <= k < rings.len() && k != index ==> world.ring_gave(after, #[trigger] rings[k], 0),
{
    assert forall|k: int| 0 <= k < rings.len() && k != index implies {
        &&& world.ring_gave(after, #[trigger] rings[k], 0)
        &&& after.held(rings[k]) == world.held(rings[k])
    } by {
        assert(rings[k].in_memory());
        crate::areas::lemma_ring_same(world, after, rings[k]);
        assert(world.contents(rings[k]).skip(0) =~= world.contents(rings[k]));
    }
    let held = world.all_held(rings);
    assert(world.ring_ordered(rings[index]));
    assert(after.all_held(rings) =~= held.update(index, (held[index] - n) as nat));
}

/// Bytes that a ring gives one after the other.
proof fn lemma_giving_adds(a: World, b: World, d: World, ring: SharedRing, m: nat, n: nat)
    requires
        a.ring_ordered(ring),
        a.ring_gave(b, ring, m),
        b.ring_gave(d, ring, n),
    ensures
        a.ring_gave(d, ring, m + n),
{
    assert(a.contents(ring).skip(m as int).skip(n as int) =~= a.contents(ring).skip(
        (m + n) as int,
    ));
    assert forall|x: int|
        ring.covers(x) && !(ring.base + crate::ring::READ_IDX_OFFSET <= x < ring.base
            + crate::ring::RING_HEADER_SIZE) implies #[trigger] d.ram[x] == a.ram[x] by {
        assert(b.ram[x] == a.ram[x]);
    }
}

/// The bytes that `list` has from `ring`, which is number `k`, and what the ring
/// holds in `end` are what it held in `world`; nothing else of it has changed.
pub open spec fn delivered(
    world: World,
    end: World,
    list: Seq<Fill>,
    ring: SharedRing,
    k: int,
) -> bool {
    &&& joined(end, list, k) + end.contents(ring) == world.contents(ring)
    &&& world.ring_gave(end, ring, joined(end, list, k).len())
}

proof fn lemma_nothing_delivered(world: World, ring: SharedRing, k: int)
    requires
        world.ring_ordered(ring),
    ensures
        delivered(world, world, Seq::empty(), ring, k),
{
    assert(Seq::<u8>::empty() + world.contents(ring) =~= world.contents(ring));
    assert(world.contents(ring).skip(0) =~= world.contents(ring));
}

/// One fill, and others after it.
proof fn lemma_delivery_adds(
    world: World,
    mid: World,
    end: World,
    fill: Fill,
    rest: Seq<Fill>,
    ring: SharedRing,
    k: int,
)
    requires
        world.ring_ordered(ring),
        world.ring_gave(
            mid,
            ring,
            if k == fill.ring {
                fill.len as nat
            } else {
                0
            },
        ),
        k == fill.ring ==> end.bytes(fill.to, fill.len as u64) == world.contents(ring).take(
            fill.len as int,
        ),
        delivered(mid, end, rest, ring, k),
    ensures
        delivered(world, end, seq![fill] + rest, ring, k),
{
    let list = seq![fill] + rest;
    assert(list.skip(1) =~= rest);
    let later = joined(end, rest, k);
    let held = world.contents(ring);
    let left = end.contents(ring);
    if k == fill.ring {
        let n = fill.len as int;
        let first = end.bytes(fill.to, fill.len as u64);
        lemma_giving_adds(world, mid, end, ring, n as nat, later.len());
        assert(joined(end, list, k) == first + later);
        assert((first + later) + left =~= first + (later + left));
        assert(held.take(n) + held.skip(n) =~= held);
    } else {
        lemma_giving_adds(world, mid, end, ring, 0, later.len());
        assert(joined(end, list, k) == later);
        assert(held.skip(0) =~= held);
    }
}

/// Whatever a run of the receive queue deals with, the bytes in the chains that
/// it fills from a ring, joined in the order in which the chains were taken, and
/// the bytes that the ring still holds are what the ring held. Of a ring only
/// the read index changes, and it neither moves back nor overtakes the write
/// index. Nothing else is written but the used ring and the buffers.
pub proof fn law_rx_delivers_in_order(c: ConsoleView, world: World, index: int, turns: nat)
    requires
        0 <= index,
        rx_laid_out(c, world),
        world.rings_ordered(c.recv_rings()),
        crate::rx_laws::rx_outcome(c, world, index, turns) is Some,
    ensures
        ({
            let rings = c.recv_rings();
            let end = crate::rx_laws::rx_outcome(c, world, index, turns)->Some_0;
            let list = fills(world.offers(c.state.rx_queue), world.all_held(rings), index);
            &&& forall|k: int|
                0 <= k < rings.len() ==> delivered(
                    world,
                    end.world,
                    list,
                    #[trigger] rings[k],
                    k,
                )
            &&& world.same_outside(end.world, rx_area(c, world))
        }),
    decreases turns,
{
    let queue = c.state.rx_queue;
    let rings = c.recv_rings();
    let offers = world.offers(queue);
    let held = world.all_held(rings);
    let end = crate::rx_laws::rx_outcome(c, world, index, turns)->Some_0;
    let list = fills(offers, held, index);
    lemma_rx_outcome_turns(c, world, index, turns);
    if index >= rings.len() {
        assert forall|k: int| 0 <= k < rings.len() implies delivered(
            world,
            end.world,
            list,
            #[trigger] rings[k],
            k,
        ) by {
            lemma_nothing_delivered(world, rings[k], k);
        }
    } else if world.held(rings[index]) == 0 || world.waiting(queue) == 0 {
        law_rx_delivers_in_order(c, world, index + 1, (turns - 1) as nat);
    } else {
        let turn = rx_turn(c, world, index);
        let fill = offers[0].filled(index, held[index]);
        lemma_rx_turn(c, world, index);
        lemma_rx_stays_laid_out(c, world, turn.console, turn.world);
        lemma_held_after_turn(world, turn.world, rings, index, fill.len as nat);
        law_rx_delivers_in_order(turn.console, turn.world, index, (turns - 1) as nat);
        let rest = fills(offers.skip(1), turn.world.all_held(rings), index);
        assert(list == seq![fill] + rest);
        lemma_fill_stays(turn.console, turn.world, end.world, fill, offers[0]);
        assert forall|k: int| 0 <= k < rings.len() implies delivered(
            world,
            end.world,
            list,
            #[trigger] rings[k],
            k,
        ) by {
            lemma_delivery_adds(world, turn.world, end.world, fill, rest, rings[k], k);
        }
        assert forall|x: int| !rx_area(c, world).contains(x) implies #[trigger] end.world.ram[x]
            == world.ram[x] by {
            assert(!rx_area(turn.console, turn.world).contains(x));
            assert(turn.world.ram[x] == world.ram[x]);
        }
    }
}

proof fn lemma_position_adds(c: ConsoleView, n: nat)
    ensures
        ({
            let queue = c.state.rx_queue;
            let taken = c.with_rx_queue(queue.advanced());
            &&& c.with_rx_queue(queue.moved_on(0)) == c
            &&& taken.with_rx_queue(queue.advanced().moved_on(n)) == c.with_rx_queue(
                queue.moved_on(n + 1),
            )
        }),
{
    let queue = c.state.rx_queue;
    vstd::arithmetic::div_mod::lemma_small_mod(queue.last_avail_idx as nat, 0x1_0000);
    assert(queue.moved_on(0) == queue);
    assert(queue.advanced().moved_on(n) == queue.moved_on(n + 1));
}

/// A run of the receive queue takes a chain for each fill, no more than wait,
/// and leaves the rest of the device as it was: its interrupt status, its
/// transmit queue and its connections among it.
pub proof fn law_rx_moves_only_its_position(c: ConsoleView, world: World, index: int, turns: nat)
    requires
        0 <= index,
        rx_laid_out(c, world),
        world.rings_ordered(c.recv_rings()),
        crate::rx_laws::rx_outcome(c, world, index, turns) is Some,
    ensures
        ({
            let queue = c.state.rx_queue;
            let end = crate::rx_laws::rx_outcome(c, world, index, turns)->Some_0;
            let list = fills(world.offers(queue), world.all_held(c.recv_rings()), index);
            &&& list.len() <= world.waiting(queue)
            &&& end.console == c.with_rx_queue(queue.moved_on(list.len()))
        }),
    decreases turns,
{
    let queue = c.state.rx_queue;
    let rings = c.recv_rings();
    let offers = world.offers(queue);
    let held = world.all_held(rings);
    let list = fills(offers, held, index);
    lemma_rx_outcome_turns(c, world, index, turns);
    if index >= rings.len() {
        lemma_position_adds(c, 0);
    } else if world.held(rings[index]) == 0 || world.waiting(queue) == 0 {
        law_rx_moves_only_its_position(c, world, index + 1, (turns - 1) as nat);
    } else {
        let turn = rx_turn(c, world, index);
        let fill = offers[0].filled(index, held[index]);
        lemma_rx_turn(c, world, index);
        lemma_rx_stays_laid_out(c, world, turn.console, turn.world);
        lemma_held_after_turn(world, turn.world, rings, index, fill.len as nat);
        law_rx_moves_only_its_position(turn.console, turn.world, index, (turns - 1) as nat);
        let rest = fills(offers.skip(1), turn.world.all_held(rings), index);
        assert(list == seq![fill] + rest);
        assert(turn.world.offers(queue.advanced()).len() == turn.world.waiting(queue.advanced()));
        lemma_position_adds(c, rest.len());
    }
}

/// `x` is the address of one of the bytes of `list`.
pub open spec fn fills_cover(list: Seq<Fill>, x: int) -> bool {
    exists|j: int| 0 <= j < list.len() && (#[trigger] list[j]).covers(x)
}

/// A run of the receive queue writes no byte of a buffer past those that it
/// brings in: it writes to the used ring, to the rings that it receives from,
/// and where it puts their bytes.
pub proof fn law_rx_writes_what_it_brings_in(c: ConsoleView, world: World, index: int, turns: nat)
    requires
        0 <= index,
        rx_laid_out(c, world),
        world.rings_ordered(c.recv_rings()),
        crate::rx_laws::rx_outcome(c, world, index, turns) is Some,
    ensures
        ({
            let queue = c.state.rx_queue;
            let rings = c.recv_rings();
            let end = crate::rx_laws::rx_outcome(c, world, index, turns)->Some_0;
            let list = fills(world.offers(queue), world.all_held(rings), index);
            forall|x: int|
                !world.used_covers(queue, x) && !crate::areas::rings_cover(rings, x)
                    && !fills_cover(list, x) ==> #[trigger] end.world.ram[x] == world.ram[x]
        }),
    decreases turns,
{
    let queue = c.state.rx_queue;
    let rings = c.recv_rings();
    let offers = world.offers(queue);
    let held = world.all_held(rings);
    let end = crate::rx_laws::rx_outcome(c, world, index, turns)->Some_0;
    let list = fills(offers, held, index);
    lemma_rx_outcome_turns(c, world, index, turns);
    if index < rings.len() {
        if world.held(rings[index]) == 0 || world.waiting(queue) == 0 {
            law_rx_writes_what_it_brings_in(c, world, index + 1, (turns - 1) as nat);
        } else {
            let turn = rx_turn(c, world, index);
            let fill = offers[0].filled(index, held[index]);
            lemma_rx_turn(c, world, index);
            lemma_rx_stays_laid_out(c, world, turn.console, turn.world);
            lemma_held_after_turn(world, turn.world, rings, index, fill.len as nat);
            law_rx_writes_what_it_brings_in(
                turn.console,
                turn.world,
                index,
                (turns - 1) as nat,
            );
            let rest = fills(offers.skip(1), turn.world.all_held(rings), index);
            assert(list == seq![fill] + rest);
            assert forall|x: int|
                !world.used_covers(queue, x) && !crate::areas::rings_cover(rings, x)
                    && !fills_cover(list, x) implies #[trigger] end.world.ram[x]
                == world.ram[x] by {
                assert(!list[0].covers(x));
                if fills_cover(rest, x) {
                    let j = choose|j: int| 0 <= j < rest.len() && (#[trigger] rest[j]).covers(x);
                    assert(list[j + 1] == rest[j]);
                    assert(list[j + 1].covers(x));
                }
                assert(!turn.world.used_covers(queue.advanced(), x));
                assert(turn.world.ram[x] == world.ram[x]);
            }
        }
    }
}

/// What a turn has brought in is not written again.
proof fn lemma_fill_stays(c: ConsoleView, world: World, end: World, fill: Fill, offer: Offer)
    requires
        world.same_outside(end, rx_area(c, world)),
        forall|x: int| #[trigger] offer.covers(x) ==> !rx_area(c, world).contains(x),
        fill.len <= offer.takes(),
        offer.buffer matches Some((to, _)) ==> fill.to == to,
    ensures
        end.bytes(fill.to, fill.len as u64) == world.bytes(fill.to, fill.len as u64),
{
    assert forall|i: int| 0 <= i < fill.len implies #[trigger] end.bytes(fill.to, fill.len as u64)[i]
        == world.bytes(fill.to, fill.len as u64)[i] by {
        assert(offer.covers(fill.to + i));
    }
    assert(end.bytes(fill.to, fill.len as u64) =~= world.bytes(fill.to, fill.len as u64));
}

/// Every chain that waits in `queue` starts at a descriptor that can be had.
pub open spec fn offers_readable(world: World, queue: QueueView) -> bool {
    forall|j: int|
        0 <= j < world.waiting(queue) ==> world.descriptor(
            queue,
            #[trigger] world.waiting_head(queue, j),
        ) is Ok
}

/// A run of the receive queue always comes to its end, where the rings, the
/// queue and the buffers lie apart from each other, every chain that waits
/// starts at a descriptor that can be had, and the indices of the rings are in
/// order. There is a turn for each of the chains and for each of the rings at
/// most.
pub proof fn law_rx_ends(c: ConsoleView, world: World, index: int, turns: nat)
    requires
        0 <= index <= c.recv_rings().len(),
        rx_laid_out(c, world),
        world.rings_ordered(c.recv_rings()),
        offers_readable(world, c.state.rx_queue),
        world.waiting(c.state.rx_queue) + c.recv_rings().len() - index <= turns,
    ensures
        crate::rx_laws::rx_outcome(c, world, index, turns) is Some,
        ({
            let end = crate::rx_laws::rx_outcome(c, world, index, turns)->Some_0;
            (System { console: c.rx_ring(index), world }).reaches(
                System { console: end.console.rx_end(), world: end.world },
            )
        }),
    decreases turns,
{
    let queue = c.state.rx_queue;
    let rings = c.recv_rings();
    lemma_rx_outcome_turns(c, world, index, turns);
    if index < rings.len() {
        let ring = rings[index];
        assert(world.ring_ordered(ring));
        if world.held(ring) == 0 || world.waiting(queue) == 0 {
            law_rx_ends(c, world, index + 1, (turns - 1) as nat);
        } else {
            assert(world.descriptor(queue, world.waiting_head(queue, 0)) is Ok);
            assert(rx_can_turn(c, world, index));
            let turn = rx_turn(c, world, index);
            let n = world.offers(queue)[0].filled(index, world.all_held(rings)[index]).len as nat;
            lemma_rx_turn(c, world, index);
            lemma_rx_stays_laid_out(c, world, turn.console, turn.world);
            lemma_held_after_turn(world, turn.world, rings, index, n);
            lemma_readable_stays(world, turn.world, queue, rx_area(c, world));
            law_rx_ends(turn.console, turn.world, index, (turns - 1) as nat);
        }
    }
    crate::rx_laws::law_rx_deals_with_every_ring(c, world, index, turns);
}

proof fn lemma_readable_stays(world: World, after: World, queue: QueueView, area: Set<int>)
    requires
        offers_readable(world, queue),
        world.same_outside(after, area),
        world.avail_apart(queue, area),
        queue.size > 0,
        world.waiting(queue) > 0,
        forall|j: int|
            0 <= j < world.waiting(queue) ==> world.descriptor_apart(
                queue,
                #[trigger] world.waiting_head(queue, j),
                area,
            ),
    ensures
        offers_readable(after, queue.advanced()),
        after.waiting(queue.advanced()) == world.waiting(queue) - 1,
{
    let queue2 = queue.advanced();
    crate::areas::lemma_waiting_goes_on(world, after, queue, area);
    assert forall|j: int| 0 <= j < after.waiting(queue2) implies after.descriptor(
        queue2,
        #[trigger] after.waiting_head(queue2, j),
    ) is Ok by {
        let head = world.waiting_head(queue, j + 1);
        assert(after.waiting_head(queue2, j) == head);
        crate::areas::lemma_descriptor_same(world, after, queue, head, area);
        assert(after.descriptor(queue2, head) == after.descriptor(queue, head));
    }
}

/// A run of the receive queue hands every chain that it takes back once, in
/// order: the used ring's index grows by their number, and its elements name
/// them and how many bytes they got.
pub proof fn law_rx_returns_every_chain(
    c: ConsoleView,
    world: World,
    used: u64,
    index: int,
    turns: nat,
)
    requires
        0 <= index,
        rx_laid_out(c, world),
        world.rings_ordered(c.recv_rings()),
        crate::rx_laws::rx_outcome(c, world, index, turns) is Some,
        world.locate(c.state.rx_queue.used_ring) == Some(used),
        world.waiting(c.state.rx_queue) <= c.state.rx_queue.size,
    ensures
        world.used_grew(
            crate::rx_laws::rx_outcome(c, world, index, turns)->Some_0.world,
            used,
            c.state.rx_queue.size,
            rx_returns(
                fills(
                    world.offers(c.state.rx_queue),
                    world.all_held(c.recv_rings()),
                    index,
                ),
            ),
        ),
    decreases turns,
{
    let queue = c.state.rx_queue;
    let rings = c.recv_rings();
    let offers = world.offers(queue);
    let held = world.all_held(rings);
    let end = crate::rx_laws::rx_outcome(c, world, index, turns)->Some_0;
    let list = fills(offers, held, index);
    lemma_rx_outcome_turns(c, world, index, turns);
    if index >= rings.len() {
        vstd::arithmetic::div_mod::lemma_small_mod(world.used_idx(used) as nat, 0x1_0000);
    } else if world.held(rings[index]) == 0 || world.waiting(queue) == 0 {
        law_rx_returns_every_chain(c, world, used, index + 1, (turns - 1) as nat);
    } else {
        let turn = rx_turn(c, world, index);
        let fill = offers[0].filled(index, held[index]);
        lemma_rx_turn(c, world, index);
        lemma_rx_stays_laid_out(c, world, turn.console, turn.world);
        lemma_held_after_turn(world, turn.world, rings, index, fill.len as nat);
        law_rx_moves_only_its_position(turn.console, turn.world, index, (turns - 1) as nat);
        crate::areas::lemma_waiting_goes_on(world, turn.world, queue, rx_area(c, world));
        law_rx_returns_every_chain(turn.console, turn.world, used, index, (turns - 1) as nat);
        let rest = fills(offers.skip(1), turn.world.all_held(rings), index);
        let first = VirtqUsedElem { id: fill.head as u32, len: fill.len };
        lemma_rx_turn_returns(c, world, used, index);
        crate::used_laws::lemma_used_adds(
            world,
            turn.world,
            end.world,
            queue,
            used,
            first,
            rx_returns(rest),
        );
        assert(list == seq![fill] + rest);
        assert(seq![first] + rx_returns(rest) =~= rx_returns(list));
    }
}

/// What one turn hands back.
proof fn lemma_rx_turn_returns(c: ConsoleView, world: World, used: u64, index: int)
    requires
        rx_laid_out(c, world),
        world.rings_ordered(c.recv_rings()),
        rx_can_turn(c, world, index),
        world.locate(c.state.rx_queue.used_ring) == Some(used),
    ensures
        ({
            let queue = c.state.rx_queue;
            let fill = world.offers(queue)[0].filled(
                index,
                world.held(c.recv_rings()[index]) as nat,
            );
            world.used_grew(
                rx_turn(c, world, index).world,
                used,
                queue.size,
                seq![VirtqUsedElem { id: fill.head as u32, len: fill.len }],
            )
        }),
{
    let queue = c.state.rx_queue;
    let rings = c.recv_rings();
    let offers = world.offers(queue);
    let moved = rx_moved(c, world, index);
    let n = offers[0].share(world.held(rings[index]) as nat);
    lemma_rx_moved(c, world, index);
    assert forall|x: int|
        used + crate::queue::RING_IDX_OFFSET <= x < used + crate::queue::RING_ENTRIES_OFFSET
            + crate::queue::USED_ELEM_SIZE * queue.size implies #[trigger] moved.ram[x]
        == world.ram[x] by {
        assert(world.used_covers(queue, x));
        assert(!crate::areas::rings_cover(rings, x));
        assert(!rings[index].covers(x));
        assert(!offers[0].covers(x));
    }
    crate::used_laws::lemma_used_same(world, moved, used, queue.size);
    crate::used_laws::lemma_used_gets_one(moved, queue, used, offers[0].head, n as u32);
}

/// How many bytes `offers` take in all.
pub open spec fn total_takes(offers: Seq<Offer>) -> nat
    decreases offers.len(),
{
    if offers.len() == 0 {
        0
    } else {
        offers[0].takes() + total_takes(offers.skip(1))
    }
}

/// How many bytes `elems` were handed back with in all.
pub open spec fn total_len(elems: Seq<VirtqUsedElem>) -> nat
    decreases elems.len(),
{
    if elems.len() == 0 {
        0
    } else {
        elems[0].len as nat + total_len(elems.skip(1))
    }
}

/// Where there is one ring to receive from, the chains that are filled get all
/// that it holds, as far as their buffers take it, and the numbers of bytes that
/// they are handed back with add up to that.
pub proof fn law_buffers_take_what_a_ring_holds(world: World, offers: Seq<Offer>, held: nat)
    ensures
        ({
            let list = fills(offers, seq![held], 0);
            &&& joined(world, list, 0).len() == total_len(rx_returns(list))
            &&& total_len(rx_returns(list)) == if held <= total_takes(offers) {
                held
            } else {
                total_takes(offers)
            }
        }),
    decreases offers.len(),
{
    let list = fills(offers, seq![held], 0);
    if held == 0 || offers.len() == 0 {
        assert(fills(offers, seq![held], 1) == Seq::<Fill>::empty());
        assert(list == Seq::<Fill>::empty());
    } else {
        let n = offers[0].share(held);
        let fill = offers[0].filled(0, held);
        let left = (held - n) as nat;
        let rest = fills(offers.skip(1), seq![left], 0);
        assert(seq![held].update(0, left) =~= seq![left]);
        assert(list == seq![fill] + rest);
        assert(list.skip(1) =~= rest);
        assert(rx_returns(list).skip(1) =~= rx_returns(rest));
        law_buffers_take_what_a_ring_holds(world, offers.skip(1), left);
    }
}

/// What `list` has from the ring number `ring`, in bytes.
pub open spec fn filled_from(list: Seq<Fill>, ring: int) -> nat
    decreases list.len(),
{
    if list.len() == 0 {
        0
    } else if list[0].ring == ring {
        list[0].len as nat + filled_from(list.skip(1), ring)
    } else {
        filled_from(list.skip(1), ring)
    }
}

proof fn lemma_joined_len(world: World, list: Seq<Fill>, ring: int)
    ensures
        joined(world, list, ring).len() == filled_from(list, ring),
    decreases list.len(),
{
    if list.len() > 0 {
        lemma_joined_len(world, list.skip(1), ring);
    }
}

/// A ring before the first one that has a turn gives nothing; while offers are
/// left over, every other ring gives all that it holds.
proof fn lemma_fills_by_ring(offers: Seq<Offer>, held: Seq<nat>, index: int, k: int)
    requires
        0 <= index,
        0 <= k < held.len(),
    ensures
        k < index ==> filled_from(fills(offers, held, index), k) == 0,
        k >= index && fills(offers, held, index).len() < offers.len() ==> filled_from(
            fills(offers, held, index),
            k,
        ) == held[k],
    decreases held.len() - index, offers.len(),
{
    let list = fills(offers, held, index);
    if index < held.len() {
        if held[index] == 0 || offers.len() == 0 {
            lemma_fills_by_ring(offers, held, index + 1, k);
        } else {
            let fill = offers[0].filled(index, held[index]);
            let left = held.update(index, (held[index] - offers[0].share(held[index])) as nat);
            let rest = fills(offers.skip(1), left, index);
            assert(list == seq![fill] + rest);
            assert(list.skip(1) =~= rest);
            lemma_fills_by_ring(offers.skip(1), left, index, k);
        }
    }
}

/// A ring that has had its turn holds data only if no chain is left for it.
pub proof fn law_rx_leaves_data_only_without_chains(
    c: ConsoleView,
    world: World,
    index: int,
    turns: nat,
    k: int,
)
    requires
        0 <= index <= k < c.recv_rings().len(),
        rx_laid_out(c, world),
        world.rings_ordered(c.recv_rings()),
        crate::rx_laws::rx_outcome(c, world, index, turns) is Some,
    ensures
        ({
            let queue = c.state.rx_queue;
            let rings = c.recv_rings();
            let end = crate::rx_laws::rx_outcome(c, world, index, turns)->Some_0;
            let list = fills(world.offers(queue), world.all_held(rings), index);
            end.world.contents(rings[k]).len() == 0 || list.len() == world.waiting(queue)
        }),
{
    let queue = c.state.rx_queue;
    let rings = c.recv_rings();
    let end = crate::rx_laws::rx_outcome(c, world, index, turns)->Some_0;
    let held = world.all_held(rings);
    let list = fills(world.offers(queue), held, index);
    law_rx_delivers_in_order(c, world, index, turns);
    law_rx_moves_only_its_position(c, world, index, turns);
    lemma_fills_by_ring(world.offers(queue), held, index, k);
    lemma_joined_len(end.world, list, k);
    assert(world.ring_ordered(rings[k]));
    assert(delivered(world, end.world, list, rings[k], k));
    assert(joined(end.world, list, k).len() + end.world.contents(rings[k]).len()
        == world.contents(rings[k]).len());
    assert(held[k] == world.contents(rings[k]).len());
}

/// A notification always comes to its end: the device is idle again once the
/// rings, and for the transmit queue the chains that wait there then, are dealt
/// with.
pub proof fn law_notification_ends(
    c: ConsoleView,
    world: World,
    queue_idx: u32,
    turns: nat,
    chains: nat,
    fuel: nat,
)
    requires
        rx_laid_out(c, world),
        world.rings_ordered(c.recv_rings()),
        offers_readable(world, c.state.rx_queue),
        world.waiting(c.state.rx_queue) + c.recv_rings().len() <= turns,
        queue_idx == 1 ==> ({
            let noted = ConsoleView { tx_follows: true, ..c };
            let mid = crate::rx_laws::rx_outcome(noted, world, 0, turns)->Some_0.world;
            let waiting = mid.waiting_chains(c.state.tx_queue, fuel);
            &&& crate::tx_run_laws::tx_laid_out(c, mid, fuel)
            &&& mid.rings_ok(c.send_rings())
            &&& crate::tx_run_laws::chains_end(waiting)
            &&& crate::tx_run_laws::indices_suffice(mid, c.send_rings(), waiting)
            &&& waiting.len() <= chains
        }),
    ensures
        ({
            let noted = ConsoleView { tx_follows: queue_idx == 1, ..c };
            let received = crate::rx_laws::rx_outcome(noted, world, 0, turns)->Some_0;
            let ready = ConsoleView { tx_follows: false, ..received.console };
            let end = if queue_idx == 1 {
                crate::tx_laws::tx_outcome(ready, received.world, chains, fuel)->Some_0
            } else {
                System { console: received.console.enter(Phase::Idle), world: received.world }
            };
            &&& (System { console: c.notified(queue_idx), world }).reaches(end)
            &&& end.console.phase is Idle
        }),
{
    let noted = ConsoleView { tx_follows: queue_idx == 1, ..c };
    assert(noted.recv_rings() == c.recv_rings());
    assert(rx_area(noted, world) == rx_area(c, world));
    law_rx_ends(noted, world, 0, turns);
    law_rx_moves_only_its_position(noted, world, 0, turns);
    let received = crate::rx_laws::rx_outcome(noted, world, 0, turns)->Some_0;
    let ready = ConsoleView { tx_follows: false, ..received.console };
    if queue_idx == 1 {
        assert(ready.state.tx_queue == c.state.tx_queue);
        assert(ready.send_rings() == c.send_rings());
        assert(crate::tx_run_laws::tx_area(ready, received.world) == crate::tx_run_laws::tx_area(
            c,
            received.world,
        ));
        crate::tx_run_laws::law_tx_ends(ready, received.world, chains, fuel);
        crate::tx_run_laws::law_tx_takes_every_chain(ready, received.world, chains, fuel);
    }
    crate::rx_laws::law_notification_brings_in_then_sends(
        c,
        world,
        queue_idx,
        turns,
        chains,
        fuel,
    );
}

/// Where there is no offer, nothing is filled.
proof fn lemma_no_offers_no_fills(held: Seq<nat>, index: int)
    ensures
        fills(Seq::empty(), held, index) == Seq::<Fill>::empty(),
    decreases held.len() - index,
{
    if 0 <= index < held.len() {
        lemma_no_offers_no_fills(held, index + 1);
    }
}

/// A ring gives bytes only once every ring before it has given all that it
/// holds.
pub proof fn law_rings_give_in_turn(
    offers: Seq<Offer>,
    held: Seq<nat>,
    index: int,
    k: int,
    later: int,
)
    requires
        0 <= index <= k < later < held.len(),
        filled_from(fills(offers, held, index), later) > 0,
    ensures
        filled_from(fills(offers, held, index), k) == held[k],
    decreases held.len() - index, offers.len(),
{
    let list = fills(offers, held, index);
    if offers.len() == 0 {
        assert(offers =~= Seq::<Offer>::empty());
        lemma_no_offers_no_fills(held, index);
    } else if held[index] == 0 {
        if k == index {
            lemma_fills_by_ring(offers, held, index + 1, k);
        } else {
            law_rings_give_in_turn(offers, held, index + 1, k, later);
        }
    } else {
        let fill = offers[0].filled(index, held[index]);
        let left = held.update(index, (held[index] - offers[0].share(held[index])) as nat);
        let rest = fills(offers.skip(1), left, index);
        assert(list == seq![fill] + rest);
        assert(list.skip(1) =~= rest);
        law_rings_give_in_turn(offers.skip(1), left, index, k, later);
    }
}

/// In a run of the receive queue, a ring has its turn only once every ring
/// before it is empty: if it gave anything, they hold nothing in the end.
pub proof fn law_rx_empties_rings_in_turn(
    c: ConsoleView,
    world: World,
    index: int,
    turns: nat,
    k: int,
    later: int,
)
    requires
        0 <= index <= k < later < c.recv_rings().len(),
        rx_laid_out(c, world),
        world.rings_ordered(c.recv_rings()),
        crate::rx_laws::rx_outcome(c, world, index, turns) is Some,
    ensures
        ({
            let rings = c.recv_rings();
            let end = crate::rx_laws::rx_outcome(c, world, index, turns)->Some_0;
            end.world.read_idx(rings[later].base) > world.read_idx(rings[later].base)
                ==> end.world.contents(rings[k]).len() == 0
        }),
{
    let rings = c.recv_rings();
    let offers = world.offers(c.state.rx_queue);
    let held = world.all_held(rings);
    let end = crate::rx_laws::rx_outcome(c, world, index, turns)->Some_0;
    let list = fills(offers, held, index);
    law_rx_delivers_in_order(c, world, index, turns);
    assert(delivered(world, end.world, list, rings[k], k));
    assert(delivered(world, end.world, list, rings[later], later));
    lemma_joined_len(end.world, list, k);
    lemma_joined_len(end.world, list, later);
    if filled_from(list, later) > 0 {
        law_rings_give_in_turn(offers, held, index, k, later);
        assert(world.ring_ordered(rings[k]));
        assert(joined(end.world, list, k).len() + end.world.contents(rings[k]).len()
            == world.contents(rings[k]).len());
    }
}

impl World {
    /// In `other`, no more has happened to `ring` than that bytes were taken
    /// out: its read index has not moved back nor past its write index, and the
    /// write index and every data slot are as they were.
    pub open spec fn ring_read(self, other: World, ring: SharedRing) -> bool {
        &&& other.write_idx(ring.base) == self.write_idx(ring.base)
        &&& self.read_idx(ring.base) <= other.read_idx(ring.base)
        &&& other.read_idx(ring.base) <= other.write_idx(ring.base)
        &&& forall|x: int|
            ring.covers(x) && !(ring.base + crate::ring::READ_IDX_OFFSET <= x < ring.base
                + crate::ring::RING_HEADER_SIZE) ==> #[trigger] other.ram[x] == self.ram[x]
    }

    /// No read index of `rings` is past its write index.
    pub open spec fn indices_ordered(self, rings: Seq<SharedRing>) -> bool {
        forall|k: int|
            0 <= k < rings.len() ==> self.read_idx((#[trigger] rings[k]).base) <= self.write_idx(
                rings[k].base,
            )
    }
}

/// The buffer of `offer` lies in host memory, apart from `rings`.
pub open spec fn offer_clear(offer: Offer, rings: Seq<SharedRing>) -> bool {
    &&& offer.in_memory()
    &&& forall|x: int| #[trigger] offer.covers(x) ==> !crate::areas::rings_cover(rings, x)
}

/// The rings that data is received from lie apart from the used ring of the
/// receive queue, and two of them overlap only where a buffer is listed twice.
pub open spec fn rx_rings_apart(c: ConsoleView, world: World) -> bool {
    let queue = c.state.rx_queue;
    &&& c.connection matches Some(connection) ==> connection.recvs_usable()
    &&& crate::areas::rings_separate(c.recv_rings())
    &&& world.used_in_memory(queue)
    &&& forall|x: int|
        #[trigger] world.used_covers(queue, x) ==> !crate::areas::rings_cover(c.recv_rings(), x)
}

/// Each buffer that a run of the receive queue from the ring number `index` on
/// comes to fill lies apart from the rings.
pub open spec fn rx_buffers_clear(c: ConsoleView, world: World, index: int, turns: nat) -> bool
    decreases turns,
{
    let queue = c.state.rx_queue;
    let rings = c.recv_rings();
    if index < 0 || rings.len() <= index || turns == 0 {
        true
    } else if world.held(rings[index]) == 0 || world.waiting(queue) == 0 {
        rx_buffers_clear(c, world, index + 1, (turns - 1) as nat)
    } else if rx_can_turn(c, world, index) {
        let turn = rx_turn(c, world, index);
        &&& offer_clear(world.offers(queue)[0], rings)
        &&& rx_buffers_clear(turn.console, turn.world, index, (turns - 1) as nat)
    } else {
        true
    }
}

proof fn lemma_same_is_read(a: World, b: World, ring: SharedRing)
    requires
        ring.in_memory(),
        a.read_idx(ring.base) <= a.write_idx(ring.base),
        a.same_ring(b, ring),
    ensures
        a.ring_read(b, ring),
{
    crate::areas::lemma_ring_same(a, b, ring);
}

proof fn lemma_reading_adds(a: World, b: World, d: World, ring: SharedRing)
    requires
        a.ring_read(b, ring),
        b.ring_read(d, ring),
    ensures
        a.ring_read(d, ring),
{
    assert forall|x: int|
        ring.covers(x) && !(ring.base + crate::ring::READ_IDX_OFFSET <= x < ring.base
            + crate::ring::RING_HEADER_SIZE) implies #[trigger] d.ram[x] == a.ram[x] by {
        assert(b.ram[x] == a.ram[x]);
    }
}

/// Moving the bytes of one turn only reads the rings.
proof fn lemma_rx_moved_reads(c: ConsoleView, world: World, index: int)
    requires
        crate::areas::rings_separate(c.recv_rings()),
        world.indices_ordered(c.recv_rings()),
        rx_can_turn(c, world, index),
        offer_clear(world.offers(c.state.rx_queue)[0], c.recv_rings()),
    ensures
        ({
            let queue = c.state.rx_queue;
            let rings = c.recv_rings();
            let offer = world.offers(queue)[0];
            let n = offer.share(world.held(rings[index]) as nat);
            let moved = rx_moved(c, world, index);
            &&& moved.guest == world.guest
            &&& moved.linear == world.linear
            &&& forall|k: int|
                0 <= k < rings.len() ==> world.ring_read(moved, #[trigger] rings[k])
            &&& forall|x: int|
                !crate::areas::rings_cover(rings, x) && !offer.covers(x)
                    ==> #[trigger] moved.ram[x] == world.ram[x]
            &&& rx_turn(c, world, index).world == moved.handed_back(queue, offer.head, n as u32)
        }),
{
    let queue = c.state.rx_queue;
    let rings = c.recv_rings();
    let ring = rings[index];
    let offer = world.offers(queue)[0];
    let held = world.held(ring) as nat;
    let n = offer.share(held);
    let desc = world.descriptor(queue, offer.head)->Ok_0;
    let moved = rx_moved(c, world, index);
    assert(ring.in_memory());
    assert(world.read_idx(ring.base) <= world.write_idx(ring.base));
    assert(offer == world.offer(queue, world.waiting_head(queue, 0)));
    if let Some((to, size)) = offer.buffer {
        if n > 0 && !(to + n <= ring.base || ring.end() <= to) {
            let x = if to <= ring.base {
                ring.base as int
            } else {
                to as int
            };
            assert(rings[index].covers(x));
            assert(crate::areas::rings_cover(rings, x));
            assert(offer.covers(x));
            assert(false);
        }
        let limit = world.translate(desc.addr)->Some_0.1;
        assert(crate::transfer::copy_len(desc, held as u64, limit) == n);
        crate::ring_laws::law_pull_moves_the_read_index(world, ring, to, n);
        assert forall|x: int|
            !crate::areas::rings_cover(rings, x) && !offer.covers(x) implies #[trigger] moved.ram[x]
            == world.ram[x] by {
            assert(!rings[index].covers(x));
        }
        assert forall|k: int| 0 <= k < rings.len() implies world.ring_read(
            moved,
            #[trigger] rings[k],
        ) by {
            assert(crate::areas::rings_same(rings[k], rings[index]) || crate::areas::rings_apart(
                rings[k],
                rings[index],
            ));
            assert forall|x: int|
                rings[k].covers(x) && !(ring.base + crate::ring::READ_IDX_OFFSET <= x < ring.base
                    + crate::ring::RING_HEADER_SIZE) implies #[trigger] moved.ram[x]
                == world.ram[x] by {
                assert(crate::areas::rings_cover(rings, x));
                assert(!offer.covers(x));
            }
            if crate::areas::rings_apart(rings[k], ring) {
                assert(rings[k].in_memory());
                lemma_same_is_read(world, moved, rings[k]);
            }
        }
    } else {
        assert forall|k: int| 0 <= k < rings.len() implies world.ring_read(
            moved,
            #[trigger] rings[k],
        ) by {
            lemma_same_is_read(world, moved, rings[k]);
        }
    }
}

/// One turn only reads the rings.
proof fn lemma_rx_turn_reads(c: ConsoleView, world: World, index: int)
    requires
        rx_rings_apart(c, world),
        world.indices_ordered(c.recv_rings()),
        rx_can_turn(c, world, index),
        offer_clear(world.offers(c.state.rx_queue)[0], c.recv_rings()),
    ensures
        ({
            let rings = c.recv_rings();
            let turn = rx_turn(c, world, index);
            &&& world.same_outside(turn.world, rx_area(c, world))
            &&& rx_rings_apart(turn.console, turn.world)
            &&& turn.console.recv_rings() == rings
            &&& turn.world.indices_ordered(rings)
            &&& forall|k: int|
                0 <= k < rings.len() ==> world.ring_read(turn.world, #[trigger] rings[k])
        }),
{
    let queue = c.state.rx_queue;
    let rings = c.recv_rings();
    let offers = world.offers(queue);
    let offer = offers[0];
    let n = offer.share(world.held(rings[index]) as nat);
    let moved = rx_moved(c, world, index);
    let turn = rx_turn(c, world, index);
    let after = turn.world;
    lemma_rx_moved_reads(c, world, index);
    assert forall|x: int| #[trigger] moved.used_covers(queue, x) == world.used_covers(queue, x) by {}
    assert(moved.used_in_memory(queue));
    crate::areas::lemma_handing_back_writes_the_used_ring(moved, queue, offer.head, n as u32);
    assert forall|k: int| 0 <= k < rings.len() implies world.ring_read(
        after,
        #[trigger] rings[k],
    ) by {
        assert(rings[k].in_memory());
        assert forall|x: int| rings[k].covers(x) implies #[trigger] after.ram[x] == moved.ram[x] by {
            assert(crate::areas::rings_cover(rings, x));
            assert(!moved.used_covers(queue, x));
        }
        assert(world.ring_read(moved, rings[k]));
        lemma_same_is_read(moved, after, rings[k]);
        lemma_reading_adds(world, moved, after, rings[k]);
    }
    assert forall|x: int| !rx_area(c, world).contains(x) implies #[trigger] after.ram[x]
        == world.ram[x] by {
        assert(!moved.used_covers(queue, x));
        assert(!offers[0].covers(x)) by {
            assert(!offers_cover(offers, x));
        }
    }
    assert(turn.console.recv_rings() == rings);
    assert forall|x: int|
        #[trigger] after.used_covers(queue.advanced(), x) implies !crate::areas::rings_cover(
        rings,
        x,
    ) by {
        assert(world.used_covers(queue, x));
    }
}

/// A run of the receive queue only reads the rings, as long as the buffers that
/// it comes to fill lie apart from them: in every ring the write index and all
/// data slots stay as they are, and the read index neither moves back nor past
/// the write index. The buffers may overlap each other and the queue, and a
/// buffer may be listed as a ring more than once.
pub proof fn law_rx_keeps_every_ring(c: ConsoleView, world: World, index: int, turns: nat)
    requires
        0 <= index,
        rx_rings_apart(c, world),
        world.indices_ordered(c.recv_rings()),
        rx_buffers_clear(c, world, index, turns),
        crate::rx_laws::rx_outcome(c, world, index, turns) is Some,
    ensures
        ({
            let rings = c.recv_rings();
            let end = crate::rx_laws::rx_outcome(c, world, index, turns)->Some_0;
            forall|k: int|
                0 <= k < rings.len() ==> world.ring_read(end.world, #[trigger] rings[k])
        }),
    decreases turns,
{
    let queue = c.state.rx_queue;
    let rings = c.recv_rings();
    let end = crate::rx_laws::rx_outcome(c, world, index, turns)->Some_0;
    lemma_rx_outcome_turns(c, world, index, turns);
    if index >= rings.len() {
        assert forall|k: int| 0 <= k < rings.len() implies world.ring_read(
            end.world,
            #[trigger] rings[k],
        ) by {
            lemma_same_is_read(world, end.world, rings[k]);
        }
    } else if world.held(rings[index]) == 0 || world.waiting(queue) == 0 {
        law_rx_keeps_every_ring(c, world, index + 1, (turns - 1) as nat);
    } else {
        let turn = rx_turn(c, world, index);
        lemma_rx_turn_reads(c, world, index);
        law_rx_keeps_every_ring(turn.console, turn.world, index, (turns - 1) as nat);
        assert forall|k: int| 0 <= k < rings.len() implies world.ring_read(
            end.world,
            #[trigger] rings[k],
        ) by {
            lemma_reading_adds(world, turn.world, end.world, rings[k]);
        }
    }
}

/// The available ring and the descriptors of the receive queue lie apart from
/// what its processing may write, and each buffer that waits there lies apart
/// from the rings.
pub open spec fn rx_queue_apart(c: ConsoleView, world: World) -> bool {
    let queue = c.state.rx_queue;
    let offers = world.offers(queue);
    let area = rx_area(c, world);
    &&& world.avail_apart(queue, area)
    &&& forall|j: int|
        0 <= j < world.waiting(queue) ==> world.descriptor_apart(
            queue,
            #[trigger] world.waiting_head(queue, j),
            area,
        )
    &&& forall|j: int|
        0 <= j < offers.len() ==> offer_clear(#[trigger] offers[j], c.recv_rings())
}

/// A turn leaves the queue apart from what is still to be written.
proof fn lemma_rx_queue_stays_apart(c: ConsoleView, world: World, c2: ConsoleView, after: World)
    requires
        rx_queue_apart(c, world),
        c.state.rx_queue.size > 0,
        world.waiting(c.state.rx_queue) > 0,
        world.same_outside(after, rx_area(c, world)),
        c2.state.rx_queue == c.state.rx_queue.advanced(),
        c2.connection == c.connection,
    ensures
        rx_queue_apart(c2, after),
{
    let queue = c.state.rx_queue;
    let queue2 = c2.state.rx_queue;
    let area = rx_area(c, world);
    let part = rx_area(c2, after);
    let offers = world.offers(queue);
    let rest = after.offers(queue2);
    lemma_rx_offers_stay(world, after, queue, area);
    crate::areas::lemma_waiting_goes_on(world, after, queue, area);
    assert forall|x: int| #[trigger] after.used_covers(queue2, x) == world.used_covers(queue, x) by {}
    assert forall|j: int| 0 <= j < rest.len() implies #[trigger] rest[j] == offers[j + 1] by {
        assert(rest[j] == offers.skip(1)[j]);
    }
    assert forall|x: int| #[trigger] part.contains(x) implies area.contains(x) by {
        if offers_cover(rest, x) {
            let j = choose|j: int| 0 <= j < rest.len() && (#[trigger] rest[j]).covers(x);
            assert(offers[j + 1].covers(x));
        }
    }
    lemma_apart_from_part(after, queue2, part, area);
}

/// Where the queue lies apart from what may be written, the buffers that a run
/// comes to fill are the ones that wait, and those lie apart from the rings.
pub proof fn law_waiting_buffers_stay_clear(c: ConsoleView, world: World, index: int, turns: nat)
    requires
        0 <= index,
        rx_rings_apart(c, world),
        rx_queue_apart(c, world),
        world.indices_ordered(c.recv_rings()),
    ensures
        rx_buffers_clear(c, world, index, turns),
    decreases turns,
{
    let queue = c.state.rx_queue;
    let rings = c.recv_rings();
    if index < rings.len() && turns > 0 {
        if world.held(rings[index]) == 0 || world.waiting(queue) == 0 {
            law_waiting_buffers_stay_clear(c, world, index + 1, (turns - 1) as nat);
        } else if rx_can_turn(c, world, index) {
            let turn = rx_turn(c, world, index);
            assert(offer_clear(world.offers(queue)[0], rings));
            lemma_rx_turn_reads(c, world, index);
            lemma_rx_queue_stays_apart(c, world, turn.console, turn.world);
            law_waiting_buffers_stay_clear(
                turn.console,
                turn.world,
                index,
                (turns - 1) as nat,
            );
        }
    }
}

/// Where rings lie apart from the receive queue and from the buffers that wait
/// there, a run of the receive queue only reads them, and changes nothing of the
/// device but the receive queue's position. The buffers may overlap each other,
/// and a buffer may be listed as a ring more than once.
pub proof fn law_rx_only_reads_the_rings(c: ConsoleView, world: World, index: int, turns: nat)
    requires
        0 <= index,
        rx_rings_apart(c, world),
        rx_queue_apart(c, world),
        world.indices_ordered(c.recv_rings()),
        crate::rx_laws::rx_outcome(c, world, index, turns) is Some,
    ensures
        ({
            let rings = c.recv_rings();
            let end = crate::rx_laws::rx_outcome(c, world, index, turns)->Some_0;
            let last_avail_idx = end.console.state.rx_queue.last_avail_idx;
            &&& forall|k: int|
                0 <= k < rings.len() ==> world.ring_read(end.world, #[trigger] rings[k])
            &&& end.console == c.with_rx_queue(QueueView { last_avail_idx, ..c.state.rx_queue })
        }),
{
    law_waiting_buffers_stay_clear(c, world, index, turns);
    law_rx_keeps_every_ring(c, world, index, turns);
    crate::rx_laws::law_rx_changes_only_its_position(c, world, index, turns);
}

} // verus!
