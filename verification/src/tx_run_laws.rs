//! What a whole run of the transmit queue comes to, from the first chain that
//! waits to the last, where the rings, the queue and the buffers lie apart from
//! each other and nobody else touches memory.
use crate::connection::ConnectionView;
use crate::phase::Phase;
use crate::queue::{PopEvent, QueueView, VirtqUsedElem};
use crate::ring::SharedRing;
use crate::state::StateView;
use crate::transfer::ConsoleView;
use crate::tx_laws::Chain;
use crate::world::{System, World};
use vstd::prelude::*;

verus! {

impl ConnectionView {
    /// The rings that data is sent to.
    pub open spec fn send_rings(self) -> Seq<SharedRing> {
        Seq::new(self.send_count(), |k: int| self.send_ring(k)->Ok_0)
    }

    /// Every ring that data is sent to has a number and a buffer that can be
    /// worked with.
    pub open spec fn sends_usable(self) -> bool {
        &&& self.send_count() <= usize::MAX
        &&& forall|k: int| 0 <= k < self.send_count() ==> #[trigger] self.send_ring(k) is Ok
    }
}

impl ConsoleView {
    /// The rings that data is sent to.
    pub open spec fn send_rings(self) -> Seq<SharedRing> {
        match self.connection {
            Some(connection) => connection.send_rings(),
            None => Seq::empty(),
        }
    }
}

impl QueueView {
    /// The queue after `n` entries of the available ring were taken.
    pub open spec fn moved_on(self, n: nat) -> Self {
        QueueView { last_avail_idx: ((self.last_avail_idx + n) % 0x1_0000) as u16, ..self }
    }
}

/// `data`, cut off where `room` bytes are reached.
pub open spec fn cut(data: Seq<u8>, room: nat) -> Seq<u8> {
    if data.len() <= room {
        data
    } else {
        data.take(room as int)
    }
}

/// What of `chain` goes into a ring that has room for `room` bytes: as much of
/// its data as fits, if it is valid.
pub open spec fn part_sent(chain: Chain, room: nat) -> Seq<u8> {
    if chain.verdict is Valid {
        cut(chain.data, room)
    } else {
        Seq::empty()
    }
}

/// What of `chains`, one after the other, goes into a ring that has room for
/// `room` bytes.
pub open spec fn accepted(chains: Seq<Chain>, room: nat) -> Seq<u8>
    decreases chains.len(),
{
    if chains.len() == 0 {
        Seq::empty()
    } else {
        let first = part_sent(chains[0], room);
        first + accepted(chains.skip(1), (room - first.len()) as nat)
    }
}

/// The data of the valid ones of `chains`, one after the other.
pub open spec fn valid_data(chains: Seq<Chain>) -> Seq<u8>
    decreases chains.len(),
{
    if chains.len() == 0 {
        Seq::empty()
    } else if chains[0].verdict is Valid {
        chains[0].data + valid_data(chains.skip(1))
    } else {
        valid_data(chains.skip(1))
    }
}

/// The number of bytes with which `chain` is handed back.
pub open spec fn returned_len(chain: Chain) -> u32 {
    if chain.verdict is Valid {
        chain.data.len() as u32
    } else {
        0
    }
}

/// One of `chains` is valid.
pub open spec fn some_valid(chains: Seq<Chain>) -> bool
    decreases chains.len(),
{
    chains.len() > 0 && (chains[0].verdict is Valid || some_valid(chains.skip(1)))
}

impl World {
    /// In `other`, `ring` holds `added` behind what it holds here. Its read
    /// index is where it was, its write index has grown by as much, and it
    /// holds no more than it can.
    pub open spec fn ring_grew(self, other: World, ring: SharedRing, added: Seq<u8>) -> bool {
        &&& other.contents(ring) == self.contents(ring) + added
        &&& other.read_idx(ring.base) == self.read_idx(ring.base)
        &&& other.write_idx(ring.base) == self.write_idx(ring.base) + added.len()
        &&& other.ring_ok(ring)
    }

    /// The indices of every one of `rings` are in order.
    pub open spec fn rings_ok(self, rings: Seq<SharedRing>) -> bool {
        forall|k: int| 0 <= k < rings.len() ==> self.ring_ok(#[trigger] rings[k])
    }
}

/// The memory that the transmit queue's processing may write: the used ring and
/// the rings that data is sent to.
pub open spec fn tx_area(c: ConsoleView, world: World) -> Set<int> {
    Set::new(
        |x: int|
            world.used_covers(c.state.tx_queue, x) || crate::areas::rings_cover(c.send_rings(), x),
    )
}

/// The rings that data is sent to lie in host memory, apart from each other and
/// from the used ring of the transmit queue.
pub open spec fn tx_memory_apart(c: ConsoleView, world: World) -> bool {
    let queue = c.state.tx_queue;
    &&& c.connection matches Some(connection) ==> connection.sends_usable()
    &&& crate::areas::rings_laid_out(c.send_rings())
    &&& world.used_in_memory(queue)
    &&& forall|x: int|
        #[trigger] world.used_covers(queue, x) ==> !crate::areas::rings_cover(c.send_rings(), x)
}

/// The rings that data is sent to, the transmit queue, and the chains that wait
/// in it, of `fuel` descriptors at most, lie apart from each other, so far as
/// they are mapped.
pub open spec fn tx_laid_out(c: ConsoleView, world: World, fuel: nat) -> bool {
    let queue = c.state.tx_queue;
    let area = tx_area(c, world);
    &&& queue.wf()
    &&& tx_memory_apart(c, world)
    &&& world.avail_apart(queue, area)
    &&& forall|j: int|
        0 <= j < world.waiting(queue) ==> world.chain_apart(
            queue,
            #[trigger] world.waiting_head(queue, j),
            fuel,
            area,
        )
}

/// The next chain of the transmit queue is dealt with.
pub open spec fn tx_turn(c: ConsoleView, world: World, fuel: nat) -> System {
    let queue = c.state.tx_queue;
    let head = world.waiting_head(queue, 0);
    let chain = world.chain(queue, head, Seq::empty(), fuel);
    let back = world.handed_back(queue, head, returned_len(chain));
    if chain.verdict is Valid {
        System {
            console: c.tx_after_valid(chain.data),
            world: back.sent(c.connection, chain.data),
        }
    } else {
        System { console: c.tx_after_invalid(chain.data), world: back }
    }
}

/// The next chain of the transmit queue can be dealt with.
pub open spec fn tx_can_turn(c: ConsoleView, world: World, fuel: nat) -> bool {
    let queue = c.state.tx_queue;
    let head = world.waiting_head(queue, 0);
    let chain = world.chain(queue, head, Seq::empty(), fuel);
    let back = world.handed_back(queue, head, returned_len(chain));
    &&& queue.size > 0
    &&& world.waiting(queue) > 0
    &&& (chain.verdict is Valid && chain.data.len() <= usize::MAX && back.can_send(
        c.connection,
        chain.data,
    )) || chain.verdict is Invalid
}

/// The run is one turn and the rest of the run.
pub proof fn lemma_tx_outcome_turns(c: ConsoleView, world: World, chains: nat, fuel: nat)
    ensures
        ({
            let outcome = crate::tx_laws::tx_outcome(c, world, chains, fuel);
            let turn = tx_turn(c, world, fuel);
            if world.waiting(c.state.tx_queue) == 0 {
                outcome == Some(System { console: c.enter(Phase::Idle), world })
            } else if chains > 0 && tx_can_turn(c, world, fuel) {
                outcome == crate::tx_laws::tx_outcome(
                    turn.console,
                    turn.world,
                    (chains - 1) as nat,
                    fuel,
                )
            } else {
                outcome is None
            }
        }),
{
    crate::areas::lemma_next_chain_waits(world, c.state.tx_queue);
}

/// Sending to one ring after the other appends to each of them, and a ring's
/// turn does not disturb the others.
proof fn lemma_forwarding_appends(
    world: World,
    connection: ConnectionView,
    data: Seq<u8>,
    index: int,
)
    requires
        0 <= index,
        connection.sends_usable(),
        crate::areas::rings_laid_out(connection.send_rings()),
        forall|k: int|
            index <= k < connection.send_count() ==> world.ring_ok(
                #[trigger] connection.send_rings()[k],
            ),
        world.can_forward(connection, data, index),
    ensures
        ({
            let rings = connection.send_rings();
            let after = world.forwarded(connection, data, index);
            &&& after.guest == world.guest
            &&& after.linear == world.linear
            &&& forall|x: int|
                !crate::areas::rings_cover(rings, x) ==> #[trigger] after.ram[x] == world.ram[x]
            &&& forall|k: int|
                0 <= k < index && k < rings.len() ==> world.same_ring(after, #[trigger] rings[k])
            &&& forall|k: int|
                index <= k < rings.len() ==> world.ring_grew(
                    after,
                    #[trigger] rings[k],
                    cut(data, world.room(rings[k])),
                )
        }),
    decreases connection.send_count() - index,
{
    let rings = connection.send_rings();
    let after = world.forwarded(connection, data, index);
    if index < connection.send_count() {
        let ring = rings[index];
        assert(connection.send_ring(index) is Ok);
        assert(ring.in_memory());
        let mid = world.pushed(ring, data);
        crate::ring_laws::law_push_appends(world, ring, data);
        let n = world.push_len(ring, data) as int;
        assert(data.take(n) =~= cut(data, world.room(ring)));
        assert forall|k: int| 0 <= k < rings.len() && k != index implies world.same_ring(
            mid,
            #[trigger] rings[k],
        ) by {
            assert(crate::areas::rings_apart(rings[k], rings[index]));
        }
        assert forall|k: int| index + 1 <= k < connection.send_count() implies mid.ring_ok(
            #[trigger] rings[k],
        ) by {
            crate::areas::lemma_ring_same(world, mid, rings[k]);
        }
        lemma_forwarding_appends(mid, connection, data, index + 1);
        crate::areas::lemma_ring_same(mid, after, ring);
        assert forall|x: int| !crate::areas::rings_cover(rings, x) implies #[trigger] after.ram[x]
            == world.ram[x] by {
            assert(!rings[index].covers(x));
            assert(mid.ram[x] == world.ram[x]);
        }
        assert forall|k: int| index <= k < rings.len() implies world.ring_grew(
            after,
            #[trigger] rings[k],
            cut(data, world.room(rings[k])),
        ) by {
            if k > index {
                crate::areas::lemma_ring_same(world, mid, rings[k]);
            }
        }
        assert forall|k: int| 0 <= k < index && k < rings.len() implies world.same_ring(
            after,
            #[trigger] rings[k],
        ) by {
            assert(world.same_ring(mid, rings[k]));
            assert(mid.same_ring(after, rings[k]));
            assert forall|x: int| rings[k].covers(x) implies #[trigger] after.ram[x]
                == world.ram[x] by {
                assert(mid.ram[x] == world.ram[x]);
            }
        }
    }
}

/// What one turn does to memory.
pub proof fn lemma_tx_turn(c: ConsoleView, world: World, fuel: nat)
    requires
        tx_memory_apart(c, world),
        world.rings_ok(c.send_rings()),
        tx_can_turn(c, world, fuel),
    ensures
        ({
            let queue = c.state.tx_queue;
            let rings = c.send_rings();
            let head = world.waiting_head(queue, 0);
            let chain = world.chain(queue, head, Seq::empty(), fuel);
            let back = world.handed_back(queue, head, returned_len(chain));
            let after = tx_turn(c, world, fuel).world;
            &&& world.same_outside(after, tx_area(c, world))
            &&& forall|k: int|
                0 <= k < rings.len() ==> world.ring_grew(
                    after,
                    #[trigger] rings[k],
                    part_sent(chain, world.room(rings[k])),
                )
            &&& forall|x: int|
                world.used_covers(queue, x) ==> #[trigger] after.ram[x] == back.ram[x]
        }),
{
    let queue = c.state.tx_queue;
    let rings = c.send_rings();
    let area = tx_area(c, world);
    let head = world.waiting_head(queue, 0);
    let chain = world.chain(queue, head, Seq::empty(), fuel);
    let back = world.handed_back(queue, head, returned_len(chain));
    let after = tx_turn(c, world, fuel).world;
    crate::areas::lemma_handing_back_writes_the_used_ring(world, queue, head, returned_len(chain));
    assert forall|k: int| 0 <= k < rings.len() implies world.same_ring(back, #[trigger] rings[k]) by {
        assert forall|x: int| rings[k].covers(x) implies #[trigger] back.ram[x] == world.ram[x] by {
            assert(crate::areas::rings_cover(rings, x));
        }
    }
    assert forall|k: int| 0 <= k < rings.len() implies {
        &&& back.ring_ok(#[trigger] rings[k])
        &&& back.room(rings[k]) == world.room(rings[k])
        &&& back.contents(rings[k]) == world.contents(rings[k])
        &&& back.read_idx(rings[k].base) == world.read_idx(rings[k].base)
        &&& back.write_idx(rings[k].base) == world.write_idx(rings[k].base)
    } by {
        assert(rings[k].in_memory());
        crate::areas::lemma_ring_same(world, back, rings[k]);
    }
    if chain.verdict is Valid {
        if let Some(connection) = c.connection {
            lemma_forwarding_appends(back, connection, chain.data, 0);
        }
    } else {
        assert forall|k: int| 0 <= k < rings.len() implies world.ring_grew(
            after,
            #[trigger] rings[k],
            part_sent(chain, world.room(rings[k])),
        ) by {
            assert(world.contents(rings[k]) + Seq::<u8>::empty() =~= world.contents(rings[k]));
        }
    }
    assert forall|x: int| !area.contains(x) implies #[trigger] after.ram[x] == world.ram[x] by {
        assert(!world.used_covers(queue, x));
        assert(!crate::areas::rings_cover(rings, x));
        assert(back.ram[x] == world.ram[x]);
    }
}

/// What may be written depends only on where things are.
proof fn lemma_tx_area_stays(c: ConsoleView, world: World, c2: ConsoleView, after: World)
    requires
        after.guest == world.guest,
        after.linear == world.linear,
        c2.state.tx_queue == c.state.tx_queue.advanced(),
        c2.connection == c.connection,
    ensures
        tx_area(c2, after) == tx_area(c, world),
        after.used_in_memory(c2.state.tx_queue) == world.used_in_memory(c.state.tx_queue),
        forall|x: int|
            #[trigger] after.used_covers(c2.state.tx_queue, x) == world.used_covers(
                c.state.tx_queue,
                x,
            ),
{
    assert(tx_area(c2, after) =~= tx_area(c, world));
}

/// The chains that waited behind the one that was taken.
proof fn lemma_tx_chains_stay(world: World, after: World, queue: QueueView, fuel: nat, area: Set<int>)
    requires
        world.same_outside(after, area),
        world.avail_apart(queue, area),
        queue.size > 0,
        world.waiting(queue) > 0,
        forall|j: int|
            0 <= j < world.waiting(queue) ==> world.chain_apart(
                queue,
                #[trigger] world.waiting_head(queue, j),
                fuel,
                area,
            ),
    ensures
        forall|j: int|
            0 <= j < after.waiting(queue.advanced()) ==> after.chain_apart(
                queue.advanced(),
                #[trigger] after.waiting_head(queue.advanced(), j),
                fuel,
                area,
            ),
        after.waiting_chains(queue.advanced(), fuel) == world.waiting_chains(queue, fuel).skip(1),
{
    let queue2 = queue.advanced();
    let old_chains = world.waiting_chains(queue, fuel);
    let new_chains = after.waiting_chains(queue2, fuel);
    crate::areas::lemma_waiting_goes_on(world, after, queue, area);
    assert forall|j: int| 0 <= j < after.waiting(queue2) implies after.chain_apart(
        queue2,
        #[trigger] after.waiting_head(queue2, j),
        fuel,
        area,
    ) by {
        let head = world.waiting_head(queue, j + 1);
        crate::areas::lemma_chain_goes_on(world, after, queue, head, fuel, area);
    }
    assert forall|j: int| 0 <= j < new_chains.len() implies new_chains[j] == #[trigger] old_chains.skip(
        1,
    )[j] by {
        let head = world.waiting_head(queue, j + 1);
        assert(after.waiting_head(queue2, j) == head);
        crate::areas::lemma_chain_goes_on(world, after, queue, head, fuel, area);
    }
    assert(new_chains =~= old_chains.skip(1));
}

/// A turn leaves everything where it was, and the chains that waited behind the
/// one that it dealt with.
proof fn lemma_tx_stays_laid_out(
    c: ConsoleView,
    world: World,
    c2: ConsoleView,
    after: World,
    fuel: nat,
)
    requires
        tx_laid_out(c, world, fuel),
        c.state.tx_queue.size > 0,
        world.waiting(c.state.tx_queue) > 0,
        world.same_outside(after, tx_area(c, world)),
        c2.state.tx_queue == c.state.tx_queue.advanced(),
        c2.connection == c.connection,
    ensures
        tx_laid_out(c2, after, fuel),
        tx_area(c2, after) == tx_area(c, world),
        after.waiting_chains(c2.state.tx_queue, fuel) == world.waiting_chains(
            c.state.tx_queue,
            fuel,
        ).skip(1),
{
    let queue = c.state.tx_queue;
    let area = tx_area(c, world);
    lemma_tx_area_stays(c, world, c2, after);
    crate::areas::lemma_waiting_goes_on(world, after, queue, area);
    lemma_tx_chains_stay(world, after, queue, fuel, area);
}

/// Two pieces that a ring takes one after the other.
proof fn lemma_growth_adds(a: World, b: World, d: World, ring: SharedRing, x: Seq<u8>, y: Seq<u8>)
    requires
        a.ring_ok(ring),
        a.ring_grew(b, ring, x),
        b.ring_grew(d, ring, y),
    ensures
        a.ring_grew(d, ring, x + y),
        b.room(ring) == a.room(ring) - x.len(),
{
    assert(a.contents(ring) + x + y =~= a.contents(ring) + (x + y));
}

/// Whatever a run of the transmit queue deals with, every ring that data is sent
/// to ends up with the data of the valid chains behind what it held, in order,
/// each chain's data cut off where the ring was full. No byte that waits in a
/// ring is overwritten, no read index moves, no write index moves back, no ring
/// overfills, no ring disturbs another, and nothing else is written but the used
/// ring.
pub proof fn law_tx_appends_all(c: ConsoleView, world: World, chains: nat, fuel: nat)
    requires
        tx_laid_out(c, world, fuel),
        world.rings_ok(c.send_rings()),
        crate::tx_laws::tx_outcome(c, world, chains, fuel) is Some,
    ensures
        ({
            let rings = c.send_rings();
            let waiting = world.waiting_chains(c.state.tx_queue, fuel);
            let end = crate::tx_laws::tx_outcome(c, world, chains, fuel)->Some_0;
            &&& forall|k: int|
                0 <= k < rings.len() ==> world.ring_grew(
                    end.world,
                    #[trigger] rings[k],
                    accepted(waiting, world.room(rings[k])),
                )
            &&& world.same_outside(end.world, tx_area(c, world))
        }),
    decreases chains,
{
    let rings = c.send_rings();
    let queue = c.state.tx_queue;
    let waiting = world.waiting_chains(queue, fuel);
    let end = crate::tx_laws::tx_outcome(c, world, chains, fuel)->Some_0;
    lemma_tx_outcome_turns(c, world, chains, fuel);
    if world.waiting(queue) == 0 {
        assert forall|k: int| 0 <= k < rings.len() implies world.ring_grew(
            end.world,
            #[trigger] rings[k],
            accepted(waiting, world.room(rings[k])),
        ) by {
            assert(world.contents(rings[k]) + Seq::<u8>::empty() =~= world.contents(rings[k]));
        }
    } else {
        let turn = tx_turn(c, world, fuel);
        lemma_tx_turn(c, world, fuel);
        lemma_tx_stays_laid_out(c, world, turn.console, turn.world, fuel);
        law_tx_appends_all(turn.console, turn.world, (chains - 1) as nat, fuel);
        let chain = waiting[0];
        assert forall|k: int| 0 <= k < rings.len() implies world.ring_grew(
            end.world,
            #[trigger] rings[k],
            accepted(waiting, world.room(rings[k])),
        ) by {
            let first = part_sent(chain, world.room(rings[k]));
            let rest = accepted(waiting.skip(1), turn.world.room(rings[k]));
            lemma_growth_adds(world, turn.world, end.world, rings[k], first, rest);
        }
    }
}

impl ConsoleView {
    /// The console after `n` chains were taken from the transmit queue, the
    /// interrupt raised for one of them or not, with `data` collected last.
    pub open spec fn tx_taken(self, n: nat, raised: bool, data: Seq<u8>) -> Self {
        let state = StateView { tx_queue: self.state.tx_queue.moved_on(n), ..self.state };
        ConsoleView {
            state: if raised {
                state.with_interrupt()
            } else {
                state
            },
            data,
            ..self
        }
    }
}

proof fn lemma_taken_adds(c: ConsoleView, n: nat, raised: bool, data: Seq<u8>, last: Seq<u8>)
    ensures
        c.tx_after_valid(data).tx_taken(n, raised, last) == c.tx_taken(n + 1, true, last),
        c.tx_after_invalid(data).tx_taken(n, raised, last) == c.tx_taken(n + 1, raised, last),
        c.tx_taken(0, false, c.data) == c,
{
    let queue = c.state.tx_queue;
    assert(queue.advanced().moved_on(n) == queue.moved_on(n + 1));
    vstd::arithmetic::div_mod::lemma_small_mod(queue.last_avail_idx as nat, 0x1_0000);
    assert(queue.moved_on(0) == queue);
    let i = c.state.interrupt_status;
    assert((i | 1u32) | 1u32 == i | 1u32) by (bit_vector);
}

/// A run of the transmit queue takes every chain that waits, raises the
/// interrupt if one of them is valid, and leaves the rest of the device as it
/// was.
pub proof fn law_tx_takes_every_chain(c: ConsoleView, world: World, chains: nat, fuel: nat)
    requires
        tx_laid_out(c, world, fuel),
        world.rings_ok(c.send_rings()),
        crate::tx_laws::tx_outcome(c, world, chains, fuel) is Some,
    ensures
        ({
            let queue = c.state.tx_queue;
            let end = crate::tx_laws::tx_outcome(c, world, chains, fuel)->Some_0;
            let raised = some_valid(world.waiting_chains(queue, fuel));
            end.console == c.tx_taken(world.waiting(queue), raised, end.console.data).enter(
                Phase::Idle,
            )
        }),
    decreases chains,
{
    let queue = c.state.tx_queue;
    let waiting = world.waiting_chains(queue, fuel);
    let end = crate::tx_laws::tx_outcome(c, world, chains, fuel)->Some_0;
    lemma_tx_outcome_turns(c, world, chains, fuel);
    if world.waiting(queue) == 0 {
        lemma_taken_adds(c, 0, false, c.data, c.data);
    } else {
        let turn = tx_turn(c, world, fuel);
        lemma_tx_turn(c, world, fuel);
        lemma_tx_stays_laid_out(c, world, turn.console, turn.world, fuel);
        law_tx_takes_every_chain(turn.console, turn.world, (chains - 1) as nat, fuel);
        let rest = turn.world.waiting_chains(turn.console.state.tx_queue, fuel);
        assert(rest.len() == turn.world.waiting(turn.console.state.tx_queue));
        lemma_taken_adds(
            c,
            rest.len(),
            some_valid(rest),
            waiting[0].data,
            end.console.data,
        );
    }
}

/// Data can be sent to one ring after the other, if their indices are in order
/// and their write indices stay representable.
proof fn lemma_can_forward(world: World, connection: ConnectionView, data: Seq<u8>, index: int)
    requires
        0 <= index,
        connection.sends_usable(),
        crate::areas::rings_laid_out(connection.send_rings()),
        forall|k: int|
            index <= k < connection.send_count() ==> {
                let ring = #[trigger] connection.send_rings()[k];
                &&& world.ring_ok(ring)
                &&& world.write_idx(ring.base) + cut(data, world.room(ring)).len() <= u64::MAX
            },
    ensures
        world.can_forward(connection, data, index),
    decreases connection.send_count() - index,
{
    let rings = connection.send_rings();
    if index < connection.send_count() {
        let ring = rings[index];
        assert(connection.send_ring(index) is Ok);
        assert(ring.in_memory());
        let mid = world.pushed(ring, data);
        crate::ring_laws::law_push_appends(world, ring, data);
        assert forall|k: int| index + 1 <= k < connection.send_count() implies {
            let other = #[trigger] rings[k];
            &&& mid.ring_ok(other)
            &&& mid.write_idx(other.base) + cut(data, mid.room(other)).len() <= u64::MAX
        } by {
            assert(crate::areas::rings_apart(rings[k], rings[index]));
            assert(world.same_ring(mid, rings[k]));
            crate::areas::lemma_ring_same(world, mid, rings[k]);
        }
        lemma_can_forward(mid, connection, data, index + 1);
    }
}

/// Every one of `chains` comes to an end that the device can deal with.
pub open spec fn chains_end(chains: Seq<Chain>) -> bool {
    forall|j: int|
        0 <= j < chains.len() ==> {
            let chain = #[trigger] chains[j];
            chain.verdict is Invalid || (chain.verdict is Valid && chain.data.len() <= usize::MAX)
        }
}

/// The write index of every one of `rings` stays representable when `chains`
/// are sent.
pub open spec fn indices_suffice(
    world: World,
    rings: Seq<SharedRing>,
    chains: Seq<Chain>,
) -> bool {
    forall|k: int|
        0 <= k < rings.len() ==> {
            let ring = #[trigger] rings[k];
            world.write_idx(ring.base) + accepted(chains, world.room(ring)).len() <= u64::MAX
        }
}

/// The next chain can be dealt with, if it ends and the write indices stay
/// representable.
pub proof fn lemma_tx_turn_possible(c: ConsoleView, world: World, fuel: nat)
    requires
        tx_memory_apart(c, world),
        world.rings_ok(c.send_rings()),
        world.waiting(c.state.tx_queue) > 0,
        ({
            let queue = c.state.tx_queue;
            let rings = c.send_rings();
            let chain = world.chain(queue, world.waiting_head(queue, 0), Seq::empty(), fuel);
            &&& chain.verdict is Invalid || (chain.verdict is Valid && chain.data.len()
                <= usize::MAX)
            &&& forall|k: int|
                0 <= k < rings.len() ==> world.write_idx((#[trigger] rings[k]).base) + part_sent(
                    chain,
                    world.room(rings[k]),
                ).len() <= u64::MAX
        }),
    ensures
        tx_can_turn(c, world, fuel),
{
    let queue = c.state.tx_queue;
    let rings = c.send_rings();
    let head = world.waiting_head(queue, 0);
    let chain = world.chain(queue, head, Seq::empty(), fuel);
    assert(queue.size > 0);
    let back = world.handed_back(queue, head, returned_len(chain));
    crate::areas::lemma_handing_back_writes_the_used_ring(world, queue, head, returned_len(chain));
    if chain.verdict is Valid {
        if let Some(connection) = c.connection {
            assert forall|k: int| 0 <= k < connection.send_count() implies {
                let ring = #[trigger] rings[k];
                &&& back.ring_ok(ring)
                &&& back.write_idx(ring.base) + cut(chain.data, back.room(ring)).len() <= u64::MAX
            } by {
                let ring = rings[k];
                assert(ring.in_memory());
                assert forall|x: int| ring.covers(x) implies #[trigger] back.ram[x]
                    == world.ram[x] by {
                    assert(crate::areas::rings_cover(rings, x));
                }
                crate::areas::lemma_ring_same(world, back, ring);
            }
            lemma_can_forward(back, connection, chain.data, 0);
        }
    }
}

/// The next chain can be dealt with.
proof fn lemma_tx_can_turn(c: ConsoleView, world: World, fuel: nat)
    requires
        tx_laid_out(c, world, fuel),
        world.rings_ok(c.send_rings()),
        world.waiting(c.state.tx_queue) > 0,
        chains_end(world.waiting_chains(c.state.tx_queue, fuel)),
        indices_suffice(
            world,
            c.send_rings(),
            world.waiting_chains(c.state.tx_queue, fuel),
        ),
    ensures
        tx_can_turn(c, world, fuel),
{
    let queue = c.state.tx_queue;
    let rings = c.send_rings();
    let waiting = world.waiting_chains(queue, fuel);
    let chain = world.chain(queue, world.waiting_head(queue, 0), Seq::empty(), fuel);
    assert(waiting[0] == chain);
    assert forall|k: int| 0 <= k < rings.len() implies world.write_idx((#[trigger] rings[k]).base)
        + part_sent(chain, world.room(rings[k])).len() <= u64::MAX by {
        assert(accepted(waiting, world.room(rings[k])).len() >= part_sent(
            chain,
            world.room(rings[k]),
        ).len());
    }
    lemma_tx_turn_possible(c, world, fuel);
}

/// A run of the transmit queue always comes to its end, where the rings, the
/// queue and the buffers lie apart from each other, every chain that waits ends
/// and can be read, and the write indices stay representable.
pub proof fn law_tx_ends(c: ConsoleView, world: World, chains: nat, fuel: nat)
    requires
        tx_laid_out(c, world, fuel),
        world.rings_ok(c.send_rings()),
        chains_end(world.waiting_chains(c.state.tx_queue, fuel)),
        indices_suffice(
            world,
            c.send_rings(),
            world.waiting_chains(c.state.tx_queue, fuel),
        ),
        world.waiting(c.state.tx_queue) <= chains,
    ensures
        crate::tx_laws::tx_outcome(c, world, chains, fuel) is Some,
        (System { console: c.tx_pop(PopEvent::Begin), world }).reaches(
            crate::tx_laws::tx_outcome(c, world, chains, fuel)->Some_0,
        ),
    decreases chains,
{
    let queue = c.state.tx_queue;
    let rings = c.send_rings();
    let waiting = world.waiting_chains(queue, fuel);
    lemma_tx_outcome_turns(c, world, chains, fuel);
    if world.waiting(queue) > 0 {
        lemma_tx_can_turn(c, world, fuel);
        let turn = tx_turn(c, world, fuel);
        lemma_tx_turn(c, world, fuel);
        lemma_tx_stays_laid_out(c, world, turn.console, turn.world, fuel);
        let rest = waiting.skip(1);
        assert forall|j: int| 0 <= j < rest.len() implies {
            let chain = #[trigger] rest[j];
            chain.verdict is Invalid || (chain.verdict is Valid && chain.data.len() <= usize::MAX)
        } by {
            assert(rest[j] == waiting[j + 1]);
        }
        assert forall|k: int| 0 <= k < rings.len() implies {
            let ring = #[trigger] rings[k];
            turn.world.write_idx(ring.base) + accepted(rest, turn.world.room(ring)).len()
                <= u64::MAX
        } by {
            let ring = rings[k];
            assert(world.ring_ok(ring));
            let first = part_sent(waiting[0], world.room(ring));
            assert(world.ring_grew(turn.world, ring, first));
            assert(turn.world.room(ring) == world.room(ring) - first.len());
        }
        assert(turn.world.waiting_chains(turn.console.state.tx_queue, fuel).len()
            == turn.world.waiting(turn.console.state.tx_queue));
        law_tx_ends(turn.console, turn.world, (chains - 1) as nat, fuel);
    }
    crate::tx_laws::law_tx_deals_with_every_chain(c, world, chains, fuel);
}

/// What is handed back for the chains that wait: each head once, in order, with
/// the number of bytes that were sent.
pub open spec fn tx_returns(world: World, queue: QueueView, fuel: nat) -> Seq<VirtqUsedElem> {
    let chains = world.waiting_chains(queue, fuel);
    Seq::new(
        world.waiting(queue),
        |j: int|
            VirtqUsedElem {
                id: world.waiting_head(queue, j) as u32,
                len: returned_len(chains[j]),
            },
    )
}

/// A run of the transmit queue hands every chain that waits back once, in order:
/// the used ring's index grows by their number, and its elements name them.
pub proof fn law_tx_returns_every_chain(
    c: ConsoleView,
    world: World,
    used: u64,
    chains: nat,
    fuel: nat,
)
    requires
        tx_laid_out(c, world, fuel),
        world.rings_ok(c.send_rings()),
        crate::tx_laws::tx_outcome(c, world, chains, fuel) is Some,
        world.locate(c.state.tx_queue.used_ring) == Some(used),
        world.waiting(c.state.tx_queue) <= c.state.tx_queue.size,
    ensures
        world.used_grew(
            crate::tx_laws::tx_outcome(c, world, chains, fuel)->Some_0.world,
            used,
            c.state.tx_queue.size,
            tx_returns(world, c.state.tx_queue, fuel),
        ),
    decreases chains,
{
    let queue = c.state.tx_queue;
    let end = crate::tx_laws::tx_outcome(c, world, chains, fuel)->Some_0;
    let elems = tx_returns(world, queue, fuel);
    lemma_tx_outcome_turns(c, world, chains, fuel);
    if world.waiting(queue) == 0 {
        vstd::arithmetic::div_mod::lemma_small_mod(world.used_idx(used) as nat, 0x1_0000);
    } else {
        let turn = tx_turn(c, world, fuel);
        let queue2 = queue.advanced();
        lemma_tx_turn(c, world, fuel);
        lemma_tx_stays_laid_out(c, world, turn.console, turn.world, fuel);
        crate::areas::lemma_waiting_goes_on(world, turn.world, queue, tx_area(c, world));
        law_tx_returns_every_chain(turn.console, turn.world, used, (chains - 1) as nat, fuel);
        let chain = world.waiting_chains(queue, fuel)[0];
        let first = elems[0];
        let rest = tx_returns(turn.world, queue2, fuel);
        let head = world.waiting_head(queue, 0);
        let back = world.handed_back(queue, head, returned_len(chain));
        crate::used_laws::lemma_used_gets_one(world, queue, used, head, returned_len(chain));
        assert forall|x: int|
            used + crate::queue::RING_IDX_OFFSET <= x < used + crate::queue::RING_ENTRIES_OFFSET
                + crate::queue::USED_ELEM_SIZE * queue.size implies #[trigger] turn.world.ram[x]
            == back.ram[x] by {
            assert(world.used_covers(queue, x));
        }
        crate::used_laws::lemma_used_same(back, turn.world, used, queue.size);
        assert(world.used_grew(turn.world, used, queue.size, seq![first]));
        crate::used_laws::lemma_used_adds(
            world,
            turn.world,
            end.world,
            queue,
            used,
            first,
            rest,
        );
        let old_chains = world.waiting_chains(queue, fuel);
        let new_chains = turn.world.waiting_chains(queue2, fuel);
        assert forall|j: int| 0 <= j < rest.len() implies rest[j] == #[trigger] elems[j + 1] by {
            assert(new_chains[j] == old_chains.skip(1)[j]);
            assert(turn.world.waiting_head(queue2, j) == world.waiting_head(queue, j + 1));
        }
        assert(seq![first] + rest =~= elems);
    }
}

/// Where there is room for all of it, all of the valid chains' data is accepted.
pub proof fn law_all_is_accepted(chains: Seq<Chain>, room: nat)
    requires
        valid_data(chains).len() <= room,
    ensures
        accepted(chains, room) == valid_data(chains),
    decreases chains.len(),
{
    if chains.len() > 0 {
        let first = part_sent(chains[0], room);
        if chains[0].verdict is Valid {
            assert(first == chains[0].data);
            law_all_is_accepted(chains.skip(1), (room - first.len()) as nat);
        } else {
            law_all_is_accepted(chains.skip(1), room);
            assert(first + valid_data(chains.skip(1)) =~= valid_data(chains.skip(1)));
        }
    }
}

impl World {
    /// In `other`, nothing that waits in `ring` is lost: its read index is where
    /// it was, its write index has not moved back, it holds no more than it can,
    /// and no slot with an unread byte was written.
    pub open spec fn ring_intact(self, other: World, ring: SharedRing) -> bool {
        let r = self.read_idx(ring.base);
        let w = self.write_idx(ring.base);
        &&& other.read_idx(ring.base) == r
        &&& w <= other.write_idx(ring.base)
        &&& other.ring_ok(ring)
        &&& forall|i: int|
            r <= i < w ==> other.ram[#[trigger] ring.slot(i) as int] == self.ram[ring.slot(
                i,
            ) as int]
    }
}

/// The rings that data is sent to lie apart from the used ring of the transmit
/// queue, and two of them overlap only where a buffer is listed twice.
pub open spec fn tx_rings_apart(c: ConsoleView, world: World) -> bool {
    let queue = c.state.tx_queue;
    &&& c.connection matches Some(connection) ==> connection.sends_usable()
    &&& crate::areas::rings_separate(c.send_rings())
    &&& world.used_in_memory(queue)
    &&& forall|x: int|
        #[trigger] world.used_covers(queue, x) ==> !crate::areas::rings_cover(c.send_rings(), x)
}

/// A ring that was not written is intact.
proof fn lemma_same_is_intact(a: World, b: World, ring: SharedRing)
    requires
        ring.in_memory(),
        a.ring_ok(ring),
        a.same_ring(b, ring),
    ensures
        a.ring_intact(b, ring),
{
    crate::areas::lemma_ring_same(a, b, ring);
    let r = a.read_idx(ring.base);
    let w = a.write_idx(ring.base);
    assert forall|i: int| r <= i < w implies b.ram[#[trigger] ring.slot(i) as int]
        == a.ram[ring.slot(i) as int] by {
        crate::ring_laws::lemma_slot(ring, i);
        assert(ring.covers(ring.slot(i) as int));
    }
}

/// Sending to one ring leaves a ring intact that is apart from it or in the same
/// buffer.
proof fn lemma_push_keeps(world: World, ring: SharedRing, other: SharedRing, data: Seq<u8>)
    requires
        ring.in_memory(),
        other.in_memory(),
        world.ring_ok(ring),
        world.ring_ok(other),
        world.write_idx(ring.base) + world.push_len(ring, data) <= u64::MAX,
        crate::areas::rings_same(other, ring) || crate::areas::rings_apart(other, ring),
    ensures
        world.ring_intact(world.pushed(ring, data), other),
{
    let after = world.pushed(ring, data);
    crate::ring_laws::law_push_appends(world, ring, data);
    if crate::areas::rings_same(other, ring) {
        let r = world.read_idx(ring.base);
        let w = world.write_idx(ring.base);
        let n = world.push_len(ring, data);
        assert forall|i: int| r <= i < w implies after.ram[#[trigger] other.slot(i) as int]
            == world.ram[other.slot(i) as int] by {
            assert(other.slot(i) == ring.slot(i));
            crate::ring_laws::lemma_slot(ring, i);
            assert forall|j: int| 0 <= j < n implies ring.slot(i) != #[trigger] ring.slot(
                w + j,
            ) by {
                crate::ring_laws::law_slots_are_distinct(ring, i, w + j);
            }
        }
    } else {
        lemma_same_is_intact(world, after, other);
    }
}

proof fn lemma_intact_adds(a: World, b: World, d: World, ring: SharedRing)
    requires
        a.ring_intact(b, ring),
        b.ring_intact(d, ring),
    ensures
        a.ring_intact(d, ring),
{
}

/// Sending to one ring after the other leaves all of them intact.
proof fn lemma_forwarding_keeps(
    world: World,
    connection: ConnectionView,
    data: Seq<u8>,
    index: int,
)
    requires
        0 <= index,
        connection.sends_usable(),
        crate::areas::rings_separate(connection.send_rings()),
        world.rings_ok(connection.send_rings()),
        world.can_forward(connection, data, index),
    ensures
        ({
            let rings = connection.send_rings();
            let after = world.forwarded(connection, data, index);
            &&& after.guest == world.guest
            &&& after.linear == world.linear
            &&& forall|k: int|
                0 <= k < rings.len() ==> world.ring_intact(after, #[trigger] rings[k])
        }),
    decreases connection.send_count() - index,
{
    let rings = connection.send_rings();
    let after = world.forwarded(connection, data, index);
    if index < connection.send_count() {
        let ring = rings[index];
        assert(connection.send_ring(index) is Ok);
        assert(ring.in_memory());
        assert(world.ring_ok(ring));
        let mid = world.pushed(ring, data);
        assert forall|k: int| 0 <= k < rings.len() implies world.ring_intact(
            mid,
            #[trigger] rings[k],
        ) by {
            assert(world.ring_ok(rings[k]));
            assert(crate::areas::rings_same(rings[k], rings[index]) || crate::areas::rings_apart(
                rings[k],
                rings[index],
            ));
            lemma_push_keeps(world, ring, rings[k], data);
        }
        lemma_forwarding_keeps(mid, connection, data, index + 1);
        assert forall|k: int| 0 <= k < rings.len() implies world.ring_intact(
            after,
            #[trigger] rings[k],
        ) by {
            lemma_intact_adds(world, mid, after, rings[k]);
        }
    } else {
        assert forall|k: int| 0 <= k < rings.len() implies world.ring_intact(
            after,
            #[trigger] rings[k],
        ) by {
            lemma_same_is_intact(world, after, rings[k]);
        }
    }
}

/// One turn leaves every ring intact.
proof fn lemma_tx_turn_keeps(c: ConsoleView, world: World, fuel: nat)
    requires
        tx_rings_apart(c, world),
        world.rings_ok(c.send_rings()),
        tx_can_turn(c, world, fuel),
    ensures
        ({
            let rings = c.send_rings();
            let after = tx_turn(c, world, fuel).world;
            &&& after.guest == world.guest
            &&& after.linear == world.linear
            &&& forall|k: int|
                0 <= k < rings.len() ==> world.ring_intact(after, #[trigger] rings[k])
        }),
{
    let queue = c.state.tx_queue;
    let rings = c.send_rings();
    let head = world.waiting_head(queue, 0);
    let chain = world.chain(queue, head, Seq::empty(), fuel);
    let back = world.handed_back(queue, head, returned_len(chain));
    let after = tx_turn(c, world, fuel).world;
    crate::areas::lemma_handing_back_writes_the_used_ring(world, queue, head, returned_len(chain));
    assert forall|k: int| 0 <= k < rings.len() implies world.ring_intact(
        back,
        #[trigger] rings[k],
    ) by {
        assert forall|x: int| rings[k].covers(x) implies #[trigger] back.ram[x] == world.ram[x] by {
            assert(crate::areas::rings_cover(rings, x));
        }
        lemma_same_is_intact(world, back, rings[k]);
    }
    if chain.verdict is Valid {
        if let Some(connection) = c.connection {
            lemma_forwarding_keeps(back, connection, chain.data, 0);
            assert forall|k: int| 0 <= k < rings.len() implies world.ring_intact(
                after,
                #[trigger] rings[k],
            ) by {
                lemma_intact_adds(world, back, after, rings[k]);
            }
        }
    }
}

/// Whatever the chains hold and wherever their buffers lie, a run of the
/// transmit queue loses nothing that waits in a ring: no read index moves, no
/// write index moves back, no ring overfills, and no unread byte is overwritten.
/// A buffer may be listed as a ring more than once.
pub proof fn law_tx_keeps_every_ring(c: ConsoleView, world: World, chains: nat, fuel: nat)
    requires
        tx_rings_apart(c, world),
        world.rings_ok(c.send_rings()),
        crate::tx_laws::tx_outcome(c, world, chains, fuel) is Some,
    ensures
        ({
            let rings = c.send_rings();
            let end = crate::tx_laws::tx_outcome(c, world, chains, fuel)->Some_0;
            forall|k: int|
                0 <= k < rings.len() ==> world.ring_intact(end.world, #[trigger] rings[k])
        }),
    decreases chains,
{
    let rings = c.send_rings();
    let queue = c.state.tx_queue;
    let end = crate::tx_laws::tx_outcome(c, world, chains, fuel)->Some_0;
    lemma_tx_outcome_turns(c, world, chains, fuel);
    if world.waiting(queue) == 0 {
        assert forall|k: int| 0 <= k < rings.len() implies world.ring_intact(
            end.world,
            #[trigger] rings[k],
        ) by {
            lemma_same_is_intact(world, end.world, rings[k]);
        }
    } else {
        let turn = tx_turn(c, world, fuel);
        lemma_tx_turn_keeps(c, world, fuel);
        lemma_tx_area_stays(c, world, turn.console, turn.world);
        assert(turn.console.send_rings() == rings);
        law_tx_keeps_every_ring(turn.console, turn.world, (chains - 1) as nat, fuel);
        assert forall|k: int| 0 <= k < rings.len() implies world.ring_intact(
            end.world,
            #[trigger] rings[k],
        ) by {
            lemma_intact_adds(world, turn.world, end.world, rings[k]);
        }
    }
}

/// What goes into a ring of several chains is what goes into it of all their
/// data: a beginning of it, all if there is room, and otherwise as much as fills
/// the ring. No later chain gets in where an earlier one was cut off.
pub proof fn law_rings_take_a_beginning(chains: Seq<Chain>, room: nat)
    ensures
        accepted(chains, room).len() <= room,
        accepted(chains, room).len() <= valid_data(chains).len(),
        accepted(chains, room).len() == room || accepted(chains, room).len() == valid_data(
            chains,
        ).len(),
        accepted(chains, room) == valid_data(chains).take(accepted(chains, room).len() as int),
    decreases chains.len(),
{
    if chains.len() > 0 {
        let first = part_sent(chains[0], room);
        let rest = chains.skip(1);
        let left = (room - first.len()) as nat;
        law_rings_take_a_beginning(rest, left);
        let n = accepted(chains, room).len() as int;
        if chains[0].verdict is Valid {
            let data = chains[0].data;
            if data.len() <= room {
                assert((data + valid_data(rest)).take(n) =~= data + valid_data(rest).take(
                    n - data.len(),
                ));
            } else {
                assert(accepted(rest, left) =~= Seq::<u8>::empty());
                assert((data + valid_data(rest)).take(n) =~= first);
                assert(accepted(chains, room) =~= first);
            }
        } else {
            assert(first + accepted(rest, left) =~= accepted(rest, left));
        }
    } else {
        assert(accepted(chains, room) =~= valid_data(chains).take(0));
    }
}

/// The data of two runs of chains is that of the first and then that of the
/// second, a valid chain has all of its own, and an invalid one has none.
pub proof fn law_valid_data_is_joined(a: Seq<Chain>, b: Seq<Chain>, chain: Chain)
    ensures
        valid_data(a + b) == valid_data(a) + valid_data(b),
        chain.verdict is Valid ==> valid_data(seq![chain]) == chain.data,
        !(chain.verdict is Valid) ==> valid_data(seq![chain]) == Seq::<u8>::empty(),
    decreases a.len(),
{
    reveal_with_fuel(valid_data, 2);
    assert(seq![chain].skip(1) =~= Seq::<Chain>::empty());
    assert(valid_data(Seq::<Chain>::empty()) == Seq::<u8>::empty());
    assert(chain.data + Seq::<u8>::empty() =~= chain.data);
    if a.len() == 0 {
        assert(a + b =~= b);
        assert(valid_data(a) + valid_data(b) =~= valid_data(b));
    } else {
        law_valid_data_is_joined(a.skip(1), b, chain);
        assert((a + b).skip(1) =~= a.skip(1) + b);
        assert((a + b)[0] == a[0]);
        assert(a[0].data + (valid_data(a.skip(1)) + valid_data(b)) =~= a[0].data + valid_data(
            a.skip(1),
        ) + valid_data(b));
    }
}

} // verus!
