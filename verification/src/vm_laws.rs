//! Two consoles that share a ring: what one VM sends is what the other receives.
use crate::queue::PopEvent;
use crate::ring::SharedRing;
use crate::transfer::ConsoleView;
use crate::world::{System, World};
use vstd::prelude::*;

verus! {

/// The sender is connected to one VM, through `ring`. Its ring, its transmit
/// queue and the chains that wait there lie apart from each other, all of them
/// can be dealt with, and no more than `chains` wait.
pub open spec fn can_depart(
    sender: ConsoleView,
    world: World,
    ring: SharedRing,
    chains: nat,
    fuel: nat,
) -> bool {
    let queue = sender.state.tx_queue;
    let waiting = world.waiting_chains(queue, fuel);
    &&& crate::tx_run_laws::tx_laid_out(sender, world, fuel)
    &&& sender.send_rings() == seq![ring]
    &&& world.ring_ok(ring)
    &&& crate::tx_run_laws::chains_end(waiting)
    &&& world.write_idx(ring.base) + departing(sender, world, ring, fuel).len() <= u64::MAX
    &&& waiting.len() <= chains
}

/// What goes into `ring` of the chains that wait at the sender.
pub open spec fn departing(
    sender: ConsoleView,
    world: World,
    ring: SharedRing,
    fuel: nat,
) -> Seq<u8> {
    crate::tx_run_laws::accepted(
        world.waiting_chains(sender.state.tx_queue, fuel),
        world.room(ring),
    )
}

/// The host, as the VM sees it whose addresses `guest` translates, once the
/// sender's chains are dealt with.
pub open spec fn between(
    sender: ConsoleView,
    world: World,
    guest: Map<u64, (u64, u64)>,
    chains: nat,
    fuel: nat,
) -> World {
    World {
        guest,
        ..crate::tx_laws::tx_outcome(sender, world, chains, fuel)->Some_0.world
    }
}

/// The receiver is connected to one VM, through `ring`. Its ring, its receive
/// queue and the buffers that wait there lie apart from each other, their
/// descriptors can be had, and no more than `turns` turns are to be taken.
pub open spec fn can_arrive(
    receiver: ConsoleView,
    world: World,
    ring: SharedRing,
    turns: nat,
) -> bool {
    let queue = receiver.state.rx_queue;
    &&& crate::rx_run_laws::rx_laid_out(receiver, world)
    &&& receiver.recv_rings() == seq![ring]
    &&& crate::rx_run_laws::offers_readable(world, queue)
    &&& world.waiting(queue) + 1 <= turns
}

/// The sender's run, and what the ring holds then.
proof fn lemma_bytes_depart(
    sender: ConsoleView,
    world: World,
    ring: SharedRing,
    chains: nat,
    fuel: nat,
)
    requires
        can_depart(sender, world, ring, chains, fuel),
    ensures
        ({
            let sent = crate::tx_laws::tx_outcome(sender, world, chains, fuel);
            &&& sent is Some
            &&& (System { console: sender.tx_pop(PopEvent::Begin), world }).reaches(sent->Some_0)
            &&& world.ring_grew(
                sent->Some_0.world,
                ring,
                departing(sender, world, ring, fuel),
            )
        }),
{
    let rings = sender.send_rings();
    assert(rings[0] == ring);
    assert(world.rings_ok(rings));
    crate::tx_run_laws::law_tx_ends(sender, world, chains, fuel);
    crate::tx_run_laws::law_tx_appends_all(sender, world, chains, fuel);
}

/// The guest behind one console sends any number of chains, and the guest behind
/// the other console has any number of buffers. Both runs come to their end.
/// What the ring held and then what it had room for of the sender's data are,
/// byte for byte and in order, what the receiver's buffers hold, one after the
/// other, and then what the ring still holds. The two guests have address
/// translations of their own.
pub proof fn law_bytes_travel_between_vms(
    sender: ConsoleView,
    receiver: ConsoleView,
    world: World,
    guest: Map<u64, (u64, u64)>,
    ring: SharedRing,
    chains: nat,
    fuel: nat,
    turns: nat,
)
    requires
        can_depart(sender, world, ring, chains, fuel),
        can_arrive(receiver, between(sender, world, guest, chains, fuel), ring, turns),
    ensures
        ({
            let sent = crate::tx_laws::tx_outcome(sender, world, chains, fuel);
            let arriving = between(sender, world, guest, chains, fuel);
            let end = crate::rx_laws::rx_outcome(receiver, arriving, 0, turns);
            let offers = arriving.offers(receiver.state.rx_queue);
            let list = crate::rx_run_laws::fills(offers, arriving.all_held(seq![ring]), 0);
            let brought = crate::rx_run_laws::joined(end->Some_0.world, list, 0);
            &&& sent is Some && (System {
                console: sender.tx_pop(PopEvent::Begin),
                world,
            }).reaches(sent->Some_0)
            &&& end is Some && (System { console: receiver.rx_ring(0), world: arriving }).reaches(
                System { console: end->Some_0.console.rx_end(), world: end->Some_0.world },
            )
            &&& brought + end->Some_0.world.contents(ring) == world.contents(ring) + departing(
                sender,
                world,
                ring,
                fuel,
            )
            &&& brought.len() == crate::rx_run_laws::total_len(
                crate::rx_run_laws::rx_returns(list),
            )
            &&& end->Some_0.world.read_idx(ring.base) == world.read_idx(ring.base) + brought.len()
            &&& end->Some_0.world.write_idx(ring.base) == world.write_idx(ring.base) + departing(
                sender,
                world,
                ring,
                fuel,
            ).len()
        }),
{
    let queue = receiver.state.rx_queue;
    let arriving = between(sender, world, guest, chains, fuel);
    let sent = crate::tx_laws::tx_outcome(sender, world, chains, fuel)->Some_0.world;
    let rings = receiver.recv_rings();
    lemma_bytes_depart(sender, world, ring, chains, fuel);
    assert(ring.in_memory()) by {
        assert(rings[0].in_memory());
    }
    crate::areas::lemma_ring_same(sent, arriving, ring);
    assert(arriving.rings_ordered(rings));
    crate::rx_run_laws::law_rx_ends(receiver, arriving, 0, turns);
    crate::rx_run_laws::law_rx_delivers_in_order(receiver, arriving, 0, turns);
    let end = crate::rx_laws::rx_outcome(receiver, arriving, 0, turns)->Some_0;
    let offers = arriving.offers(queue);
    let held = arriving.contents(ring).len();
    let list = crate::rx_run_laws::fills(offers, arriving.all_held(rings), 0);
    assert(crate::rx_run_laws::delivered(arriving, end.world, list, rings[0], 0));
    assert(arriving.all_held(rings) =~= seq![held]);
    crate::rx_run_laws::law_buffers_take_what_a_ring_holds(end.world, offers, held);
}

/// Through a ring that is empty at first and has room for all of the data, the
/// receiver's buffers, if they take that much, get exactly the bytes of the
/// sender's valid chains, in order. The numbers of bytes that they are handed
/// back with add up to that, and the ring is empty again.
pub proof fn law_all_bytes_arrive(
    sender: ConsoleView,
    receiver: ConsoleView,
    world: World,
    guest: Map<u64, (u64, u64)>,
    ring: SharedRing,
    chains: nat,
    fuel: nat,
    turns: nat,
)
    requires
        can_depart(sender, world, ring, chains, fuel),
        can_arrive(receiver, between(sender, world, guest, chains, fuel), ring, turns),
        world.contents(ring).len() == 0,
        crate::tx_run_laws::valid_data(
            world.waiting_chains(sender.state.tx_queue, fuel),
        ).len() <= ring.capacity,
        crate::tx_run_laws::valid_data(
            world.waiting_chains(sender.state.tx_queue, fuel),
        ).len() <= crate::rx_run_laws::total_takes(
            between(sender, world, guest, chains, fuel).offers(receiver.state.rx_queue),
        ),
    ensures
        ({
            let data = crate::tx_run_laws::valid_data(
                world.waiting_chains(sender.state.tx_queue, fuel),
            );
            let arriving = between(sender, world, guest, chains, fuel);
            let end = crate::rx_laws::rx_outcome(receiver, arriving, 0, turns)->Some_0;
            let offers = arriving.offers(receiver.state.rx_queue);
            let list = crate::rx_run_laws::fills(offers, arriving.all_held(seq![ring]), 0);
            let w = world.write_idx(ring.base);
            &&& crate::rx_run_laws::joined(end.world, list, 0) == data
            &&& crate::rx_run_laws::total_len(crate::rx_run_laws::rx_returns(list)) == data.len()
            &&& end.world.contents(ring).len() == 0
            &&& end.world.read_idx(ring.base) == w + data.len()
            &&& end.world.write_idx(ring.base) == w + data.len()
        }),
{
    let waiting = world.waiting_chains(sender.state.tx_queue, fuel);
    let data = crate::tx_run_laws::valid_data(waiting);
    let arriving = between(sender, world, guest, chains, fuel);
    let sent = crate::tx_laws::tx_outcome(sender, world, chains, fuel)->Some_0.world;
    let end = crate::rx_laws::rx_outcome(receiver, arriving, 0, turns)->Some_0;
    let offers = arriving.offers(receiver.state.rx_queue);
    let list = crate::rx_run_laws::fills(offers, arriving.all_held(seq![ring]), 0);
    let brought = crate::rx_run_laws::joined(end.world, list, 0);
    assert(world.room(ring) == ring.capacity);
    crate::tx_run_laws::law_all_is_accepted(waiting, world.room(ring));
    law_bytes_travel_between_vms(sender, receiver, world, guest, ring, chains, fuel, turns);
    lemma_bytes_depart(sender, world, ring, chains, fuel);
    assert(world.contents(ring) + data =~= data);
    assert(ring.in_memory()) by {
        assert(receiver.recv_rings()[0].in_memory());
    }
    crate::areas::lemma_ring_same(sent, arriving, ring);
    assert(arriving.all_held(seq![ring]) =~= seq![data.len()]);
    crate::rx_run_laws::law_buffers_take_what_a_ring_holds(end.world, offers, data.len());
    assert(brought.len() == data.len());
    assert(end.world.contents(ring).len() == 0);
    assert(brought =~= data) by {
        assert(brought + end.world.contents(ring) =~= brought);
    }
}

} // verus!
