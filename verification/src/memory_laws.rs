//! What a transfer does, byte by byte: where in memory the device looks, what it
//! makes of what stands there, and which bytes it writes. Nothing here depends
//! on how the device arrives at it.
use crate::connection::ConnectionView;
use crate::phase::Phase;
use crate::queue::{PopEvent, QueueView};
use crate::ring::SharedRing;
use crate::state::StateView;
use crate::transfer::ConsoleView;
use crate::tx_laws::{Chain, Verdict};
use crate::world::{System, World};
use vstd::prelude::*;

verus! {

/// The smaller of two numbers.
pub open spec fn smaller(a: int, b: int) -> int {
    if a <= b {
        a
    } else {
        b
    }
}

/// In memory, the descriptor number `idx` of `queue` describes a buffer with
/// `piece` in it from the driver, and leads on to `next`. It stands 16 bytes
/// behind the one before. A buffer that the device may write holds nothing from
/// the driver; any other holds as many bytes as the descriptor says, but for
/// those past the end of contiguous memory.
pub open spec fn good_link(
    world: World,
    queue: QueueView,
    idx: u16,
    piece: Seq<u8>,
    next: Option<u16>,
) -> bool {
    &&& idx < queue.size
    &&& queue.desc_table + 16 * idx <= u64::MAX
    &&& world.locate((queue.desc_table + 16 * idx) as u64) matches Some(hva) && {
        let desc = crate::world::descriptor_at(world.ram, hva as int);
        &&& desc.addr != 0 && desc.len != 0
        &&& match next {
            Some(n) => desc.flags % 2 == 1 && desc.next == n && n < queue.size,
            None => desc.flags % 2 == 0,
        }
        &&& if desc.flags / 2 % 2 == 1 {
            piece.len() == 0
        } else {
            world.translate(desc.addr) matches Some((hpa, limit)) && {
                &&& piece.len() == smaller(desc.len as int, limit as int)
                &&& forall|j: int| 0 <= j < piece.len() ==> #[trigger] piece[j] == world.ram[hpa + j]
            }
        }
    }
}

/// In memory, the descriptor number `idx` of `queue` cannot be used: it
/// describes no buffer, or one from the driver that is not mapped, or it leads
/// on to a descriptor past the end of the queue.
pub open spec fn bad_link(world: World, queue: QueueView, idx: u16) -> bool {
    &&& idx < queue.size
    &&& queue.desc_table + 16 * idx <= u64::MAX
    &&& world.locate((queue.desc_table + 16 * idx) as u64) matches Some(hva) && {
        let desc = crate::world::descriptor_at(world.ram, hva as int);
        ||| desc.addr == 0
        ||| desc.len == 0
        ||| desc.flags / 2 % 2 == 0 && world.translate(desc.addr) is None
        ||| desc.flags % 2 == 1 && desc.next >= queue.size
    }
}

/// Each of `path` but the last leads on to the one behind it, with its one of
/// `pieces`.
pub open spec fn good_links(
    world: World,
    queue: QueueView,
    path: Seq<u16>,
    pieces: Seq<Seq<u8>>,
) -> bool {
    forall|i: int|
        0 <= i < path.len() - 1 ==> good_link(
            world,
            queue,
            #[trigger] path[i],
            pieces[i],
            Some(path[i + 1]),
        )
}

proof fn lemma_good_link(
    world: World,
    queue: QueueView,
    idx: u16,
    piece: Seq<u8>,
    next: Option<u16>,
    data: Seq<u8>,
    fuel: nat,
)
    requires
        good_link(world, queue, idx, piece, next),
        fuel > 0,
    ensures
        world.chain(queue, idx, data, fuel) == match next {
            Some(n) => world.chain(queue, n, data + piece, (fuel - 1) as nat),
            None => Chain { verdict: Verdict::Valid, data: data + piece },
        },
{
    let gpa = (queue.desc_table + 16 * idx) as u64;
    let desc = crate::world::descriptor_at(world.ram, world.locate(gpa)->Some_0 as int);
    assert(world.descriptor(queue, idx) == Ok::<_, crate::request::Fault>(desc));
    crate::queue_laws::law_flags_are_bits(desc);
    if desc.flags / 2 % 2 == 1 {
        assert(piece =~= Seq::<u8>::empty());
    } else {
        let (hpa, limit) = world.translate(desc.addr)->Some_0;
        crate::transfer::law_lengths_respect_limits(desc, 0, limit);
        assert(world.bytes(hpa, crate::transfer::read_len(desc, limit)) =~= piece);
    }
    assert(world.payload(desc) == Some(piece));
}

proof fn lemma_bad_link(world: World, queue: QueueView, idx: u16, data: Seq<u8>, fuel: nat)
    requires
        bad_link(world, queue, idx),
        fuel > 0,
    ensures
        world.chain(queue, idx, data, fuel).verdict is Invalid,
{
    let gpa = (queue.desc_table + 16 * idx) as u64;
    let desc = crate::world::descriptor_at(world.ram, world.locate(gpa)->Some_0 as int);
    assert(world.descriptor(queue, idx) == Ok::<_, crate::request::Fault>(desc));
    crate::queue_laws::law_flags_are_bits(desc);
}

/// Following the links to the last of `path`.
proof fn lemma_links_are_followed(
    world: World,
    queue: QueueView,
    path: Seq<u16>,
    pieces: Seq<Seq<u8>>,
    data: Seq<u8>,
    fuel: nat,
)
    requires
        path.len() > 0,
        pieces.len() == path.len() - 1,
        good_links(world, queue, path, pieces),
        fuel >= path.len(),
    ensures
        world.chain(queue, path[0], data, fuel) == world.chain(
            queue,
            path.last(),
            data + pieces.flatten(),
            (fuel - pieces.len()) as nat,
        ),
    decreases path.len(),
{
    if path.len() == 1 {
        assert(data + pieces.flatten() =~= data);
    } else {
        let rest = path.drop_first();
        let later = pieces.drop_first();
        lemma_good_link(world, queue, path[0], pieces[0], Some(path[1]), data, fuel);
        assert forall|i: int| 0 <= i < rest.len() - 1 implies good_link(
            world,
            queue,
            #[trigger] rest[i],
            later[i],
            Some(rest[i + 1]),
        ) by {
            assert(rest[i] == path[i + 1]);
        }
        lemma_links_are_followed(world, queue, rest, later, data + pieces[0], (fuel - 1) as nat);
        assert(data + pieces[0] + later.flatten() =~= data + pieces.flatten());
    }
}

/// A chain is as many descriptors as are linked, and its data is what the driver
/// has put into their buffers, all of it, one after the other. A bad descriptor
/// anywhere in it makes the whole chain invalid.
pub proof fn law_chain_is_what_is_linked(
    world: World,
    queue: QueueView,
    path: Seq<u16>,
    pieces: Seq<Seq<u8>>,
    fuel: nat,
)
    requires
        path.len() > 0,
        pieces.len() == path.len(),
        good_links(world, queue, path, pieces),
        fuel >= path.len(),
    ensures
        good_link(world, queue, path.last(), pieces.last(), None) ==> world.chain(
            queue,
            path[0],
            Seq::empty(),
            fuel,
        ) == (Chain { verdict: Verdict::Valid, data: pieces.flatten() }),
        bad_link(world, queue, path.last()) ==> world.chain(
            queue,
            path[0],
            Seq::empty(),
            fuel,
        ).verdict is Invalid,
{
    let before = pieces.drop_last();
    let data = Seq::<u8>::empty() + before.flatten();
    let left = (fuel - before.len()) as nat;
    assert forall|i: int| 0 <= i < path.len() - 1 implies good_link(
        world,
        queue,
        #[trigger] path[i],
        before[i],
        Some(path[i + 1]),
    ) by {
        assert(before[i] == pieces[i]);
    }
    lemma_links_are_followed(world, queue, path, before, Seq::empty(), fuel);
    if good_link(world, queue, path.last(), pieces.last(), None) {
        lemma_good_link(world, queue, path.last(), pieces.last(), None, data, left);
        pieces.lemma_flatten_and_flatten_alt_are_equivalent();
        before.lemma_flatten_and_flatten_alt_are_equivalent();
        assert(data + pieces.last() =~= pieces.flatten());
    }
    if bad_link(world, queue, path.last()) {
        lemma_bad_link(world, queue, path.last(), data, left);
    }
}

/// A chain waits in `queue`: the queue is ready, its available ring stands at
/// `avail`, the index there has moved on, and the entry at the device's position
/// names `head`.
pub open spec fn chain_waits(world: World, queue: QueueView, avail: u64, head: u16) -> bool {
    &&& queue.ready
    &&& queue.size > 0
    &&& world.locate(queue.avail_ring) == Some(avail)
    &&& avail + 4 + 2 * queue.size <= u64::MAX
    &&& world.half((avail + 2) as u64) != queue.last_avail_idx
    &&& world.half((avail + 4 + 2 * (queue.last_avail_idx as int % queue.size as int)) as u64)
        == head
}

proof fn lemma_chain_waits(world: World, queue: QueueView, avail: u64, head: u16)
    requires
        chain_waits(world, queue, avail, head),
    ensures
        world.next_chain(queue) == Some(head),
        world.waiting_head(queue, 0) == head,
        world.waiting(queue) > 0,
{
    let slot = queue.last_avail_idx as int % queue.size as int;
    vstd::arithmetic::div_mod::lemma_mod_bound(queue.last_avail_idx as int, queue.size as int);
    crate::queue_laws::law_host_addresses_wrap(avail, 2);
    crate::queue_laws::law_host_addresses_wrap(avail, 4 + 2 * slot);
    assert(queue.avail_entry_offset() == 4 + 2 * slot);
    crate::areas::lemma_next_chain_waits(world, queue);
}

/// No chain waits in `queue`: it is not ready, its available ring is not mapped,
/// or the ring's index is where the device stands.
pub open spec fn no_chain_waits(world: World, queue: QueueView) -> bool {
    ||| !queue.ready
    ||| match world.locate(queue.avail_ring) {
        Some(avail) => avail + 2 <= u64::MAX && world.half((avail + 2) as u64)
            == queue.last_avail_idx,
        None => true,
    }
}

proof fn lemma_no_chain_waits(world: World, queue: QueueView)
    requires
        no_chain_waits(world, queue),
    ensures
        world.next_chain(queue) is None,
        world.waiting(queue) == 0,
{
    if let Some(avail) = world.locate(queue.avail_ring) {
        if avail + 2 <= u64::MAX {
            crate::queue_laws::law_host_addresses_wrap(avail, 2);
        }
    }
    crate::areas::lemma_next_chain_waits(world, queue);
}

/// The used ring at `used`, of `size` slots, has got one more element, for the
/// chain that starts at `head` and with `len` bytes, in the slot that its index
/// named, and the index has moved on by one.
pub open spec fn got_element(
    before: World,
    after: World,
    used: u64,
    size: u16,
    head: u16,
    len: int,
) -> bool {
    let idx = before.half((used + 2) as u64);
    let at = used + 4 + 8 * (idx as int % size as int);
    &&& crate::world::load(after.ram, at, 4) == head
    &&& crate::world::load(after.ram, at + 4, 4) == len
    &&& after.half((used + 2) as u64) == (idx + 1) % 0x1_0000
}

/// The rings of `bases`, each of `size` bytes with its header of 16, lie in host
/// memory and apart from each other, and their indices are in order.
pub open spec fn plain_rings(world: World, bases: Seq<usize>, size: usize) -> bool {
    &&& size >= 16
    &&& forall|k: int| 0 <= k < bases.len() ==> #[trigger] bases[k] + size <= u64::MAX
    &&& forall|j: int, k: int|
        0 <= j < bases.len() && 0 <= k < bases.len() && j != k ==> #[trigger] bases[j] + size
            <= #[trigger] bases[k] || bases[k] + size <= bases[j]
    &&& forall|k: int|
        0 <= k < bases.len() ==> {
            let w = crate::world::load(world.ram, #[trigger] bases[k] as int, 8) as u64;
            let r = crate::world::load(world.ram, bases[k] + 8, 8) as u64;
            r <= w && w - r <= size - 16
        }
}

/// How many of `len` bytes there is room for in the ring of `size` bytes at
/// `base`.
pub open spec fn plain_room(world: World, base: usize, size: usize, len: int) -> int {
    let w = crate::world::load(world.ram, base as int, 8) as u64;
    let r = crate::world::load(world.ram, base + 8, 8) as u64;
    smaller(len, size - 16 - (w - r))
}

/// `x` is an address of one of the buffers of `size` bytes at `bases`.
pub open spec fn in_buffers(bases: Seq<usize>, size: usize, x: int) -> bool {
    exists|k: int| 0 <= k < bases.len() && #[trigger] bases[k] <= x < bases[k] + size
}

/// The ring of `size` bytes at `base` has got the first bytes of `data`, as many
/// as it had room for: they are in the slots behind the newest byte, its write
/// index has grown by as much, its read index is where it was, and no slot with
/// an unread byte has changed.
pub open spec fn got_data(
    before: World,
    after: World,
    base: usize,
    size: usize,
    data: Seq<u8>,
) -> bool {
    let cap = size - 16;
    let w = crate::world::load(before.ram, base as int, 8) as u64;
    let r = crate::world::load(before.ram, base + 8, 8) as u64;
    let n = plain_room(before, base, size, data.len() as int);
    &&& crate::world::load(after.ram, base as int, 8) as u64 == w + n
    &&& crate::world::load(after.ram, base + 8, 8) as u64 == r
    &&& forall|j: int| 0 <= j < n ==> after.ram[base + 16 + (w + j) % cap] == #[trigger] data[j]
    &&& forall|i: int|
        r <= i < w ==> #[trigger] after.ram[base + 16 + i % cap] == before.ram[base + 16 + i % cap]
}

/// A ring that grew has got the data.
proof fn lemma_grown_got_data(
    before: World,
    after: World,
    ring: SharedRing,
    base: usize,
    size: usize,
    data: Seq<u8>,
)
    requires
        size >= 16,
        base + size <= u64::MAX,
        ring.base == base,
        ring.capacity == size - 16,
        before.ring_ok(ring),
        before.ring_grew(after, ring, crate::tx_run_laws::cut(data, before.room(ring))),
    ensures
        got_data(before, after, base, size, data),
{
    let cap = size - 16;
    let w = before.write_idx(ring.base);
    let r = before.read_idx(ring.base);
    let n = plain_room(before, base, size, data.len() as int);
    let added = crate::tx_run_laws::cut(data, before.room(ring));
    assert(added.len() == n);
    assert forall|j: int| 0 <= j < n implies after.ram[base + 16 + (w + j) % cap]
        == #[trigger] data[j] by {
        crate::ring_laws::law_slots_follow_the_header(ring, w + j);
        assert(after.contents(ring)[w - r + j] == (before.contents(ring) + added)[w - r + j]);
        assert(r + (w - r + j) == w + j);
        assert(added[j] == data[j]);
    }
    assert forall|i: int| r <= i < w implies #[trigger] after.ram[base + 16 + i % cap]
        == before.ram[base + 16 + i % cap] by {
        crate::ring_laws::law_slots_follow_the_header(ring, i);
        assert(after.contents(ring)[i - r] == (before.contents(ring) + added)[i - r]);
        assert(r + (i - r) == i);
    }
}

/// The used ring of `queue`, if it is mapped, lies in host memory, apart from the
/// buffers of `size` bytes at `bases`.
pub open spec fn used_apart(
    world: World,
    queue: QueueView,
    bases: Seq<usize>,
    size: usize,
) -> bool {
    world.locate(queue.used_ring) matches Some(used) ==> {
        &&& used + 4 + 8 * queue.size <= u64::MAX
        &&& forall|x: int|
            used + 2 <= x < used + 4 + 8 * queue.size ==> !#[trigger] in_buffers(bases, size, x)
    }
}

/// `c` is connected as `connection` says, or not at all and `connection` is empty.
pub open spec fn connected(c: ConsoleView, connection: ConnectionView) -> bool {
    &&& connection.paired()
    &&& connection.send_vm_ids.len() <= usize::MAX
    &&& connection.recv_vm_ids.len() <= usize::MAX
    &&& c.connection == Some(connection) || (c.connection is None
        && connection.send_vm_ids.len() == 0 && connection.recv_vm_ids.len() == 0)
}

/// The rings that data is sent to are the buffers of the connection.
proof fn lemma_send_rings(c: ConsoleView, connection: ConnectionView, world: World)
    requires
        connected(c, connection),
        plain_rings(world, connection.send_buffers, connection.buffer_size),
        used_apart(
            world,
            c.state.tx_queue,
            connection.send_buffers,
            connection.buffer_size,
        ),
    ensures
        crate::tx_run_laws::tx_memory_apart(c, world),
        world.rings_ok(c.send_rings()),
        c.send_rings().len() == connection.send_vm_ids.len(),
        forall|k: int|
            0 <= k < c.send_rings().len() ==> {
                let ring = #[trigger] c.send_rings()[k];
                &&& ring.base == connection.send_buffers[k]
                &&& ring.capacity == connection.buffer_size - 16
            },
        forall|x: int|
            crate::areas::rings_cover(c.send_rings(), x) == #[trigger] in_buffers(
                connection.send_buffers,
                connection.buffer_size,
                x,
            ),
{
    let rings = c.send_rings();
    let bases = connection.send_buffers;
    let size = connection.buffer_size;
    crate::connection::law_every_vm_has_a_ring(connection);
    assert forall|k: int| 0 <= k < bases.len() implies {
        &&& #[trigger] connection.send_ring(k) is Ok
        &&& connection.send_ring(k)->Ok_0.base == bases[k]
        &&& connection.send_ring(k)->Ok_0.capacity == size - 16
    } by {
        assert(bases[k] + size <= u64::MAX);
        crate::ring_laws::law_buffers_hold_rings(k as usize, bases[k], size);
    }
    if c.connection is Some {
        assert forall|k: int| 0 <= k < rings.len() implies {
            let ring = #[trigger] rings[k];
            &&& ring.base == bases[k]
            &&& ring.capacity == size - 16
            &&& ring.in_memory()
            &&& world.ring_ok(ring)
        } by {
            assert(connection.send_ring(k) is Ok);
            assert(bases[k] + size <= u64::MAX);
        }
        assert forall|j: int, k: int|
            0 <= j < rings.len() && 0 <= k < rings.len() && j
                != k implies crate::areas::rings_apart(#[trigger] rings[j], #[trigger] rings[k]) by {
            assert(bases[j] + size <= bases[k] || bases[k] + size <= bases[j]);
        }
    }
    assert forall|x: int|
        crate::areas::rings_cover(rings, x) == #[trigger] in_buffers(bases, size, x) by {
        if crate::areas::rings_cover(rings, x) {
            let k = choose|k: int| 0 <= k < rings.len() && (#[trigger] rings[k]).covers(x);
            assert(bases[k] <= x < bases[k] + size);
        }
        if in_buffers(bases, size, x) {
            let k = choose|k: int|
                0 <= k < bases.len() && #[trigger] bases[k] <= x < bases[k] + size;
            assert(rings[k].covers(x));
        }
    }
    assert forall|x: int|
        #[trigger] world.used_covers(
            c.state.tx_queue,
            x,
        ) implies !crate::areas::rings_cover(rings, x) by {
        assert(!in_buffers(bases, size, x));
    }
}

/// What one turn of the transmit queue has done, if its chain starts at `head`
/// and holds `data`, or is invalid: the chain is handed back with the number of
/// bytes, the queue has moved on by one, and for a valid chain the interrupt is
/// raised and the ring of every VM has got the data. Nothing else has changed.
pub open spec fn sent_to_all(
    c: ConsoleView,
    world: World,
    connection: ConnectionView,
    end: System,
    head: u16,
    valid: bool,
    data: Seq<u8>,
) -> bool {
    let queue = c.state.tx_queue;
    let size = connection.buffer_size;
    let state = StateView {
        tx_queue: QueueView {
            last_avail_idx: ((queue.last_avail_idx + 1) % 0x1_0000) as u16,
            ..queue
        },
        ..c.state
    };
    &&& end.console == (ConsoleView {
        state: if valid {
            StateView { interrupt_status: c.state.interrupt_status | 1, ..state }
        } else {
            state
        },
        data: end.console.data,
        ..c
    })
    &&& end.world.guest == world.guest && end.world.linear == world.linear
    &&& world.locate(queue.used_ring) matches Some(used) ==> got_element(
        world,
        end.world,
        used,
        queue.size,
        head,
        if valid {
            data.len() as int
        } else {
            0
        },
    )
    &&& forall|k: int|
        0 <= k < connection.send_vm_ids.len() ==> got_data(
            world,
            end.world,
            #[trigger] connection.send_buffers[k],
            size,
            if valid {
                data
            } else {
                Seq::empty()
            },
        )
    &&& forall|x: int|
        !in_buffers(connection.send_buffers, size, x) && !(world.locate(
            queue.used_ring,
        ) matches Some(used) && used + 2 <= x < used + 4 + 8 * queue.size)
            ==> #[trigger] end.world.ram[x] == world.ram[x]
}

/// A turn of the transmit queue takes the chain that waits next, gathers what the
/// driver has put into its buffers, hands it back and raises the interrupt, and
/// every VM that the device sends to finds the data in its ring, as far as there
/// is room. An invalid chain is handed back with no bytes, and that is all. Then
/// the next chain has its turn.
pub proof fn law_chain_goes_to_every_vm(
    c: ConsoleView,
    world: World,
    connection: ConnectionView,
    avail: u64,
    path: Seq<u16>,
    pieces: Seq<Seq<u8>>,
)
    requires
        connected(c, connection),
        plain_rings(world, connection.send_buffers, connection.buffer_size),
        used_apart(
            world,
            c.state.tx_queue,
            connection.send_buffers,
            connection.buffer_size,
        ),
        path.len() > 0,
        pieces.len() == path.len(),
        chain_waits(world, c.state.tx_queue, avail, path[0]),
        good_links(world, c.state.tx_queue, path, pieces),
        good_link(world, c.state.tx_queue, path.last(), pieces.last(), None) || bad_link(
            world,
            c.state.tx_queue,
            path.last(),
        ),
        pieces.flatten().len() <= usize::MAX,
        pieces.flatten().len() <= u32::MAX,
        forall|k: int|
            0 <= k < connection.send_vm_ids.len() ==> crate::world::load(
                world.ram,
                #[trigger] connection.send_buffers[k] as int,
                8,
            ) as u64 + plain_room(
                world,
                connection.send_buffers[k],
                connection.buffer_size,
                pieces.flatten().len() as int,
            ) <= u64::MAX,
    ensures
        ({
            let end = crate::tx_run_laws::tx_turn(c, world, path.len());
            let valid = !bad_link(world, c.state.tx_queue, path.last());
            &&& sent_to_all(c, world, connection, end, path[0], valid, pieces.flatten())
            &&& (System { console: c.tx_pop(PopEvent::Begin), world }).reaches(
                System { console: end.console.tx_pop(PopEvent::Begin), world: end.world },
            )
        }),
{
    let queue = c.state.tx_queue;
    let rings = c.send_rings();
    let bases = connection.send_buffers;
    let size = connection.buffer_size;
    let head = path[0];
    let fuel = path.len();
    let data = pieces.flatten();
    let end = crate::tx_run_laws::tx_turn(c, world, fuel);
    let valid = !bad_link(world, queue, path.last());
    lemma_chain_waits(world, queue, avail, head);
    law_chain_is_what_is_linked(world, queue, path, pieces, fuel);
    lemma_send_rings(c, connection, world);
    let chain = world.chain(queue, head, Seq::empty(), fuel);
    assert forall|k: int| 0 <= k < rings.len() implies world.write_idx((#[trigger] rings[k]).base)
        + crate::tx_run_laws::part_sent(chain, world.room(rings[k])).len() <= u64::MAX by {
        assert(world.ring_ok(rings[k]));
        assert(rings[k].base == bases[k]);
        assert(plain_room(world, bases[k], size, data.len() as int) >= 0);
    }
    crate::tx_run_laws::lemma_tx_turn_possible(c, world, fuel);
    crate::tx_run_laws::lemma_tx_turn(c, world, fuel);
    assert forall|k: int| 0 <= k < connection.send_vm_ids.len() implies got_data(
        world,
        end.world,
        #[trigger] bases[k],
        size,
        if valid {
            data
        } else {
            Seq::empty()
        },
    ) by {
        assert(world.ring_ok(rings[k]));
        assert(bases[k] + size <= u64::MAX);
        lemma_grown_got_data(
            world,
            end.world,
            rings[k],
            bases[k],
            size,
            if valid {
                data
            } else {
                Seq::empty()
            },
        );
    }
    if let Some(used) = world.locate(queue.used_ring) {
        lemma_element_is_there(c, world, used, head, fuel);
    }
    assert forall|x: int|
        !in_buffers(bases, size, x) && !(world.locate(queue.used_ring) matches Some(used) && used
            + 2 <= x < used + 4 + 8 * queue.size) implies #[trigger] end.world.ram[x]
        == world.ram[x] by {
        assert(!crate::areas::rings_cover(rings, x));
        assert(!world.used_covers(queue, x));
        assert(!crate::tx_run_laws::tx_area(c, world).contains(x));
    }
    if valid {
        crate::tx_laws::law_tx_sends_a_valid_chain(c, world, fuel);
    } else {
        crate::tx_laws::law_tx_returns_an_invalid_chain(c, world, fuel);
    }
}

/// The element that one turn of the transmit queue hands back.
proof fn lemma_element_is_there(c: ConsoleView, world: World, used: u64, head: u16, fuel: nat)
    requires
        crate::tx_run_laws::tx_memory_apart(c, world),
        world.rings_ok(c.send_rings()),
        crate::tx_run_laws::tx_can_turn(c, world, fuel),
        world.waiting_head(c.state.tx_queue, 0) == head,
        world.locate(c.state.tx_queue.used_ring) == Some(used),
        used + 4 + 8 * c.state.tx_queue.size <= u64::MAX,
    ensures
        got_element(
            world,
            crate::tx_run_laws::tx_turn(c, world, fuel).world,
            used,
            c.state.tx_queue.size,
            head,
            crate::tx_run_laws::returned_len(
                world.chain(c.state.tx_queue, head, Seq::empty(), fuel),
            ) as int,
        ),
{
    let queue = c.state.tx_queue;
    let chain = world.chain(queue, head, Seq::empty(), fuel);
    let len = crate::tx_run_laws::returned_len(chain);
    let back = world.handed_back(queue, head, len);
    let after = crate::tx_run_laws::tx_turn(c, world, fuel).world;
    let idx = world.half((used + 2) as u64);
    let at = used + 4 + 8 * (idx as int % queue.size as int);
    crate::tx_run_laws::lemma_tx_turn(c, world, fuel);
    crate::queue_laws::law_used_ring_gets_the_chain(world, queue, used, head, len);
    vstd::arithmetic::div_mod::lemma_mod_bound(idx as int, queue.size as int);
    assert forall|x: int| used + 2 <= x < used + 4 + 8 * queue.size implies #[trigger] after.ram[x]
        == back.ram[x] by {
        assert(world.used_covers(queue, x));
    }
    crate::world::lemma_load_same(back.ram, after.ram, at, 4);
    crate::world::lemma_load_same(back.ram, after.ram, at + 4, 4);
    crate::world::lemma_load_same(back.ram, after.ram, used + 2, 2);
}

/// When no chain waits, a turn of the transmit queue ends the transfer, with
/// nothing written.
pub proof fn law_sending_ends_without_a_chain(c: ConsoleView, world: World)
    requires
        no_chain_waits(world, c.state.tx_queue),
    ensures
        (System { console: c.tx_pop(PopEvent::Begin), world }).reaches(
            System { console: ConsoleView { phase: Phase::Idle, ..c }, world },
        ),
{
    lemma_no_chain_waits(world, c.state.tx_queue);
    crate::tx_laws::law_tx_ends_when_no_chain_waits(c, world);
}

/// In memory, the descriptor number `head` of `queue` leads to the buffer at `to`
/// for `limit` bytes of contiguous memory, and says that it takes `len`. It
/// stands 16 bytes behind the one before.
pub open spec fn leads_to(
    world: World,
    queue: QueueView,
    head: u16,
    len: u32,
    buffer: Option<(u64, u64)>,
) -> bool {
    &&& head < queue.size
    &&& queue.desc_table + 16 * head <= u64::MAX
    &&& world.locate((queue.desc_table + 16 * head) as u64) matches Some(hva) && {
        let desc = crate::world::descriptor_at(world.ram, hva as int);
        desc.len == len && world.translate(desc.addr) == buffer
    }
}

/// The ring that data is received from is the buffer of the connection.
proof fn lemma_recv_ring(c: ConsoleView, connection: ConnectionView, index: int)
    requires
        connected(c, connection),
        0 <= index < connection.recv_vm_ids.len(),
        16 <= connection.buffer_size,
        connection.recv_buffers[index] + connection.buffer_size <= u64::MAX,
    ensures
        ({
            let ring = SharedRing {
                index: index as usize,
                base: connection.recv_buffers[index] as u64,
                capacity: (connection.buffer_size - 16) as u64,
            };
            &&& connection.recv_ring(index) == Ok::<_, crate::request::Fault>(ring)
            &&& c.rx_ring(index) == c.rx(crate::phase::RxPhase::Poll { ring })
            &&& ring.in_memory()
            &&& ring.wf()
            &&& ring.index == index
        }),
{
    crate::connection::law_every_vm_has_a_ring(connection);
    crate::ring_laws::law_buffers_hold_rings(
        index as usize,
        connection.recv_buffers[index],
        connection.buffer_size,
    );
}

/// What has been brought in from the ring of `size` bytes at `base`: its `n`
/// oldest bytes are at `to`, in order, and its read index has grown by as much.
pub open spec fn brought_in(
    before: World,
    after: World,
    base: usize,
    size: usize,
    to: u64,
    n: int,
) -> bool {
    let r = crate::world::load(before.ram, base + 8, 8) as u64;
    &&& forall|j: int|
        0 <= j < n ==> #[trigger] after.ram[to + j] == before.ram[base + 16 + (r + j) % (size - 16)]
    &&& crate::world::load(after.ram, base + 8, 8) as u64 == r + n
    &&& crate::world::load(after.ram, base as int, 8) as u64 == crate::world::load(
        before.ram,
        base as int,
        8,
    ) as u64
}

/// Handing a chain back after memory apart from the used ring has changed.
proof fn lemma_element_after(
    world: World,
    mid: World,
    queue: QueueView,
    used: u64,
    head: u16,
    len: u32,
)
    requires
        queue.size > 0,
        mid.locate(queue.used_ring) == Some(used),
        used + 4 + 8 * queue.size <= u64::MAX,
        forall|x: int|
            used + 2 <= x < used + 4 + 8 * queue.size ==> #[trigger] mid.ram[x] == world.ram[x],
    ensures
        ({
            let end = mid.handed_back(queue, head, len);
            &&& got_element(world, end, used, queue.size, head, len as int)
            &&& end.guest == mid.guest && end.linear == mid.linear
            &&& forall|x: int|
                !(used + 2 <= x < used + 4 + 8 * queue.size) ==> #[trigger] end.ram[x] == mid.ram[x]
        }),
{
    let idx = world.half((used + 2) as u64);
    crate::world::lemma_load_same(mid.ram, world.ram, used + 2, 2);
    crate::queue_laws::law_used_ring_gets_the_chain(mid, queue, used, head, len);
    vstd::arithmetic::div_mod::lemma_mod_bound(idx as int, queue.size as int);
}

/// The chain that starts at `head` has been filled from the ring at `ring` and
/// handed back through the used ring at `used`, if that is mapped.
proof fn lemma_filled_in_memory(
    c: ConsoleView,
    world: World,
    ring: SharedRing,
    base: usize,
    size: usize,
    used: Option<u64>,
    head: u16,
    len: u32,
    buffer: Option<(u64, u64)>,
    to: u64,
    n: int,
)
    requires
        16 < size,
        base + size <= u64::MAX,
        ring.base == base,
        ring.capacity == size - 16,
        leads_to(world, c.state.rx_queue, head, len, buffer),
        world.locate(c.state.rx_queue.used_ring) == used,
        used matches Some(at) ==> {
            let used_end = at + 4 + 8 * c.state.rx_queue.size;
            &&& used_end <= u64::MAX
            &&& used_end <= base || base + size <= at + 2
            &&& n == 0 || to + n <= at + 2 || used_end <= to
        },
        world.read_idx(ring.base) < world.write_idx(ring.base),
        match buffer {
            Some((at, limit)) => {
                &&& to == at
                &&& n == smaller(
                    world.write_idx(ring.base) - world.read_idx(ring.base),
                    smaller(len as int, limit as int),
                )
            },
            None => n == 0,
        },
        to + n <= u64::MAX,
        n == 0 || to + n <= base || base + size <= to,
    ensures
        ({
            let queue = c.state.rx_queue;
            let end = crate::rx_laws::rx_filled(c, world, ring, head, buffer);
            &&& end.guest == world.guest && end.linear == world.linear
            &&& brought_in(world, end, base, size, to, n)
            &&& used matches Some(at) ==> got_element(world, end, at, queue.size, head, n)
            &&& forall|x: int|
                !(to <= x < to + n) && !(base + 8 <= x < base + 16) && !(used matches Some(at) && at
                    + 2 <= x < at + 4 + 8 * queue.size) ==> #[trigger] end.ram[x] == world.ram[x]
        }),
{
    let queue = c.state.rx_queue;
    let cap = size - 16;
    let w = world.write_idx(ring.base);
    let r = world.read_idx(ring.base);
    let end = crate::rx_laws::rx_filled(c, world, ring, head, buffer);
    let gpa = (queue.desc_table + 16 * head) as u64;
    let desc = crate::world::descriptor_at(world.ram, world.locate(gpa)->Some_0 as int);
    assert(world.descriptor(queue, head) == Ok::<_, crate::request::Fault>(desc));
    let mid = match buffer {
        Some(_) => world.pulled(ring, to, n as nat),
        None => world,
    };
    if let Some((at, limit)) = buffer {
        crate::transfer::law_lengths_respect_limits(desc, (w - r) as u64, limit);
        assert(crate::transfer::copy_len(desc, (w - r) as u64, limit) == n);
        crate::ring_laws::law_pull_takes_the_oldest(world, ring, to, n as nat);
        assert forall|j: int| 0 <= j < n implies #[trigger] mid.ram[to + j] == world.ram[base + 16
            + (r + j) % cap] by {
            crate::ring_laws::law_slots_follow_the_header(ring, r + j);
            assert(mid.bytes(to, n as u64)[j] == world.contents(ring).take(n)[j]);
        }
    }
    assert(end == mid.handed_back(queue, head, n as u32));
    if let Some(at) = used {
        lemma_element_after(world, mid, queue, at, head, n as u32);
    }
    crate::world::lemma_load_same(mid.ram, end.ram, base as int, 8);
    crate::world::lemma_load_same(mid.ram, end.ram, base + 8, 8);
}

/// A turn of the receive queue for a ring that holds data takes the chain that
/// waits next and brings the oldest bytes of the ring to the buffer of the
/// chain's descriptor: as many as the ring holds, the descriptor says and
/// contiguous memory allows. It hands the chain back with their number, and
/// takes them out of the ring. A chain whose buffer is not mapped is handed back
/// with no bytes, and the ring keeps all. Nothing else changes, and the ring has
/// another turn.
pub proof fn law_oldest_bytes_come_in(
    c: ConsoleView,
    world: World,
    connection: ConnectionView,
    index: int,
    avail: u64,
    used: Option<u64>,
    head: u16,
    len: u32,
    buffer: Option<(u64, u64)>,
    to: u64,
    n: int,
)
    requires
        connected(c, connection),
        0 <= index < connection.recv_vm_ids.len(),
        16 < connection.buffer_size,
        connection.recv_buffers[index] + connection.buffer_size <= u64::MAX,
        chain_waits(world, c.state.rx_queue, avail, head),
        leads_to(world, c.state.rx_queue, head, len, buffer),
        world.locate(c.state.rx_queue.used_ring) == used,
        ({
            let base = connection.recv_buffers[index];
            let size = connection.buffer_size;
            let w = crate::world::load(world.ram, base as int, 8) as u64;
            let r = crate::world::load(world.ram, base + 8, 8) as u64;
            &&& r < w
            &&& match buffer {
                Some((at, limit)) => to == at && n == smaller(
                    w - r,
                    smaller(len as int, limit as int),
                ),
                None => n == 0,
            }
            &&& to + n <= u64::MAX
            &&& n == 0 || to + n <= base || base + size <= to
            &&& used matches Some(at) ==> {
                let used_end = at + 4 + 8 * c.state.rx_queue.size;
                &&& used_end <= u64::MAX
                &&& used_end <= base || base + size <= at + 2
                &&& n == 0 || to + n <= at + 2 || used_end <= to
            }
        }),
    ensures
        ({
            let queue = c.state.rx_queue;
            let base = connection.recv_buffers[index];
            let size = connection.buffer_size;
            let moved = ConsoleView {
                state: StateView {
                    rx_queue: QueueView {
                        last_avail_idx: ((queue.last_avail_idx + 1) % 0x1_0000) as u16,
                        ..queue
                    },
                    ..c.state
                },
                ..c
            };
            let end = crate::rx_run_laws::rx_turn(c, world, index).world;
            &&& (System { console: c.rx_ring(index), world }).reaches(
                System { console: moved.rx_ring(index), world: end },
            )
            &&& end.guest == world.guest && end.linear == world.linear
            &&& brought_in(world, end, base, size, to, n)
            &&& used matches Some(at) ==> got_element(world, end, at, queue.size, head, n)
            &&& forall|x: int|
                !(to <= x < to + n) && !(base + 8 <= x < base + 16) && !(used matches Some(at) && at
                    + 2 <= x < at + 4 + 8 * queue.size) ==> #[trigger] end.ram[x] == world.ram[x]
        }),
{
    let queue = c.state.rx_queue;
    let base = connection.recv_buffers[index];
    let size = connection.buffer_size;
    let ring = connection.recv_ring(index)->Ok_0;
    lemma_recv_ring(c, connection, index);
    crate::connection::law_every_vm_has_a_ring(connection);
    assert(c.recv_rings()[index] == ring);
    lemma_chain_waits(world, queue, avail, head);
    let gpa = (queue.desc_table + 16 * head) as u64;
    let desc = crate::world::descriptor_at(world.ram, world.locate(gpa)->Some_0 as int);
    assert(world.descriptor(queue, head) == Ok::<_, crate::request::Fault>(desc));
    crate::rx_laws::law_rx_fills_a_chain(c, world, ring);
    lemma_recv_ring(c.with_rx_queue(queue.advanced()), connection, index);
    lemma_filled_in_memory(c, world, ring, base, size, used, head, len, buffer, to, n);
}

/// A ring that holds nothing is passed over, and so is one that holds data while
/// no chain waits for it. Nothing is written, and the next ring has its turn.
pub proof fn law_ring_is_passed_over(
    c: ConsoleView,
    world: World,
    connection: ConnectionView,
    index: int,
)
    requires
        connected(c, connection),
        0 <= index < connection.recv_vm_ids.len(),
        16 <= connection.buffer_size,
        connection.recv_buffers[index] + connection.buffer_size <= u64::MAX,
        ({
            let base = connection.recv_buffers[index];
            let w = crate::world::load(world.ram, base as int, 8) as u64;
            let r = crate::world::load(world.ram, base + 8, 8) as u64;
            r == w || (r < w && no_chain_waits(world, c.state.rx_queue))
        }),
    ensures
        (System { console: c.rx_ring(index), world }).reaches(
            System { console: c.rx_ring(index + 1), world },
        ),
{
    let ring = connection.recv_ring(index)->Ok_0;
    lemma_recv_ring(c, connection, index);
    if world.held(ring) == 0 {
        crate::rx_laws::law_rx_passes_an_empty_ring(c, world, ring);
    } else {
        lemma_no_chain_waits(world, c.state.rx_queue);
        crate::rx_laws::law_rx_leaves_data_without_a_chain(c, world, ring);
    }
}

/// A notification first gives every ring its turn, from the first VM to the last
/// that the device receives from, and then, if it was for queue 1, begins to
/// send. So does a new connection to receive from, without sending.
pub proof fn law_rings_have_their_turns(
    c: ConsoleView,
    connection: ConnectionView,
    queue_idx: u32,
    index: int,
)
    requires
        connected(c, connection),
    ensures
        c.notified(queue_idx) == (ConsoleView { tx_follows: queue_idx == 1, ..c }).rx_ring(0),
        c.received() == (ConsoleView { tx_follows: false, ..c }).rx_ring(0),
        index >= connection.recv_vm_ids.len() ==> c.rx_ring(index) == if c.tx_follows {
            (ConsoleView { tx_follows: false, ..c }).tx_pop(PopEvent::Begin)
        } else {
            ConsoleView { phase: Phase::Idle, ..c }
        },
{
    crate::connection::law_every_vm_has_a_ring(connection);
}

} // verus!
