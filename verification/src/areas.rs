//! The memory that queues and rings take up, and that what is read of them
//! stays the same as long as only other memory is written.
use crate::queue::{QueueView, VirtqDesc};
use crate::ring::SharedRing;
use crate::tx_laws::Chain;
use crate::world::World;
use vstd::prelude::*;

verus! {

/// None of the `len` bytes from `at` on are in `area`.
pub open spec fn apart(at: int, len: int, area: Set<int>) -> bool {
    forall|x: int| at <= x < at + len ==> !#[trigger] area.contains(x)
}

/// The buffers of two rings have no byte in common.
pub open spec fn rings_apart(a: SharedRing, b: SharedRing) -> bool {
    a.end() <= b.base || b.end() <= a.base
}

/// Every ring lies in host memory, and no two of them overlap.
pub open spec fn rings_laid_out(rings: Seq<SharedRing>) -> bool {
    &&& forall|k: int| 0 <= k < rings.len() ==> (#[trigger] rings[k]).in_memory()
    &&& forall|j: int, k: int|
        0 <= j < rings.len() && 0 <= k < rings.len() && j != k ==> rings_apart(
            #[trigger] rings[j],
            #[trigger] rings[k],
        )
}

/// Two rings are in the same buffer.
pub open spec fn rings_same(a: SharedRing, b: SharedRing) -> bool {
    a.base == b.base && a.capacity == b.capacity
}

/// Every ring lies in host memory, and two of them overlap only where they are
/// in the same buffer.
pub open spec fn rings_separate(rings: Seq<SharedRing>) -> bool {
    &&& forall|k: int| 0 <= k < rings.len() ==> (#[trigger] rings[k]).in_memory()
    &&& forall|j: int, k: int|
        0 <= j < rings.len() && 0 <= k < rings.len() ==> rings_same(
            #[trigger] rings[j],
            #[trigger] rings[k],
        ) || rings_apart(rings[j], rings[k])
}

/// `x` is an address of one of `rings`.
pub open spec fn rings_cover(rings: Seq<SharedRing>, x: int) -> bool {
    exists|k: int| 0 <= k < rings.len() && (#[trigger] rings[k]).covers(x)
}

impl World {
    /// `other` translates addresses as this host does, and its memory is the
    /// same but for `area`.
    pub open spec fn same_outside(self, other: World, area: Set<int>) -> bool {
        &&& other.guest == self.guest
        &&& other.linear == self.linear
        &&& forall|x: int| !area.contains(x) ==> #[trigger] other.ram[x] == self.ram[x]
    }

    /// The memory of `ring` is the same in `other`.
    pub open spec fn same_ring(self, other: World, ring: SharedRing) -> bool {
        forall|x: int| ring.covers(x) ==> #[trigger] other.ram[x] == self.ram[x]
    }

    /// How many chains wait in `queue`.
    pub open spec fn waiting(self, queue: QueueView) -> nat {
        match self.locate(queue.avail_ring) {
            Some(ring) => if queue.ready {
                ((self.half(
                    crate::queue::host_offset(ring, crate::queue::RING_IDX_OFFSET as int),
                ) - queue.last_avail_idx) % 0x1_0000) as nat
            } else {
                0
            },
            None => 0,
        }
    }

    /// The head of the chain that has `j` other chains waiting before it.
    pub open spec fn waiting_head(self, queue: QueueView, j: int) -> u16 {
        let ring = self.locate(queue.avail_ring)->Some_0;
        self.half(
            crate::queue::host_offset(
                ring,
                crate::queue::RING_ENTRIES_OFFSET + 2 * ((queue.last_avail_idx + j) % 0x1_0000
                    % queue.size as int),
            ),
        )
    }

    /// The chains that wait in `queue`, the next one first.
    pub open spec fn waiting_chains(self, queue: QueueView, fuel: nat) -> Seq<Chain> {
        Seq::new(
            self.waiting(queue),
            |j: int| self.chain(queue, self.waiting_head(queue, j), Seq::empty(), fuel),
        )
    }

    /// The available ring of `queue` lies in host memory, apart from `area`.
    pub open spec fn avail_apart(self, queue: QueueView, area: Set<int>) -> bool {
        self.locate(queue.avail_ring) matches Some(ring) ==> {
            &&& ring + crate::queue::RING_ENTRIES_OFFSET + 2 * queue.size <= u64::MAX
            &&& apart(ring as int, crate::queue::RING_ENTRIES_OFFSET + 2 * queue.size, area)
        }
    }

    /// The descriptor number `idx` of `queue` stands apart from `area`.
    pub open spec fn descriptor_apart(self, queue: QueueView, idx: u16, area: Set<int>) -> bool {
        idx < queue.size && queue.descriptor_address(idx) <= u64::MAX ==> (self.locate(
            queue.descriptor_address(idx) as u64,
        ) matches Some(hva) ==> apart(hva as int, crate::queue::DESC_SIZE as int, area))
    }

    /// What the driver has put into the buffer of `desc` stands apart from `area`.
    pub open spec fn payload_apart(self, desc: VirtqDesc, area: Set<int>) -> bool {
        desc.is_writable() || (self.translate(desc.addr) matches Some((hpa, limit)) ==> apart(
            hpa as int,
            crate::transfer::read_len(desc, limit) as int,
            area,
        ))
    }

    /// The descriptors of the chain at `idx`, `fuel` of them at most, and their
    /// buffers stand apart from `area`.
    pub open spec fn chain_apart(
        self,
        queue: QueueView,
        idx: u16,
        fuel: nat,
        area: Set<int>,
    ) -> bool
        decreases fuel,
    {
        if fuel == 0 {
            true
        } else {
            &&& self.descriptor_apart(queue, idx, area)
            &&& self.descriptor(queue, idx) matches Ok(desc) ==> desc.is_void() || {
                &&& self.payload_apart(desc, area)
                &&& self.payload(desc) is Some && desc.has_next() && desc.next < queue.size
                    ==> self.chain_apart(queue, desc.next, (fuel - 1) as nat, area)
            }
        }
    }

    /// `x` is an address of the index or of an element of the used ring of `queue`.
    pub open spec fn used_covers(self, queue: QueueView, x: int) -> bool {
        self.locate(queue.used_ring) matches Some(ring) && ring + crate::queue::RING_IDX_OFFSET
            <= x < ring + crate::queue::RING_ENTRIES_OFFSET + crate::queue::USED_ELEM_SIZE
            * queue.size
    }

    /// The used ring of `queue`, if it is mapped, lies in host memory.
    pub open spec fn used_in_memory(self, queue: QueueView) -> bool {
        self.locate(queue.used_ring) matches Some(ring) ==> ring
            + crate::queue::RING_ENTRIES_OFFSET + crate::queue::USED_ELEM_SIZE * queue.size
            <= u64::MAX
    }
}

/// The next chain is the first one that waits.
pub proof fn lemma_next_chain_waits(world: World, queue: QueueView)
    ensures
        world.waiting(queue) == 0 <==> world.next_chain(queue) is None,
        world.next_chain(queue) matches Some(head) ==> head == world.waiting_head(queue, 0),
        world.waiting(queue) < 0x1_0000,
{
    vstd::arithmetic::div_mod::lemma_small_mod(queue.last_avail_idx as nat, 0x1_0000);
}

/// Once a chain is taken, those that waited behind it have moved up by one.
pub proof fn lemma_waiting_moves_up(world: World, queue: QueueView)
    requires
        world.waiting(queue) > 0,
    ensures
        world.waiting(queue.advanced()) == world.waiting(queue) - 1,
        forall|j: int|
            0 <= j ==> #[trigger] world.waiting_head(queue.advanced(), j) == world.waiting_head(
                queue,
                j + 1,
            ),
{
    let last = queue.last_avail_idx as int;
    assert forall|j: int| 0 <= j implies #[trigger] world.waiting_head(queue.advanced(), j)
        == world.waiting_head(queue, j + 1) by {
        assert(((last + 1) % 0x1_0000 + j) % 0x1_0000 == (last + (j + 1)) % 0x1_0000);
    }
}

/// Memory that is read in two bytes depends on those bytes alone.
proof fn lemma_half_same(a: World, b: World, at: u64, area: Set<int>)
    requires
        a.same_outside(b, area),
        apart(at as int, 2, area),
    ensures
        a.half(at) == b.half(at),
{
    crate::world::lemma_load_same(a.ram, b.ram, at as int, 2);
}

/// Which chains wait does not depend on memory apart from the available ring.
pub proof fn lemma_waiting_same(a: World, b: World, queue: QueueView, area: Set<int>)
    requires
        a.same_outside(b, area),
        a.avail_apart(queue, area),
    ensures
        a.waiting(queue) == b.waiting(queue),
        b.avail_apart(queue, area),
        queue.size > 0 && a.waiting(queue) > 0 ==> forall|j: int|
            0 <= j ==> #[trigger] a.waiting_head(queue, j) == b.waiting_head(queue, j),
{
    if let Some(ring) = a.locate(queue.avail_ring) {
        let idx_at = ring + crate::queue::RING_IDX_OFFSET;
        vstd::arithmetic::div_mod::lemma_small_mod(idx_at as nat, 0x1_0000_0000_0000_0000);
        lemma_half_same(a, b, idx_at as u64, area);
        if queue.size > 0 && a.waiting(queue) > 0 {
            assert forall|j: int| 0 <= j implies #[trigger] a.waiting_head(queue, j)
                == b.waiting_head(queue, j) by {
                let slot = (queue.last_avail_idx + j) % 0x1_0000 % queue.size as int;
                vstd::arithmetic::div_mod::lemma_mod_bound(
                    (queue.last_avail_idx + j) % 0x1_0000,
                    queue.size as int,
                );
                let at = ring + crate::queue::RING_ENTRIES_OFFSET + 2 * slot;
                vstd::arithmetic::div_mod::lemma_small_mod(at as nat, 0x1_0000_0000_0000_0000);
                lemma_half_same(a, b, at as u64, area);
            }
        }
    }
}

/// Once a chain is taken, and only memory apart from the available ring has
/// changed, those that waited behind it have moved up by one.
pub proof fn lemma_waiting_goes_on(a: World, b: World, queue: QueueView, area: Set<int>)
    requires
        a.same_outside(b, area),
        a.avail_apart(queue, area),
        queue.size > 0,
        a.waiting(queue) > 0,
    ensures
        b.avail_apart(queue.advanced(), area),
        b.waiting(queue.advanced()) == a.waiting(queue) - 1,
        forall|j: int|
            0 <= j ==> #[trigger] b.waiting_head(queue.advanced(), j) == a.waiting_head(
                queue,
                j + 1,
            ),
{
    lemma_waiting_same(a, b, queue, area);
    lemma_waiting_moves_up(b, queue);
    assert forall|j: int| 0 <= j implies #[trigger] b.waiting_head(queue.advanced(), j)
        == a.waiting_head(queue, j + 1) by {
        assert(a.waiting_head(queue, j + 1) == b.waiting_head(queue, j + 1));
    }
}

/// A descriptor depends only on the bytes where it stands.
pub proof fn lemma_descriptor_same(
    a: World,
    b: World,
    queue: QueueView,
    idx: u16,
    area: Set<int>,
)
    requires
        a.same_outside(b, area),
        a.descriptor_apart(queue, idx, area),
    ensures
        a.descriptor(queue, idx) == b.descriptor(queue, idx),
        b.descriptor_apart(queue, idx, area),
{
    if idx < queue.size && queue.descriptor_address(idx) <= u64::MAX {
        if let Some(hva) = a.locate(queue.descriptor_address(idx) as u64) {
            let at = hva as int;
            crate::world::lemma_load_same(a.ram, b.ram, at, 8);
            crate::world::lemma_load_same(a.ram, b.ram, at + 8, 4);
            crate::world::lemma_load_same(a.ram, b.ram, at + 12, 2);
            crate::world::lemma_load_same(a.ram, b.ram, at + 14, 2);
        }
    }
}

/// The bytes of a buffer depend only on that buffer.
pub proof fn lemma_bytes_same(a: World, b: World, at: u64, len: u64, area: Set<int>)
    requires
        a.same_outside(b, area),
        apart(at as int, len as int, area),
    ensures
        a.bytes(at, len) == b.bytes(at, len),
{
    assert forall|i: int| 0 <= i < len implies #[trigger] a.bytes(at, len)[i] == b.bytes(
        at,
        len,
    )[i] by {
        assert(!area.contains(at + i));
    }
    assert(a.bytes(at, len) =~= b.bytes(at, len));
}

/// A chain depends only on its descriptors and their buffers.
pub proof fn lemma_chain_same(
    a: World,
    b: World,
    queue: QueueView,
    idx: u16,
    data: Seq<u8>,
    fuel: nat,
    area: Set<int>,
)
    requires
        a.same_outside(b, area),
        a.chain_apart(queue, idx, fuel, area),
    ensures
        a.chain(queue, idx, data, fuel) == b.chain(queue, idx, data, fuel),
        b.chain_apart(queue, idx, fuel, area),
    decreases fuel,
{
    if fuel > 0 {
        lemma_descriptor_same(a, b, queue, idx, area);
        if let Ok(desc) = a.descriptor(queue, idx) {
            if !desc.is_void() {
                if !desc.is_writable() {
                    if let Some((hpa, limit)) = a.translate(desc.addr) {
                        let len = crate::transfer::read_len(desc, limit);
                        lemma_bytes_same(a, b, hpa, len, area);
                    }
                }
                assert(a.payload(desc) == b.payload(desc));
                if let Some(bytes) = a.payload(desc) {
                    if desc.has_next() && desc.next < queue.size {
                        lemma_chain_same(
                            a,
                            b,
                            queue,
                            desc.next,
                            data + bytes,
                            (fuel - 1) as nat,
                            area,
                        );
                    }
                }
            }
        }
    }
}

/// Which chain is next does not matter for where a chain stands.
pub proof fn lemma_apart_ignores_position(
    world: World,
    queue: QueueView,
    idx: u16,
    fuel: nat,
    area: Set<int>,
)
    requires
        world.chain_apart(queue, idx, fuel, area),
    ensures
        world.chain_apart(queue.advanced(), idx, fuel, area),
    decreases fuel,
{
    if fuel > 0 {
        assert(world.descriptor(queue, idx) == world.descriptor(queue.advanced(), idx));
        assert(world.descriptor_apart(queue.advanced(), idx, area));
        if let Ok(desc) = world.descriptor(queue, idx) {
            if !desc.is_void() && world.payload(desc) is Some && desc.has_next() && desc.next
                < queue.size {
                lemma_apart_ignores_position(world, queue, desc.next, (fuel - 1) as nat, area);
            }
        }
    }
}

/// A chain is the same after another one is taken and memory apart from it has
/// changed.
pub proof fn lemma_chain_goes_on(
    a: World,
    b: World,
    queue: QueueView,
    idx: u16,
    fuel: nat,
    area: Set<int>,
)
    requires
        a.same_outside(b, area),
        a.chain_apart(queue, idx, fuel, area),
    ensures
        b.chain_apart(queue.advanced(), idx, fuel, area),
        b.chain(queue.advanced(), idx, Seq::empty(), fuel) == a.chain(
            queue,
            idx,
            Seq::empty(),
            fuel,
        ),
{
    lemma_chain_same(a, b, queue, idx, Seq::empty(), fuel, area);
    lemma_apart_ignores_position(b, queue, idx, fuel, area);
    crate::tx_laws::lemma_chain_ignores_position(
        b,
        queue,
        queue.advanced(),
        idx,
        Seq::empty(),
        fuel,
    );
}

/// What a ring holds depends only on the ring.
pub proof fn lemma_ring_same(a: World, b: World, ring: SharedRing)
    requires
        ring.in_memory(),
        a.same_ring(b, ring),
    ensures
        b.write_idx(ring.base) == a.write_idx(ring.base),
        b.read_idx(ring.base) == a.read_idx(ring.base),
        b.ring_ok(ring) == a.ring_ok(ring),
        b.ring_ordered(ring) == a.ring_ordered(ring),
        a.ring_ordered(ring) ==> b.contents(ring) == a.contents(ring),
{
    crate::ring_laws::lemma_indices_kept(a, b, ring);
    if a.ring_ordered(ring) {
        let r = a.read_idx(ring.base);
        let held = a.write_idx(ring.base) - r;
        assert forall|i: int| 0 <= i < held implies a.ram[#[trigger] ring.slot(
            r + i,
        ) as int] == b.ram[ring.slot(r + i) as int] by {
            crate::ring_laws::lemma_slot(ring, r + i);
            assert(ring.covers(ring.slot(r + i) as int));
        }
        assert(b.contents(ring) =~= a.contents(ring));
    }
}

/// Handing a chain back writes to the used ring alone.
pub proof fn lemma_handing_back_writes_the_used_ring(
    world: World,
    queue: QueueView,
    head: u16,
    len: u32,
)
    requires
        queue.size > 0,
        world.used_in_memory(queue),
    ensures
        ({
            let after = world.handed_back(queue, head, len);
            &&& after.guest == world.guest
            &&& after.linear == world.linear
            &&& forall|x: int|
                !world.used_covers(queue, x) ==> #[trigger] after.ram[x] == world.ram[x]
        }),
{
    if let Some(ring) = world.locate(queue.used_ring) {
        crate::queue_laws::law_used_ring_gets_the_chain(world, queue, ring, head, len);
        let idx = world.half((ring + crate::queue::RING_IDX_OFFSET) as u64);
        vstd::arithmetic::div_mod::lemma_mod_bound(idx as int, queue.size as int);
    }
}

} // verus!
