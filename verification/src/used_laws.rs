//! What a used ring holds after several chains are handed back through it.
use crate::queue::{QueueView, VirtqUsedElem};
use crate::world::World;
use vstd::prelude::*;

verus! {

/// Host address of the element that belongs to the position `pos` of the used
/// ring at `ring`, which has `size` slots.
pub open spec fn used_slot(ring: u64, size: u16, pos: int) -> int {
    ring + crate::queue::RING_ENTRIES_OFFSET + crate::queue::USED_ELEM_SIZE * (pos % size as int)
}

impl World {
    /// The index of the used ring at `ring`.
    pub open spec fn used_idx(self, ring: u64) -> u16 {
        self.half((ring + crate::queue::RING_IDX_OFFSET) as u64)
    }

    /// The element at the position `pos` of the used ring at `ring`, which has
    /// `size` slots.
    pub open spec fn used_elem(self, ring: u64, size: u16, pos: int) -> VirtqUsedElem {
        let at = used_slot(ring, size, pos);
        VirtqUsedElem {
            id: crate::world::load(self.ram, at, 4) as u32,
            len: crate::world::load(self.ram, at + 4, 4) as u32,
        }
    }

    /// In `other`, the used ring at `ring` holds `elems`, from where its index
    /// stands here on. Its index has moved on by their number, and its other
    /// slots are as they were.
    pub open spec fn used_grew(
        self,
        other: World,
        ring: u64,
        size: u16,
        elems: Seq<VirtqUsedElem>,
    ) -> bool {
        let start = self.used_idx(ring) as int;
        &&& other.used_idx(ring) == (start + elems.len()) % 0x1_0000
        &&& forall|j: int|
            0 <= j < elems.len() ==> other.used_elem(ring, size, start + j) == #[trigger] elems[j]
        &&& forall|j: int|
            elems.len() <= j < size ==> #[trigger] other.used_elem(ring, size, start + j)
                == self.used_elem(ring, size, start + j)
    }
}

/// What a used ring holds depends only on the ring.
pub proof fn lemma_used_same(a: World, b: World, ring: u64, size: u16)
    requires
        size > 0,
        ring + crate::queue::RING_ENTRIES_OFFSET + crate::queue::USED_ELEM_SIZE * size <= u64::MAX,
        forall|x: int|
            ring + crate::queue::RING_IDX_OFFSET <= x < ring + crate::queue::RING_ENTRIES_OFFSET
                + crate::queue::USED_ELEM_SIZE * size ==> #[trigger] b.ram[x] == a.ram[x],
    ensures
        b.used_idx(ring) == a.used_idx(ring),
        forall|pos: int|
            #[trigger] b.used_elem(ring, size, pos) == a.used_elem(ring, size, pos),
{
    crate::world::lemma_load_same(a.ram, b.ram, ring + crate::queue::RING_IDX_OFFSET, 2);
    assert forall|pos: int| #[trigger] b.used_elem(ring, size, pos) == a.used_elem(
        ring,
        size,
        pos,
    ) by {
        let at = used_slot(ring, size, pos);
        vstd::arithmetic::div_mod::lemma_mod_bound(pos, size as int);
        crate::world::lemma_load_same(a.ram, b.ram, at, 4);
        crate::world::lemma_load_same(a.ram, b.ram, at + 4, 4);
    }
}

/// Positions less than a round apart have slots of their own.
proof fn lemma_used_slots_distinct(ring: u64, size: u16, i: int, j: int)
    requires
        i < j < i + size,
    ensures
        used_slot(ring, size, i) + crate::queue::USED_ELEM_SIZE <= used_slot(ring, size, j)
            || used_slot(ring, size, j) + crate::queue::USED_ELEM_SIZE <= used_slot(ring, size, i),
{
    let n = size as int;
    vstd::arithmetic::div_mod::lemma_small_mod((j - i) as nat, n as nat);
    vstd::arithmetic::div_mod::lemma_mod_equivalence(j, i, n);
}

/// One chain that is handed back through a used ring.
pub proof fn lemma_used_gets_one(world: World, queue: QueueView, ring: u64, head: u16, len: u32)
    requires
        queue.size > 0,
        world.locate(queue.used_ring) == Some(ring),
        ring + crate::queue::RING_ENTRIES_OFFSET + crate::queue::USED_ELEM_SIZE * queue.size
            <= u64::MAX,
    ensures
        world.used_grew(
            world.handed_back(queue, head, len),
            ring,
            queue.size,
            seq![VirtqUsedElem { id: head as u32, len }],
        ),
{
    let size = queue.size;
    let back = world.handed_back(queue, head, len);
    let start = world.used_idx(ring) as int;
    let elems = seq![VirtqUsedElem { id: head as u32, len }];
    crate::queue_laws::law_used_ring_gets_the_chain(world, queue, ring, head, len);
    vstd::arithmetic::div_mod::lemma_mod_bound(start, size as int);
    let first = used_slot(ring, size, start);
    assert(first == ring + queue.used_elem_offset(start as u16));
    assert(back.used_elem(ring, size, start + 0) == elems[0]);
    assert forall|j: int| 1 <= j < size implies #[trigger] back.used_elem(ring, size, start + j)
        == world.used_elem(ring, size, start + j) by {
        let at = used_slot(ring, size, start + j);
        lemma_used_slots_distinct(ring, size, start, start + j);
        vstd::arithmetic::div_mod::lemma_mod_bound(start + j, size as int);
        crate::world::lemma_load_same(back.ram, world.ram, at, 4);
        crate::world::lemma_load_same(back.ram, world.ram, at + 4, 4);
    }
}

/// Ring indices wrap where a round ends.
proof fn lemma_wrapped_slot(ring: u64, queue: QueueView, pos: int)
    requires
        queue.wf(),
        queue.size > 0,
    ensures
        used_slot(ring, queue.size, pos % 0x1_0000) == used_slot(ring, queue.size, pos),
{
    let size = queue.size as int;
    let k = choose|k: nat| queue.size == #[trigger] vstd::arithmetic::power2::pow2(k);
    crate::queue_laws::lemma_size_divides(queue.size, k);
    let times = 0x1_0000int / size;
    vstd::arithmetic::div_mod::lemma_fundamental_div_mod(0x1_0000, size);
    assert(0x1_0000 == size * times);
    assert(times > 0) by (nonlinear_arith)
        requires
            0x1_0000 == size * times,
            size > 0,
    ;
    vstd::arithmetic::div_mod::lemma_mod_mod(pos, size, times);
}

/// One chain that is handed back, and others after it: no more than the ring has
/// slots for.
pub proof fn lemma_used_adds(
    a: World,
    b: World,
    d: World,
    queue: QueueView,
    ring: u64,
    first: VirtqUsedElem,
    rest: Seq<VirtqUsedElem>,
)
    requires
        queue.wf(),
        1 + rest.len() <= queue.size,
        a.used_grew(b, ring, queue.size, seq![first]),
        b.used_grew(d, ring, queue.size, rest),
    ensures
        a.used_grew(d, ring, queue.size, seq![first] + rest),
{
    let size = queue.size;
    let start = a.used_idx(ring) as int;
    let next = b.used_idx(ring) as int;
    let elems = seq![first] + rest;
    assert(next == (start + 1) % 0x1_0000);
    assert forall|j: int| 0 <= j implies #[trigger] used_slot(ring, size, start + 1 + j)
        == used_slot(ring, size, next + j) by {
        lemma_wrapped_slot(ring, queue, start + 1 + j);
        lemma_wrapped_slot(ring, queue, next + j);
        assert((next + j) % 0x1_0000 == (start + 1 + j) % 0x1_0000);
    }
    assert(used_slot(ring, size, start) == used_slot(ring, size, start + size)) by {
        vstd::arithmetic::div_mod::lemma_mod_add_multiples_vanish(start, size as int);
    }
    assert forall|j: int| 0 <= j < elems.len() implies d.used_elem(ring, size, start + j)
        == #[trigger] elems[j] by {
        if j == 0 {
            let last = size - 1;
            assert(used_slot(ring, size, start + 1 + last) == used_slot(ring, size, next + last));
            assert(d.used_elem(ring, size, next + last) == b.used_elem(ring, size, next + last));
            assert(b.used_elem(ring, size, start + 0) == seq![first][0]);
        } else {
            assert(used_slot(ring, size, start + 1 + (j - 1)) == used_slot(
                ring,
                size,
                next + (j - 1),
            ));
            assert(elems[j] == rest[j - 1]);
        }
    }
    assert forall|j: int| elems.len() <= j < size implies #[trigger] d.used_elem(
        ring,
        size,
        start + j,
    ) == a.used_elem(ring, size, start + j) by {
        assert(used_slot(ring, size, start + 1 + (j - 1)) == used_slot(ring, size, next + (j - 1)));
        assert(d.used_elem(ring, size, next + (j - 1)) == b.used_elem(ring, size, next + (j - 1)));
        assert(b.used_elem(ring, size, start + j) == a.used_elem(ring, size, start + j));
    }
}

} // verus!
