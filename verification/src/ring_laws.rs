//! What sending to a shared ring and receiving from it do to memory, and that
//! the ring is a queue: bytes come out as they went in, in the same order.
use crate::ring::SharedRing;
use crate::world::World;
use vstd::prelude::*;

verus! {

impl SharedRing {
    /// The whole buffer lies in host memory.
    pub open spec fn in_memory(self) -> bool {
        self.base + crate::ring::RING_HEADER_SIZE + self.capacity <= u64::MAX
    }

    /// The first host address past the buffer.
    pub open spec fn end(self) -> int {
        self.base + crate::ring::RING_HEADER_SIZE + self.capacity
    }

    /// `at` is an address of the buffer.
    pub open spec fn covers(self, at: int) -> bool {
        self.base <= at < self.end()
    }
}

impl World {
    /// The indices of `ring` are in order, and it holds no more than it can.
    pub open spec fn ring_ok(self, ring: SharedRing) -> bool {
        let w = self.write_idx(ring.base);
        let r = self.read_idx(ring.base);
        r <= w && w - r <= ring.capacity
    }

    /// The indices of `ring` are in order, and it has slots for what it holds,
    /// though perhaps not one for each byte.
    pub open spec fn ring_ordered(self, ring: SharedRing) -> bool {
        let w = self.write_idx(ring.base);
        let r = self.read_idx(ring.base);
        r == w || (r < w && ring.capacity > 0)
    }

    /// The bytes that `ring` holds, the oldest first.
    pub open spec fn contents(self, ring: SharedRing) -> Seq<u8> {
        let w = self.write_idx(ring.base);
        let r = self.read_idx(ring.base);
        Seq::new((w - r) as nat, |i: int| self.ram[ring.slot(r + i) as int])
    }

    /// How many bytes `ring` has room for.
    pub open spec fn room(self, ring: SharedRing) -> nat {
        let w = self.write_idx(ring.base);
        let r = self.read_idx(ring.base);
        if w - r >= ring.capacity {
            0
        } else {
            (ring.capacity - (w - r)) as nat
        }
    }

    /// How many bytes of `data` go into `ring`.
    pub open spec fn push_len(self, ring: SharedRing, data: Seq<u8>) -> nat {
        if data.len() <= self.room(ring) {
            data.len()
        } else {
            self.room(ring)
        }
    }

    /// The host after as much of `data` as there is room for is sent to `ring`.
    pub open spec fn pushed(self, ring: SharedRing, data: Seq<u8>) -> Self {
        let w = self.write_idx(ring.base);
        let n = self.push_len(ring, data);
        let ram = write_slots(self.ram, ring, w as int, data, n);
        self.with_ram(crate::world::store(ram, ring.base as int, 8, (w + n) as nat))
    }

    /// The host after `n` bytes are moved from `ring` to the buffer at `to`.
    pub open spec fn pulled(self, ring: SharedRing, to: u64, n: nat) -> Self {
        let r = self.read_idx(ring.base);
        let ram = copy_slots(self.ram, ring, r as int, to, n);
        self.with_ram(
            crate::world::store(
                ram,
                ring.base + crate::ring::READ_IDX_OFFSET,
                8,
                (r + n) as nat,
            ),
        )
    }
}

/// Memory after the first `n` bytes of `data` are written to the slots of
/// `ring` from position `at` on.
pub open spec fn write_slots(
    ram: Map<int, u8>,
    ring: SharedRing,
    at: int,
    data: Seq<u8>,
    n: nat,
) -> Map<int, u8>
    decreases n,
{
    if n == 0 {
        ram
    } else {
        write_slots(ram, ring, at, data, (n - 1) as nat).insert(
            ring.slot(at + n - 1) as int,
            data[n - 1],
        )
    }
}

/// Memory after `n` bytes from position `at` of `ring` on are copied to `to`.
pub open spec fn copy_slots(
    ram: Map<int, u8>,
    ring: SharedRing,
    at: int,
    to: u64,
    n: nat,
) -> Map<int, u8>
    decreases n,
{
    if n == 0 {
        ram
    } else {
        let before = copy_slots(ram, ring, at, to, (n - 1) as nat);
        before.insert(
            crate::queue::host_offset(to, n - 1) as int,
            before[ring.slot(at + n - 1) as int],
        )
    }
}

/// Positions less than a round apart have slots of their own, all of them
/// between the header and the end of the buffer.
pub proof fn law_slots_are_distinct(ring: SharedRing, i: int, j: int)
    requires
        ring.in_memory(),
        0 <= i < j,
        j - i < ring.capacity,
    ensures
        ring.slot(i) != ring.slot(j),
        ring.base + crate::ring::RING_HEADER_SIZE <= ring.slot(i) < ring.end(),
        ring.base + crate::ring::RING_HEADER_SIZE <= ring.slot(j) < ring.end(),
{
    let cap = ring.capacity as int;
    lemma_slot(ring, i);
    lemma_slot(ring, j);
    vstd::arithmetic::div_mod::lemma_small_mod((j - i) as nat, cap as nat);
    vstd::arithmetic::div_mod::lemma_mod_equivalence(j, i, cap);
}

/// The data slots of a ring follow its header of 16 bytes, and positions go
/// round and round over them: position 0 is right behind the header, the next
/// position is the next byte, and after the last slot comes the first again.
pub proof fn law_slots_follow_the_header(ring: SharedRing, i: int)
    requires
        ring.in_memory(),
        ring.capacity > 0,
        0 <= i,
    ensures
        ring.base + 16 + ring.capacity <= u64::MAX,
        ring.slot(0) == ring.base + 16,
        ring.slot(i + ring.capacity) == ring.slot(i),
        ring.slot(i) + 1 < ring.base + 16 + ring.capacity ==> ring.slot(i + 1) == ring.slot(i) + 1,
        ring.slot(i) + 1 == ring.base + 16 + ring.capacity ==> ring.slot(i + 1) == ring.base + 16,
        ring.slot(i) == ring.base + 16 + i % (ring.capacity as int),
{
    let cap = ring.capacity as int;
    lemma_slot(ring, 0);
    lemma_slot(ring, i);
    lemma_slot(ring, i + 1);
    lemma_slot(ring, i + cap);
    vstd::arithmetic::div_mod::lemma_small_mod(0, cap as nat);
    vstd::arithmetic::div_mod::lemma_mod_add_multiples_vanish(i, cap);
    vstd::arithmetic::div_mod::lemma_add_mod_noop(i, 1, cap);
    let slot = i % cap;
    vstd::arithmetic::div_mod::lemma_mod_bound(i, cap);
    if slot + 1 < cap {
        vstd::arithmetic::div_mod::lemma_small_mod(1, cap as nat);
        vstd::arithmetic::div_mod::lemma_small_mod((slot + 1) as nat, cap as nat);
    } else {
        vstd::arithmetic::div_mod::lemma_mod_self_0(cap);
        if cap > 1 {
            vstd::arithmetic::div_mod::lemma_small_mod(1, cap as nat);
        }
    }
}

/// A buffer holds a ring if it has room for the header of 16 bytes, which must
/// not wrap around. All the rest of it is data slots.
pub proof fn law_buffers_hold_rings(index: usize, base: usize, size: usize)
    ensures
        match SharedRing::spec_at(index, base, size) {
            Ok(ring) => {
                &&& 16 <= size
                &&& base + 16 <= u64::MAX
                &&& ring.index == index
                &&& ring.base == base
                &&& 16 + ring.capacity == size
            },
            Err(fault) => {
                &&& size < 16 || base + 16 > u64::MAX
                &&& fault == crate::request::Fault::BadRingBuffer
            },
        },
{
}

pub proof fn lemma_slot(ring: SharedRing, i: int)
    requires
        ring.in_memory(),
        ring.capacity > 0,
        0 <= i,
    ensures
        ring.slot(i) == ring.base + crate::ring::RING_HEADER_SIZE + i % (ring.capacity as int),
        ring.base + crate::ring::RING_HEADER_SIZE <= ring.slot(i) < ring.end(),
{
    vstd::arithmetic::div_mod::lemma_mod_bound(i, ring.capacity as int);
    vstd::arithmetic::div_mod::lemma_small_mod(
        (ring.base + crate::ring::RING_HEADER_SIZE + i % (ring.capacity as int)) as nat,
        0x1_0000_0000_0000_0000,
    );
}

proof fn lemma_write_slots(
    ram: Map<int, u8>,
    ring: SharedRing,
    at: int,
    data: Seq<u8>,
    n: nat,
)
    requires
        ring.in_memory(),
        0 <= at,
        n <= ring.capacity,
        n <= data.len(),
    ensures
        forall|j: int|
            0 <= j < n ==> #[trigger] write_slots(ram, ring, at, data, n)[ring.slot(at + j) as int]
                == data[j],
        forall|x: int|
            (forall|j: int| 0 <= j < n ==> x != #[trigger] ring.slot(at + j)) ==> write_slots(
                ram,
                ring,
                at,
                data,
                n,
            )[x] == ram[x],
    decreases n,
{
    if n > 0 {
        let m = (n - 1) as nat;
        lemma_write_slots(ram, ring, at, data, m);
        let before = write_slots(ram, ring, at, data, m);
        let after = write_slots(ram, ring, at, data, n);
        assert forall|j: int| 0 <= j < n implies #[trigger] after[ring.slot(at + j) as int]
            == data[j] by {
            if j < m {
                law_slots_are_distinct(ring, at + j, at + m);
                assert(before[ring.slot(at + j) as int] == data[j]);
            }
        }
        assert forall|x: int|
            (forall|j: int| 0 <= j < n ==> x != #[trigger] ring.slot(at + j)) implies after[x]
            == ram[x] by {
            assert(x != ring.slot(at + m));
            assert(before[x] == ram[x]);
        }
    }
}

pub proof fn lemma_indices_kept(a: World, b: World, ring: SharedRing)
    requires
        forall|x: int|
            ring.base <= x < ring.base + crate::ring::RING_HEADER_SIZE ==> a.ram[x] == b.ram[x],
    ensures
        a.write_idx(ring.base) == b.write_idx(ring.base),
        a.read_idx(ring.base) == b.read_idx(ring.base),
{
    crate::world::lemma_load_same(a.ram, b.ram, ring.base as int, 8);
    crate::world::lemma_load_same(a.ram, b.ram, ring.base + crate::ring::READ_IDX_OFFSET, 8);
}

proof fn lemma_u64_round_trip(ram: Map<int, u8>, at: int, value: u64)
    ensures
        crate::world::load(crate::world::store(ram, at, 8, value as nat), at, 8) == value,
{
    reveal_with_fuel(crate::world::radix, 9);
    crate::world::lemma_load_store(ram, at, 8, value as nat);
}

/// Sending appends to what the ring holds, in order, as much of the data as
/// there is room for. The write index grows by as much, the read index stays,
/// the ring does not overfill, and nothing changes but the write index and the
/// slots that the data goes to.
pub proof fn law_push_appends(world: World, ring: SharedRing, data: Seq<u8>)
    requires
        ring.in_memory(),
        world.ring_ok(ring),
        world.write_idx(ring.base) + world.push_len(ring, data) <= u64::MAX,
    ensures
        ({
            let n = world.push_len(ring, data) as int;
            let after = world.pushed(ring, data);
            &&& after.contents(ring) == world.contents(ring) + data.take(n)
            &&& after.write_idx(ring.base) == world.write_idx(ring.base) + n
            &&& after.read_idx(ring.base) == world.read_idx(ring.base)
            &&& after.ring_ok(ring)
            &&& forall|x: int| !ring.covers(x) ==> #[trigger] after.ram[x] == world.ram[x]
            &&& forall|x: int|
                ring.base + crate::ring::READ_IDX_OFFSET <= x && (forall|j: int|
                    0 <= j < n ==> x != #[trigger] ring.slot(world.write_idx(ring.base) + j))
                    ==> #[trigger] after.ram[x] == world.ram[x]
        }),
{
    let w = world.write_idx(ring.base);
    let r = world.read_idx(ring.base);
    let n = world.push_len(ring, data);
    let written = write_slots(world.ram, ring, w as int, data, n);
    let mid = world.with_ram(written);
    let after = world.pushed(ring, data);
    lemma_write_slots(world.ram, ring, w as int, data, n);
    assert forall|x: int|
        x < ring.base + crate::ring::RING_HEADER_SIZE || ring.end() <= x implies written[x]
        == world.ram[x] by {
        assert forall|j: int| 0 <= j < n implies x != #[trigger] ring.slot(w + j) by {
            lemma_slot(ring, w + j);
        }
    }
    lemma_indices_kept(world, mid, ring);
    lemma_u64_round_trip(written, ring.base as int, (w + n) as u64);
    assert forall|x: int| x < ring.base || ring.base + 8 <= x implies after.ram[x] == written[x] by {
        crate::world::lemma_store_outside(written, ring.base as int, 8, (w + n) as nat, x);
    }
    crate::world::lemma_load_same(
        after.ram,
        written,
        ring.base + crate::ring::READ_IDX_OFFSET,
        8,
    );
    let old_contents = world.contents(ring);
    assert forall|i: int| 0 <= i < w - r + n implies after.contents(ring)[i] == (old_contents
        + data.take(n as int))[i] by {
        lemma_slot(ring, r + i);
        if i < w - r {
            assert forall|j: int| 0 <= j < n implies ring.slot(r + i) != #[trigger] ring.slot(
                w + j,
            ) by {
                law_slots_are_distinct(ring, r + i, w + j);
            }
            assert(written[ring.slot(r + i) as int] == world.ram[ring.slot(r + i) as int]);
        } else {
            let j = i - (w - r);
            assert(r + i == w + j);
            assert(written[ring.slot(w + j) as int] == data[j]);
        }
    }
    assert(after.contents(ring) =~= old_contents + data.take(n as int));
    assert forall|x: int| !ring.covers(x) implies #[trigger] after.ram[x] == world.ram[x] by {
        assert(after.ram[x] == written[x]);
    }
    assert forall|x: int|
        ring.base + crate::ring::READ_IDX_OFFSET <= x && (forall|j: int|
            0 <= j < n ==> x != #[trigger] ring.slot(w + j)) implies #[trigger] after.ram[x]
        == world.ram[x] by {
        assert(after.ram[x] == written[x]);
    }
}

proof fn lemma_copy_slots(ram: Map<int, u8>, ring: SharedRing, at: int, to: u64, n: nat)
    requires
        ring.in_memory(),
        ring.capacity > 0,
        0 <= at,
        to + n <= u64::MAX,
        to + n <= ring.base || ring.end() <= to,
    ensures
        forall|j: int|
            0 <= j < n ==> #[trigger] copy_slots(ram, ring, at, to, n)[to + j] == ram[ring.slot(
                at + j,
            ) as int],
        forall|x: int|
            x < to || to + n <= x ==> #[trigger] copy_slots(ram, ring, at, to, n)[x] == ram[x],
    decreases n,
{
    if n > 0 {
        let m = (n - 1) as nat;
        lemma_copy_slots(ram, ring, at, to, m);
        lemma_slot(ring, at + m);
        vstd::arithmetic::div_mod::lemma_small_mod((to + m) as nat, 0x1_0000_0000_0000_0000);
        let before = copy_slots(ram, ring, at, to, m);
        let after = copy_slots(ram, ring, at, to, n);
        assert(before[ring.slot(at + m) as int] == ram[ring.slot(at + m) as int]);
        assert forall|j: int| 0 <= j < n implies #[trigger] after[to + j] == ram[ring.slot(
            at + j,
        ) as int] by {
            if j < m {
                assert(before[to + j] == ram[ring.slot(at + j) as int]);
            }
        }
    }
}

/// Receiving moves the read index on by the number of bytes, and changes nothing
/// else of memory but the receiving buffer, however many bytes the ring holds.
pub proof fn law_pull_moves_the_read_index(world: World, ring: SharedRing, to: u64, n: nat)
    requires
        ring.in_memory(),
        world.read_idx(ring.base) + n <= u64::MAX,
        to + n <= u64::MAX,
        n == 0 || (ring.capacity > 0 && (to + n <= ring.base || ring.end() <= to)),
    ensures
        ({
            let after = world.pulled(ring, to, n);
            &&& after.read_idx(ring.base) == world.read_idx(ring.base) + n
            &&& after.write_idx(ring.base) == world.write_idx(ring.base)
            &&& forall|x: int|
                !(ring.base + crate::ring::READ_IDX_OFFSET <= x < ring.base
                    + crate::ring::RING_HEADER_SIZE) && !(to <= x < to + n)
                    ==> #[trigger] after.ram[x] == world.ram[x]
        }),
{
    let r = world.read_idx(ring.base);
    let copied = copy_slots(world.ram, ring, r as int, to, n);
    let after = world.pulled(ring, to, n);
    let header = ring.base + crate::ring::READ_IDX_OFFSET;
    if n > 0 {
        lemma_copy_slots(world.ram, ring, r as int, to, n);
    }
    lemma_indices_kept(world, world.with_ram(copied), ring);
    lemma_u64_round_trip(copied, header, (r + n) as u64);
    assert forall|x: int| x < header || header + 8 <= x implies #[trigger] after.ram[x]
        == copied[x] by {
        crate::world::lemma_store_outside(copied, header, 8, (r + n) as nat, x);
    }
    crate::world::lemma_load_same(after.ram, copied, ring.base as int, 8);
}

/// Receiving takes the oldest bytes out of the ring, in order, and puts them
/// into the buffer. The read index grows by as much, the write index stays, and
/// nothing but the read index and the receiving buffer changes.
pub proof fn law_pull_takes_the_oldest(world: World, ring: SharedRing, to: u64, n: nat)
    requires
        ring.in_memory(),
        world.ring_ordered(ring),
        n <= world.contents(ring).len(),
        to + n <= u64::MAX,
        n == 0 || to + n <= ring.base || ring.end() <= to,
    ensures
        ({
            let after = world.pulled(ring, to, n);
            &&& after.bytes(to, n as u64) == world.contents(ring).take(n as int)
            &&& after.contents(ring) == world.contents(ring).skip(n as int)
            &&& after.read_idx(ring.base) == world.read_idx(ring.base) + n
            &&& after.write_idx(ring.base) == world.write_idx(ring.base)
            &&& after.ring_ordered(ring)
            &&& world.ring_ok(ring) ==> after.ring_ok(ring)
            &&& forall|x: int|
                !(ring.base + crate::ring::READ_IDX_OFFSET <= x < ring.base
                    + crate::ring::RING_HEADER_SIZE) && !(to <= x < to + n)
                    ==> #[trigger] after.ram[x] == world.ram[x]
        }),
{
    let w = world.write_idx(ring.base);
    let r = world.read_idx(ring.base);
    let copied = copy_slots(world.ram, ring, r as int, to, n);
    let after = world.pulled(ring, to, n);
    let header = ring.base + crate::ring::READ_IDX_OFFSET;
    if n > 0 {
        lemma_copy_slots(world.ram, ring, r as int, to, n);
    }
    law_pull_moves_the_read_index(world, ring, to, n);
    assert forall|x: int| x < header || header + 8 <= x implies after.ram[x] == copied[x] by {
        crate::world::lemma_store_outside(copied, header, 8, (r + n) as nat, x);
    }
    assert forall|i: int| 0 <= i < n implies after.bytes(to, n as u64)[i] == world.contents(
        ring,
    ).take(n as int)[i] by {
        assert(copied[to + i] == world.ram[ring.slot(r + i) as int]);
    }
    assert(after.bytes(to, n as u64) =~= world.contents(ring).take(n as int));
    assert forall|i: int| 0 <= i < w - r - n implies after.contents(ring)[i] == world.contents(
        ring,
    ).skip(n as int)[i] by {
        lemma_slot(ring, r + n + i);
        assert(r + n + i == r + (n + i));
        assert(copied[ring.slot(r + n + i) as int] == world.ram[ring.slot(r + n + i) as int]);
    }
    assert(after.contents(ring) =~= world.contents(ring).skip(n as int));
}

/// What is sent to an empty ring is what is received from it.
pub proof fn law_received_is_what_was_sent(world: World, ring: SharedRing, data: Seq<u8>, to: u64)
    requires
        ring.in_memory(),
        world.ring_ok(ring),
        world.contents(ring).len() == 0,
        data.len() <= ring.capacity,
        world.write_idx(ring.base) + data.len() <= u64::MAX,
        to + data.len() <= u64::MAX,
        to + data.len() <= ring.base || ring.end() <= to,
    ensures
        world.pushed(ring, data).pulled(ring, to, data.len()).bytes(to, data.len() as u64) == data,
        world.pushed(ring, data).pulled(ring, to, data.len()).contents(ring).len() == 0,
{
    assert(world.push_len(ring, data) == data.len());
    law_push_appends(world, ring, data);
    let sent = world.pushed(ring, data);
    assert(sent.contents(ring) =~= data);
    law_pull_takes_the_oldest(sent, ring, to, data.len());
    assert(sent.contents(ring).take(data.len() as int) =~= data);
}

/// Sending twice is sending the two pieces of data one after the other, as long
/// as there is room for both.
pub proof fn law_sent_pieces_stay_in_order(
    world: World,
    ring: SharedRing,
    first: Seq<u8>,
    second: Seq<u8>,
)
    requires
        ring.in_memory(),
        world.ring_ok(ring),
        first.len() + second.len() <= world.room(ring),
        world.write_idx(ring.base) + first.len() + second.len() <= u64::MAX,
    ensures
        world.pushed(ring, first).pushed(ring, second).contents(ring) == world.contents(ring)
            + first + second,
{
    law_push_appends(world, ring, first);
    let mid = world.pushed(ring, first);
    assert(first.take(first.len() as int) =~= first);
    assert(mid.push_len(ring, second) == second.len());
    law_push_appends(mid, ring, second);
    assert(second.take(second.len() as int) =~= second);
}

} // verus!
