//! A host that answers the device's requests from memory that nobody else
//! touches, and what the device does with such a host.
//!
//! The laws of the other modules are stated of a [`System`], a console together
//! with such a host, and of where it gets to.
use crate::queue::{UsedUpdate, VirtqDesc};
use crate::request::{ReplyView, Request, Step};
use crate::transfer::ConsoleView;
use vstd::prelude::*;

verus! {

/// Memory, and how guest addresses are translated.
#[verifier::ext_equal]
pub struct World {
    /// The byte at each host address.
    pub ram: Map<int, u8>,
    /// The host address of each mapped guest address, and the length of the
    /// contiguous memory from there on.
    pub guest: Map<u64, (u64, u64)>,
    /// The host virtual address of each host physical address.
    pub linear: Map<u64, u64>,
}

/// The number in the `n` bytes at `at`, the least significant byte first.
pub open spec fn load(ram: Map<int, u8>, at: int, n: nat) -> nat
    decreases n,
{
    if n == 0 {
        0
    } else {
        ram[at] as nat + 256 * load(ram, at + 1, (n - 1) as nat)
    }
}

/// Memory after `value` is written to the `n` bytes at `at`, the least
/// significant byte first.
pub open spec fn store(ram: Map<int, u8>, at: int, n: nat, value: nat) -> Map<int, u8>
    decreases n,
{
    if n == 0 {
        ram
    } else {
        store(ram.insert(at, (value % 256) as u8), at + 1, (n - 1) as nat, value / 256)
    }
}

/// The descriptor that stands at `at`.
pub open spec fn descriptor_at(ram: Map<int, u8>, at: int) -> VirtqDesc {
    VirtqDesc {
        addr: load(ram, at, 8) as u64,
        len: load(ram, at + 8, 4) as u32,
        flags: load(ram, at + 12, 2) as u16,
        next: load(ram, at + 14, 2) as u16,
    }
}

/// Memory after an element and an index are written to a used ring.
pub open spec fn publish(ram: Map<int, u8>, update: UsedUpdate) -> Map<int, u8> {
    let with_id = store(ram, update.elem_hva as int, 4, update.elem.id as nat);
    let with_elem = store(with_id, update.elem_hva + 4, 4, update.elem.len as nat);
    store(with_elem, update.idx_hva as int, 2, update.idx as nat)
}

impl World {
    /// Where the queue structure at `gpa` lies in host memory.
    pub open spec fn locate(self, gpa: u64) -> Option<u64> {
        if self.guest.contains_key(gpa) {
            Some(self.linear[self.guest[gpa].0])
        } else {
            None
        }
    }

    /// Where the data buffer at `gpa` lies in host memory.
    pub open spec fn translate(self, gpa: u64) -> Option<(u64, u64)> {
        if self.guest.contains_key(gpa) {
            Some(self.guest[gpa])
        } else {
            None
        }
    }

    pub open spec fn bytes(self, at: u64, len: u64) -> Seq<u8> {
        Seq::new(len as nat, |i: int| self.ram[at + i])
    }

    pub open spec fn half(self, at: u64) -> u16 {
        load(self.ram, at as int, 2) as u16
    }

    /// The write index of the shared ring at `base`.
    pub open spec fn write_idx(self, base: u64) -> u64 {
        load(self.ram, base as int, 8) as u64
    }

    /// The read index of the shared ring at `base`.
    pub open spec fn read_idx(self, base: u64) -> u64 {
        load(self.ram, base + crate::ring::READ_IDX_OFFSET, 8) as u64
    }

    pub open spec fn with_ram(self, ram: Map<int, u8>) -> Self {
        World { ram, ..self }
    }

    /// What the host answers to `request`.
    pub open spec fn answer(self, request: Request) -> ReplyView {
        match request {
            Request::Locate { gpa } => ReplyView::Located(self.locate(gpa)),
            Request::Translate { gpa } => ReplyView::Translated(self.translate(gpa)),
            Request::ReadHalf { hva } => ReplyView::Half(self.half(hva)),
            Request::ReadDescriptor { hva } => ReplyView::Descriptor(
                descriptor_at(self.ram, hva as int),
            ),
            Request::ReadBytes { hva, len } => ReplyView::Bytes(self.bytes(hva, len)),
            Request::LoadWriteThenRead { hva } => ReplyView::Indices {
                write_idx: self.write_idx(hva),
                read_idx: self.read_idx(hva),
            },
            Request::LoadReadThenWrite { hva } => ReplyView::Indices {
                write_idx: self.write_idx(hva),
                read_idx: self.read_idx(hva),
            },
            _ => ReplyView::Done,
        }
    }

    /// The host after it carried `request` out.
    pub open spec fn after(self, request: Request) -> Self {
        match request {
            Request::WriteByte { hva, value } => self.with_ram(self.ram.insert(hva as int, value)),
            Request::CopyByte { from, to } => self.with_ram(
                self.ram.insert(to as int, self.ram[from as int]),
            ),
            Request::StoreIndex { hva, index } => self.with_ram(
                store(self.ram, hva as int, 8, index as nat),
            ),
            Request::Publish(update) => self.with_ram(publish(self.ram, update)),
            _ => self,
        }
    }
}

/// A console and the host that answers it.
#[verifier::ext_equal]
pub struct System {
    pub console: ConsoleView,
    pub world: World,
}

impl System {
    /// The system after the request that is out, if there is one, is answered.
    pub open spec fn tick(self) -> Self {
        match self.console.step() {
            Step::Ask(request) => System {
                console: self.console.next(self.world.answer(request)),
                world: self.world.after(request),
            },
            _ => self,
        }
    }

    /// The system after `n` answers.
    pub open spec fn run(self, n: nat) -> Self
        decreases n,
    {
        if n == 0 {
            self
        } else {
            self.tick().run((n - 1) as nat)
        }
    }

    /// The system gets to `other`.
    pub open spec fn reaches(self, other: Self) -> bool {
        exists|n: nat| #[trigger] self.run(n) == other
    }
}

/// The host always gives the kind of answer that the console waits for.
pub proof fn law_answers_fit(world: World, request: Request)
    ensures
        world.answer(request).answers(request),
{
}

proof fn lemma_run_add(s: System, m: nat, n: nat)
    ensures
        s.run(m).run(n) == s.run(m + n),
    decreases m,
{
    if m > 0 {
        lemma_run_add(s.tick(), (m - 1) as nat, n);
    }
}

pub proof fn lemma_reaches_self(s: System)
    ensures
        s.reaches(s),
{
    assert(s.run(0) == s);
}

pub proof fn lemma_reaches_tick(s: System)
    ensures
        s.reaches(s.tick()),
{
    reveal_with_fuel(System::run, 2);
    assert(s.run(1) == s.tick());
}

pub proof fn lemma_reaches_trans(a: System, b: System, c: System)
    requires
        a.reaches(b),
        b.reaches(c),
    ensures
        a.reaches(c),
{
    let m = choose|n: nat| #[trigger] a.run(n) == b;
    let n = choose|n: nat| #[trigger] b.run(n) == c;
    lemma_run_add(a, m, n);
    assert(a.run(m + n) == c);
}

/// One more answer after `b` is reached.
pub proof fn lemma_reaches_next(a: System, b: System, c: System)
    requires
        a.reaches(b),
        b.tick() == c,
    ensures
        a.reaches(c),
{
    lemma_reaches_tick(b);
    lemma_reaches_trans(a, b, c);
}

/// Writing changes no byte outside of what is written.
pub proof fn lemma_store_outside(ram: Map<int, u8>, at: int, n: nat, value: nat, x: int)
    requires
        x < at || at + n <= x,
    ensures
        store(ram, at, n, value)[x] == ram[x],
    decreases n,
{
    if n > 0 {
        lemma_store_outside(
            ram.insert(at, (value % 256) as u8),
            at + 1,
            (n - 1) as nat,
            value / 256,
            x,
        );
    }
}

/// 256 to the power of `n`.
pub open spec fn radix(n: nat) -> nat
    decreases n,
{
    if n == 0 {
        1
    } else {
        256 * radix((n - 1) as nat)
    }
}

/// What is written is what is read back.
pub proof fn lemma_load_store(ram: Map<int, u8>, at: int, n: nat, value: nat)
    requires
        value < radix(n),
    ensures
        load(store(ram, at, n, value), at, n) == value,
    decreases n,
{
    if n > 0 {
        let first = ram.insert(at, (value % 256) as u8);
        lemma_load_store(first, at + 1, (n - 1) as nat, value / 256);
        lemma_store_outside(first, at + 1, (n - 1) as nat, value / 256, at);
        assert(store(ram, at, n, value)[at] == (value % 256) as u8);
    }
}

/// Reading depends only on the bytes that are read.
pub proof fn lemma_load_same(a: Map<int, u8>, b: Map<int, u8>, at: int, n: nat)
    requires
        forall|x: int| at <= x < at + n ==> a[x] == b[x],
    ensures
        load(a, at, n) == load(b, at, n),
    decreases n,
{
    if n > 0 {
        lemma_load_same(a, b, at + 1, (n - 1) as nat);
    }
}

} // verus!
