//! What the device asks of the host while it moves data, and what it gets back.
use crate::queue::{UsedUpdate, VirtqDesc};
use vstd::prelude::*;

verus! {

/// One access to memory or to the address translation of the guest. Host
/// addresses (`hva`, `from`, `to`) are those at which the host reads and writes.
#[derive(Debug, Clone, Copy)]
pub enum Request {
    /// Find a queue structure: translate `gpa` and give the host virtual
    /// address. Answered by [`Reply::Located`].
    Locate { gpa: u64 },
    /// Translate `gpa`, the address of a data buffer. Answered by
    /// [`Reply::Translated`].
    Translate { gpa: u64 },
    /// Read 16 bits. Answered by [`Reply::Half`].
    ReadHalf { hva: u64 },
    /// Read a descriptor. Answered by [`Reply::Descriptor`].
    ReadDescriptor { hva: u64 },
    /// Read `len` bytes. Answered by [`Reply::Bytes`].
    ReadBytes { hva: u64, len: u64 },
    /// Load the 64-bit write index at `hva`, then the 64-bit read index right
    /// after it. Answered by [`Reply::Indices`].
    LoadWriteThenRead { hva: u64 },
    /// Load the same two indices in the opposite order. Answered by
    /// [`Reply::Indices`].
    LoadReadThenWrite { hva: u64 },
    /// Write one byte. Answered by [`Reply::Done`].
    WriteByte { hva: u64, value: u8 },
    /// Copy one byte. Answered by [`Reply::Done`].
    CopyByte { from: u64, to: u64 },
    /// Store a 64-bit index. Answered by [`Reply::Done`].
    StoreIndex { hva: u64, index: u64 },
    /// Write a used ring element, then the index. Answered by [`Reply::Done`].
    Publish(UsedUpdate),
}

/// The answer to a [`Request`].
#[derive(Debug)]
pub enum Reply {
    /// The host virtual address, if the guest address is mapped.
    Located(Option<u64>),
    /// The host address and the length of the contiguous memory that starts
    /// there, if the guest address is mapped.
    Translated(Option<(u64, u64)>),
    Half(u16),
    Descriptor(VirtqDesc),
    Bytes(Vec<u8>),
    Indices { write_idx: u64, read_idx: u64 },
    Done,
}

/// What a [`Reply`] says.
pub enum ReplyView {
    Located(Option<u64>),
    Translated(Option<(u64, u64)>),
    Half(u16),
    Descriptor(VirtqDesc),
    Bytes(Seq<u8>),
    Indices { write_idx: u64, read_idx: u64 },
    Done,
}

impl View for Reply {
    type V = ReplyView;

    open spec fn view(&self) -> ReplyView {
        match *self {
            Reply::Located(at) => ReplyView::Located(at),
            Reply::Translated(to) => ReplyView::Translated(to),
            Reply::Half(value) => ReplyView::Half(value),
            Reply::Descriptor(desc) => ReplyView::Descriptor(desc),
            Reply::Bytes(bytes) => ReplyView::Bytes(bytes@),
            Reply::Indices { write_idx, read_idx } => ReplyView::Indices { write_idx, read_idx },
            Reply::Done => ReplyView::Done,
        }
    }
}

impl ReplyView {
    /// The reply is of the kind that `request` asks for.
    pub open spec fn answers(self, request: Request) -> bool {
        match request {
            Request::Locate { .. } => self is Located,
            Request::Translate { .. } => self is Translated,
            Request::ReadHalf { .. } => self is Half,
            Request::ReadDescriptor { .. } => self is Descriptor,
            Request::ReadBytes { len, .. } => self is Bytes && self->Bytes_0.len() == len,
            Request::LoadWriteThenRead { .. } => self is Indices,
            Request::LoadReadThenWrite { .. } => self is Indices,
            Request::WriteByte { .. } => self is Done,
            Request::CopyByte { .. } => self is Done,
            Request::StoreIndex { .. } => self is Done,
            Request::Publish(_) => self is Done,
        }
    }
}

/// Why a transfer cannot go on. The guest, or the VM at the other end of a
/// shared ring, has left memory in a state that the device cannot work with.
#[derive(Debug, Clone, Copy, PartialEq, Eq, Structural)]
pub enum Fault {
    /// A queue was made ready without a size.
    ZeroQueueSize,
    /// A chain names a descriptor that does not exist or is not mapped.
    MissingDescriptor,
    /// A descriptor's guest address is not representable.
    DescriptorAddressOverflow,
    /// A shared buffer is too small for its header, or wraps around.
    BadRingBuffer,
    /// The read index of a shared ring is past its write index.
    IndicesCrossed,
    /// The write index of a shared ring cannot grow any more.
    IndexOverflow,
    /// A shared ring without data slots is said to hold data.
    NoDataSlots,
}

/// What the device is to be given next.
#[derive(Debug, Clone, Copy)]
pub enum Step {
    /// No transfer is under way.
    Idle,
    /// The answer to a request.
    Ask(Request),
    /// Nothing: the transfer cannot go on.
    Abort(Fault),
}

} // verus!
