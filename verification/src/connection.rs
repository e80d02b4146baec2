//! The connections of a console: which VMs it sends to, which VMs it receives
//! from, and where the ring buffers shared with them lie.
use vstd::prelude::*;

verus! {

/// Represents a connection between two VMs for console data transfer.
///
/// This structure manages the shared memory buffers used for inter-VM communication.
#[derive(Clone, Debug)]
pub struct DeviceConsoleConnection {
    /// VM IDs that this device sends data to.
    pub send_vm_ids: Vec<usize>,
    /// VM IDs that this device receives data from.
    pub recv_vm_ids: Vec<usize>,
    /// Host addresses of the send buffers, one for each entry of `send_vm_ids`.
    pub send_buffers: Vec<usize>,
    /// Host addresses of the receive buffers, one for each entry of `recv_vm_ids`.
    pub recv_buffers: Vec<usize>,
    /// Size of each shared buffer in bytes, its header included.
    pub buffer_size: usize,
}

/// What a [`DeviceConsoleConnection`] holds.
#[verifier::ext_equal]
pub struct ConnectionView {
    pub send_vm_ids: Seq<usize>,
    pub recv_vm_ids: Seq<usize>,
    pub send_buffers: Seq<usize>,
    pub recv_buffers: Seq<usize>,
    pub buffer_size: usize,
}

/// `ids` without the first occurrence of `id`.
pub open spec fn without_first(ids: Seq<usize>, id: usize) -> Seq<usize> {
    match ids.index_of_first(id) {
        Some(i) => ids.remove(i),
        None => ids,
    }
}

/// `buffers` without the entry that stands where `id` first occurs in `ids`.
pub open spec fn without_partner(buffers: Seq<usize>, ids: Seq<usize>, id: usize) -> Seq<usize> {
    match ids.index_of_first(id) {
        Some(i) => buffers.remove(i),
        None => buffers,
    }
}

/// Where `id` first occurs in `ids`, `buffers` has an entry too.
pub open spec fn has_partner(buffers: Seq<usize>, ids: Seq<usize>, id: usize) -> bool {
    match ids.index_of_first(id) {
        Some(i) => i < buffers.len(),
        None => true,
    }
}

impl ConnectionView {
    /// Every VM has a buffer and every buffer a VM.
    pub open spec fn paired(self) -> bool {
        &&& self.send_vm_ids.len() == self.send_buffers.len()
        &&& self.recv_vm_ids.len() == self.recv_buffers.len()
    }

    /// A connection that sends to `vm_id` alone.
    pub open spec fn sending(vm_id: usize, buffer: usize, buffer_size: usize) -> Self {
        ConnectionView {
            send_vm_ids: seq![vm_id],
            recv_vm_ids: Seq::empty(),
            send_buffers: seq![buffer],
            recv_buffers: Seq::empty(),
            buffer_size,
        }
    }

    /// A connection that receives from `vm_id` alone.
    pub open spec fn receiving(vm_id: usize, buffer: usize, buffer_size: usize) -> Self {
        ConnectionView {
            send_vm_ids: Seq::empty(),
            recv_vm_ids: seq![vm_id],
            send_buffers: Seq::empty(),
            recv_buffers: seq![buffer],
            buffer_size,
        }
    }

    pub open spec fn with_send(self, vm_id: usize, buffer: usize) -> Self {
        ConnectionView {
            send_vm_ids: self.send_vm_ids.push(vm_id),
            send_buffers: self.send_buffers.push(buffer),
            ..self
        }
    }

    pub open spec fn without_send(self, vm_id: usize) -> Self {
        ConnectionView {
            send_vm_ids: without_first(self.send_vm_ids, vm_id),
            send_buffers: without_partner(self.send_buffers, self.send_vm_ids, vm_id),
            ..self
        }
    }

    pub open spec fn with_recv(self, vm_id: usize, buffer: usize) -> Self {
        ConnectionView {
            recv_vm_ids: self.recv_vm_ids.push(vm_id),
            recv_buffers: self.recv_buffers.push(buffer),
            ..self
        }
    }

    pub open spec fn without_recv(self, vm_id: usize) -> Self {
        ConnectionView {
            recv_vm_ids: without_first(self.recv_vm_ids, vm_id),
            recv_buffers: without_partner(self.recv_buffers, self.recv_vm_ids, vm_id),
            ..self
        }
    }

    /// How many ring buffers data is sent to: entries without a partner do not count.
    pub open spec fn send_count(self) -> nat {
        if self.send_vm_ids.len() <= self.send_buffers.len() {
            self.send_vm_ids.len()
        } else {
            self.send_buffers.len()
        }
    }

    /// How many ring buffers data is received from: entries without a partner do not count.
    pub open spec fn recv_count(self) -> nat {
        if self.recv_vm_ids.len() <= self.recv_buffers.len() {
            self.recv_vm_ids.len()
        } else {
            self.recv_buffers.len()
        }
    }
}

impl View for DeviceConsoleConnection {
    type V = ConnectionView;

    open spec fn view(&self) -> ConnectionView {
        ConnectionView {
            send_vm_ids: self.send_vm_ids@,
            recv_vm_ids: self.recv_vm_ids@,
            send_buffers: self.send_buffers@,
            recv_buffers: self.recv_buffers@,
            buffer_size: self.buffer_size,
        }
    }
}

/// Index of the first occurrence of `id` in `ids`.
fn position(ids: &Vec<usize>, id: usize) -> (found: Option<usize>)
    ensures
        match found {
            Some(i) => ids@.index_of_first(id) == Some(i as int),
            None => ids@.index_of_first(id) is None,
        },
{
    proof {
        ids@.index_of_first_ensures(id);
    }
    let mut i: usize = 0;
    while i < ids.len()
        invariant
            i <= ids.len(),
            forall|j: int| 0 <= j < i ==> ids@[j] != id,
        decreases ids.len() - i,
    {
        if ids[i] == id {
            proof {
                ids@.index_of_first_ensures(id);
                assert(ids@.contains(id));
            }
            return Some(i);
        }
        i += 1;
    }
    None
}

impl DeviceConsoleConnection {
    /// Creates a new DeviceConsoleConnection instance.
    pub fn new(
        send_vm_ids: Vec<usize>,
        recv_vm_ids: Vec<usize>,
        send_buffers: Vec<usize>,
        recv_buffers: Vec<usize>,
        buffer_size: usize,
    ) -> (connection: Self)
        ensures
            connection@ == (ConnectionView {
                send_vm_ids: send_vm_ids@,
                recv_vm_ids: recv_vm_ids@,
                send_buffers: send_buffers@,
                recv_buffers: recv_buffers@,
                buffer_size,
            }),
    {
        Self { send_vm_ids, recv_vm_ids, send_buffers, recv_buffers, buffer_size }
    }

    /// Adds a target VM for sending data.
    pub fn add_send_vm(&mut self, vm_id: usize, buffer: usize)
        ensures
            final(self)@ == old(self)@.with_send(vm_id, buffer),
    {
        self.send_vm_ids.push(vm_id);
        self.send_buffers.push(buffer);
    }

    /// Removes a target VM for sending data: the first entry of that VM, if there is one.
    pub fn remove_send_vm(&mut self, vm_id: usize)
        requires
            has_partner(old(self)@.send_buffers, old(self)@.send_vm_ids, vm_id),
        ensures
            final(self)@ == old(self)@.without_send(vm_id),
    {
        if let Some(idx) = position(&self.send_vm_ids, vm_id) {
            proof {
                self.send_vm_ids@.index_of_first_ensures(vm_id);
            }
            self.send_vm_ids.remove(idx);
            self.send_buffers.remove(idx);
        }
    }

    /// Adds a source VM for receiving data.
    pub fn add_recv_vm(&mut self, vm_id: usize, buffer: usize)
        ensures
            final(self)@ == old(self)@.with_recv(vm_id, buffer),
    {
        self.recv_vm_ids.push(vm_id);
        self.recv_buffers.push(buffer);
    }

    /// Removes a source VM for receiving data: the first entry of that VM, if there is one.
    pub fn remove_recv_vm(&mut self, vm_id: usize)
        requires
            has_partner(old(self)@.recv_buffers, old(self)@.recv_vm_ids, vm_id),
        ensures
            final(self)@ == old(self)@.without_recv(vm_id),
    {
        if let Some(idx) = position(&self.recv_vm_ids, vm_id) {
            proof {
                self.recv_vm_ids@.index_of_first_ensures(vm_id);
            }
            self.recv_vm_ids.remove(idx);
            self.recv_buffers.remove(idx);
        }
    }
}

/// Removing a VM that was just added, and was not connected before, leaves the
/// connection as it was.
pub proof fn law_remove_undoes_add(c: ConnectionView, vm_id: usize, buffer: usize)
    ensures
        c.send_vm_ids.len() == c.send_buffers.len() && !c.send_vm_ids.contains(vm_id)
            ==> c.with_send(vm_id, buffer).without_send(vm_id) == c,
        c.recv_vm_ids.len() == c.recv_buffers.len() && !c.recv_vm_ids.contains(vm_id)
            ==> c.with_recv(vm_id, buffer).without_recv(vm_id) == c,
{
    if c.send_vm_ids.len() == c.send_buffers.len() && !c.send_vm_ids.contains(vm_id) {
        lemma_push_remove(c.send_vm_ids, c.send_buffers, vm_id, buffer);
        assert(c.with_send(vm_id, buffer).without_send(vm_id) =~= c);
    }
    if c.recv_vm_ids.len() == c.recv_buffers.len() && !c.recv_vm_ids.contains(vm_id) {
        lemma_push_remove(c.recv_vm_ids, c.recv_buffers, vm_id, buffer);
        assert(c.with_recv(vm_id, buffer).without_recv(vm_id) =~= c);
    }
}

proof fn lemma_push_remove(ids: Seq<usize>, buffers: Seq<usize>, id: usize, buffer: usize)
    requires
        ids.len() == buffers.len(),
        !ids.contains(id),
    ensures
        without_first(ids.push(id), id) == ids,
        without_partner(buffers.push(buffer), ids.push(id), id) == buffers,
{
    let all = ids.push(id);
    assert(all[ids.len() as int] == id);
    assert(all.contains(id));
    all.index_of_first_ensures(id);
    let i = all.index_of_first(id).unwrap();
    if i < ids.len() {
        assert(ids[i] == id);
    }
    assert(without_first(all, id) =~= ids);
    assert(without_partner(buffers.push(buffer), all, id) =~= buffers);
}

/// Adding and removing VMs keeps every VM with a buffer and every buffer with a VM.
pub proof fn law_connection_stays_paired(c: ConnectionView, vm_id: usize, buffer: usize)
    requires
        c.paired(),
    ensures
        c.with_send(vm_id, buffer).paired(),
        c.with_recv(vm_id, buffer).paired(),
        c.without_send(vm_id).paired(),
        c.without_recv(vm_id).paired(),
        has_partner(c.send_buffers, c.send_vm_ids, vm_id),
        has_partner(c.recv_buffers, c.recv_vm_ids, vm_id),
{
    c.send_vm_ids.index_of_first_ensures(vm_id);
    c.recv_vm_ids.index_of_first_ensures(vm_id);
}

/// The entries of a list of VMs, each with its buffer.
pub open spec fn pairs(ids: Seq<usize>, buffers: Seq<usize>) -> Seq<(usize, usize)> {
    ids.zip_with(buffers)
}

/// Removing a VM takes its first entry out of the list, the VM together with its
/// buffer. Every other entry stays, in the same order, each VM with the buffer
/// that it had; the other direction stays as it is, and so does the size.
/// Removing a VM that is not there changes nothing.
pub proof fn law_removal_keeps_other_pairs(c: ConnectionView, vm_id: usize, at: int)
    requires
        c.paired(),
    ensures
        0 <= at < c.send_vm_ids.len() && c.send_vm_ids[at] == vm_id && !c.send_vm_ids.take(
            at,
        ).contains(vm_id) ==> {
            let after = c.without_send(vm_id);
            &&& pairs(after.send_vm_ids, after.send_buffers) == pairs(
                c.send_vm_ids,
                c.send_buffers,
            ).remove(at)
            &&& forall|k: int|
                0 <= k < at ==> #[trigger] after.send_vm_ids[k] == c.send_vm_ids[k]
                    && after.send_buffers[k] == c.send_buffers[k]
            &&& forall|k: int|
                at <= k < c.send_vm_ids.len() - 1 ==> #[trigger] after.send_vm_ids[k]
                    == c.send_vm_ids[k + 1] && after.send_buffers[k] == c.send_buffers[k + 1]
            &&& after.send_vm_ids.len() == c.send_vm_ids.len() - 1
            &&& after.send_buffers.len() == c.send_buffers.len() - 1
        },
        0 <= at < c.recv_vm_ids.len() && c.recv_vm_ids[at] == vm_id && !c.recv_vm_ids.take(
            at,
        ).contains(vm_id) ==> {
            let after = c.without_recv(vm_id);
            &&& pairs(after.recv_vm_ids, after.recv_buffers) == pairs(
                c.recv_vm_ids,
                c.recv_buffers,
            ).remove(at)
            &&& forall|k: int|
                0 <= k < at ==> #[trigger] after.recv_vm_ids[k] == c.recv_vm_ids[k]
                    && after.recv_buffers[k] == c.recv_buffers[k]
            &&& forall|k: int|
                at <= k < c.recv_vm_ids.len() - 1 ==> #[trigger] after.recv_vm_ids[k]
                    == c.recv_vm_ids[k + 1] && after.recv_buffers[k] == c.recv_buffers[k + 1]
            &&& after.recv_vm_ids.len() == c.recv_vm_ids.len() - 1
            &&& after.recv_buffers.len() == c.recv_buffers.len() - 1
        },
        !c.send_vm_ids.contains(vm_id) ==> c.without_send(vm_id) == c,
        !c.recv_vm_ids.contains(vm_id) ==> c.without_recv(vm_id) == c,
        c.without_send(vm_id).recv_vm_ids == c.recv_vm_ids,
        c.without_send(vm_id).recv_buffers == c.recv_buffers,
        c.without_send(vm_id).buffer_size == c.buffer_size,
        c.without_recv(vm_id).send_vm_ids == c.send_vm_ids,
        c.without_recv(vm_id).send_buffers == c.send_buffers,
        c.without_recv(vm_id).buffer_size == c.buffer_size,
{
    c.send_vm_ids.index_of_first_ensures(vm_id);
    c.recv_vm_ids.index_of_first_ensures(vm_id);
    if 0 <= at < c.send_vm_ids.len() && c.send_vm_ids[at] == vm_id && !c.send_vm_ids.take(
        at,
    ).contains(vm_id) {
        lemma_first_place(c.send_vm_ids, vm_id, at);
        let after = c.without_send(vm_id);
        assert(pairs(after.send_vm_ids, after.send_buffers) =~= pairs(
            c.send_vm_ids,
            c.send_buffers,
        ).remove(at));
    }
    if 0 <= at < c.recv_vm_ids.len() && c.recv_vm_ids[at] == vm_id && !c.recv_vm_ids.take(
        at,
    ).contains(vm_id) {
        lemma_first_place(c.recv_vm_ids, vm_id, at);
        let after = c.without_recv(vm_id);
        assert(pairs(after.recv_vm_ids, after.recv_buffers) =~= pairs(
            c.recv_vm_ids,
            c.recv_buffers,
        ).remove(at));
    }
}

proof fn lemma_first_place(ids: Seq<usize>, id: usize, at: int)
    requires
        0 <= at < ids.len(),
        ids[at] == id,
        !ids.take(at).contains(id),
    ensures
        ids.index_of_first(id) == Some(at),
{
    ids.index_of_first_ensures(id);
    assert(ids.contains(id));
    let i = ids.index_of_first(id).unwrap();
    if i < at {
        assert(ids.take(at)[i] == id);
    }
}

/// Adding a VM puts it, with its buffer, behind those that are there. Every
/// other entry stays, the other direction stays as it is, and so does the size.
pub proof fn law_addition_appends_a_pair(c: ConnectionView, vm_id: usize, buffer: usize)
    requires
        c.paired(),
    ensures
        ({
            let sending = c.with_send(vm_id, buffer);
            let receiving = c.with_recv(vm_id, buffer);
            &&& pairs(sending.send_vm_ids, sending.send_buffers) == pairs(
                c.send_vm_ids,
                c.send_buffers,
            ) + seq![(vm_id, buffer)]
            &&& sending.send_vm_ids.last() == vm_id && sending.send_buffers.last() == buffer
            &&& sending.send_vm_ids.drop_last() == c.send_vm_ids
            &&& sending.send_buffers.drop_last() == c.send_buffers
            &&& sending.recv_vm_ids == c.recv_vm_ids && sending.recv_buffers == c.recv_buffers
            &&& sending.buffer_size == c.buffer_size
            &&& pairs(receiving.recv_vm_ids, receiving.recv_buffers) == pairs(
                c.recv_vm_ids,
                c.recv_buffers,
            ) + seq![(vm_id, buffer)]
            &&& receiving.recv_vm_ids.last() == vm_id && receiving.recv_buffers.last() == buffer
            &&& receiving.recv_vm_ids.drop_last() == c.recv_vm_ids
            &&& receiving.recv_buffers.drop_last() == c.recv_buffers
            &&& receiving.send_vm_ids == c.send_vm_ids && receiving.send_buffers == c.send_buffers
            &&& receiving.buffer_size == c.buffer_size
        }),
{
    let sending = c.with_send(vm_id, buffer);
    let receiving = c.with_recv(vm_id, buffer);
    assert(pairs(sending.send_vm_ids, sending.send_buffers) =~= pairs(
        c.send_vm_ids,
        c.send_buffers,
    ) + seq![(vm_id, buffer)]);
    assert(pairs(receiving.recv_vm_ids, receiving.recv_buffers) =~= pairs(
        c.recv_vm_ids,
        c.recv_buffers,
    ) + seq![(vm_id, buffer)]);
    assert(sending.send_vm_ids.drop_last() =~= c.send_vm_ids);
    assert(sending.send_buffers.drop_last() =~= c.send_buffers);
    assert(receiving.recv_vm_ids.drop_last() =~= c.recv_vm_ids);
    assert(receiving.recv_buffers.drop_last() =~= c.recv_buffers);
}

/// Every VM of a connection has a ring: there are as many rings to send to as
/// VMs to send to, and as many to receive from as VMs to receive from. Where
/// VMs and buffers do not match in number, the rings are as many as the fewer.
pub proof fn law_every_vm_has_a_ring(c: ConnectionView)
    ensures
        c.paired() ==> c.send_count() == c.send_vm_ids.len(),
        c.paired() ==> c.recv_count() == c.recv_vm_ids.len(),
        c.send_count() <= c.send_vm_ids.len() && c.send_count() <= c.send_buffers.len(),
        c.send_count() == c.send_vm_ids.len() || c.send_count() == c.send_buffers.len(),
        c.recv_count() <= c.recv_vm_ids.len() && c.recv_count() <= c.recv_buffers.len(),
        c.recv_count() == c.recv_vm_ids.len() || c.recv_count() == c.recv_buffers.len(),
{
}

} // verus!
