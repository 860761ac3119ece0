//! The client session registry: who is connected, and which buffers each
//! client has announced.

use vstd::prelude::*;
use crate::ids::{BufferId, ClientId};
use crate::seqs::lemma_filter_member;

verus! {

/// A buffer that a client has announced.
#[derive(Clone, Copy, Debug, PartialEq, Eq, Structural)]
pub struct Buffer {
    pub id: BufferId,
    pub owner: ClientId,
}

/// A connection was turned away because no per-client state could be set up.
#[derive(Clone, Copy, Debug, PartialEq, Eq, Structural)]
pub struct ConnectionRejected;

/// Keeps every client but `c`.
pub open spec fn other_client(c: ClientId) -> spec_fn(ClientId) -> bool {
    |x: ClientId| x != c
}

/// Keeps every buffer that `c` does not own.
pub open spec fn not_owned_by(c: ClientId) -> spec_fn(Buffer) -> bool {
    |b: Buffer| b.owner != c
}

/// Keeps every buffer but the one named `id`.
pub open spec fn other_buffer(id: BufferId) -> spec_fn(Buffer) -> bool {
    |b: Buffer| b.id != id
}

/// The registry as a mathematical value.
pub struct RegistryModel {
    /// The connected clients, in the order in which they were accepted.
    pub clients: Seq<ClientId>,
    /// The announced buffers, in the order in which they were announced.
    pub buffers: Seq<Buffer>,
    /// The number that the next accepted client gets.
    pub next_client: u64,
    /// The number that the next announced buffer gets.
    pub next_buffer: u64,
    /// How many clients may be connected at once.
    pub capacity: usize,
}

impl RegistryModel {
    /// What holds of every registry: it is not over its capacity, every
    /// number in use lies below the next one, and every buffer has a connected
    /// owner.
    pub open spec fn inv(self) -> bool {
        &&& self.clients.len() <= self.capacity
        &&& forall|i: int| 0 <= i < self.clients.len() ==> (#[trigger] self.clients[i]).0 < self.next_client
        &&& forall|i: int| 0 <= i < self.buffers.len() ==> (#[trigger] self.buffers[i]).id.0 < self.next_buffer
        &&& forall|i: int| 0 <= i < self.buffers.len() ==> self.clients.contains((#[trigger] self.buffers[i]).owner)
    }

    /// The registry to begin with.
    pub open spec fn empty(capacity: usize) -> RegistryModel {
        RegistryModel {
            clients: Seq::empty(),
            buffers: Seq::empty(),
            next_client: 1,
            next_buffer: 1,
            capacity,
        }
    }

    /// Whether client `c` is connected.
    pub open spec fn has_client(self, c: ClientId) -> bool {
        self.clients.contains(c)
    }

    /// Whether `b` is a buffer that client `c` announced and has not
    /// destroyed since.
    pub open spec fn owns(self, c: ClientId, b: BufferId) -> bool {
        self.buffers.contains(Buffer { id: b, owner: c })
    }

    /// Whether there is room, and a number, for one more client.
    pub open spec fn can_accept(self) -> bool {
        self.clients.len() < self.capacity && self.next_client < u64::MAX
    }

    /// The registry with one more client, if there is room for one.
    pub open spec fn accept(self) -> RegistryModel {
        if self.can_accept() {
            RegistryModel {
                clients: self.clients.push(ClientId(self.next_client)),
                next_client: (self.next_client + 1) as u64,
                ..self
            }
        } else {
            self
        }
    }

    /// The client that `accept` admits, or the rejection.
    pub open spec fn accepted(self) -> Result<ClientId, ConnectionRejected> {
        if self.can_accept() {
            Ok(ClientId(self.next_client))
        } else {
            Err(ConnectionRejected)
        }
    }

    /// The registry without client `c` and without the buffers of `c`.
    pub open spec fn disconnect(self, c: ClientId) -> RegistryModel {
        RegistryModel {
            clients: self.clients.filter(other_client(c)),
            buffers: self.buffers.filter(not_owned_by(c)),
            ..self
        }
    }

    /// Whether a buffer can be noted for client `c`: `c` is connected and a
    /// buffer number is left.
    pub open spec fn can_create_buffer(self, c: ClientId) -> bool {
        self.has_client(c) && self.next_buffer < u64::MAX
    }

    /// The registry with one more buffer of client `c`, if one can be noted.
    pub open spec fn create_buffer(self, c: ClientId) -> RegistryModel {
        if self.can_create_buffer(c) {
            RegistryModel {
                buffers: self.buffers.push(Buffer { id: BufferId(self.next_buffer), owner: c }),
                next_buffer: (self.next_buffer + 1) as u64,
                ..self
            }
        } else {
            self
        }
    }

    /// The buffer that `create_buffer` notes.
    pub open spec fn created_buffer(self, c: ClientId) -> Option<BufferId> {
        if self.can_create_buffer(c) {
            Some(BufferId(self.next_buffer))
        } else {
            None
        }
    }

    /// The registry without buffer `b`.
    pub open spec fn destroy_buffer(self, b: BufferId) -> RegistryModel {
        RegistryModel { buffers: self.buffers.filter(other_buffer(b)), ..self }
    }

    /// Accepting keeps the registry valid, and the client it admits was not
    /// connected before.
    pub proof fn lemma_accept(self)
        requires
            self.inv(),
        ensures
            self.accept().inv(),
            self.accepted() matches Ok(c) ==> !self.has_client(c) && self.accept().has_client(c),
            forall|c: ClientId| self.has_client(c) ==> self.accept().has_client(c),
    {
        let post = self.accept();
        if self.can_accept() {
            let c = ClientId(self.next_client);
            assert(post.clients.last() == c);
            assert forall|i: int| 0 <= i < post.buffers.len() implies post.clients.contains(
                (#[trigger] post.buffers[i]).owner,
            ) by {
                let k = self.clients.index_of(self.buffers[i].owner);
                assert(post.clients[k] == self.buffers[i].owner);
            }
            assert forall|x: ClientId| self.has_client(x) implies post.has_client(x) by {
                let k = self.clients.index_of(x);
                assert(post.clients[k] == x);
            }
        }
    }

    /// Disconnecting keeps the registry valid, removes the client and its
    /// buffers, and touches no other client.
    pub proof fn lemma_disconnect(self, c: ClientId)
        requires
            self.inv(),
        ensures
            self.disconnect(c).inv(),
            !self.disconnect(c).has_client(c),
            forall|x: ClientId| x != c ==> self.disconnect(c).has_client(x) == self.has_client(x),
            forall|x: ClientId, b: BufferId|
                #![trigger self.disconnect(c).owns(x, b)]
                self.disconnect(c).owns(x, b) == (x != c && self.owns(x, b)),
    {
        broadcast use vstd::seq_lib::group_filter_ensures;
        let post = self.disconnect(c);
        lemma_filter_member(self.clients, other_client(c));
        lemma_filter_member(self.buffers, not_owned_by(c));
        assert forall|i: int| 0 <= i < post.clients.len() implies (#[trigger] post.clients[i]).0
            < post.next_client by {
            assert(post.clients.contains(post.clients[i]));
            let k = self.clients.index_of(post.clients[i]);
            assert(self.clients[k].0 < self.next_client);
        }
        assert forall|i: int| 0 <= i < post.buffers.len() implies (#[trigger] post.buffers[i]).id.0
            < post.next_buffer && post.clients.contains(post.buffers[i].owner) by {
            let b = post.buffers[i];
            assert(post.buffers.contains(b));
            let k = self.buffers.index_of(b);
            assert(self.buffers[k].id.0 < self.next_buffer);
            assert(self.clients.contains(self.buffers[k].owner));
            assert(other_client(c)(b.owner));
        }
        assert forall|x: ClientId, b: BufferId|
            #![trigger post.owns(x, b)]
            post.owns(x, b) == (x != c && self.owns(x, b)) by {
            let r = Buffer { id: b, owner: x };
            assert(not_owned_by(c)(r) == (x != c));
        }
    }

    /// Announcing a buffer keeps the registry valid; the new buffer belongs
    /// to its client and every other ownership stays as it was.
    pub proof fn lemma_create_buffer(self, c: ClientId)
        requires
            self.inv(),
        ensures
            self.create_buffer(c).inv(),
            self.created_buffer(c) matches Some(b) ==> self.create_buffer(c).owns(c, b)
                && forall|x: ClientId| !self.owns(x, b),
            forall|x: ClientId, b: BufferId| self.owns(x, b) ==> self.create_buffer(c).owns(x, b),
    {
        let post = self.create_buffer(c);
        if self.can_create_buffer(c) {
            let fresh = Buffer { id: BufferId(self.next_buffer), owner: c };
            assert(post.buffers.last() == fresh);
            assert forall|x: ClientId, b: BufferId| self.owns(x, b) implies post.owns(x, b) by {
                let k = self.buffers.index_of(Buffer { id: b, owner: x });
                assert(post.buffers[k] == Buffer { id: b, owner: x });
            }
        }
    }

    /// Destroying a buffer keeps the registry valid and removes exactly that
    /// buffer.
    pub proof fn lemma_destroy_buffer(self, b: BufferId)
        requires
            self.inv(),
        ensures
            self.destroy_buffer(b).inv(),
            forall|x: ClientId, other: BufferId|
                #![trigger self.destroy_buffer(b).owns(x, other)]
                self.destroy_buffer(b).owns(x, other) == (other != b && self.owns(x, other)),
    {
        let post = self.destroy_buffer(b);
        lemma_filter_member(self.buffers, other_buffer(b));
        assert forall|i: int| 0 <= i < post.buffers.len() implies (#[trigger] post.buffers[i]).id.0
            < post.next_buffer && post.clients.contains(post.buffers[i].owner) by {
            let x = post.buffers[i];
            assert(post.buffers.contains(x));
            let k = self.buffers.index_of(x);
            assert(self.buffers[k].id.0 < self.next_buffer);
            assert(self.clients.contains(self.buffers[k].owner));
        }
        assert forall|x: ClientId, other: BufferId|
            #![trigger post.owns(x, other)]
            post.owns(x, other) == (other != b && self.owns(x, other)) by {
            let r = Buffer { id: other, owner: x };
            assert(other_buffer(b)(r) == (other != b));
        }
    }
}

/// The client session registry.
pub struct ClientRegistry {
    clients: Vec<ClientId>,
    buffers: Vec<Buffer>,
    next_client: u64,
    next_buffer: u64,
    capacity: usize,
}

impl View for ClientRegistry {
    type V = RegistryModel;

    closed spec fn view(&self) -> RegistryModel {
        RegistryModel {
            clients: self.clients@,
            buffers: self.buffers@,
            next_client: self.next_client,
            next_buffer: self.next_buffer,
            capacity: self.capacity,
        }
    }
}

impl ClientRegistry {
    /// A registry with no client, which admits up to `capacity` at a time.
    pub fn new(capacity: usize) -> (r: ClientRegistry)
        ensures
            r@ == RegistryModel::empty(capacity),
            r@.inv(),
    {
        ClientRegistry {
            clients: Vec::new(),
            buffers: Vec::new(),
            next_client: 1,
            next_buffer: 1,
            capacity,
        }
    }

    /// Admits a new connection, unless the registry is full or has run out
    /// of client numbers. What the connection would say plays no part.
    pub fn accept(&mut self) -> (r: Result<ClientId, ConnectionRejected>)
        requires
            old(self)@.inv(),
        ensures
            final(self)@ == old(self)@.accept(),
            r == old(self)@.accepted(),
            final(self)@.inv(),
    {
        proof {
            self@.lemma_accept();
        }
        if self.clients.len() < self.capacity && self.next_client < u64::MAX {
            let id = ClientId(self.next_client);
            self.clients.push(id);
            self.next_client = self.next_client + 1;
            Ok(id)
        } else {
            Err(ConnectionRejected)
        }
    }

    /// Whether client `c` is connected.
    pub fn is_connected(&self, c: ClientId) -> (r: bool)
        ensures
            r == self@.has_client(c),
    {
        let mut i: usize = 0;
        while i < self.clients.len()
            invariant
                i <= self.clients.len(),
                forall|k: int| 0 <= k < i ==> self.clients@[k] != c,
            decreases self.clients.len() - i,
        {
            if self.clients[i].0 == c.0 {
                return true;
            }
            i += 1;
        }
        false
    }

    /// The number of connected clients.
    pub fn client_count(&self) -> (n: usize)
        ensures
            n == self@.clients.len(),
    {
        self.clients.len()
    }

    /// Whether `b` is a live buffer of client `c`.
    pub fn owns(&self, c: ClientId, b: BufferId) -> (r: bool)
        ensures
            r == self@.owns(c, b),
    {
        let mut i: usize = 0;
        while i < self.buffers.len()
            invariant
                i <= self.buffers.len(),
                forall|k: int| 0 <= k < i ==> self.buffers@[k] != (Buffer { id: b, owner: c }),
            decreases self.buffers.len() - i,
        {
            let x = self.buffers[i];
            if x.id.0 == b.0 && x.owner.0 == c.0 {
                return true;
            }
            i += 1;
        }
        false
    }

    /// Forgets client `c` and every buffer it announced. Says whether `c`
    /// was connected.
    pub fn disconnect(&mut self, c: ClientId) -> (was_connected: bool)
        requires
            old(self)@.inv(),
        ensures
            final(self)@ == old(self)@.disconnect(c),
            was_connected == old(self)@.has_client(c),
            final(self)@.inv(),
    {
        proof {
            self@.lemma_disconnect(c);
        }
        let was_connected = self.is_connected(c);
        let mut clients: Vec<ClientId> = Vec::new();
        let mut i: usize = 0;
        proof {
            reveal(Seq::filter);
            assert(self.clients@.take(0) =~= Seq::<ClientId>::empty());
        }
        while i < self.clients.len()
            invariant
                i <= self.clients.len(),
                clients@ == self.clients@.take(i as int).filter(other_client(c)),
            decreases self.clients.len() - i,
        {
            let x = self.clients[i];
            proof {
                assert(self.clients@.take(i + 1) =~= self.clients@.take(i as int).push(x));
                self.clients@.take(i as int).lemma_filter_push(x, other_client(c));
            }
            if x.0 != c.0 {
                clients.push(x);
            }
            i += 1;
        }
        proof {
            assert(self.clients@.take(self.clients.len() as int) =~= self.clients@);
        }
        let mut buffers: Vec<Buffer> = Vec::new();
        let mut j: usize = 0;
        proof {
            reveal(Seq::filter);
            assert(self.buffers@.take(0) =~= Seq::<Buffer>::empty());
        }
        while j < self.buffers.len()
            invariant
                j <= self.buffers.len(),
                buffers@ == self.buffers@.take(j as int).filter(not_owned_by(c)),
            decreases self.buffers.len() - j,
        {
            let b = self.buffers[j];
            proof {
                assert(self.buffers@.take(j + 1) =~= self.buffers@.take(j as int).push(b));
                self.buffers@.take(j as int).lemma_filter_push(b, not_owned_by(c));
            }
            if b.owner.0 != c.0 {
                buffers.push(b);
            }
            j += 1;
        }
        proof {
            assert(self.buffers@.take(self.buffers.len() as int) =~= self.buffers@);
        }
        self.clients = clients;
        self.buffers = buffers;
        was_connected
    }

    /// Records a new buffer for client `c`. Gives none if `c` is not
    /// connected or the buffer numbers have run out.
    pub fn create_buffer(&mut self, c: ClientId) -> (r: Option<BufferId>)
        requires
            old(self)@.inv(),
        ensures
            final(self)@ == old(self)@.create_buffer(c),
            r == old(self)@.created_buffer(c),
            final(self)@.inv(),
    {
        proof {
            self@.lemma_create_buffer(c);
        }
        if self.is_connected(c) && self.next_buffer < u64::MAX {
            let id = BufferId(self.next_buffer);
            self.buffers.push(Buffer { id, owner: c });
            self.next_buffer = self.next_buffer + 1;
            Some(id)
        } else {
            None
        }
    }

    /// Forgets buffer `b`, whoever owns it. Surfaces that show it keep what
    /// they show; staging it again will be refused at the next commit.
    pub fn buffer_destroyed(&mut self, b: BufferId)
        requires
            old(self)@.inv(),
        ensures
            final(self)@ == old(self)@.destroy_buffer(b),
            final(self)@.inv(),
    {
        proof {
            self@.lemma_destroy_buffer(b);
        }
        let mut buffers: Vec<Buffer> = Vec::new();
        let mut j: usize = 0;
        proof {
            reveal(Seq::filter);
            assert(self.buffers@.take(0) =~= Seq::<Buffer>::empty());
        }
        while j < self.buffers.len()
            invariant
                j <= self.buffers.len(),
                buffers@ == self.buffers@.take(j as int).filter(other_buffer(b)),
            decreases self.buffers.len() - j,
        {
            let x = self.buffers[j];
            proof {
                assert(self.buffers@.take(j + 1) =~= self.buffers@.take(j as int).push(x));
                self.buffers@.take(j as int).lemma_filter_push(x, other_buffer(b));
            }
            if x.id.0 != b.0 {
                buffers.push(x);
            }
            j += 1;
        }
        proof {
            assert(self.buffers@.take(self.buffers.len() as int) =~= self.buffers@);
        }
        self.buffers = buffers;
    }
}

} // verus!
