//! The connection registry and the per-connection lifecycle.
//!
//! Every accepted connection gets a slot that holds its outbound bytes and an
//! identifier made of the slot's index and a generation. A slot that is freed
//! and used again hands out a later generation, so an identifier that was
//! retired never names a later connection.

use crate::net::encode::buffer_bytes;
use crate::net::encode::buffer_len;
use crate::net::encode::buffer_new;
use crate::net::encode::buffer_split_to;
use crate::net::encode::payload_bytes;
use crate::net::encode::frame_of;
use crate::net::encode::BincodeEncoder;
use crate::net::encode::EncodeError;
use crate::net::encode::MAX_PAYLOAD_LEN;
use bytes::BytesMut;
use generational_arena::Arena;
use generational_arena::Index;
use vstd::prelude::*;

pub mod connection;

verus! {

#[verifier::external_type_specification]
#[verifier::external_body]
#[verifier::reject_recursive_types(T)]
pub struct ExArena<T>(Arena<T>);

/// The occupied slots of an arena: slot index and generation of each, with the
/// bytes of the buffer it holds.
pub uninterp spec fn arena_slots(arena: Arena<BytesMut>) -> Map<(usize, u64), Seq<u8>>;

/// The generation that an arena gives to the next value it takes in.
pub uninterp spec fn arena_generation(arena: Arena<BytesMut>) -> u64;

/// Names one connection: the slot it occupies and the generation it got there.
#[derive(Debug, Clone, Copy, PartialEq, Eq, Hash, Structural)]
pub struct ClientId {
    index: usize,
    generation: u64,
}

impl ClientId {
    /// The slot index and the generation of this identifier.
    pub closed spec fn key(self) -> (usize, u64) {
        (self.index, self.generation)
    }

    /// The generation of this identifier.
    pub closed spec fn generation(self) -> u64 {
        self.generation
    }

    /// The slot that this identifier points at.
    pub closed spec fn slot(self) -> usize {
        self.index
    }
}

/// `Arena::new`: an arena with no occupied slot, at generation 0.
#[verifier::external_body]
fn arena_new() -> (arena: Arena<BytesMut>)
    ensures
        arena_slots(arena).dom().is_empty(),
        arena_generation(arena) == 0,
{
    Arena::new()
}

/// `Arena::insert`: puts `value` into a free slot, under the arena's current
/// generation, and returns that slot's index with that generation. The slot
/// was occupied under no generation before; no other slot changes, nor does
/// the arena's generation.
#[verifier::external_body]
fn arena_insert(arena: &mut Arena<BytesMut>, value: BytesMut) -> (id: ClientId)
    ensures
        id.generation() == arena_generation(*old(arena)),
        forall|generation: u64|
            !arena_slots(*old(arena)).contains_key((id.slot(), generation)),
        arena_slots(*final(arena)) == arena_slots(*old(arena)).insert(
            id.key(),
            buffer_bytes(value),
        ),
        arena_generation(*final(arena)) == arena_generation(*old(arena)),
{
    let (index, generation) = arena.insert(value).into_raw_parts();
    ClientId { index, generation }
}

/// `Arena::get_mut`: the buffer in the slot that `id` names, if that slot is
/// occupied under the generation of `id`. Whatever the caller does to the
/// buffer is what the slot holds afterwards; nothing else changes.
#[verifier::external_body]
fn arena_get_mut(arena: &mut Arena<BytesMut>, id: ClientId) -> (slot: Option<&mut BytesMut>)
    ensures
        slot is Some <==> arena_slots(*old(arena)).contains_key(id.key()),
        arena_generation(*final(arena)) == arena_generation(*old(arena)),
        match slot {
            Some(buf) => {
                &&& buffer_bytes(*buf) == arena_slots(*old(arena))[id.key()]
                &&& arena_slots(*final(arena)) == arena_slots(*old(arena)).insert(
                    id.key(),
                    buffer_bytes(*final(buf)),
                )
            },
            None => arena_slots(*final(arena)) == arena_slots(*old(arena)),
        },
{
    arena.get_mut(Index::from_raw_parts(id.index, id.generation))
}

/// `Arena::remove`: frees the slot that `id` names, if it is occupied under
/// the generation of `id`, returns what it held and moves the arena to the
/// next generation; otherwise nothing changes. The step to the next
/// generation overflows at `u64::MAX`, which the precondition rules out.
#[verifier::external_body]
fn arena_remove(arena: &mut Arena<BytesMut>, id: ClientId) -> (removed: Option<BytesMut>)
    requires
        arena_slots(*old(arena)).contains_key(id.key()) ==> arena_generation(*old(arena))
            < u64::MAX,
    ensures
        removed is Some <==> arena_slots(*old(arena)).contains_key(id.key()),
        removed is Some ==> buffer_bytes(removed->0) == arena_slots(*old(arena))[id.key()],
        removed is Some ==> arena_generation(*final(arena)) == arena_generation(*old(arena)) + 1,
        removed is None ==> arena_generation(*final(arena)) == arena_generation(*old(arena)),
        arena_slots(*final(arena)) == arena_slots(*old(arena)).remove(id.key()),
{
    arena.remove(Index::from_raw_parts(id.index, id.generation))
}

/// `Arena::contains`: whether the slot that `id` names is occupied under the
/// generation of `id`.
#[verifier::external_body]
fn arena_contains(arena: &Arena<BytesMut>, id: ClientId) -> (found: bool)
    ensures
        found == arena_slots(*arena).contains_key(id.key()),
{
    arena.contains(Index::from_raw_parts(id.index, id.generation))
}

/// What a registry holds: the outbound bytes of every live connection, and the
/// generation that the next connection gets.
pub struct RegistryView {
    pub connections: Map<ClientId, Seq<u8>>,
    pub generation: nat,
}

impl RegistryView {
    /// Whether `id` names a live connection.
    pub open spec fn is_live(self, id: ClientId) -> bool {
        self.connections.contains_key(id)
    }

    /// Whether `id` can no longer name a connection: it is not live, and its
    /// generation has passed.
    pub open spec fn is_retired(self, id: ClientId) -> bool {
        !self.is_live(id) && id.generation() < self.generation
    }

    /// No live connection is of a generation yet to come, and no two share
    /// a slot.
    pub open spec fn well_formed(self) -> bool {
        &&& forall|id: ClientId| #[trigger] self.is_live(id) ==> id.generation() <= self.generation
        &&& forall|a: ClientId, b: ClientId|
            #[trigger] self.is_live(a) && #[trigger] self.is_live(b) && a.slot() == b.slot() ==> a
                == b
    }

    /// `post` is `self` after a connection was registered under `id`.
    pub open spec fn registered(self, post: RegistryView, id: ClientId) -> bool {
        &&& !self.is_live(id)
        &&& id.generation() == self.generation
        &&& forall|other: ClientId| #[trigger] self.is_live(other) ==> other.slot() != id.slot()
        &&& post.connections == self.connections.insert(id, Seq::empty())
        &&& post.generation == self.generation
    }

    /// `post` is `self` after `id` was kicked.
    pub open spec fn kicked(self, post: RegistryView, id: ClientId) -> bool {
        &&& post.connections == self.connections.remove(id)
        &&& post.generation == if self.is_live(id) {
            self.generation + 1
        } else {
            self.generation
        }
    }

    /// `post` is `self` after the outbound bytes of `id` were taken out, and
    /// `taken` is what came out.
    pub open spec fn drained(self, post: RegistryView, id: ClientId, taken: Option<Seq<u8>>) -> bool {
        if self.is_live(id) {
            &&& taken == Some(self.connections[id])
            &&& post.connections == self.connections.insert(id, Seq::empty())
            &&& post.generation == self.generation
        } else {
            taken.is_none() && post == self
        }
    }

    /// `post` is `self` after `payload` was sent to `id` with `outcome`.
    pub open spec fn sent(
        self,
        post: RegistryView,
        id: ClientId,
        payload: Seq<u8>,
        outcome: SendOutcome,
    ) -> bool {
        if !self.is_live(id) {
            outcome == SendOutcome::UnknownClient && post == self
        } else if payload.len() > MAX_PAYLOAD_LEN {
            outcome == SendOutcome::Refused(EncodeError::PayloadTooLong) && post == self
        } else {
            &&& outcome == SendOutcome::Queued
            &&& post.connections == self.connections.insert(
                id,
                self.connections[id] + frame_of(payload),
            )
            &&& post.generation == self.generation
        }
    }
}

/// What became of a payload handed to `send`.
#[derive(Debug, Clone, Copy, PartialEq, Eq, Structural)]
pub enum SendOutcome {
    /// Its frame joined the outbound bytes of the connection.
    Queued,
    /// The identifier names no live connection; nothing was done.
    UnknownClient,
    /// The payload could not be framed; nothing was done. The connection
    /// cannot carry what was asked of it and is to be kicked.
    Refused(EncodeError),
}

/// The registry of live connections of a server that listens on one port.
pub struct TcpServer<T> {
    port: u16,
    sinks: Arena<BytesMut>,
    retired: u64,
    encoder: BincodeEncoder<T>,
}

impl<T> View for TcpServer<T> {
    type V = RegistryView;

    closed spec fn view(&self) -> RegistryView {
        RegistryView {
            connections: Map::new(
                |id: ClientId| arena_slots(self.sinks).contains_key(id.key()),
                |id: ClientId| arena_slots(self.sinks)[id.key()],
            ),
            generation: arena_generation(self.sinks) as nat,
        }
    }
}

impl<T> TcpServer<T> {
    /// The port that this server listens on.
    pub closed spec fn spec_port(&self) -> u16 {
        self.port
    }

    /// The invariant of a registry: its view is well formed, and it has
    /// counted the connections it retired.
    pub closed spec fn wf(&self) -> bool {
        &&& self@.well_formed()
        &&& self.retired == arena_generation(self.sinks)
    }

    /// A server for `port` with no connection.
    pub fn new(port: u16) -> (server: Self)
        ensures
            server.wf(),
            server.spec_port() == port,
            server@.connections == Map::<ClientId, Seq<u8>>::empty(),
            server@.generation == 0,
    {
        let server = TcpServer {
            port,
            sinks: arena_new(),
            retired: 0,
            encoder: BincodeEncoder::new(),
        };
        proof {
            assert(server@.connections =~= Map::<ClientId, Seq<u8>>::empty());
        }
        server
    }

    /// The port that this server listens on.
    pub fn port(&self) -> (port: u16)
        ensures
            port == self.spec_port(),
    {
        self.port
    }

    /// Whether `client_id` names a live connection.
    pub fn is_connected(&self, client_id: ClientId) -> (live: bool)
        ensures
            live == self@.is_live(client_id),
    {
        arena_contains(&self.sinks, client_id)
    }

    /// Takes in a new connection with no outbound bytes and returns the
    /// identifier it is known by from now on.
    pub fn register(&mut self) -> (client_id: ClientId)
        requires
            old(self).wf(),
        ensures
            final(self).wf(),
            final(self).spec_port() == old(self).spec_port(),
            old(self)@.registered(final(self)@, client_id),
    {
        let client_id = arena_insert(&mut self.sinks, buffer_new());
        proof {
            let pre = old(self)@;
            let post = self@;
            assert(post.connections =~= pre.connections.insert(client_id, Seq::empty()));
            assert forall|other: ClientId| #[trigger] pre.is_live(other) implies other.slot()
                != client_id.slot() by {
                assert(other.key() == (other.slot(), other.generation()));
            }
            assert forall|id: ClientId| #[trigger] post.is_live(id) implies id.generation()
                <= post.generation by {
                assert(id == client_id || pre.is_live(id));
            }
            assert forall|a: ClientId, b: ClientId|
                #[trigger] post.is_live(a) && #[trigger] post.is_live(b) && a.slot()
                    == b.slot() implies a == b by {
                assert(a == client_id || pre.is_live(a));
                assert(b == client_id || pre.is_live(b));
            }
        }
        client_id
    }

    /// Removes the connection that `client_id` names, if it is live, and
    /// retires the identifier. An identifier that names no live connection
    /// changes nothing.
    pub fn kick(&mut self, client_id: ClientId)
        requires
            old(self).wf(),
            old(self)@.generation < u64::MAX,
        ensures
            final(self).wf(),
            final(self).spec_port() == old(self).spec_port(),
            old(self)@.kicked(final(self)@, client_id),
    {
        let removed = arena_remove(&mut self.sinks, client_id);
        if removed.is_some() {
            self.retired = self.retired + 1;
        }
        proof {
            let pre = old(self)@;
            let post = self@;
            assert(post.connections =~= pre.connections.remove(client_id));
            assert forall|id: ClientId| #[trigger] post.is_live(id) implies pre.is_live(id) by {}
        }
    }

    /// Kicks `client_id` as `kick` does, unless the registry has run out of
    /// generations; says whether it could.
    pub fn try_kick(&mut self, client_id: ClientId) -> (done: bool)
        requires
            old(self).wf(),
        ensures
            final(self).wf(),
            final(self).spec_port() == old(self).spec_port(),
            done == (old(self)@.generation < u64::MAX),
            done ==> old(self)@.kicked(final(self)@, client_id),
            !done ==> final(self)@ == old(self)@,
    {
        if self.retired < u64::MAX {
            self.kick(client_id);
            true
        } else {
            false
        }
    }

    /// Frames `payload` and appends the frame to the outbound bytes of the
    /// connection that `client_id` names. An identifier that names no live
    /// connection changes nothing, and neither does a payload too long to
    /// frame; no other connection is touched in any case.
    pub fn send(&mut self, client_id: ClientId, payload: &[u8]) -> (outcome: SendOutcome)
        requires
            old(self).wf(),
        ensures
            final(self).wf(),
            final(self).spec_port() == old(self).spec_port(),
            old(self)@.sent(final(self)@, client_id, payload@, outcome),
    {
        let outcome = match arena_get_mut(&mut self.sinks, client_id) {
            None => SendOutcome::UnknownClient,
            Some(sink) => {
                match self.encoder.encode(payload, sink) {
                    Ok(()) => SendOutcome::Queued,
                    Err(error) => SendOutcome::Refused(error),
                }
            },
        };
        proof {
            let pre = old(self)@;
            let post = self@;
            if !pre.is_live(client_id) || payload@.len() > MAX_PAYLOAD_LEN {
                assert(arena_slots(self.sinks) =~= arena_slots(old(self).sinks));
                assert(post.connections =~= pre.connections);
            } else {
                assert(post.connections =~= pre.connections.insert(
                    client_id,
                    pre.connections[client_id] + frame_of(payload@),
                ));
            }
            assert forall|id: ClientId| #[trigger] post.is_live(id) implies pre.is_live(id) by {}

        }
        outcome
    }

    /// Takes out the bytes that await writing on the connection that
    /// `client_id` names and leaves it with none. An identifier that names no
    /// live connection yields `None` and changes nothing.
    pub fn take_outbound(&mut self, client_id: ClientId) -> (taken: Option<BytesMut>)
        requires
            old(self).wf(),
        ensures
            final(self).wf(),
            final(self).spec_port() == old(self).spec_port(),
            old(self)@.drained(final(self)@, client_id, payload_bytes(taken)),
    {
        let taken = match arena_get_mut(&mut self.sinks, client_id) {
            None => None,
            Some(sink) => {
                let ghost before = buffer_bytes(*sink);
                let len = buffer_len(sink);
                let bytes = buffer_split_to(sink, len);
                proof {
                    assert(buffer_bytes(bytes) =~= before);
                    assert(buffer_bytes(*sink) =~= Seq::<u8>::empty());
                }
                Some(bytes)
            },
        };
        proof {
            let pre = old(self)@;
            let post = self@;
            if pre.is_live(client_id) {
                assert(post.connections =~= pre.connections.insert(client_id, Seq::empty()));
            } else {
                assert(arena_slots(self.sinks) =~= arena_slots(old(self).sinks));
                assert(post.connections =~= pre.connections);
            }
            assert forall|id: ClientId| #[trigger] post.is_live(id) implies pre.is_live(id) by {}
        }
        taken
    }
}

/// An identifier that was kicked is not the one that the next registration
/// hands out.
pub proof fn lemma_identifier_not_reused(
    start: RegistryView,
    with_first: RegistryView,
    without_first: RegistryView,
    with_second: RegistryView,
    first: ClientId,
    second: ClientId,
)
    requires
        start.registered(with_first, first),
        with_first.kicked(without_first, first),
        without_first.registered(with_second, second),
    ensures
        first != second,
{
    assert(with_first.is_live(first));
}

/// A registration, a kick, a send and a taking of outbound bytes each leave a
/// well-formed registry well formed.
pub proof fn lemma_well_formed_is_kept(
    pre: RegistryView,
    post: RegistryView,
    id: ClientId,
    payload: Seq<u8>,
    outcome: SendOutcome,
    taken: Option<Seq<u8>>,
)
    requires
        pre.well_formed(),
        pre.registered(post, id) || pre.kicked(post, id) || pre.sent(post, id, payload, outcome)
            || pre.drained(post, id, taken),
    ensures
        post.well_formed(),
{
    assert forall|other: ClientId| #[trigger] post.is_live(other) implies pre.is_live(other)
        || (other == id && pre.registered(post, id)) by {}
    assert forall|a: ClientId, b: ClientId|
        #[trigger] post.is_live(a) && #[trigger] post.is_live(b) && a.slot() == b.slot() implies a
        == b by {
        assert(pre.is_live(a) || a == id);
        assert(pre.is_live(b) || b == id);
    }
}

/// A kick retires the identifier it is given, unless that identifier names a
/// connection yet to be registered.
pub proof fn lemma_kick_retires(pre: RegistryView, post: RegistryView, id: ClientId)
    requires
        pre.well_formed(),
        pre.kicked(post, id),
        pre.is_live(id) || pre.is_retired(id),
    ensures
        post.is_retired(id),
{
}

/// Once retired, an identifier stays retired whatever is done to the
/// registry, and no registration hands it out: it never names a later
/// connection.
pub proof fn lemma_retired_stays_retired(
    pre: RegistryView,
    post: RegistryView,
    id: ClientId,
    payload: Seq<u8>,
    outcome: SendOutcome,
    taken: Option<Seq<u8>>,
    retired: ClientId,
)
    requires
        pre.is_retired(retired),
        pre.registered(post, id) || pre.kicked(post, id) || pre.sent(post, id, payload, outcome)
            || pre.drained(post, id, taken),
    ensures
        post.is_retired(retired),
        pre.registered(post, id) ==> id != retired,
{
}

/// Sending to an identifier that was kicked does nothing: the outcome says
/// that the client is unknown, and the registry is as the kick left it.
pub proof fn lemma_send_after_kick(
    pre: RegistryView,
    kicked: RegistryView,
    post: RegistryView,
    id: ClientId,
    payload: Seq<u8>,
    outcome: SendOutcome,
)
    requires
        pre.kicked(kicked, id),
        kicked.sent(post, id, payload, outcome),
    ensures
        outcome == SendOutcome::UnknownClient,
        post == kicked,
{
}

/// A send, whatever its outcome, leaves every other connection as it was,
/// and keeps the set of live connections.
pub proof fn lemma_send_touches_one_connection(
    pre: RegistryView,
    post: RegistryView,
    id: ClientId,
    payload: Seq<u8>,
    outcome: SendOutcome,
    other: ClientId,
)
    requires
        pre.sent(post, id, payload, outcome),
    ensures
        post.is_live(other) == pre.is_live(other),
        other != id && pre.is_live(other) ==> post.connections[other] == pre.connections[other],
{
}

} // verus!
