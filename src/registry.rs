//! The registry of connected peers: who is connected, in which protocol
//! group, and the writer end of each peer's outbound queue.
use vstd::prelude::*;

use futures_channel::mpsc::{UnboundedReceiver, UnboundedSender};

use crate::addr::PeerAddr;
use crate::message::Outbound;
use crate::outbox::{open_outbox, share_outbox};

verus! {

/// One registered peer, as the registry holds it and as a snapshot hands it
/// to the router.
pub struct PeerEntry {
    pub id: PeerAddr,
    pub protocol: String,
    pub outbox: UnboundedSender<Outbound>,
}

/// Why a registration was refused.
#[derive(Clone, Copy, Debug, PartialEq, Eq, Structural)]
pub enum RegistryError {
    /// A peer with this identity is already registered.
    DuplicateIdentity,
}

/// A peer as the model sees it: its identity and its protocol tag.
pub type PeerModel = (PeerAddr, Seq<char>);

/// The model of a sequence of entries, in order.
pub open spec fn models(entries: Seq<PeerEntry>) -> Seq<PeerModel> {
    entries.map_values(|e: PeerEntry| (e.id, e.protocol@))
}

/// Whether a peer with identity `id` is among `peers`.
pub open spec fn has_peer(peers: Seq<PeerModel>, id: PeerAddr) -> bool {
    exists|i: int| 0 <= i < peers.len() && (#[trigger] peers[i]).0 == id
}

/// No identity occurs twice.
pub open spec fn unique_ids(peers: Seq<PeerModel>) -> bool {
    forall|i: int, j: int|
        0 <= i < peers.len() && 0 <= j < peers.len() && i != j ==> (#[trigger] peers[i]).0 != (
        #[trigger] peers[j]).0
}

/// The peers after `id` registers with `protocol`: appended, unless the
/// identity is already present.
pub open spec fn after_register(peers: Seq<PeerModel>, id: PeerAddr, protocol: Seq<char>) -> Seq<
    PeerModel,
> {
    if has_peer(peers, id) {
        peers
    } else {
        peers.push((id, protocol))
    }
}

/// The peers after `id` deregisters: its entry is taken out, the others keep
/// their order; nothing changes where `id` is absent.
pub open spec fn after_deregister(peers: Seq<PeerModel>, id: PeerAddr) -> Seq<PeerModel> {
    if has_peer(peers, id) {
        peers.remove(choose|i: int| 0 <= i < peers.len() && (#[trigger] peers[i]).0 == id)
    } else {
        peers
    }
}

/// A change to the registry: a connection registering or deregistering.
pub enum Membership {
    Register { id: PeerAddr, protocol: String },
    Deregister { id: PeerAddr },
}

/// The peers after one change.
pub open spec fn apply(peers: Seq<PeerModel>, ev: Membership) -> Seq<PeerModel> {
    match ev {
        Membership::Register { id, protocol } => after_register(peers, id, protocol@),
        Membership::Deregister { id } => after_deregister(peers, id),
    }
}

/// The peers after a series of changes, applied in order.
pub open spec fn replay(peers: Seq<PeerModel>, events: Seq<Membership>) -> Seq<PeerModel>
    decreases events.len(),
{
    if events.len() == 0 {
        peers
    } else {
        apply(replay(peers, events.drop_last()), events.last())
    }
}

/// How many registrations a series of changes holds.
pub open spec fn registrations(events: Seq<Membership>) -> int
    decreases events.len(),
{
    if events.len() == 0 {
        0
    } else {
        registrations(events.drop_last()) + if events.last() is Register {
            1int
        } else {
            0
        }
    }
}

/// How many deregistrations a series of changes holds.
pub open spec fn deregistrations(events: Seq<Membership>) -> int
    decreases events.len(),
{
    if events.len() == 0 {
        0
    } else {
        deregistrations(events.drop_last()) + if events.last() is Deregister {
            1int
        } else {
            0
        }
    }
}

/// Whether each change in a series, from `peers` on, is one a connection's
/// lifetime makes: a registration of an identity that is not registered, or a
/// deregistration of one that is.
pub open spec fn one_per_connection(peers: Seq<PeerModel>, events: Seq<Membership>) -> bool
    decreases events.len(),
{
    if events.len() == 0 {
        true
    } else {
        &&& one_per_connection(peers, events.drop_last())
        &&& match events.last() {
            Membership::Register { id, .. } => !has_peer(replay(peers, events.drop_last()), id),
            Membership::Deregister { id } => has_peer(replay(peers, events.drop_last()), id),
        }
    }
}

/// Registering keeps identities unique, and adds one peer unless the identity
/// was already there.
pub proof fn lemma_register_step(peers: Seq<PeerModel>, id: PeerAddr, protocol: Seq<char>)
    requires
        unique_ids(peers),
    ensures
        unique_ids(after_register(peers, id, protocol)),
        has_peer(after_register(peers, id, protocol), id),
        after_register(peers, id, protocol).len() == peers.len() + if has_peer(peers, id) {
            0int
        } else {
            1
        },
{
    let r = after_register(peers, id, protocol);
    if !has_peer(peers, id) {
        assert(r[peers.len() as int].0 == id);
        assert forall|i: int, j: int|
            0 <= i < r.len() && 0 <= j < r.len() && i != j implies (#[trigger] r[i]).0 != (
        #[trigger] r[j]).0 by {
            if i < peers.len() {
                assert(r[i] == peers[i]);
            }
            if j < peers.len() {
                assert(r[j] == peers[j]);
            }
        }
    }
}

/// Deregistering keeps identities unique, leaves `id` absent, and takes one
/// peer out if `id` was there.
pub proof fn lemma_deregister_step(peers: Seq<PeerModel>, id: PeerAddr)
    requires
        unique_ids(peers),
    ensures
        unique_ids(after_deregister(peers, id)),
        !has_peer(after_deregister(peers, id), id),
        after_deregister(peers, id).len() == peers.len() - if has_peer(peers, id) {
            1int
        } else {
            0
        },
{
    let r = after_deregister(peers, id);
    if has_peer(peers, id) {
        let k = choose|i: int| 0 <= i < peers.len() && (#[trigger] peers[i]).0 == id;
        assert(r == peers.remove(k));
        assert forall|a: int| 0 <= a < r.len() implies (#[trigger] r[a]).0 != id by {
            let a0 = if a < k { a } else { a + 1 };
            assert(r[a] == peers[a0]);
        }
        assert forall|a: int, b: int|
            0 <= a < r.len() && 0 <= b < r.len() && a != b implies (#[trigger] r[a]).0 != (
        #[trigger] r[b]).0 by {
            let a0 = if a < k { a } else { a + 1 };
            let b0 = if b < k { b } else { b + 1 };
            assert(r[a] == peers[a0]);
            assert(r[b] == peers[b0]);
        }
    }
}

/// Deregistering the same identity twice leaves the registry as deregistering
/// it once does.
pub proof fn lemma_deregister_idempotent(peers: Seq<PeerModel>, id: PeerAddr)
    requires
        unique_ids(peers),
    ensures
        after_deregister(after_deregister(peers, id), id) == after_deregister(peers, id),
{
    lemma_deregister_step(peers, id);
}

/// How many registrations in a series, from `peers` on, took effect: those
/// of an identity that was not registered at that point.
pub open spec fn effective_registrations(peers: Seq<PeerModel>, events: Seq<Membership>) -> int
    decreases events.len(),
{
    if events.len() == 0 {
        0
    } else {
        effective_registrations(peers, events.drop_last()) + match events.last() {
            Membership::Register { id, .. } => if has_peer(replay(peers, events.drop_last()), id) {
                0int
            } else {
                1
            },
            Membership::Deregister { .. } => 0,
        }
    }
}

/// How many deregistrations in a series, from `peers` on, took effect: those
/// of an identity that was registered at that point.
pub open spec fn effective_deregistrations(peers: Seq<PeerModel>, events: Seq<Membership>) -> int
    decreases events.len(),
{
    if events.len() == 0 {
        0
    } else {
        effective_deregistrations(peers, events.drop_last()) + match events.last() {
            Membership::Register { .. } => 0,
            Membership::Deregister { id } => if has_peer(replay(peers, events.drop_last()), id) {
                1int
            } else {
                0
            },
        }
    }
}

/// After any series of changes to a registry, the number of registered peers
/// is the number before, plus the registrations that took effect, minus the
/// deregistrations that took effect: a refused registration adds nothing and
/// a second deregistration of the same identity removes nothing. No identity
/// is ever registered twice.
pub proof fn lemma_count_tracks_effective_calls(peers: Seq<PeerModel>, events: Seq<Membership>)
    requires
        unique_ids(peers),
    ensures
        replay(peers, events).len() == peers.len() + effective_registrations(peers, events)
            - effective_deregistrations(peers, events),
        unique_ids(replay(peers, events)),
    decreases events.len(),
{
    if events.len() > 0 {
        lemma_count_tracks_effective_calls(peers, events.drop_last());
        let before = replay(peers, events.drop_last());
        match events.last() {
            Membership::Register { id, protocol } => lemma_register_step(before, id, protocol@),
            Membership::Deregister { id } => lemma_deregister_step(before, id),
        }
    }
}

/// Starting from an empty registry, after any series of changes in which
/// each connection registers once and deregisters at most once, the number
/// of registered peers is the number of registrations minus the number of
/// deregistrations, and no identity is registered twice.
pub proof fn lemma_count_tracks_calls(events: Seq<Membership>)
    requires
        one_per_connection(Seq::<PeerModel>::empty(), events),
    ensures
        replay(Seq::<PeerModel>::empty(), events).len() == registrations(events) - deregistrations(
            events,
        ),
        unique_ids(replay(Seq::<PeerModel>::empty(), events)),
    decreases events.len(),
{
    let empty = Seq::<PeerModel>::empty();
    if events.len() > 0 {
        lemma_count_tracks_calls(events.drop_last());
        let before = replay(empty, events.drop_last());
        match events.last() {
            Membership::Register { id, protocol } => lemma_register_step(before, id, protocol@),
            Membership::Deregister { id } => lemma_deregister_step(before, id),
        }
    }
}

/// The connected peers, in the order in which they registered.
pub struct Registry {
    peers: Vec<PeerEntry>,
}

impl Registry {
    /// The registered peers, in order of registration.
    pub closed spec fn model(&self) -> Seq<PeerModel> {
        models(self.peers@)
    }

    /// Each connection is registered at most once.
    pub closed spec fn wf(&self) -> bool {
        unique_ids(self.model())
    }

    /// An empty registry.
    pub fn new() -> (r: Registry)
        ensures
            r.wf(),
            r.model() == Seq::<PeerModel>::empty(),
    {
        let r = Registry { peers: Vec::new() };
        assert(r.model() =~= Seq::<PeerModel>::empty());
        r
    }

    /// The number of registered peers.
    pub fn len(&self) -> (r: usize)
        ensures
            r == self.model().len(),
    {
        self.peers.len()
    }

    fn position(&self, id: PeerAddr) -> (r: Option<usize>)
        ensures
            match r {
                Some(i) => i < self.model().len() && self.model()[i as int].0 == id,
                None => !has_peer(self.model(), id),
            },
    {
        let mut i: usize = 0;
        while i < self.peers.len()
            invariant
                i <= self.peers@.len(),
                forall|j: int| 0 <= j < i ==> (#[trigger] self.model()[j]).0 != id,
            decreases self.peers@.len() - i,
        {
            if self.peers[i].id == id {
                return Some(i);
            }
            i = i + 1;
        }
        None
    }

    /// Whether a peer with identity `id` is registered.
    pub fn contains(&self, id: PeerAddr) -> (r: bool)
        ensures
            r == has_peer(self.model(), id),
    {
        self.position(id).is_some()
    }

    /// The protocol tag of the peer `id`, if it is registered.
    pub fn protocol_of(&self, id: PeerAddr) -> (r: Option<String>)
        requires
            self.wf(),
        ensures
            has_peer(self.model(), id) <==> r is Some,
            r matches Some(p) ==> exists|i: int|
                0 <= i < self.model().len() && #[trigger] self.model()[i] == (id, p@),
    {
        match self.position(id) {
            Some(i) => {
                let p = self.peers[i].protocol.clone();
                assert(self.model()[i as int] == (id, p@));
                Some(p)
            },
            None => None,
        }
    }

    /// Registers the peer `id` of the group `protocol` and opens its outbound
    /// queue, whose reader end is returned. Refused, with the registry left as
    /// it was, where `id` is already registered.
    pub fn register(&mut self, id: PeerAddr, protocol: String) -> (r: Result<
        UnboundedReceiver<Outbound>,
        RegistryError,
    >)
        requires
            old(self).wf(),
        ensures
            final(self).wf(),
            final(self).model() == after_register(old(self).model(), id, protocol@),
            r is Err <==> has_peer(old(self).model(), id),
            r matches Err(e) ==> e == RegistryError::DuplicateIdentity,
    {
        if self.position(id).is_some() {
            return Err(RegistryError::DuplicateIdentity);
        }
        let (outbox, inbox) = open_outbox();
        let ghost before = self.model();
        self.peers.push(PeerEntry { id, protocol, outbox });
        assert(self.model() =~= before.push((id, protocol@)));
        proof {
            lemma_register_step(before, id, protocol@);
        }
        Ok(inbox)
    }

    /// Removes the peer `id`, if it is registered; otherwise does nothing, so
    /// that a second call after a partial failure is harmless.
    pub fn deregister(&mut self, id: PeerAddr)
        requires
            old(self).wf(),
        ensures
            final(self).wf(),
            final(self).model() == after_deregister(old(self).model(), id),
    {
        let ghost before = self.model();
        match self.position(id) {
            Some(i) => {
                let ghost k = choose|k: int| 0 <= k < before.len() && (#[trigger] before[k]).0 == id;
                assert(k == i as int);
                let _gone = self.peers.remove(i);
                assert(self.model() =~= before.remove(i as int));
                proof {
                    lemma_deregister_step(before, id);
                }
            },
            None => {},
        }
    }

    /// A point-in-time copy of the registered peers, in order, each with a
    /// writer end of its outbound queue, for the router to use once the
    /// registry is no longer held.
    pub fn snapshot(&self) -> (r: Vec<PeerEntry>)
        ensures
            models(r@) == self.model(),
    {
        let mut r: Vec<PeerEntry> = Vec::new();
        let mut i: usize = 0;
        while i < self.peers.len()
            invariant
                i <= self.peers@.len(),
                models(r@) == self.model().take(i as int),
            decreases self.peers@.len() - i,
        {
            let e = &self.peers[i];
            let ghost before = r@;
            r.push(PeerEntry { id: e.id, protocol: e.protocol.clone(), outbox: share_outbox(&e.outbox) });
            assert(models(r@) =~= models(before).push((e.id, e.protocol@)));
            assert(self.model().take(i as int + 1) =~= self.model().take(i as int).push(self.model()[i as int]));
            i = i + 1;
        }
        assert(self.model().take(i as int) =~= self.model());
        r
    }
}

} // verus!
