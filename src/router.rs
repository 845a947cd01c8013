//! The router: which registered peers get a message, and handing it to them.
use vstd::prelude::*;

use crate::addr::PeerAddr;
use crate::message::{derive_outbound, outbound_of, target_of, Inbound, Outbound};
use crate::outbox::hand_over;
use crate::registry::{models, unique_ids, PeerEntry, PeerModel};

verus! {

/// Whether `peer` gets a message from `sender`, of the group `protocol`,
/// addressed to `target` (or to the whole group where it is `None`): it is
/// another peer of the same group, and the addressed one if there is one.
pub open spec fn receives(
    peer: PeerModel,
    sender: PeerAddr,
    protocol: Seq<char>,
    target: Option<PeerAddr>,
) -> bool {
    &&& peer.0 != sender
    &&& peer.1 == protocol
    &&& match target {
        Some(t) => peer.0 == t,
        None => true,
    }
}

/// The identities, in the order of `peers`, of those that get the message.
pub open spec fn recipients(
    peers: Seq<PeerModel>,
    sender: PeerAddr,
    protocol: Seq<char>,
    target: Option<PeerAddr>,
) -> Seq<PeerAddr>
    decreases peers.len(),
{
    if peers.len() == 0 {
        Seq::empty()
    } else {
        let rest = recipients(peers.drop_last(), sender, protocol, target);
        if receives(peers.last(), sender, protocol, target) {
            rest.push(peers.last().0)
        } else {
            rest
        }
    }
}

/// A peer's identity is among the recipients exactly when some peer with that
/// identity gets the message.
pub proof fn lemma_recipients_members(
    peers: Seq<PeerModel>,
    sender: PeerAddr,
    protocol: Seq<char>,
    target: Option<PeerAddr>,
    id: PeerAddr,
)
    ensures
        recipients(peers, sender, protocol, target).contains(id) <==> exists|i: int|
            0 <= i < peers.len() && (#[trigger] peers[i]).0 == id && receives(
                peers[i],
                sender,
                protocol,
                target,
            ),
    decreases peers.len(),
{
    if peers.len() > 0 {
        let init = peers.drop_last();
        lemma_recipients_members(init, sender, protocol, target, id);
        let rest = recipients(init, sender, protocol, target);
        let last = peers.len() - 1;
        if recipients(peers, sender, protocol, target).contains(id) {
            if receives(peers.last(), sender, protocol, target) && peers.last().0 == id {
                assert(peers[last].0 == id);
            } else {
                if receives(peers.last(), sender, protocol, target) {
                    let k = choose|k: int|
                        0 <= k < rest.push(peers.last().0).len() && rest.push(peers.last().0)[k]
                            == id;
                    assert(k < rest.len());
                    assert(rest[k] == id);
                }
                assert(rest.contains(id));
                let i = choose|i: int|
                    0 <= i < init.len() && (#[trigger] init[i]).0 == id && receives(
                        init[i],
                        sender,
                        protocol,
                        target,
                    );
                assert(peers[i] == init[i]);
            }
        } else {
            assert forall|i: int|
                0 <= i < peers.len() && (#[trigger] peers[i]).0 == id implies !receives(
                peers[i],
                sender,
                protocol,
                target,
            ) by {
                if i == last {
                    if receives(peers.last(), sender, protocol, target) {
                        assert(rest.push(id)[rest.len() as int] == id);
                    }
                } else {
                    assert(peers[i] == init[i]);
                    if receives(init[i], sender, protocol, target) {
                        assert(rest.contains(id));
                        let k = choose|k: int| 0 <= k < rest.len() && rest[k] == id;
                        if receives(peers.last(), sender, protocol, target) {
                            assert(rest.push(peers.last().0)[k] == id);
                        }
                    }
                }
            }
        }
    }
}

/// A message to the whole group (any but an encrypted one) reaches exactly
/// the other peers of the sender's group: never the sender, and never a peer
/// of another group.
pub proof fn lemma_broadcast_reaches_group(
    peers: Seq<PeerModel>,
    sender: PeerAddr,
    protocol: Seq<char>,
    m: Inbound,
)
    requires
        target_of(m) is None,
    ensures
        forall|id: PeerAddr|
            #![trigger recipients(peers, sender, protocol, target_of(m)).contains(id)]
            recipients(peers, sender, protocol, target_of(m)).contains(id) <==> (id != sender
                && exists|i: int| 0 <= i < peers.len() && #[trigger] peers[i] == (id, protocol)),
        !recipients(peers, sender, protocol, target_of(m)).contains(sender),
{
    assert forall|id: PeerAddr|
        #![trigger recipients(peers, sender, protocol, target_of(m)).contains(id)]
        recipients(peers, sender, protocol, target_of(m)).contains(id) <==> (id != sender
            && exists|i: int| 0 <= i < peers.len() && #[trigger] peers[i] == (id, protocol)) by {
        lemma_recipients_members(peers, sender, protocol, target_of(m), id);
        if id != sender && exists|i: int| 0 <= i < peers.len() && #[trigger] peers[i] == (id, protocol) {
            let i = choose|i: int| 0 <= i < peers.len() && #[trigger] peers[i] == (id, protocol);
            assert(receives(peers[i], sender, protocol, target_of(m)));
        }
        if recipients(peers, sender, protocol, target_of(m)).contains(id) {
            let i = choose|i: int|
                0 <= i < peers.len() && (#[trigger] peers[i]).0 == id && receives(
                    peers[i],
                    sender,
                    protocol,
                    target_of(m),
                );
            assert(peers[i] == (id, protocol));
        }
    }
    lemma_recipients_members(peers, sender, protocol, target_of(m), sender);
}

/// An encrypted message reaches the one peer it names, and no other, where
/// that peer is another member of the sender's group; otherwise it reaches
/// nobody.
pub proof fn lemma_directed_reaches_target(
    peers: Seq<PeerModel>,
    sender: PeerAddr,
    protocol: Seq<char>,
    m: Inbound,
    target: PeerAddr,
)
    requires
        unique_ids(peers),
        target_of(m) == Some(target),
    ensures
        recipients(peers, sender, protocol, target_of(m)) == if target != sender && exists|i: int|
            0 <= i < peers.len() && #[trigger] peers[i] == (target, protocol) {
            seq![target]
        } else {
            Seq::<PeerAddr>::empty()
        },
    decreases peers.len(),
{
    if peers.len() > 0 {
        let init = peers.drop_last();
        assert(unique_ids(init)) by {
            assert forall|i: int, j: int|
                0 <= i < init.len() && 0 <= j < init.len() && i != j implies (#[trigger] init[i]).0
                != (#[trigger] init[j]).0 by {
                assert(init[i] == peers[i] && init[j] == peers[j]);
            }
        }
        lemma_directed_reaches_target(init, sender, protocol, m, target);
        let last = peers.len() - 1;
        assert(peers.last() == peers[last]);
        if target != sender && peers[last] == (target, protocol) {
            assert forall|i: int| 0 <= i < init.len() implies #[trigger] init[i] != (
                target,
                protocol,
            ) by {
                assert(init[i] == peers[i]);
            }
        }
        if exists|i: int| 0 <= i < init.len() && #[trigger] init[i] == (target, protocol) {
            let i = choose|i: int| 0 <= i < init.len() && #[trigger] init[i] == (target, protocol);
            assert(peers[i] == init[i]);
        }
        if exists|i: int| 0 <= i < peers.len() && #[trigger] peers[i] == (target, protocol) {
            let i = choose|i: int| 0 <= i < peers.len() && #[trigger] peers[i] == (target, protocol);
            if i < last {
                assert(init[i] == peers[i]);
            }
        }
    }
}

/// The deliveries that the message `m` from `sender`, of the group
/// `protocol`, calls for: for each peer of `snapshot` that gets it, in the
/// order of the snapshot, its position in the snapshot and the outbound
/// message it is to be handed, with the values of `outbound_of(m, sender)`.
pub fn deliveries(snapshot: &Vec<PeerEntry>, sender: PeerAddr, protocol: &String, m: Inbound) -> (r: Vec<
    (usize, Outbound),
>)
    ensures
        r@.len() == recipients(models(snapshot@), sender, protocol@, target_of(m)).len(),
        forall|k: int|
            0 <= k < r@.len() ==> {
                &&& (#[trigger] r@[k]).0 < snapshot@.len()
                &&& snapshot@[r@[k].0 as int].id == recipients(
                    models(snapshot@),
                    sender,
                    protocol@,
                    target_of(m),
                )[k]
                &&& r@[k].1.equiv(outbound_of(m, sender))
            },
        forall|k1: int, k2: int|
            0 <= k1 < k2 < r@.len() ==> (#[trigger] r@[k1]).0 < (#[trigger] r@[k2]).0,
{
    let target = m.target();
    let out = derive_outbound(m, sender);
    let ghost peers = models(snapshot@);
    let mut r: Vec<(usize, Outbound)> = Vec::new();
    let mut i: usize = 0;
    while i < snapshot.len()
        invariant
            i <= snapshot@.len(),
            peers == models(snapshot@),
            target == target_of(m),
            out == outbound_of(m, sender),
            r@.len() == recipients(peers.take(i as int), sender, protocol@, target).len(),
            forall|k: int|
                0 <= k < r@.len() ==> {
                    &&& (#[trigger] r@[k]).0 < i
                    &&& snapshot@[r@[k].0 as int].id == recipients(
                        peers.take(i as int),
                        sender,
                        protocol@,
                        target,
                    )[k]
                    &&& r@[k].1.equiv(out)
                },
            forall|k1: int, k2: int|
                0 <= k1 < k2 < r@.len() ==> (#[trigger] r@[k1]).0 < (#[trigger] r@[k2]).0,
        decreases snapshot@.len() - i,
    {
        let e = &snapshot[i];
        assert(peers.take(i as int + 1).drop_last() =~= peers.take(i as int));
        assert(peers[i as int] == (e.id, e.protocol@));
        let to_target = match target {
            Some(t) => e.id == t,
            None => true,
        };
        if e.id != sender && e.protocol == *protocol && to_target {
            r.push((i, out.duplicate()));
        }
        i = i + 1;
    }
    assert(peers.take(i as int) =~= peers);
    r
}

/// Hands each delivery that `deliveries` plans for the message `m` from
/// `sender`, of the group `protocol`, to the outbound queue of its peer in
/// `snapshot`, one push each, in order, and returns the identities of those
/// peers in that order. A recipient whose queue has been closed (its
/// connection is ending) is skipped silently, and the others still get
/// theirs: its own lifecycle removes it.
pub fn route(snapshot: &Vec<PeerEntry>, sender: PeerAddr, protocol: &String, m: Inbound) -> (r: Vec<
    PeerAddr,
>)
    ensures
        r@ == recipients(models(snapshot@), sender, protocol@, target_of(m)),
{
    let ghost want = recipients(models(snapshot@), sender, protocol@, target_of(m));
    let plan = deliveries(snapshot, sender, protocol, m);
    let mut r: Vec<PeerAddr> = Vec::new();
    let mut k: usize = 0;
    while k < plan.len()
        invariant
            k <= plan@.len(),
            plan@.len() == want.len(),
            forall|j: int|
                0 <= j < plan@.len() ==> (#[trigger] plan@[j]).0 < snapshot@.len()
                    && snapshot@[plan@[j].0 as int].id == want[j],
            r@ == want.take(k as int),
        decreases plan@.len() - k,
    {
        let entry = &snapshot[plan[k].0];
        let _accepted = hand_over(&entry.outbox, plan[k].1.duplicate());
        r.push(entry.id);
        assert(want.take(k as int + 1) =~= want.take(k as int).push(want[k as int]));
        k = k + 1;
    }
    assert(want.take(k as int) =~= want);
    r
}

} // verus!
