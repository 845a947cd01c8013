//! The messages that peers exchange through the relay, and the rules that
//! turn an inbound message into the outbound one its recipients get.
use vstd::prelude::*;

use crate::addr::PeerAddr;

verus! {

/// A public key in the JSON Web Key form, carried through the relay unread.
#[derive(Clone, Debug)]
pub struct JsonWebKey {
    pub crv: String,
    pub ext: bool,
    pub key_ops: Vec<String>,
    pub kty: String,
    pub x: String,
    pub y: String,
}

/// A message as a peer sends it to the relay.
#[derive(Clone, Debug)]
pub enum Inbound {
    /// Opaque ciphertext for the one peer named by `recv_addr`.
    Encrypted { cipher: String, initialization_vector: String, recv_addr: PeerAddr },
    /// A small presence signal: 0 announces an arrival, 1 a departure.
    Meta { meta: u8 },
    /// Text for the whole group.
    Plaintext { plaintext: String },
    /// Public-key material for the whole group.
    PublicKey { public_key: JsonWebKey },
}

/// A message as the relay hands it to a recipient: the inbound content with
/// the sender's identity in place of any target.
#[derive(Clone, Debug)]
pub enum Outbound {
    Encrypted { cipher: String, initialization_vector: String, sender_addr: PeerAddr },
    Meta { meta: u8, sender_addr: PeerAddr },
    Plaintext { plaintext: String, sender_addr: PeerAddr },
    PublicKey { public_key: JsonWebKey, sender_addr: PeerAddr },
}

/// The presence code that announces an arrival.
pub const ARRIVAL: u8 = 0;

/// The presence code that announces a departure.
pub const DEPARTURE: u8 = 1;

/// The outbound message that `sender` causes by sending `m`.
pub open spec fn outbound_of(m: Inbound, sender: PeerAddr) -> Outbound {
    match m {
        Inbound::Encrypted { cipher, initialization_vector, recv_addr } => Outbound::Encrypted {
            cipher,
            initialization_vector,
            sender_addr: sender,
        },
        Inbound::Meta { meta } => Outbound::Meta { meta, sender_addr: sender },
        Inbound::Plaintext { plaintext } => Outbound::Plaintext { plaintext, sender_addr: sender },
        Inbound::PublicKey { public_key } => Outbound::PublicKey {
            public_key,
            sender_addr: sender,
        },
    }
}

/// The one peer that `m` is addressed to, if it is addressed at all.
pub open spec fn target_of(m: Inbound) -> Option<PeerAddr> {
    match m {
        Inbound::Encrypted { recv_addr, .. } => Some(recv_addr),
        _ => None,
    }
}

/// The sender's identity that an outbound message carries.
pub open spec fn sender_of(m: Outbound) -> PeerAddr {
    match m {
        Outbound::Encrypted { sender_addr, .. } => sender_addr,
        Outbound::Meta { sender_addr, .. } => sender_addr,
        Outbound::Plaintext { sender_addr, .. } => sender_addr,
        Outbound::PublicKey { sender_addr, .. } => sender_addr,
    }
}

/// Rewrites an inbound message from `sender` into what its recipients get:
/// the content is kept, any target is dropped, and the sender is named.
pub fn derive_outbound(m: Inbound, sender: PeerAddr) -> (r: Outbound)
    ensures
        r == outbound_of(m, sender),
        sender_of(r) == sender,
{
    match m {
        Inbound::Encrypted { cipher, initialization_vector, recv_addr: _ } => Outbound::Encrypted {
            cipher,
            initialization_vector,
            sender_addr: sender,
        },
        Inbound::Meta { meta } => Outbound::Meta { meta, sender_addr: sender },
        Inbound::Plaintext { plaintext } => Outbound::Plaintext { plaintext, sender_addr: sender },
        Inbound::PublicKey { public_key } => Outbound::PublicKey {
            public_key,
            sender_addr: sender,
        },
    }
}

impl Inbound {
    /// The peer this message is addressed to, or `None` for a message to the
    /// whole group.
    pub fn target(&self) -> (r: Option<PeerAddr>)
        ensures
            r == target_of(*self),
    {
        match self {
            Inbound::Encrypted { recv_addr, .. } => Some(*recv_addr),
            _ => None,
        }
    }
}

fn copy_strings(v: &Vec<String>) -> (r: Vec<String>)
    ensures
        r@ == v@,
{
    let r = v.clone();
    assert(r@ =~= v@) by {
        assert forall|i: int| 0 <= i < v@.len() implies r@[i] == v@[i] by {
            assert(cloned::<String>(v@[i], r@[i]));
        }
    }
    r
}

impl JsonWebKey {
    /// Whether two keys hold the same values, field by field.
    pub open spec fn equiv(self, o: JsonWebKey) -> bool {
        &&& self.crv == o.crv
        &&& self.ext == o.ext
        &&& self.key_ops@ == o.key_ops@
        &&& self.kty == o.kty
        &&& self.x == o.x
        &&& self.y == o.y
    }

    /// A copy of this key, with the same values.
    pub fn duplicate(&self) -> (r: JsonWebKey)
        ensures
            r.equiv(*self),
    {
        JsonWebKey {
            crv: self.crv.clone(),
            ext: self.ext,
            key_ops: copy_strings(&self.key_ops),
            kty: self.kty.clone(),
            x: self.x.clone(),
            y: self.y.clone(),
        }
    }
}

impl Outbound {
    /// Whether two messages are the same variant with the same values.
    pub open spec fn equiv(self, o: Outbound) -> bool {
        match (self, o) {
            (
                Outbound::Encrypted { cipher: c1, initialization_vector: v1, sender_addr: s1 },
                Outbound::Encrypted { cipher: c2, initialization_vector: v2, sender_addr: s2 },
            ) => c1 == c2 && v1 == v2 && s1 == s2,
            (
                Outbound::Meta { meta: m1, sender_addr: s1 },
                Outbound::Meta { meta: m2, sender_addr: s2 },
            ) => m1 == m2 && s1 == s2,
            (
                Outbound::Plaintext { plaintext: t1, sender_addr: s1 },
                Outbound::Plaintext { plaintext: t2, sender_addr: s2 },
            ) => t1 == t2 && s1 == s2,
            (
                Outbound::PublicKey { public_key: k1, sender_addr: s1 },
                Outbound::PublicKey { public_key: k2, sender_addr: s2 },
            ) => k1.equiv(k2) && s1 == s2,
            _ => false,
        }
    }

    /// A copy of this message, with the same values.
    pub fn duplicate(&self) -> (r: Outbound)
        ensures
            r.equiv(*self),
    {
        match self {
            Outbound::Encrypted { cipher, initialization_vector, sender_addr } => Outbound::Encrypted {
                cipher: cipher.clone(),
                initialization_vector: initialization_vector.clone(),
                sender_addr: *sender_addr,
            },
            Outbound::Meta { meta, sender_addr } => Outbound::Meta {
                meta: *meta,
                sender_addr: *sender_addr,
            },
            Outbound::Plaintext { plaintext, sender_addr } => Outbound::Plaintext {
                plaintext: plaintext.clone(),
                sender_addr: *sender_addr,
            },
            Outbound::PublicKey { public_key, sender_addr } => Outbound::PublicKey {
                public_key: public_key.duplicate(),
                sender_addr: *sender_addr,
            },
        }
    }
}

} // verus!
