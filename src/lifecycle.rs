//! The lifecycle of one connection, as a state machine: each event that the
//! transport reports leads to a new phase and to the registry and routing
//! work that the caller is to do, in order.
use vstd::prelude::*;

use crate::addr::PeerAddr;
use crate::dispatch::MessageError;
use crate::message::{Inbound, ARRIVAL, DEPARTURE};

verus! {

/// Where a connection stands.
#[derive(Clone, Copy, Debug, PartialEq, Eq, Structural)]
pub enum Phase {
    /// The transport handshake has not finished.
    Connecting,
    /// The handshake finished; the registry has not answered yet.
    Registering,
    /// Registered; messages flow both ways.
    Active,
    /// Finished; nothing more happens.
    Closed,
}

/// What the transport reports about a connection.
pub enum Event {
    /// The handshake finished, with the protocol tag the client asked for, or
    /// `None` where it asked for none.
    Handshake { protocol: Option<String> },
    /// The registry accepted the connection's identity.
    Registered,
    /// The registry refused the connection's identity.
    RegistrationRefused,
    /// A frame of text that is empty or holds only whitespace.
    Blank,
    /// A frame of text, read as a message or found malformed.
    Frame { message: Result<Inbound, MessageError> },
    /// One of the two pumps ended: the peer closed, or reading or writing
    /// failed.
    Ended,
}

/// Work for the caller, on behalf of the connection.
pub enum Action {
    /// Refuse the connection attempt: the handshake failed.
    Reject,
    /// Register the connection's identity with this protocol tag.
    Register { protocol: String },
    /// Route this message from the connection to its group.
    Route { message: Inbound },
    /// Remove the connection's identity from the registry.
    Deregister,
}

/// The state of one connection.
pub struct Connection {
    id: PeerAddr,
    phase: Phase,
    protocol: String,
}

/// The presence message that announces an arrival or a departure.
pub open spec fn presence(code: u8) -> Action {
    Action::Route { message: Inbound::Meta { meta: code } }
}

/// The phase after `ev`, from `phase`.
pub open spec fn next_phase(phase: Phase, ev: Event) -> Phase {
    match phase {
        Phase::Connecting => match ev {
            Event::Handshake { protocol: Some(p) } => Phase::Registering,
            _ => Phase::Closed,
        },
        Phase::Registering => match ev {
            Event::Registered => Phase::Active,
            _ => Phase::Closed,
        },
        Phase::Active => match ev {
            Event::Frame { message: Err(e) } => Phase::Closed,
            Event::Ended => Phase::Closed,
            _ => Phase::Active,
        },
        Phase::Closed => Phase::Closed,
    }
}

/// The work that `ev` asks for, from `phase`.
pub open spec fn actions_for(phase: Phase, ev: Event) -> Seq<Action> {
    match phase {
        Phase::Connecting => match ev {
            Event::Handshake { protocol: Some(p) } => seq![Action::Register { protocol: p }],
            Event::Handshake { protocol: None } => seq![Action::Reject],
            _ => Seq::empty(),
        },
        Phase::Registering => match ev {
            Event::Registered => seq![presence(ARRIVAL)],
            Event::RegistrationRefused => Seq::empty(),
            _ => seq![Action::Deregister],
        },
        Phase::Active => match ev {
            Event::Frame { message: Ok(m) } => seq![Action::Route { message: m }],
            Event::Frame { message: Err(e) } => seq![presence(DEPARTURE), Action::Deregister],
            Event::Ended => seq![presence(DEPARTURE), Action::Deregister],
            _ => Seq::empty(),
        },
        Phase::Closed => Seq::empty(),
    }
}

/// The phase and all the work asked for after a series of events, from a
/// fresh connection.
pub open spec fn run(events: Seq<Event>) -> (Phase, Seq<Action>)
    decreases events.len(),
{
    if events.len() == 0 {
        (Phase::Connecting, Seq::empty())
    } else {
        let before = run(events.drop_last());
        (
            next_phase(before.0, events.last()),
            before.1 + actions_for(before.0, events.last()),
        )
    }
}

/// The shape of the work asked for so far, by phase: nothing while
/// connecting; the registration while registering; once active, the
/// registration, the arrival, then routed messages; once closed, one of those
/// or a rejection, possibly ended by the deregistration, which follows the
/// departure wherever the arrival was announced.
pub open spec fn well_shaped(phase: Phase, acts: Seq<Action>) -> bool {
    match phase {
        Phase::Connecting => acts.len() == 0,
        Phase::Registering => acts.len() == 1 && acts[0] is Register,
        Phase::Active => {
            &&& acts.len() >= 2
            &&& acts[0] is Register
            &&& acts[1] == presence(ARRIVAL)
            &&& forall|i: int| 2 <= i < acts.len() ==> (#[trigger] acts[i]) is Route
        },
        Phase::Closed => acts.len() == 0 || acts == seq![Action::Reject] || (acts.len() == 1
            && acts[0] is Register) || (acts.len() == 2 && acts[0] is Register
            && acts[1] is Deregister) || {
            &&& acts.len() >= 2
            &&& acts[0] is Register
            &&& acts[1] == presence(ARRIVAL)
            &&& forall|i: int|
                2 <= i < acts.len() ==> (#[trigger] acts[i]) is Route || (i == acts.len() - 1
                    && acts[i] is Deregister && acts[i - 1] == presence(DEPARTURE))
        },
    }
}

proof fn lemma_run_well_shaped(events: Seq<Event>)
    ensures
        well_shaped(run(events).0, run(events).1),
    decreases events.len(),
{
    if events.len() > 0 {
        lemma_run_well_shaped(events.drop_last());
        let before = run(events.drop_last());
        let ev = events.last();
        let acts = before.1 + actions_for(before.0, ev);
        assert(run(events).1 == acts);
        assert(forall|i: int| 0 <= i < before.1.len() ==> acts[i] == before.1[i]);
        match before.0 {
            Phase::Connecting => {
                assert(before.1 + actions_for(before.0, ev) =~= actions_for(before.0, ev));
            },
            Phase::Registering => {
                assert(acts[0] is Register);
            },
            Phase::Active => {},
            Phase::Closed => {
                assert(acts =~= before.1);
            },
        }
    }
}

/// Over the whole life of a connection, whatever the transport reports:
/// nothing is routed for it before it is registered and its arrival is
/// announced, so its arrival reaches its group before any message of its
/// own; and it is deregistered at most once, as the very last thing, right
/// after its departure is announced wherever its arrival was announced
/// (otherwise right after the registration, with no presence signal at all).
pub proof fn lemma_presence_brackets_messages(events: Seq<Event>)
    ensures
        forall|i: int|
            0 <= i < run(events).1.len() && (#[trigger] run(events).1[i]) is Route ==> 1 <= i
                && run(events).1[0] is Register && run(events).1[1] == presence(ARRIVAL),
        forall|i: int|
            0 <= i < run(events).1.len() && (#[trigger] run(events).1[i]) is Deregister ==> i
                == run(events).1.len() - 1 && ((i >= 3 && run(events).1[i - 1] == presence(
                DEPARTURE,
            )) || (i == 1 && run(events).1[0] is Register)),
{
    lemma_run_well_shaped(events);
    let acts = run(events).1;
    if acts == seq![Action::Reject] {
        assert(acts[0] is Reject);
    }
    assert forall|i: int|
        0 <= i < acts.len() && (#[trigger] acts[i]) is Deregister implies i == acts.len() - 1 && ((
        i >= 3 && acts[i - 1] == presence(DEPARTURE)) || (i == 1 && acts[0] is Register)) by {
        if i == 2 {
            assert(acts[i - 1] == presence(ARRIVAL));
        }
    }
}

proof fn lemma_run_prefix(events: Seq<Event>, k: int)
    requires
        0 <= k <= events.len(),
    ensures
        run(events.take(k)).1.len() <= run(events).1.len(),
        forall|p: int|
            0 <= p < run(events.take(k)).1.len() ==> #[trigger] run(events).1[p] == run(
                events.take(k),
            ).1[p],
    decreases events.len() - k,
{
    if k < events.len() {
        lemma_run_prefix(events, k + 1);
        let shorter = events.take(k + 1);
        assert(shorter.drop_last() =~= events.take(k));
        assert(run(shorter).1 == run(events.take(k)).1 + actions_for(
            run(events.take(k)).0,
            shorter.last(),
        ));
    } else {
        assert(events.take(k) =~= events);
    }
}

/// Messages that a connection sends while active are routed in the order in
/// which they arrived: where frame `i` holds `m1` and a later frame `j` holds
/// `m2`, the routing of `m1` is asked for before that of `m2`.
pub proof fn lemma_routes_keep_order(events: Seq<Event>, i: int, j: int, m1: Inbound, m2: Inbound)
    requires
        0 <= i < j < events.len(),
        run(events.take(i)).0 == Phase::Active,
        run(events.take(j)).0 == Phase::Active,
        events[i] == (Event::Frame { message: Ok(m1) }),
        events[j] == (Event::Frame { message: Ok(m2) }),
    ensures
        exists|p: int, q: int|
            0 <= p < q < run(events).1.len() && #[trigger] run(events).1[p] == (Action::Route {
                message: m1,
            }) && #[trigger] run(events).1[q] == (Action::Route { message: m2 }),
{
    let acts = run(events).1;
    let upto_i = events.take(i + 1);
    let upto_j = events.take(j + 1);
    assert(upto_i.drop_last() =~= events.take(i));
    assert(upto_j.drop_last() =~= events.take(j));
    lemma_run_prefix(events, i + 1);
    lemma_run_prefix(events, j + 1);
    lemma_run_prefix(events.take(j), i + 1);
    assert(events.take(j).take(i + 1) =~= upto_i);
    let p = run(events.take(i)).1.len() as int;
    let q = run(events.take(j)).1.len() as int;
    assert(run(upto_i).1[p] == (Action::Route { message: m1 }));
    assert(run(upto_j).1[q] == (Action::Route { message: m2 }));
    assert(acts[p] == (Action::Route { message: m1 }));
    assert(acts[q] == (Action::Route { message: m2 }));
}

impl Connection {
    pub closed spec fn id_of(&self) -> PeerAddr {
        self.id
    }

    pub closed spec fn phase_of(&self) -> Phase {
        self.phase
    }

    pub closed spec fn protocol_view(&self) -> Seq<char> {
        self.protocol@
    }

    /// A connection from `id` whose handshake has not finished.
    pub fn new(id: PeerAddr) -> (r: Connection)
        ensures
            r.id_of() == id,
            r.phase_of() == Phase::Connecting,
    {
        Connection { id, phase: Phase::Connecting, protocol: String::new() }
    }

    /// The identity of the connection.
    pub fn id(&self) -> (r: PeerAddr)
        ensures
            r == self.id_of(),
    {
        self.id
    }

    /// Where the connection stands.
    pub fn phase(&self) -> (r: Phase)
        ensures
            r == self.phase_of(),
    {
        self.phase
    }

    /// The protocol tag that the handshake settled (empty before it).
    pub fn protocol(&self) -> (r: &String)
        ensures
            r@ == self.protocol_view(),
    {
        &self.protocol
    }

    /// Takes in one event: moves to the next phase and returns the work to do,
    /// in order.
    ///
    /// A finished handshake asks for the connection to be registered; once the
    /// registry has accepted it, its arrival is announced, before any message
    /// of its own. A refused registration closes the connection with nothing
    /// to undo; an ending before the registry answered deregisters it, which
    /// is harmless where it was never registered. A failed handshake is
    /// rejected. A
    /// blank frame is skipped; a message is routed; a malformed one ends the
    /// connection like a pump that ended: its departure is announced, then it
    /// is deregistered. Once closed, a connection asks for nothing more.
    pub fn handle(&mut self, ev: Event) -> (r: Vec<Action>)
        ensures
            final(self).id_of() == old(self).id_of(),
            final(self).phase_of() == next_phase(old(self).phase_of(), ev),
            r@ == actions_for(old(self).phase_of(), ev),
            old(self).phase_of() == Phase::Connecting ==> match ev {
                Event::Handshake { protocol: Some(p) } => final(self).protocol_view() == p@,
                _ => true,
            },
            old(self).phase_of() != Phase::Connecting ==> final(self).protocol_view()
                == old(self).protocol_view(),
    {
        let mut r: Vec<Action> = Vec::new();
        match self.phase {
            Phase::Connecting => match ev {
                Event::Handshake { protocol: Some(p) } => {
                    self.protocol = p.clone();
                    self.phase = Phase::Registering;
                    r.push(Action::Register { protocol: p });
                },
                Event::Handshake { protocol: None } => {
                    self.phase = Phase::Closed;
                    r.push(Action::Reject);
                },
                _ => {
                    self.phase = Phase::Closed;
                },
            },
            Phase::Registering => match ev {
                Event::Registered => {
                    self.phase = Phase::Active;
                    r.push(Action::Route { message: Inbound::Meta { meta: ARRIVAL } });
                },
                Event::RegistrationRefused => {
                    self.phase = Phase::Closed;
                },
                _ => {
                    self.phase = Phase::Closed;
                    r.push(Action::Deregister);
                },
            },
            Phase::Active => match ev {
                Event::Frame { message: Ok(m) } => {
                    r.push(Action::Route { message: m });
                },
                Event::Frame { message: Err(_) } | Event::Ended => {
                    self.phase = Phase::Closed;
                    r.push(Action::Route { message: Inbound::Meta { meta: DEPARTURE } });
                    r.push(Action::Deregister);
                },
                _ => {},
            },
            Phase::Closed => {},
        }
        assert(r@ =~= actions_for(old(self).phase_of(), ev));
        r
    }
}

} // verus!
