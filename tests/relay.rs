use futures_channel::mpsc::UnboundedReceiver;
use signal_relay::addr::PeerAddr;
use signal_relay::dispatch::{is_blank, select_kind, InboundKind, MessageError};
use signal_relay::lifecycle::{Action, Connection, Event, Phase};
use signal_relay::message::{derive_outbound, Inbound, JsonWebKey, Outbound};
use signal_relay::registry::{Registry, RegistryError};
use signal_relay::router::{deliveries, route};

fn addr(last: u8, port: u16) -> PeerAddr {
    PeerAddr::V4 { ip: 0x7f00_0000 | last as u32, port }
}

fn keys(names: &[&str]) -> Vec<String> {
    names.iter().map(|n| n.to_string()).collect()
}

fn next(rx: &mut UnboundedReceiver<Outbound>) -> Option<Outbound> {
    match rx.try_next() {
        Ok(Some(m)) => Some(m),
        _ => None,
    }
}

fn plaintext(text: &str) -> Inbound {
    Inbound::Plaintext { plaintext: text.to_string() }
}

fn sample_key() -> JsonWebKey {
    JsonWebKey {
        crv: "P-256".to_string(),
        ext: true,
        key_ops: vec!["deriveKey".to_string()],
        kty: "EC".to_string(),
        x: "xx".to_string(),
        y: "yy".to_string(),
    }
}

#[test]
fn select_kind_picks_each_variant() {
    assert_eq!(
        select_kind(&keys(&["cipher", "initialization_vector", "recv_addr"])),
        Ok(InboundKind::Encrypted)
    );
    assert_eq!(select_kind(&keys(&["meta"])), Ok(InboundKind::Meta));
    assert_eq!(select_kind(&keys(&["plaintext"])), Ok(InboundKind::Plaintext));
    assert_eq!(select_kind(&keys(&["public_key"])), Ok(InboundKind::PublicKey));
}

#[test]
fn select_kind_ignores_unknown_keys() {
    assert_eq!(select_kind(&keys(&["extra", "plaintext", "more"])), Ok(InboundKind::Plaintext));
}

#[test]
fn select_kind_refuses_partial_and_empty() {
    assert_eq!(select_kind(&keys(&[])), Err(MessageError::Unrecognised));
    assert_eq!(select_kind(&keys(&["cipher", "recv_addr"])), Err(MessageError::Unrecognised));
    assert_eq!(select_kind(&keys(&["text"])), Err(MessageError::Unrecognised));
}

#[test]
fn select_kind_refuses_ambiguous() {
    assert_eq!(select_kind(&keys(&["plaintext", "public_key"])), Err(MessageError::Ambiguous));
    assert_eq!(
        select_kind(&keys(&["meta", "cipher", "initialization_vector", "recv_addr"])),
        Err(MessageError::Ambiguous)
    );
}

#[test]
fn blank_frames() {
    assert!(is_blank(""));
    assert!(is_blank(" \t\r\n"));
    assert!(!is_blank("{}"));
    assert!(!is_blank("  x "));
}

#[test]
fn derive_outbound_names_sender_and_drops_target() {
    let a = addr(1, 4000);
    let b = addr(2, 4001);
    let m = Inbound::Encrypted {
        cipher: "c".to_string(),
        initialization_vector: "iv".to_string(),
        recv_addr: b,
    };
    assert_eq!(m.target(), Some(b));
    match derive_outbound(m, a) {
        Outbound::Encrypted { cipher, initialization_vector, sender_addr } => {
            assert_eq!(cipher, "c");
            assert_eq!(initialization_vector, "iv");
            assert_eq!(sender_addr, a);
        }
        other => panic!("unexpected {:?}", other),
    }
    match derive_outbound(Inbound::Meta { meta: 7 }, a) {
        Outbound::Meta { meta, sender_addr } => {
            assert_eq!(meta, 7);
            assert_eq!(sender_addr, a);
        }
        other => panic!("unexpected {:?}", other),
    }
    match derive_outbound(plaintext("hello"), a) {
        Outbound::Plaintext { plaintext, sender_addr } => {
            assert_eq!(plaintext, "hello");
            assert_eq!(sender_addr, a);
        }
        other => panic!("unexpected {:?}", other),
    }
    let pk = Inbound::PublicKey { public_key: sample_key() };
    assert_eq!(pk.target(), None);
    match derive_outbound(pk, a) {
        Outbound::PublicKey { public_key, sender_addr } => {
            assert_eq!(public_key.crv, "P-256");
            assert!(public_key.ext);
            assert_eq!(public_key.key_ops, vec!["deriveKey".to_string()]);
            assert_eq!(public_key.kty, "EC");
            assert_eq!(public_key.x, "xx");
            assert_eq!(public_key.y, "yy");
            assert_eq!(sender_addr, a);
        }
        other => panic!("unexpected {:?}", other),
    }
}

#[test]
fn duplicate_keeps_values() {
    let m = Outbound::PublicKey { public_key: sample_key(), sender_addr: addr(3, 1) };
    match m.duplicate() {
        Outbound::PublicKey { public_key, sender_addr } => {
            assert_eq!(public_key.key_ops, vec!["deriveKey".to_string()]);
            assert_eq!(public_key.x, "xx");
            assert_eq!(sender_addr, addr(3, 1));
        }
        other => panic!("unexpected {:?}", other),
    }
}

#[test]
fn register_refuses_duplicate_identity() {
    let mut reg = Registry::new();
    let a = addr(1, 4000);
    assert!(reg.register(a, "p".to_string()).is_ok());
    assert!(matches!(reg.register(a, "q".to_string()), Err(RegistryError::DuplicateIdentity)));
    assert_eq!(reg.len(), 1);
    assert_eq!(reg.protocol_of(a), Some("p".to_string()));
    assert_eq!(reg.protocol_of(addr(9, 9)), None);
}

#[test]
fn peer_count_follows_register_and_deregister() {
    let mut reg = Registry::new();
    let ids: Vec<PeerAddr> = (1..=4).map(|i| addr(i, 5000 + i as u16)).collect();
    for (n, id) in ids.iter().enumerate() {
        let _rx = reg.register(*id, "p".to_string()).unwrap();
        assert_eq!(reg.len(), n + 1);
    }
    reg.deregister(ids[1]);
    assert_eq!(reg.len(), 3);
    assert!(!reg.contains(ids[1]));
    reg.deregister(ids[3]);
    assert_eq!(reg.len(), 2);
    let _rx = reg.register(ids[1], "p".to_string()).unwrap();
    assert_eq!(reg.len(), 3);
    let order: Vec<PeerAddr> = reg.snapshot().iter().map(|e| e.id).collect();
    assert_eq!(order, vec![ids[0], ids[2], ids[1]]);
}

#[test]
fn deregister_twice_is_deregister_once() {
    let mut reg = Registry::new();
    let a = addr(1, 4000);
    let b = addr(2, 4001);
    let _ra = reg.register(a, "p".to_string()).unwrap();
    let _rb = reg.register(b, "p".to_string()).unwrap();
    reg.deregister(a);
    assert_eq!(reg.len(), 1);
    reg.deregister(a);
    assert_eq!(reg.len(), 1);
    assert!(reg.contains(b));
    assert!(!reg.contains(a));
}

#[test]
fn broadcast_reaches_group_only() {
    let mut reg = Registry::new();
    let (a, b, c, d) = (addr(1, 1), addr(2, 2), addr(3, 3), addr(4, 4));
    let mut ra = reg.register(a, "p".to_string()).unwrap();
    let mut rb = reg.register(b, "p".to_string()).unwrap();
    let mut rc = reg.register(c, "p".to_string()).unwrap();
    let mut rd = reg.register(d, "q".to_string()).unwrap();
    let got = route(&reg.snapshot(), a, &"p".to_string(), plaintext("hi all"));
    assert_eq!(got, vec![b, c]);
    for rx in [&mut rb, &mut rc] {
        match next(rx) {
            Some(Outbound::Plaintext { plaintext, sender_addr }) => {
                assert_eq!(plaintext, "hi all");
                assert_eq!(sender_addr, a);
            }
            other => panic!("unexpected {:?}", other),
        }
    }
    assert!(next(&mut ra).is_none());
    assert!(next(&mut rd).is_none());
}

#[test]
fn directed_reaches_target_only() {
    let mut reg = Registry::new();
    let (a, b, c) = (addr(1, 1), addr(2, 2), addr(3, 3));
    let mut ra = reg.register(a, "p".to_string()).unwrap();
    let mut rb = reg.register(b, "p".to_string()).unwrap();
    let mut rc = reg.register(c, "p".to_string()).unwrap();
    let m = Inbound::Encrypted {
        cipher: "secret".to_string(),
        initialization_vector: "iv".to_string(),
        recv_addr: b,
    };
    assert_eq!(route(&reg.snapshot(), a, &"p".to_string(), m), vec![b]);
    match next(&mut rb) {
        Some(Outbound::Encrypted { cipher, initialization_vector, sender_addr }) => {
            assert_eq!(cipher, "secret");
            assert_eq!(initialization_vector, "iv");
            assert_eq!(sender_addr, a);
        }
        other => panic!("unexpected {:?}", other),
    }
    assert!(next(&mut rc).is_none());
    assert!(next(&mut ra).is_none());
}

#[test]
fn directed_to_other_group_reaches_nobody() {
    let mut reg = Registry::new();
    let (a, d) = (addr(1, 1), addr(4, 4));
    let _ra = reg.register(a, "p".to_string()).unwrap();
    let mut rd = reg.register(d, "q".to_string()).unwrap();
    let m = Inbound::Encrypted {
        cipher: "secret".to_string(),
        initialization_vector: "iv".to_string(),
        recv_addr: d,
    };
    assert!(route(&reg.snapshot(), a, &"p".to_string(), m).is_empty());
    assert!(next(&mut rd).is_none());
}

#[test]
fn closed_queue_is_skipped() {
    let mut reg = Registry::new();
    let (a, b, c) = (addr(1, 1), addr(2, 2), addr(3, 3));
    let _ra = reg.register(a, "p".to_string()).unwrap();
    let rb = reg.register(b, "p".to_string()).unwrap();
    let mut rc = reg.register(c, "p".to_string()).unwrap();
    drop(rb);
    assert_eq!(route(&reg.snapshot(), a, &"p".to_string(), plaintext("x")), vec![b, c]);
    assert!(next(&mut rc).is_some());
}

#[test]
fn messages_arrive_in_sending_order() {
    let mut reg = Registry::new();
    let (a, b) = (addr(1, 1), addr(2, 2));
    let _ra = reg.register(a, "p".to_string()).unwrap();
    let mut rb = reg.register(b, "p".to_string()).unwrap();
    route(&reg.snapshot(), a, &"p".to_string(), plaintext("m1"));
    route(&reg.snapshot(), a, &"p".to_string(), plaintext("m2"));
    for want in ["m1", "m2"] {
        match next(&mut rb) {
            Some(Outbound::Plaintext { plaintext, .. }) => assert_eq!(plaintext, want),
            other => panic!("unexpected {:?}", other),
        }
    }
}

#[test]
fn lifecycle_announces_arrival_then_departure_once() {
    let a = addr(1, 1);
    let mut conn = Connection::new(a);
    assert_eq!(conn.phase(), Phase::Connecting);
    let acts = conn.handle(Event::Handshake { protocol: Some("p".to_string()) });
    assert_eq!(conn.phase(), Phase::Registering);
    assert_eq!(conn.protocol(), "p");
    assert!(matches!(&acts[..], [Action::Register { protocol }] if protocol == "p"));
    let acts = conn.handle(Event::Registered);
    assert_eq!(conn.phase(), Phase::Active);
    assert!(matches!(&acts[..], [Action::Route { message: Inbound::Meta { meta: 0 } }]));
    assert!(conn.handle(Event::Blank).is_empty());
    let acts = conn.handle(Event::Frame { message: Ok(plaintext("hi")) });
    assert!(matches!(&acts[..], [Action::Route { message: Inbound::Plaintext { .. } }]));
    let acts = conn.handle(Event::Ended);
    assert_eq!(conn.phase(), Phase::Closed);
    assert!(matches!(
        &acts[..],
        [Action::Route { message: Inbound::Meta { meta: 1 } }, Action::Deregister]
    ));
    assert!(conn.handle(Event::Ended).is_empty());
    assert_eq!(conn.id(), a);
}

#[test]
fn lifecycle_malformed_frame_ends_connection() {
    let mut conn = Connection::new(addr(1, 1));
    conn.handle(Event::Handshake { protocol: Some("p".to_string()) });
    conn.handle(Event::Registered);
    let acts = conn.handle(Event::Frame { message: Err(MessageError::Ambiguous) });
    assert_eq!(conn.phase(), Phase::Closed);
    assert!(matches!(
        &acts[..],
        [Action::Route { message: Inbound::Meta { meta: 1 } }, Action::Deregister]
    ));
}

#[test]
fn lifecycle_rejects_missing_protocol() {
    let mut conn = Connection::new(addr(1, 1));
    let acts = conn.handle(Event::Handshake { protocol: None });
    assert_eq!(conn.phase(), Phase::Closed);
    assert!(matches!(&acts[..], [Action::Reject]));
    assert!(conn.handle(Event::Ended).is_empty());
}

#[test]
fn lifecycle_refused_registration_does_not_deregister() {
    let mut conn = Connection::new(addr(1, 1));
    conn.handle(Event::Handshake { protocol: Some("p".to_string()) });
    assert!(conn.handle(Event::RegistrationRefused).is_empty());
    assert_eq!(conn.phase(), Phase::Closed);
    assert!(conn.handle(Event::Ended).is_empty());
}

#[test]
fn lifecycle_ended_while_registering_deregisters_without_presence() {
    let mut conn = Connection::new(addr(1, 1));
    conn.handle(Event::Handshake { protocol: Some("p".to_string()) });
    let acts = conn.handle(Event::Ended);
    assert_eq!(conn.phase(), Phase::Closed);
    assert!(matches!(&acts[..], [Action::Deregister]));
}

#[test]
fn deliveries_plan_positions_and_messages() {
    let mut reg = Registry::new();
    let (a, b, c, d) = (addr(1, 1), addr(2, 2), addr(3, 3), addr(4, 4));
    let _ra = reg.register(a, "p".to_string()).unwrap();
    let _rd = reg.register(d, "q".to_string()).unwrap();
    let _rb = reg.register(b, "p".to_string()).unwrap();
    let _rc = reg.register(c, "p".to_string()).unwrap();
    let snapshot = reg.snapshot();
    let plan = deliveries(&snapshot, a, &"p".to_string(), plaintext("hey"));
    let positions: Vec<usize> = plan.iter().map(|(i, _)| *i).collect();
    assert_eq!(positions, vec![2, 3]);
    for (_, m) in plan {
        match m {
            Outbound::Plaintext { plaintext, sender_addr } => {
                assert_eq!(plaintext, "hey");
                assert_eq!(sender_addr, a);
            }
            other => panic!("unexpected {:?}", other),
        }
    }
    let m = Inbound::Encrypted {
        cipher: "c".to_string(),
        initialization_vector: "iv".to_string(),
        recv_addr: c,
    };
    let plan = deliveries(&snapshot, a, &"p".to_string(), m);
    assert_eq!(plan.len(), 1);
    assert_eq!(plan[0].0, 3);
    assert!(matches!(&plan[0].1, Outbound::Encrypted { sender_addr, .. } if *sender_addr == a));
}

#[test]
fn two_peers_chat_end_to_end() {
    let mut reg = Registry::new();
    let chat = "chat".to_string();
    let (p1, p2) = (addr(1, 1001), addr(2, 1002));
    let mut r1 = reg.register(p1, chat.clone()).unwrap();
    route(&reg.snapshot(), p1, &chat, Inbound::Meta { meta: 0 });
    let mut r2 = reg.register(p2, chat.clone()).unwrap();
    route(&reg.snapshot(), p2, &chat, Inbound::Meta { meta: 0 });
    match next(&mut r1) {
        Some(Outbound::Meta { meta: 0, sender_addr }) => assert_eq!(sender_addr, p2),
        other => panic!("unexpected {:?}", other),
    }
    route(&reg.snapshot(), p1, &chat, plaintext("hi"));
    match next(&mut r2) {
        Some(Outbound::Plaintext { plaintext, sender_addr }) => {
            assert_eq!(plaintext, "hi");
            assert_eq!(sender_addr, p1);
        }
        other => panic!("unexpected {:?}", other),
    }
    route(&reg.snapshot(), p1, &chat, Inbound::Meta { meta: 1 });
    reg.deregister(p1);
    match next(&mut r2) {
        Some(Outbound::Meta { meta: 1, sender_addr }) => assert_eq!(sender_addr, p1),
        other => panic!("unexpected {:?}", other),
    }
    assert_eq!(reg.len(), 1);
    assert!(next(&mut r2).is_none());
}
