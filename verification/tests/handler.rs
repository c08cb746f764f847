use chat_relay::handler::{accept, is_closed, step, ConnEvent, ConnState, Step};
use chat_relay::registry::{Delivery, Registry};

fn raw(s: &str) -> Vec<u8> {
    s.as_bytes().to_vec()
}

fn join(users: &mut Registry, name: &str, handle: u64) -> ConnState {
    let out = step(accept(), handle, ConnEvent::Line(raw(name)), users);
    assert_eq!(out.reply, None);
    assert_eq!(out.deliveries, vec![]);
    out.next
}

#[test]
fn accepted_connection_registers_its_name() {
    let mut users = Registry::new();
    let out = step(accept(), 4, ConnEvent::Line(raw("  alice\n")), &mut users);
    assert_eq!(
        out,
        Step { next: ConnState::Active(raw("alice")), reply: None, deliveries: vec![] }
    );
    assert_eq!(users.handle_of(&raw("alice")), Some(4));
    assert_eq!(users.len(), 1);
}

#[test]
fn two_clients_one_says_hello() {
    let mut users = Registry::new();
    let a = join(&mut users, "A\n", 1);
    let b = join(&mut users, "B\n", 2);
    assert_eq!(b, ConnState::Active(raw("B")));
    let out = step(a, 1, ConnEvent::Line(raw("hello")), &mut users);
    assert_eq!(out.next, ConnState::Active(raw("A")));
    assert_eq!(out.reply, None);
    assert_eq!(
        out.deliveries,
        vec![Delivery { recipient: raw("B"), handle: 2, line: raw("[A]: hello\n") }]
    );
    assert!(out.deliveries.iter().all(|d| d.handle != 1 && d.recipient != raw("A")));
    assert_eq!(users.len(), 2);
}

#[test]
fn leave_command_frees_the_name_and_relays_nothing() {
    let mut users = Registry::new();
    let a = join(&mut users, "A\n", 1);
    let b = join(&mut users, "B\n", 2);
    let out = step(a, 1, ConnEvent::Line(raw("/leave")), &mut users);
    assert_eq!(out, Step { next: ConnState::Closed, reply: None, deliveries: vec![] });
    assert!(is_closed(&out.next));
    assert!(!users.contains(&raw("A")));
    assert_eq!(users.len(), 1);
    let later = step(b, 2, ConnEvent::Line(raw("anyone?")), &mut users);
    assert_eq!(later.deliveries, vec![]);
    assert_eq!(later.next, ConnState::Active(raw("B")));
}

#[test]
fn third_client_cannot_take_a_name_in_use() {
    let mut users = Registry::new();
    let _a = join(&mut users, "A\n", 1);
    let _b = join(&mut users, "B\n", 2);
    let out = step(accept(), 3, ConnEvent::Line(raw("A\n")), &mut users);
    assert_eq!(
        out,
        Step {
            next: ConnState::Registering,
            reply: Some(raw("Username is already taken\n")),
            deliveries: vec![],
        }
    );
    assert_eq!(users.len(), 2);
    assert_eq!(users.handle_of(&raw("A")), Some(1));
    let seen = users.broadcast(&raw("B"), &raw("x"));
    assert_eq!(seen, vec![Delivery { recipient: raw("A"), handle: 1, line: raw("[B]: x\n") }]);
    let again = step(out.next, 3, ConnEvent::Line(raw("C\n")), &mut users);
    assert_eq!(again.next, ConnState::Active(raw("C")));
    assert_eq!(again.reply, None);
    assert_eq!(users.handle_of(&raw("C")), Some(3));
}

#[test]
fn empty_and_reserved_names_are_refused() {
    let mut users = Registry::new();
    for input in ["\n", "   ", "/leave\n", "x/leave"] {
        let out = step(accept(), 1, ConnEvent::Line(raw(input)), &mut users);
        assert_eq!(out.next, ConnState::Registering);
        assert_eq!(out.reply, Some(raw("Username is already taken\n")));
        assert_eq!(out.deliveries, vec![]);
        assert_eq!(users.len(), 0);
    }
}

#[test]
fn peer_close_frees_the_name() {
    let mut users = Registry::new();
    let a = join(&mut users, "A", 1);
    let _b = join(&mut users, "B", 2);
    let out = step(a, 1, ConnEvent::PeerClosed, &mut users);
    assert_eq!(out, Step { next: ConnState::Closed, reply: None, deliveries: vec![] });
    assert!(!users.contains(&raw("A")));
    assert!(users.contains(&raw("B")));
}

#[test]
fn transport_failure_frees_the_name() {
    let mut users = Registry::new();
    let a = join(&mut users, "A", 1);
    let _b = join(&mut users, "B", 2);
    let out = step(a, 1, ConnEvent::Failed, &mut users);
    assert_eq!(out, Step { next: ConnState::Closed, reply: None, deliveries: vec![] });
    assert!(!users.contains(&raw("A")));
    assert_eq!(users.handle_of(&raw("B")), Some(2));
}

#[test]
fn connection_lost_during_the_handshake_closes_quietly() {
    let mut users = Registry::new();
    let _a = join(&mut users, "A", 1);
    let out = step(accept(), 2, ConnEvent::PeerClosed, &mut users);
    assert_eq!(out, Step { next: ConnState::Closed, reply: None, deliveries: vec![] });
    let out = step(ConnState::Registering, 2, ConnEvent::Failed, &mut users);
    assert_eq!(out, Step { next: ConnState::Closed, reply: None, deliveries: vec![] });
    assert_eq!(users.len(), 1);
}

#[test]
fn closed_connection_stays_closed() {
    let mut users = Registry::new();
    let _a = join(&mut users, "A", 1);
    for event in [ConnEvent::Line(raw("hello")), ConnEvent::PeerClosed, ConnEvent::Failed] {
        let out = step(ConnState::Closed, 9, event, &mut users);
        assert_eq!(out, Step { next: ConnState::Closed, reply: None, deliveries: vec![] });
        assert_eq!(users.len(), 1);
    }
}

#[test]
fn state_predicates() {
    assert_eq!(accept(), ConnState::Accepted);
    assert!(!is_closed(&ConnState::Accepted));
    assert!(!is_closed(&ConnState::Registering));
    assert!(!is_closed(&ConnState::Active(raw("A"))));
    assert!(is_closed(&ConnState::Closed));
}

#[test]
fn chat_text_is_relayed_as_it_came() {
    let mut users = Registry::new();
    let a = join(&mut users, "A", 1);
    let _b = join(&mut users, "B", 2);
    let out = step(a, 1, ConnEvent::Line(raw(" /leave now ")), &mut users);
    assert_eq!(out.next, ConnState::Active(raw("A")));
    assert_eq!(
        out.deliveries,
        vec![Delivery { recipient: raw("B"), handle: 2, line: raw("[A]:  /leave now \n") }]
    );
}
