use std::cell::RefCell;

use blackbird::comms::protocol::wire_line;
use blackbird::comms::{client_input_step, nickname_handshake, ConsoleStep};
use blackbird::server::{
    accept_action, relay_step, server_input_step, AcceptAction, AcceptOutcome, ClientId,
    ClientRegistry, RelayStep, SHUTDOWN_NOTICE,
};

fn id(address: &str) -> ClientId {
    ClientId::new(address.to_string())
}

type Inbox = RefCell<Vec<u8>>;

/// Writes `message` to every registered client and drops those that cannot
/// be reached, as the server does.
fn broadcast(registry: &mut ClientRegistry<Inbox>, message: &str) {
    let line = wire_line(message);
    let mut delivered = Vec::new();
    for i in 0..registry.len() {
        registry.writer(i).borrow_mut().extend_from_slice(line.as_bytes());
        delivered.push(true);
    }
    registry.retain_delivered(&delivered);
}

/// Takes the text received so far by the client at position `i`.
fn read_all(registry: &ClientRegistry<Inbox>, i: usize) -> String {
    String::from_utf8(registry.writer(i).borrow_mut().drain(..).collect()).unwrap()
}

/// Relays a line sent by the client at `address`, as the server does.
fn relay(registry: &mut ClientRegistry<Inbox>, address: &str, line: &str) {
    if let RelayStep::Broadcast(formatted) = relay_step(registry, &id(address), line) {
        broadcast(registry, &formatted);
    }
}

fn connected(addresses: &[&str]) -> ClientRegistry<Inbox> {
    let mut registry = ClientRegistry::new();
    for address in addresses {
        registry.register(id(address), RefCell::new(Vec::new()));
    }
    registry
}

#[test]
fn client_message_is_broadcast_to_other_clients() {
    let alice_addr = "127.0.0.1:40001";
    let mut registry = connected(&[alice_addr, "127.0.0.1:40002"]);

    relay(&mut registry, alice_addr, "hello everyone");

    assert_eq!(read_all(&registry, 1), format!("[{alice_addr}] hello everyone\n"));
    assert_eq!(read_all(&registry, 0), format!("[{alice_addr}] hello everyone\n"));
}

#[test]
fn server_broadcast_reaches_all_clients() {
    let mut registry = connected(&["127.0.0.1:40001", "127.0.0.1:40002"]);

    broadcast(&mut registry, "[server] attention please");

    assert_eq!(read_all(&registry, 0), "[server] attention please\n");
    assert_eq!(read_all(&registry, 1), "[server] attention please\n");
}

#[test]
fn nickname_is_used_in_broadcast_messages() {
    let (alice, bob) = ("127.0.0.1:40001", "127.0.0.1:40002");
    let mut registry = connected(&[alice, bob]);

    relay(&mut registry, alice, &nickname_handshake("alice"));
    relay(&mut registry, bob, &nickname_handshake("bob"));

    relay(&mut registry, alice, "hello bob");

    assert_eq!(read_all(&registry, 1), "[alice] hello bob\n");
    assert_eq!(read_all(&registry, 0), "[alice] hello bob\n");
}

#[test]
fn disconnected_client_is_removed_from_broker() {
    let (alice, bob_addr) = ("127.0.0.1:40001", "127.0.0.1:40002");
    let mut registry = connected(&[alice, bob_addr]);

    registry.remove(&id(alice));

    assert_eq!(registry.len(), 1);

    relay(&mut registry, bob_addr, "still here");
    let bob_line = read_all(&registry, 0);
    assert_eq!(bob_line, format!("[{bob_addr}] still here\n"));
}

#[test]
fn shutdown_notifies_connected_clients() {
    let mut registry = connected(&["127.0.0.1:40001"]);
    assert_eq!(registry.len(), 1);

    broadcast(&mut registry, SHUTDOWN_NOTICE);
    let line = read_all(&registry, 0);
    let writers = registry.disconnect_all();

    assert_eq!(line, "[system] server shutting down\n");
    assert_eq!(writers.len(), 1);
    assert!(registry.is_empty());
}

fn sent(step: ConsoleStep) -> Option<String> {
    match step {
        ConsoleStep::Quit => None,
        ConsoleStep::Send(text) => Some(text),
    }
}

#[test]
fn client_message_is_relayed_under_its_address() {
    let mut registry = ClientRegistry::new();
    registry.register(id("127.0.0.1:40001"), ());
    registry.register(id("127.0.0.1:40002"), ());
    match relay_step(&mut registry, &id("127.0.0.1:40001"), "hello everyone") {
        RelayStep::Broadcast(line) => assert_eq!(line, "[127.0.0.1:40001] hello everyone"),
        _ => panic!("expected a broadcast"),
    }
    assert_eq!(registry.len(), 2);
}

#[test]
fn nickname_is_used_after_handshake() {
    let mut registry = ClientRegistry::new();
    registry.register(id("127.0.0.1:40001"), ());
    registry.register(id("127.0.0.1:40002"), ());
    match relay_step(&mut registry, &id("127.0.0.1:40001"), "NICK:alice") {
        RelayStep::Renamed(notice) => {
            assert_eq!(notice, "[system] 127.0.0.1:40001 is now known as alice")
        }
        _ => panic!("expected a rename"),
    }
    assert!(matches!(
        relay_step(&mut registry, &id("127.0.0.1:40002"), "NICK:bob"),
        RelayStep::Renamed(_)
    ));
    match relay_step(&mut registry, &id("127.0.0.1:40001"), "hello bob") {
        RelayStep::Broadcast(line) => assert_eq!(line, "[alice] hello bob"),
        _ => panic!("expected a broadcast"),
    }
}

#[test]
fn rejected_handshake_is_not_broadcast() {
    let mut registry = ClientRegistry::new();
    registry.register(id("127.0.0.1:40001"), ());
    assert!(matches!(
        relay_step(&mut registry, &id("127.0.0.1:40001"), "NICK:bad name"),
        RelayStep::Unchanged
    ));
    assert!(matches!(
        relay_step(&mut registry, &id("127.0.0.1:49999"), "NICK:ghost"),
        RelayStep::Unchanged
    ));
    assert_eq!(registry.display_name(&id("127.0.0.1:40001")), "127.0.0.1:40001");
}

#[test]
fn server_console_lines() {
    assert_eq!(sent(server_input_step("attention please")).as_deref(), Some("[server] attention please"));
    assert_eq!(sent(server_input_step("welcome!")).as_deref(), Some("[server] welcome!"));
    assert_eq!(sent(server_input_step("Exit")), None);
    assert_eq!(sent(server_input_step("  exit  ")), None);
    assert_eq!(SHUTDOWN_NOTICE, "[system] server shutting down");
}

#[test]
fn client_console_lines() {
    assert_eq!(sent(client_input_step(6, "hello\n")).as_deref(), Some("hello\n"));
    assert_eq!(sent(client_input_step(5, "exit\n")), None);
    assert_eq!(sent(client_input_step(0, "")), None);
    assert_eq!(sent(client_input_step(1, "\n")).as_deref(), Some("\n"));
}

#[test]
fn accepting_loop_decisions() {
    assert!(matches!(accept_action(AcceptOutcome::Accepted, true), AcceptAction::Register));
    assert!(matches!(accept_action(AcceptOutcome::WouldBlock, true), AcceptAction::Wait));
    assert!(matches!(
        accept_action(AcceptOutcome::Failed, true),
        AcceptAction::Stop { report: true }
    ));
    assert!(matches!(
        accept_action(AcceptOutcome::Failed, false),
        AcceptAction::Stop { report: false }
    ));
}
