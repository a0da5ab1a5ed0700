use std::cell::RefCell;

use blackbird::comms::protocol::wire_line;
use blackbird::server::{ClientId, ClientRegistry};

fn id(address: &str) -> ClientId {
    ClientId::new(address.to_string())
}

fn deliver(registry: &ClientRegistry<RefCell<Vec<u8>>>, message: &str, reachable: &[bool]) -> Vec<bool> {
    let line = wire_line(message);
    let mut delivered = Vec::new();
    for i in 0..registry.len() {
        if reachable[i] {
            registry.writer(i).borrow_mut().extend_from_slice(line.as_bytes());
        }
        delivered.push(reachable[i]);
    }
    delivered
}

#[test]
fn register_tracks_connected_clients() {
    let mut registry = ClientRegistry::new();
    let client = id("127.0.0.1:51234");
    registry.register(id("127.0.0.1:51234"), RefCell::new(Vec::<u8>::new()));
    assert_eq!(registry.display_name(&client), "127.0.0.1:51234");
    assert_eq!(registry.len(), 1);
}

#[test]
fn broadcast_delivers_message_to_registered_client() {
    let mut registry = ClientRegistry::new();
    registry.register(id("127.0.0.1:51234"), RefCell::new(Vec::<u8>::new()));

    let delivered = deliver(&registry, "hello, room", &[true]);
    registry.retain_delivered(&delivered);

    let received = String::from_utf8(registry.writer(0).borrow().clone()).unwrap();
    assert_eq!(received, "hello, room\n");
}

#[test]
fn remove_drops_client_from_registry() {
    let mut registry = ClientRegistry::new();
    let client = id("127.0.0.1:51234");
    registry.register(id("127.0.0.1:51234"), RefCell::new(Vec::<u8>::new()));

    registry.remove(&client);

    assert_eq!(registry.len(), 0);
}

#[test]
fn broadcast_prunes_disconnected_clients() {
    let mut registry = ClientRegistry::new();
    let client = id("127.0.0.1:51234");
    registry.register(id("127.0.0.1:51234"), RefCell::new(Vec::<u8>::new()));

    let delivered = deliver(&registry, "anyone there?", &[false]);
    registry.retain_delivered(&delivered);

    assert_eq!(registry.len(), 0);
    registry.remove(&client);
    assert_eq!(registry.len(), 0);
}

#[test]
fn new_registry_is_empty() {
    let registry: ClientRegistry<u8> = ClientRegistry::new();
    assert!(registry.is_empty());
    assert_eq!(registry.len(), 0);
}

#[test]
fn pruning_keeps_reachable_clients_in_order() {
    let mut registry = ClientRegistry::new();
    registry.register(id("a:1"), 1u8);
    registry.register(id("b:2"), 2u8);
    registry.register(id("c:3"), 3u8);
    registry.retain_delivered(&vec![true, false, true]);
    assert_eq!(registry.len(), 2);
    assert_eq!(*registry.writer(0), 1);
    assert_eq!(*registry.writer(1), 3);
    assert_eq!(registry.display_name(&id("b:2")), "b:2");
}

#[test]
fn remove_keeps_other_clients() {
    let mut registry = ClientRegistry::new();
    registry.register(id("a:1"), 1u8);
    registry.register(id("b:2"), 2u8);
    registry.register(id("a:1"), 3u8);
    assert!(registry.set_nickname(&id("b:2"), "bob"));
    registry.remove(&id("a:1"));
    assert_eq!(registry.len(), 1);
    assert_eq!(*registry.writer(0), 2);
    assert_eq!(registry.display_name(&id("b:2")), "bob");
    registry.remove(&id("zz:9"));
    assert_eq!(registry.len(), 1);
}

#[test]
fn nickname_is_shown_once_set() {
    let mut registry = ClientRegistry::new();
    registry.register(id("127.0.0.1:5000"), ());
    registry.register(id("127.0.0.1:5001"), ());
    assert_eq!(registry.display_name(&id("127.0.0.1:5000")), "127.0.0.1:5000");
    assert!(registry.set_nickname(&id("127.0.0.1:5000"), "  alice "));
    assert_eq!(registry.display_name(&id("127.0.0.1:5000")), "alice");
    assert_eq!(registry.display_name(&id("127.0.0.1:5001")), "127.0.0.1:5001");
}

#[test]
fn invalid_or_unknown_nickname_changes_nothing() {
    let mut registry = ClientRegistry::new();
    registry.register(id("127.0.0.1:5000"), ());
    assert!(!registry.set_nickname(&id("127.0.0.1:5000"), "[admin]"));
    assert!(!registry.set_nickname(&id("127.0.0.1:5000"), ""));
    assert_eq!(registry.display_name(&id("127.0.0.1:5000")), "127.0.0.1:5000");
    assert!(!registry.set_nickname(&id("127.0.0.1:6000"), "carol"));
    assert_eq!(registry.display_name(&id("127.0.0.1:6000")), "127.0.0.1:6000");
}

#[test]
fn disconnect_all_hands_back_every_writer() {
    let mut registry = ClientRegistry::new();
    registry.register(id("a:1"), 10u8);
    registry.register(id("b:2"), 20u8);
    let writers = registry.disconnect_all();
    assert_eq!(writers, vec![10, 20]);
    assert!(registry.is_empty());
}

#[test]
fn client_id_keeps_its_address() {
    let client = id("[::1]:8989");
    assert_eq!(client.address(), "[::1]:8989");
}
