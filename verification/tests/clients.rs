use pulsewm::ids::{BufferId, ClientId};
use pulsewm::output::{Output, Physical, Subpixel};
use pulsewm::registry::{ClientRegistry, ConnectionRejected};
use pulsewm::state::State;

fn state(max_clients: usize) -> State {
    State::new(
        max_clients,
        Output::new(Physical { width_mm: 0, height_mm: 0, subpixel: Subpixel::Unknown }),
    )
}

#[test]
fn accept_numbers_clients_from_one() {
    let mut s = state(4);
    assert_eq!(s.accept(), Ok(ClientId(1)));
    assert_eq!(s.accept(), Ok(ClientId(2)));
    assert_eq!(s.accept(), Ok(ClientId(3)));
    assert_eq!(s.client_count(), 3);
    assert!(s.is_connected(ClientId(2)));
    assert!(!s.is_connected(ClientId(4)));
}

#[test]
fn accept_rejects_when_the_registry_is_full() {
    let mut s = state(2);
    let a = s.accept().unwrap();
    let b = s.accept().unwrap();
    assert_eq!(s.accept(), Err(ConnectionRejected));
    assert_eq!(s.client_count(), 2);
    assert!(s.is_connected(a));
    assert!(s.is_connected(b));
}

#[test]
fn accept_rejects_everything_with_no_room_at_all() {
    let mut s = state(0);
    assert_eq!(s.accept(), Err(ConnectionRejected));
    assert_eq!(s.client_count(), 0);
}

#[test]
fn a_freed_place_admits_a_new_client_under_a_new_number() {
    let mut s = state(1);
    let a = s.accept().unwrap();
    s.on_disconnect(a);
    assert!(!s.is_connected(a));
    let b = s.accept().unwrap();
    assert_eq!(b, ClientId(2));
    assert!(s.is_connected(b));
    assert!(!s.is_connected(a));
}

#[test]
fn disconnecting_an_unknown_client_changes_nothing() {
    let mut s = state(3);
    let a = s.accept().unwrap();
    let w = s.new_toplevel(a).unwrap();
    s.on_disconnect(ClientId(77));
    assert!(s.is_connected(a));
    assert!(s.window(w.surface).unwrap().alive);
    assert_eq!(s.focus(), Some(w.surface));
}

#[test]
fn disconnect_destroys_the_clients_windows_and_drops_the_focus() {
    let mut s = state(3);
    let a = s.accept().unwrap();
    let b = s.accept().unwrap();
    let wb = s.new_toplevel(b).unwrap();
    let wa = s.new_toplevel(a).unwrap();
    assert_eq!(s.focus(), Some(wa.surface));
    s.on_disconnect(a);
    assert!(!s.is_connected(a));
    assert!(s.is_connected(b));
    assert!(!s.window(wa.surface).unwrap().alive);
    assert!(s.window(wb.surface).unwrap().alive);
    assert_eq!(s.focus(), None);
}

#[test]
fn disconnect_keeps_a_focus_held_by_another_client() {
    let mut s = state(3);
    let a = s.accept().unwrap();
    let b = s.accept().unwrap();
    let _wa = s.new_toplevel(a).unwrap();
    let wb = s.new_toplevel(b).unwrap();
    s.on_disconnect(a);
    assert_eq!(s.focus(), Some(wb.surface));
}

#[test]
fn buffers_are_numbered_and_owned() {
    let mut r = ClientRegistry::new(3);
    let a = r.accept().unwrap();
    let b = r.accept().unwrap();
    assert_eq!(r.create_buffer(a), Some(BufferId(1)));
    assert_eq!(r.create_buffer(b), Some(BufferId(2)));
    assert!(r.owns(a, BufferId(1)));
    assert!(!r.owns(b, BufferId(1)));
    assert!(r.owns(b, BufferId(2)));
    assert!(!r.owns(a, BufferId(3)));
}

#[test]
fn no_buffer_for_a_client_that_is_not_connected() {
    let mut r = ClientRegistry::new(3);
    assert_eq!(r.create_buffer(ClientId(1)), None);
    let a = r.accept().unwrap();
    assert_eq!(r.create_buffer(a), Some(BufferId(1)));
}

#[test]
fn disconnect_forgets_the_clients_buffers_only() {
    let mut r = ClientRegistry::new(3);
    let a = r.accept().unwrap();
    let b = r.accept().unwrap();
    let ba = r.create_buffer(a).unwrap();
    let bb = r.create_buffer(b).unwrap();
    assert!(r.disconnect(a));
    assert!(!r.owns(a, ba));
    assert!(r.owns(b, bb));
    assert!(!r.is_connected(a));
    assert!(r.is_connected(b));
    assert!(!r.disconnect(a));
}

#[test]
fn a_destroyed_buffer_is_no_longer_owned() {
    let mut r = ClientRegistry::new(3);
    let a = r.accept().unwrap();
    let b1 = r.create_buffer(a).unwrap();
    let b2 = r.create_buffer(a).unwrap();
    r.buffer_destroyed(b1);
    assert!(!r.owns(a, b1));
    assert!(r.owns(a, b2));
    r.buffer_destroyed(b1);
    assert!(r.owns(a, b2));
}
