use pulsewm::ids::{BufferId, ClientId, SurfaceId, WindowHandle};
use pulsewm::output::{Output, Physical, Subpixel};
use pulsewm::space::SurfaceCommit;
use pulsewm::state::State;
use pulsewm::window::{Position, ProtocolError, SurfaceState, Window, WindowPhase};

fn state() -> State {
    State::new(
        8,
        Output::new(Physical { width_mm: 0, height_mm: 0, subpixel: Subpixel::Unknown }),
    )
}

#[test]
fn a_new_toplevel_is_unconfigured_at_the_origin() {
    let mut s = state();
    let a = s.accept().unwrap();
    let h = s.new_toplevel(a).unwrap();
    assert_eq!(h, WindowHandle { surface: SurfaceId(1) });
    let w = s.window(h.surface).unwrap();
    assert_eq!(w, Window::new(SurfaceId(1), a));
    assert_eq!(w.position, Position { x: 0, y: 0 });
    assert!(!w.initial_configure_sent);
    assert!(!w.surface.configured);
    assert!(w.alive);
    assert!(!w.mapped());
    assert_eq!(w.surface.current.buffer, None);
    assert_eq!(w.get_phase(), WindowPhase::Unconfigured);
}

#[test]
fn toplevels_are_numbered_in_the_order_of_creation() {
    let mut s = state();
    let a = s.accept().unwrap();
    let b = s.accept().unwrap();
    assert_eq!(s.new_toplevel(a).unwrap().surface, SurfaceId(1));
    assert_eq!(s.new_toplevel(b).unwrap().surface, SurfaceId(2));
    assert_eq!(s.new_toplevel(a).unwrap().surface, SurfaceId(3));
    assert_eq!(s.window_count(), 3);
    assert_eq!(s.window(SurfaceId(2)).unwrap().surface.client, b);
}

#[test]
fn no_toplevel_for_a_client_that_is_not_connected() {
    let mut s = state();
    assert_eq!(s.new_toplevel(ClientId(1)), None);
    assert_eq!(s.window_count(), 0);
    assert_eq!(s.focus(), None);
}

#[test]
fn the_first_commit_asks_for_the_configure_and_later_ones_do_not() {
    let mut s = state();
    let a = s.accept().unwrap();
    let h = s.new_toplevel(a).unwrap();
    assert_eq!(s.commit(h.surface), SurfaceCommit::Applied { configure: true });
    let w = s.window(h.surface).unwrap();
    assert!(w.initial_configure_sent);
    assert_eq!(w.get_phase(), WindowPhase::ConfigurePending);
    assert_eq!(s.commit(h.surface), SurfaceCommit::Applied { configure: false });
    assert_eq!(s.commit(h.surface), SurfaceCommit::Applied { configure: false });
    assert!(s.window(h.surface).unwrap().initial_configure_sent);
}

#[test]
fn acknowledging_moves_a_pending_window_to_configured() {
    let mut s = state();
    let a = s.accept().unwrap();
    let h = s.new_toplevel(a).unwrap();
    assert!(!s.ack_configure(h.surface));
    assert_eq!(s.window(h.surface).unwrap().get_phase(), WindowPhase::Unconfigured);
    s.commit(h.surface);
    assert!(s.ack_configure(h.surface));
    assert_eq!(s.window(h.surface).unwrap().get_phase(), WindowPhase::Configured);
    assert!(!s.ack_configure(h.surface));
    assert_eq!(s.window(h.surface).unwrap().get_phase(), WindowPhase::Configured);
}

#[test]
fn staged_state_shows_only_after_a_commit() {
    let mut s = state();
    let a = s.accept().unwrap();
    let h = s.new_toplevel(a).unwrap();
    let b = s.create_buffer(a).unwrap();
    s.commit(h.surface);
    s.ack_configure(h.surface);
    assert!(s.attach(h.surface, Some(b)));
    let staged = s.window(h.surface).unwrap();
    assert_eq!(staged.surface.pending, Some(SurfaceState { buffer: Some(b) }));
    assert_eq!(staged.surface.current.buffer, None);
    assert_eq!(s.commit(h.surface), SurfaceCommit::Applied { configure: false });
    let shown = s.window(h.surface).unwrap();
    assert_eq!(shown.surface.current.buffer, Some(b));
    assert_eq!(shown.surface.pending, None);
    assert!(shown.damaged);
}

#[test]
fn a_buffer_can_be_taken_off_again() {
    let mut s = state();
    let a = s.accept().unwrap();
    let h = s.new_toplevel(a).unwrap();
    let b = s.create_buffer(a).unwrap();
    s.commit(h.surface);
    s.ack_configure(h.surface);
    s.attach(h.surface, Some(b));
    s.commit(h.surface);
    s.attach(h.surface, None);
    assert_eq!(s.window(h.surface).unwrap().surface.current.buffer, Some(b));
    assert_eq!(s.commit(h.surface), SurfaceCommit::Applied { configure: false });
    assert_eq!(s.window(h.surface).unwrap().surface.current.buffer, None);
}

#[test]
fn committing_an_unknown_surface_is_ignored() {
    let mut s = state();
    let a = s.accept().unwrap();
    assert_eq!(s.commit(SurfaceId(9)), SurfaceCommit::Ignored);
    assert!(s.is_connected(a));
    assert!(!s.attach(SurfaceId(9), None));
}

#[test]
fn committing_a_buffer_never_announced_disconnects_the_client() {
    let mut s = state();
    let a = s.accept().unwrap();
    let h = s.new_toplevel(a).unwrap();
    s.commit(h.surface);
    s.ack_configure(h.surface);
    s.attach(h.surface, Some(BufferId(40)));
    assert_eq!(
        s.commit(h.surface),
        SurfaceCommit::Refused { client: a, error: ProtocolError::UnknownBuffer }
    );
    assert!(!s.is_connected(a));
    let w = s.window(h.surface).unwrap();
    assert!(!w.alive);
    assert_eq!(w.surface.current.buffer, None);
    assert_eq!(s.focus(), None);
}

#[test]
fn committing_another_clients_buffer_disconnects_the_client() {
    let mut s = state();
    let a = s.accept().unwrap();
    let b = s.accept().unwrap();
    let h = s.new_toplevel(a).unwrap();
    let foreign = s.create_buffer(b).unwrap();
    s.commit(h.surface);
    s.ack_configure(h.surface);
    s.attach(h.surface, Some(foreign));
    assert_eq!(
        s.commit(h.surface),
        SurfaceCommit::Refused { client: a, error: ProtocolError::UnknownBuffer }
    );
    assert!(!s.is_connected(a));
    assert!(s.is_connected(b));
}

#[test]
fn a_commit_with_nothing_staged_keeps_what_is_shown() {
    let mut s = state();
    let a = s.accept().unwrap();
    let h = s.new_toplevel(a).unwrap();
    let b = s.create_buffer(a).unwrap();
    s.commit(h.surface);
    s.ack_configure(h.surface);
    s.attach(h.surface, Some(b));
    s.commit(h.surface);
    s.buffer_destroyed(b);
    assert_eq!(s.commit(h.surface), SurfaceCommit::Applied { configure: false });
    assert_eq!(s.window(h.surface).unwrap().surface.current.buffer, Some(b));
    assert!(s.is_connected(a));
}

#[test]
fn staging_a_destroyed_buffer_again_is_refused() {
    let mut s = state();
    let a = s.accept().unwrap();
    let h = s.new_toplevel(a).unwrap();
    let b = s.create_buffer(a).unwrap();
    s.commit(h.surface);
    s.ack_configure(h.surface);
    s.attach(h.surface, Some(b));
    s.commit(h.surface);
    s.buffer_destroyed(b);
    s.attach(h.surface, Some(b));
    assert_eq!(
        s.commit(h.surface),
        SurfaceCommit::Refused { client: a, error: ProtocolError::UnknownBuffer }
    );
}

#[test]
fn committing_a_destroyed_buffer_disconnects_the_client() {
    let mut s = state();
    let a = s.accept().unwrap();
    let h = s.new_toplevel(a).unwrap();
    let b = s.create_buffer(a).unwrap();
    s.commit(h.surface);
    s.ack_configure(h.surface);
    s.attach(h.surface, Some(b));
    s.buffer_destroyed(b);
    assert_eq!(
        s.commit(h.surface),
        SurfaceCommit::Refused { client: a, error: ProtocolError::UnknownBuffer }
    );
}

#[test]
fn committing_a_buffer_before_the_acknowledgement_disconnects_the_client() {
    let mut s = state();
    let a = s.accept().unwrap();
    let h = s.new_toplevel(a).unwrap();
    let b = s.create_buffer(a).unwrap();
    s.commit(h.surface);
    s.attach(h.surface, Some(b));
    assert_eq!(
        s.commit(h.surface),
        SurfaceCommit::Refused { client: a, error: ProtocolError::BufferBeforeAcknowledge }
    );
    assert!(!s.is_connected(a));
    assert!(!s.window(h.surface).unwrap().alive);
}

#[test]
fn a_first_commit_with_a_buffer_sends_no_configure() {
    let mut s = state();
    let a = s.accept().unwrap();
    let h = s.new_toplevel(a).unwrap();
    let b = s.create_buffer(a).unwrap();
    s.attach(h.surface, Some(b));
    assert_eq!(
        s.commit(h.surface),
        SurfaceCommit::Refused { client: a, error: ProtocolError::BufferBeforeAcknowledge }
    );
    assert!(!s.window(h.surface).unwrap().initial_configure_sent);
}

#[test]
fn destroying_twice_is_the_same_as_destroying_once() {
    let mut s = state();
    let a = s.accept().unwrap();
    let h = s.new_toplevel(a).unwrap();
    assert!(s.toplevel_destroyed(h));
    let once = s.window(h.surface);
    assert!(!s.toplevel_destroyed(h));
    assert_eq!(s.window(h.surface), once);
    assert_eq!(once.unwrap().get_phase(), WindowPhase::Destroyed);
    assert!(s.is_connected(a));
}

#[test]
fn destroying_a_window_that_never_was_changes_nothing() {
    let mut s = state();
    let a = s.accept().unwrap();
    let h = s.new_toplevel(a).unwrap();
    assert!(!s.toplevel_destroyed(WindowHandle { surface: SurfaceId(50) }));
    assert!(s.window(h.surface).unwrap().alive);
    assert_eq!(s.window_count(), 1);
}

#[test]
fn a_destroyed_window_takes_no_more_requests() {
    let mut s = state();
    let a = s.accept().unwrap();
    let h = s.new_toplevel(a).unwrap();
    s.toplevel_destroyed(h);
    assert_eq!(s.commit(h.surface), SurfaceCommit::Ignored);
    assert!(!s.attach(h.surface, None));
    assert!(!s.ack_configure(h.surface));
    assert!(!s.window(h.surface).unwrap().initial_configure_sent);
}

#[test]
fn a_destroyed_window_is_dropped_by_the_next_tick() {
    let mut s = state();
    let a = s.accept().unwrap();
    let h1 = s.new_toplevel(a).unwrap();
    let h2 = s.new_toplevel(a).unwrap();
    s.toplevel_destroyed(h1);
    assert_eq!(s.window_count(), 2);
    s.tick(&Vec::new(), 0);
    assert_eq!(s.window_count(), 1);
    assert_eq!(s.window(h1.surface), None);
    assert!(s.window(h2.surface).unwrap().alive);
    assert!(!s.toplevel_destroyed(h1));
}

#[test]
fn a_surface_number_is_not_given_twice() {
    let mut s = state();
    let a = s.accept().unwrap();
    let h1 = s.new_toplevel(a).unwrap();
    s.toplevel_destroyed(h1);
    s.tick(&Vec::new(), 0);
    let h2 = s.new_toplevel(a).unwrap();
    assert_ne!(h1, h2);
    assert_eq!(h2.surface, SurfaceId(2));
}
