use pulsewm::failure::{Consequence, Failure};
use pulsewm::ids::{BufferId, ClientId, SurfaceId, WindowHandle};
use pulsewm::output::{Mode, Output, Physical, Subpixel, Transform};
use pulsewm::protocol::{Request, Response};
use pulsewm::state::State;
use pulsewm::window::{Position, ProtocolError};

fn physical() -> Physical {
    Physical { width_mm: 0, height_mm: 0, subpixel: Subpixel::Unknown }
}

fn state() -> State {
    State::new(8, Output::new(physical()))
}

#[test]
fn a_request_from_an_unknown_client_is_ignored() {
    let mut s = state();
    assert_eq!(s.handle_request(ClientId(3), Request::CreateToplevel), Response::Ignored);
    assert_eq!(s.window_count(), 0);
}

#[test]
fn requests_walk_a_window_through_its_life() {
    let mut s = state();
    let a = s.accept().unwrap();
    let h = WindowHandle { surface: SurfaceId(1) };
    assert_eq!(s.handle_request(a, Request::CreateToplevel), Response::ToplevelCreated(h));
    assert_eq!(
        s.handle_request(a, Request::Commit { surface: h.surface }),
        Response::Configure { surface: h.surface }
    );
    assert_eq!(s.handle_request(a, Request::AckConfigure { surface: h.surface }), Response::Done);
    assert_eq!(s.handle_request(a, Request::AckConfigure { surface: h.surface }), Response::Ignored);
    assert_eq!(s.handle_request(a, Request::CreateBuffer), Response::BufferCreated(BufferId(1)));
    assert_eq!(
        s.handle_request(a, Request::Attach { surface: h.surface, buffer: Some(BufferId(1)) }),
        Response::Done
    );
    assert_eq!(s.handle_request(a, Request::Commit { surface: h.surface }), Response::Done);
    assert_eq!(s.window(h.surface).unwrap().surface.current.buffer, Some(BufferId(1)));
    assert_eq!(s.handle_request(a, Request::DestroyBuffer { id: BufferId(1) }), Response::Done);
    assert_eq!(s.handle_request(a, Request::DestroyBuffer { id: BufferId(1) }), Response::Ignored);
    assert_eq!(s.handle_request(a, Request::Destroy { window: h }), Response::Done);
    assert_eq!(s.handle_request(a, Request::Destroy { window: h }), Response::Ignored);
    assert_eq!(s.handle_request(a, Request::Commit { surface: h.surface }), Response::Ignored);
    assert!(s.is_connected(a));
}

#[test]
fn a_request_on_another_clients_surface_disconnects_the_sender() {
    let mut s = state();
    let a = s.accept().unwrap();
    let b = s.accept().unwrap();
    let wa = s.new_toplevel(a).unwrap();
    let wb = s.new_toplevel(b).unwrap();
    assert_eq!(
        s.handle_request(b, Request::Commit { surface: wa.surface }),
        Response::Disconnected { client: b, error: ProtocolError::ForeignSurface }
    );
    assert!(!s.is_connected(b));
    assert!(s.is_connected(a));
    assert!(!s.window(wb.surface).unwrap().alive);
    let w = s.window(wa.surface).unwrap();
    assert!(w.alive);
    assert!(!w.initial_configure_sent);
}

#[test]
fn destroying_another_clients_window_disconnects_the_sender() {
    let mut s = state();
    let a = s.accept().unwrap();
    let b = s.accept().unwrap();
    let wa = s.new_toplevel(a).unwrap();
    assert_eq!(
        s.handle_request(b, Request::Destroy { window: wa }),
        Response::Disconnected { client: b, error: ProtocolError::ForeignSurface }
    );
    assert!(s.window(wa.surface).unwrap().alive);
    assert_eq!(s.focus(), Some(wa.surface));
}

#[test]
fn a_request_on_a_surface_that_is_not_there_is_ignored() {
    let mut s = state();
    let a = s.accept().unwrap();
    assert_eq!(s.handle_request(a, Request::Commit { surface: SurfaceId(5) }), Response::Ignored);
    assert_eq!(
        s.handle_request(a, Request::Attach { surface: SurfaceId(5), buffer: None }),
        Response::Ignored
    );
    assert!(s.is_connected(a));
}

#[test]
fn destroying_another_clients_buffer_is_ignored() {
    let mut s = state();
    let a = s.accept().unwrap();
    let b = s.accept().unwrap();
    let buffer = s.create_buffer(a).unwrap();
    assert_eq!(s.handle_request(b, Request::DestroyBuffer { id: buffer }), Response::Ignored);
    let w = s.new_toplevel(a).unwrap();
    s.commit(w.surface);
    s.ack_configure(w.surface);
    s.attach(w.surface, Some(buffer));
    assert_eq!(s.handle_request(a, Request::Commit { surface: w.surface }), Response::Done);
}

#[test]
fn a_malformed_commit_request_disconnects_its_sender() {
    let mut s = state();
    let a = s.accept().unwrap();
    let w = s.new_toplevel(a).unwrap();
    s.attach(w.surface, Some(BufferId(9)));
    assert_eq!(
        s.handle_request(a, Request::Commit { surface: w.surface }),
        Response::Disconnected { client: a, error: ProtocolError::UnknownBuffer }
    );
    assert!(!s.is_connected(a));
}

#[test]
fn the_output_starts_without_a_mode() {
    let o = Output::new(physical());
    assert_eq!(o.mode, None);
    assert_eq!(o.preferred, None);
    assert_eq!(o.transform, Transform::Normal);
    assert_eq!(o.scale, 1);
    assert_eq!(o.location, Position { x: 0, y: 0 });
    assert_eq!(o.physical, physical());
}

#[test]
fn the_output_changes_what_is_given_and_keeps_the_rest() {
    let mut o = Output::new(physical());
    let mode = Mode { width: 1280, height: 800, refresh_mhz: 60_000 };
    o.change_current_state(Some(mode), Some(Transform::Flipped180), None, Some(Position { x: 0, y: 0 }));
    o.set_preferred(mode);
    assert_eq!(o.mode, Some(mode));
    assert_eq!(o.preferred, Some(mode));
    assert_eq!(o.transform, Transform::Flipped180);
    assert_eq!(o.scale, 1);
    o.change_current_state(None, None, Some(2), None);
    assert_eq!(o.mode, Some(mode));
    assert_eq!(o.transform, Transform::Flipped180);
    assert_eq!(o.scale, 2);
    o.change_current_state(None, Some(Transform::Rotate90), None, Some(Position { x: 4, y: -3 }));
    assert_eq!(o.transform, Transform::Rotate90);
    assert_eq!(o.location, Position { x: 4, y: -3 });
    assert_eq!(o.preferred, Some(mode));
}

#[test]
fn the_state_carries_its_output() {
    let mut s = state();
    let mode = Mode { width: 640, height: 480, refresh_mhz: 60_000 };
    s.change_output(Some(mode), Some(Transform::Flipped180), None, None);
    let o = s.output();
    assert_eq!(o.mode, Some(mode));
    assert_eq!(o.transform, Transform::Flipped180);
    assert_eq!(o.scale, 1);
}

#[test]
fn failures_of_one_client_stay_with_that_client() {
    assert_eq!(Failure::Startup.consequence(), Consequence::Terminate);
    assert_eq!(Failure::Render.consequence(), Consequence::Terminate);
    assert_eq!(
        Failure::ClientProtocol(ClientId(4)).consequence(),
        Consequence::DisconnectClient(ClientId(4))
    );
    assert_eq!(Failure::ResourceExhaustion.consequence(), Consequence::RejectConnection);
    assert_eq!(Failure::ActionSpawn.consequence(), Consequence::Report);
}
