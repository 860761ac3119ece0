use pulsewm::frame::FRAME_PERIOD_MS;
use pulsewm::ids::SurfaceId;
use pulsewm::output::{Output, Physical, Subpixel};
use pulsewm::seat::{
    ActionToken, ButtonEvent, ButtonState, Delivery, DispatchResult, InputEvent, KeyEvent,
    KeyState, Modifiers,
};
use pulsewm::space::{FrameCallback, SceneElement, SurfaceCommit};
use pulsewm::state::State;
use pulsewm::window::{Position, ProtocolError};

fn state() -> State {
    State::new(
        8,
        Output::new(Physical { width_mm: 0, height_mm: 0, subpixel: Subpixel::Unknown }),
    )
}

#[test]
fn one_toplevel_one_commit_one_tick() {
    let mut s = state();
    let a = s.accept().unwrap();
    let w = s.new_toplevel(a).unwrap();
    assert_eq!(s.commit(w.surface), SurfaceCommit::Applied { configure: true });
    let frame = s.tick(&Vec::new(), 1234);
    assert!(s.window(w.surface).unwrap().initial_configure_sent);
    assert_eq!(
        frame.scene,
        vec![SceneElement {
            surface: w.surface,
            client: a,
            position: Position { x: 0, y: 0 },
            buffer: None,
            damaged: true,
        }]
    );
    assert_eq!(
        frame.callbacks,
        vec![FrameCallback { surface: w.surface, client: a, elapsed_ms: 1234 }]
    );
    assert!(frame.outcomes.is_empty());
}

#[test]
fn a_window_without_a_commit_is_not_shown() {
    let mut s = state();
    let a = s.accept().unwrap();
    let _w = s.new_toplevel(a).unwrap();
    let frame = s.tick(&Vec::new(), 10);
    assert!(frame.scene.is_empty());
    assert!(frame.callbacks.is_empty());
    assert_eq!(s.window_count(), 1);
}

#[test]
fn an_empty_space_gives_an_empty_frame() {
    let mut s = state();
    let frame = s.tick(&Vec::new(), 0);
    assert!(frame.scene.is_empty());
    assert!(frame.callbacks.is_empty());
    assert!(frame.outcomes.is_empty());
    assert_eq!(frame.next_tick_ms, 16);
}

#[test]
fn the_timer_is_set_anew_to_the_frame_period() {
    let mut s = state();
    assert_eq!(FRAME_PERIOD_MS, 16);
    assert_eq!(s.tick(&Vec::new(), 0).next_tick_ms, 16);
    assert_eq!(s.tick(&Vec::new(), 700).next_tick_ms, 16);
}

#[test]
fn each_mapped_window_gets_exactly_one_callback() {
    let mut s = state();
    let a = s.accept().unwrap();
    let b = s.accept().unwrap();
    let w1 = s.new_toplevel(a).unwrap();
    let w2 = s.new_toplevel(b).unwrap();
    let w3 = s.new_toplevel(a).unwrap();
    let w4 = s.new_toplevel(b).unwrap();
    s.commit(w1.surface);
    s.commit(w3.surface);
    s.commit(w4.surface);
    s.toplevel_destroyed(w3);
    let frame = s.tick(&Vec::new(), 48);
    assert_eq!(
        frame.callbacks,
        vec![
            FrameCallback { surface: w1.surface, client: a, elapsed_ms: 48 },
            FrameCallback { surface: w4.surface, client: b, elapsed_ms: 48 },
        ]
    );
    assert_eq!(frame.scene.len(), 2);
    assert_eq!(frame.scene[0].surface, w1.surface);
    assert_eq!(frame.scene[1].surface, w4.surface);
    assert!(frame.callbacks.iter().all(|c| c.surface != w2.surface && c.surface != w3.surface));
}

#[test]
fn callbacks_go_out_whether_or_not_the_content_changed() {
    let mut s = state();
    let a = s.accept().unwrap();
    let w = s.new_toplevel(a).unwrap();
    s.commit(w.surface);
    let first = s.tick(&Vec::new(), 16);
    let second = s.tick(&Vec::new(), 32);
    let third = s.tick(&Vec::new(), 48);
    assert!(first.scene[0].damaged);
    assert!(!second.scene[0].damaged);
    assert!(!third.scene[0].damaged);
    assert_eq!(second.callbacks, vec![FrameCallback { surface: w.surface, client: a, elapsed_ms: 32 }]);
    assert_eq!(third.callbacks, vec![FrameCallback { surface: w.surface, client: a, elapsed_ms: 48 }]);
}

#[test]
fn a_commit_marks_the_window_as_changed_for_one_frame() {
    let mut s = state();
    let a = s.accept().unwrap();
    let w = s.new_toplevel(a).unwrap();
    let b = s.create_buffer(a).unwrap();
    s.commit(w.surface);
    s.ack_configure(w.surface);
    s.tick(&Vec::new(), 16);
    s.attach(w.surface, Some(b));
    let staged = s.tick(&Vec::new(), 32);
    assert_eq!(staged.scene[0].buffer, None);
    assert!(!staged.scene[0].damaged);
    s.commit(w.surface);
    let shown = s.tick(&Vec::new(), 48);
    assert_eq!(shown.scene[0].buffer, Some(b));
    assert!(shown.scene[0].damaged);
    let still = s.tick(&Vec::new(), 64);
    assert_eq!(still.scene[0].buffer, Some(b));
    assert!(!still.scene[0].damaged);
}

#[test]
fn the_scene_keeps_the_order_of_creation_from_tick_to_tick() {
    let mut s = state();
    let a = s.accept().unwrap();
    let w1 = s.new_toplevel(a).unwrap();
    let w2 = s.new_toplevel(a).unwrap();
    let w3 = s.new_toplevel(a).unwrap();
    s.commit(w3.surface);
    s.commit(w1.surface);
    s.commit(w2.surface);
    let order = vec![w1.surface, w2.surface, w3.surface];
    for tick in 0..3u64 {
        let frame = s.tick(&Vec::new(), tick * 16);
        let seen: Vec<SurfaceId> = frame.scene.iter().map(|e| e.surface).collect();
        assert_eq!(seen, order);
    }
}

#[test]
fn input_is_routed_before_the_frame_is_composed() {
    let mut s = state();
    let a = s.accept().unwrap();
    let w = s.new_toplevel(a).unwrap();
    s.commit(w.surface);
    s.bind_key(0x74, ActionToken(1));
    let none = Modifiers { ctrl: false, alt: false, shift: false, logo: false };
    let key =
        KeyEvent { keycode: 38, keysym: 0x61, state: KeyState::Pressed, time_ms: 3, modifiers: none };
    let bound =
        KeyEvent { keycode: 28, keysym: 0x74, state: KeyState::Pressed, time_ms: 4, modifiers: none };
    let button = ButtonEvent { button: 272, state: ButtonState::Pressed, time_ms: 5 };
    let events = vec![InputEvent::Key(key), InputEvent::Key(bound), InputEvent::Button(button)];
    let frame = s.tick(&events, 16);
    assert_eq!(
        frame.outcomes,
        vec![
            DispatchResult::Forwarded(Delivery {
                client: a,
                surface: w.surface,
                serial: 1,
                event: InputEvent::Key(key),
            }),
            DispatchResult::Intercepted(ActionToken(1)),
            DispatchResult::Forwarded(Delivery {
                client: a,
                surface: w.surface,
                serial: 2,
                event: InputEvent::Button(button),
            }),
        ]
    );
    assert_eq!(frame.callbacks.len(), 1);
    assert_eq!(s.next_serial(), 3);
    assert!(s.is_pressed(38));
    assert!(s.is_pressed(28));
    assert!(s.is_button_pressed(272));
}

#[test]
fn two_clients_and_one_invalid_commit() {
    let mut s = state();
    let a = s.accept().unwrap();
    let b = s.accept().unwrap();
    let wa = s.new_toplevel(a).unwrap();
    let wb = s.new_toplevel(b).unwrap();
    s.commit(wa.surface);
    s.commit(wb.surface);
    let before = s.tick(&Vec::new(), 16);
    assert_eq!(before.callbacks.len(), 2);
    let b_before = s.window(wb.surface);
    s.attach(wa.surface, Some(pulsewm::ids::BufferId(77)));
    assert_eq!(
        s.commit(wa.surface),
        SurfaceCommit::Refused { client: a, error: ProtocolError::UnknownBuffer }
    );
    assert!(!s.is_connected(a));
    assert!(s.is_connected(b));
    assert!(!s.window(wa.surface).unwrap().mapped());
    assert_eq!(s.window(wb.surface), b_before);
    let same = s.tick(&Vec::new(), 32);
    assert_eq!(same.callbacks, vec![FrameCallback { surface: wb.surface, client: b, elapsed_ms: 32 }]);
    assert_eq!(same.scene.len(), 1);
    assert_eq!(same.scene[0].surface, wb.surface);
    assert_eq!(s.window(wa.surface), None);
    let next = s.tick(&Vec::new(), 48);
    assert_eq!(next.callbacks, vec![FrameCallback { surface: wb.surface, client: b, elapsed_ms: 48 }]);
}
