use pulsewm::ids::SurfaceId;
use pulsewm::output::{Output, Physical, Subpixel};
use pulsewm::seat::{
    ActionToken, ButtonEvent, ButtonState, Delivery, DispatchResult, InputEvent, KeyEvent,
    KeyState, Modifiers,
};
use pulsewm::state::State;

const KEYSYM_T: u32 = 0x74;
const KEYSYM_A: u32 = 0x61;

fn state() -> State {
    State::new(
        8,
        Output::new(Physical { width_mm: 0, height_mm: 0, subpixel: Subpixel::Unknown }),
    )
}

const NO_MODIFIERS: Modifiers = Modifiers { ctrl: false, alt: false, shift: false, logo: false };

fn press(keycode: u32, keysym: u32, time_ms: u32) -> KeyEvent {
    KeyEvent { keycode, keysym, state: KeyState::Pressed, time_ms, modifiers: NO_MODIFIERS }
}

fn release(keycode: u32, keysym: u32, time_ms: u32) -> KeyEvent {
    KeyEvent { keycode, keysym, state: KeyState::Released, time_ms, modifiers: NO_MODIFIERS }
}

#[test]
fn a_bound_key_is_intercepted_and_reaches_no_client() {
    let mut s = state();
    let a = s.accept().unwrap();
    let _w = s.new_toplevel(a).unwrap();
    assert!(s.bind_key(KEYSYM_T, ActionToken(1)));
    let serial = s.next_serial();
    assert_eq!(s.dispatch_key(press(28, KEYSYM_T, 5)), DispatchResult::Intercepted(ActionToken(1)));
    assert_eq!(s.next_serial(), serial);
}

#[test]
fn a_bound_key_is_intercepted_with_nothing_in_focus() {
    let mut s = state();
    s.bind_key(KEYSYM_T, ActionToken(1));
    assert_eq!(s.dispatch_key(press(28, KEYSYM_T, 5)), DispatchResult::Intercepted(ActionToken(1)));
}

#[test]
fn the_release_of_a_bound_key_goes_the_ordinary_way() {
    let mut s = state();
    let a = s.accept().unwrap();
    let w = s.new_toplevel(a).unwrap();
    s.bind_key(KEYSYM_T, ActionToken(1));
    let key = release(28, KEYSYM_T, 9);
    assert_eq!(
        s.dispatch_key(key),
        DispatchResult::Forwarded(Delivery {
            client: a,
            surface: w.surface,
            serial: 1,
            event: InputEvent::Key(key),
        })
    );
}

#[test]
fn an_unbound_key_goes_to_the_focused_window_with_a_new_serial() {
    let mut s = state();
    let a = s.accept().unwrap();
    let b = s.accept().unwrap();
    let _wa = s.new_toplevel(a).unwrap();
    let wb = s.new_toplevel(b).unwrap();
    s.bind_key(KEYSYM_T, ActionToken(1));
    let key = press(38, KEYSYM_A, 100);
    let first = s.dispatch_key(key);
    assert_eq!(
        first,
        DispatchResult::Forwarded(Delivery {
            client: b,
            surface: wb.surface,
            serial: 1,
            event: InputEvent::Key(key),
        })
    );
    let second = s.dispatch_key(release(38, KEYSYM_A, 120));
    match second {
        DispatchResult::Forwarded(d) => {
            assert_eq!(d.serial, 2);
            assert_eq!(d.client, b);
        },
        _ => panic!("the release should have been forwarded"),
    }
}

#[test]
fn a_key_with_nothing_in_focus_is_dropped() {
    let mut s = state();
    let _a = s.accept().unwrap();
    assert_eq!(s.dispatch_key(press(38, KEYSYM_A, 1)), DispatchResult::Dropped);
    assert_eq!(s.next_serial(), 1);
}

#[test]
fn destroying_the_focused_window_drops_the_focus_and_later_keys() {
    let mut s = state();
    let a = s.accept().unwrap();
    let w = s.new_toplevel(a).unwrap();
    assert_eq!(s.focus(), Some(w.surface));
    s.toplevel_destroyed(w);
    assert_eq!(s.focus(), None);
    assert_eq!(s.dispatch_key(press(38, KEYSYM_A, 1)), DispatchResult::Dropped);
    assert_eq!(s.dispatch_key(release(38, KEYSYM_A, 2)), DispatchResult::Dropped);
    assert_eq!(
        s.dispatch_button(ButtonEvent { button: 272, state: ButtonState::Pressed, time_ms: 3 }),
        DispatchResult::Dropped
    );
    assert_eq!(s.next_serial(), 1);
}

#[test]
fn destroying_another_window_keeps_the_focus() {
    let mut s = state();
    let a = s.accept().unwrap();
    let w1 = s.new_toplevel(a).unwrap();
    let w2 = s.new_toplevel(a).unwrap();
    s.toplevel_destroyed(w1);
    assert_eq!(s.focus(), Some(w2.surface));
}

#[test]
fn the_newest_toplevel_holds_the_focus() {
    let mut s = state();
    let a = s.accept().unwrap();
    assert_eq!(s.focus(), None);
    let w1 = s.new_toplevel(a).unwrap();
    assert_eq!(s.focus(), Some(w1.surface));
    let w2 = s.new_toplevel(a).unwrap();
    assert_eq!(s.focus(), Some(w2.surface));
}

#[test]
fn the_focus_can_be_set_to_a_live_window_or_to_nothing() {
    let mut s = state();
    let a = s.accept().unwrap();
    let w1 = s.new_toplevel(a).unwrap();
    let w2 = s.new_toplevel(a).unwrap();
    assert!(s.set_focus(Some(w1.surface)));
    assert_eq!(s.focus(), Some(w1.surface));
    assert!(!s.set_focus(Some(SurfaceId(99))));
    assert_eq!(s.focus(), Some(w1.surface));
    s.toplevel_destroyed(w2);
    assert!(!s.set_focus(Some(w2.surface)));
    assert_eq!(s.focus(), Some(w1.surface));
    assert!(s.set_focus(None));
    assert_eq!(s.focus(), None);
}

#[test]
fn serials_rise_across_keys_and_buttons() {
    let mut s = state();
    let a = s.accept().unwrap();
    let _w = s.new_toplevel(a).unwrap();
    s.bind_key(KEYSYM_T, ActionToken(1));
    let mut serials: Vec<u64> = Vec::new();
    let results = vec![
        s.dispatch_key(press(38, KEYSYM_A, 1)),
        s.dispatch_button(ButtonEvent { button: 272, state: ButtonState::Pressed, time_ms: 2 }),
        s.dispatch_key(press(28, KEYSYM_T, 3)),
        s.dispatch_button(ButtonEvent { button: 272, state: ButtonState::Released, time_ms: 4 }),
        s.dispatch_key(release(38, KEYSYM_A, 5)),
    ];
    for r in results {
        match r {
            DispatchResult::Forwarded(d) => serials.push(d.serial),
            _ => {},
        }
    }
    assert_eq!(serials, vec![1, 2, 3, 4]);
    assert_eq!(s.next_serial(), 5);
}

#[test]
fn a_button_goes_to_the_focused_window() {
    let mut s = state();
    let a = s.accept().unwrap();
    let w = s.new_toplevel(a).unwrap();
    let button = ButtonEvent { button: 273, state: ButtonState::Pressed, time_ms: 8 };
    assert_eq!(
        s.dispatch_button(button),
        DispatchResult::Forwarded(Delivery {
            client: a,
            surface: w.surface,
            serial: 1,
            event: InputEvent::Button(button),
        })
    );
}

#[test]
fn a_key_symbol_keeps_its_first_binding() {
    let mut s = state();
    assert!(s.bind_key(KEYSYM_T, ActionToken(1)));
    assert!(!s.bind_key(KEYSYM_T, ActionToken(2)));
    assert!(s.bind_key(KEYSYM_A, ActionToken(3)));
    assert_eq!(s.dispatch_key(press(28, KEYSYM_T, 0)), DispatchResult::Intercepted(ActionToken(1)));
    assert_eq!(s.dispatch_key(press(38, KEYSYM_A, 0)), DispatchResult::Intercepted(ActionToken(3)));
}

#[test]
fn held_keys_are_remembered_until_released() {
    let mut s = state();
    s.bind_key(KEYSYM_T, ActionToken(1));
    assert!(!s.is_pressed(38));
    s.dispatch_key(press(38, KEYSYM_A, 1));
    s.dispatch_key(press(28, KEYSYM_T, 2));
    s.dispatch_key(press(38, KEYSYM_A, 3));
    assert!(s.is_pressed(38));
    assert!(s.is_pressed(28));
    s.dispatch_key(release(38, KEYSYM_A, 4));
    assert!(!s.is_pressed(38));
    assert!(s.is_pressed(28));
    s.dispatch_key(release(5, KEYSYM_A, 5));
    assert!(s.is_pressed(28));
}

#[test]
fn held_buttons_are_remembered_until_released() {
    let mut s = state();
    assert!(!s.is_button_pressed(272));
    s.dispatch_button(ButtonEvent { button: 272, state: ButtonState::Pressed, time_ms: 1 });
    s.dispatch_button(ButtonEvent { button: 273, state: ButtonState::Pressed, time_ms: 2 });
    assert!(s.is_button_pressed(272));
    assert!(s.is_button_pressed(273));
    assert!(!s.is_pressed(272));
    s.dispatch_button(ButtonEvent { button: 272, state: ButtonState::Released, time_ms: 3 });
    assert!(!s.is_button_pressed(272));
    assert!(s.is_button_pressed(273));
}

#[test]
fn the_modifiers_follow_the_last_key_event() {
    let mut s = state();
    s.bind_key(KEYSYM_T, ActionToken(1));
    assert_eq!(s.modifiers(), NO_MODIFIERS);
    let shift = Modifiers { shift: true, ..NO_MODIFIERS };
    let shift_down =
        KeyEvent { keycode: 50, keysym: 0xffe1, state: KeyState::Pressed, time_ms: 1, modifiers: shift };
    s.dispatch_key(shift_down);
    assert_eq!(s.modifiers(), shift);
    let logo = Modifiers { logo: true, shift: true, ..NO_MODIFIERS };
    let bound =
        KeyEvent { keycode: 28, keysym: KEYSYM_T, state: KeyState::Pressed, time_ms: 2, modifiers: logo };
    assert_eq!(s.dispatch_key(bound), DispatchResult::Intercepted(ActionToken(1)));
    assert_eq!(s.modifiers(), logo);
    s.dispatch_button(ButtonEvent { button: 272, state: ButtonState::Pressed, time_ms: 3 });
    assert_eq!(s.modifiers(), logo);
}

#[test]
fn a_binding_fires_whatever_modifiers_are_held() {
    let mut s = state();
    s.bind_key(KEYSYM_T, ActionToken(1));
    let held = Modifiers { ctrl: true, alt: true, shift: false, logo: false };
    let key =
        KeyEvent { keycode: 28, keysym: KEYSYM_T, state: KeyState::Pressed, time_ms: 2, modifiers: held };
    assert_eq!(s.dispatch_key(key), DispatchResult::Intercepted(ActionToken(1)));
}

#[test]
fn an_upper_case_symbol_is_another_symbol() {
    let mut s = state();
    let a = s.accept().unwrap();
    let _w = s.new_toplevel(a).unwrap();
    s.bind_key(KEYSYM_T, ActionToken(1));
    let shifted = Modifiers { shift: true, ..NO_MODIFIERS };
    let key =
        KeyEvent { keycode: 28, keysym: 0x54, state: KeyState::Pressed, time_ms: 2, modifiers: shifted };
    assert!(matches!(s.dispatch_key(key), DispatchResult::Forwarded(_)));
}
