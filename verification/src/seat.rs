//! The input seat: keyboard and pointer state, the focus, the global key
//! bindings, and the one serial counter that every forwarded event draws on.

use vstd::prelude::*;
use crate::ids::{ClientId, SurfaceId};
use crate::seqs::lemma_filter_member;
use crate::space::{Space, SpaceModel};
use crate::window::Window;

verus! {

/// Whether a key went down or came up.
#[derive(Clone, Copy, Debug, PartialEq, Eq, Structural)]
pub enum KeyState {
    Released,
    Pressed,
}

/// Whether a pointer button went down or came up.
#[derive(Clone, Copy, Debug, PartialEq, Eq, Structural)]
pub enum ButtonState {
    Released,
    Pressed,
}

/// Which modifiers are in effect.
#[derive(Clone, Copy, Debug, PartialEq, Eq, Structural)]
pub struct Modifiers {
    pub ctrl: bool,
    pub alt: bool,
    pub shift: bool,
    pub logo: bool,
}

/// A key event as the platform reports it, with what the keymap makes of
/// it: the key symbol of the key, and the modifiers in effect once the
/// event is taken into account.
#[derive(Clone, Copy, Debug, PartialEq, Eq, Structural)]
pub struct KeyEvent {
    pub keycode: u32,
    pub keysym: u32,
    pub state: KeyState,
    pub time_ms: u32,
    pub modifiers: Modifiers,
}

/// A pointer button event as the platform reports it.
#[derive(Clone, Copy, Debug, PartialEq, Eq, Structural)]
pub struct ButtonEvent {
    pub button: u32,
    pub state: ButtonState,
    pub time_ms: u32,
}

/// An input event of the keyboard or of the pointer.
#[derive(Clone, Copy, Debug, PartialEq, Eq, Structural)]
pub enum InputEvent {
    Key(KeyEvent),
    Button(ButtonEvent),
}

/// Names what the event loop is to do when a global binding fires: the
/// number of an entry in the caller's table of external programs.
#[derive(Clone, Copy, Debug, PartialEq, Eq, Structural)]
pub struct ActionToken(pub u8);

/// A global key binding: pressing the key with this symbol fires the action.
#[derive(Clone, Copy, Debug, PartialEq, Eq, Structural)]
pub struct Binding {
    pub keysym: u32,
    pub action: ActionToken,
}

/// An input event on its way to a client.
#[derive(Clone, Copy, Debug, PartialEq, Eq, Structural)]
pub struct Delivery {
    pub client: ClientId,
    pub surface: SurfaceId,
    pub serial: u64,
    pub event: InputEvent,
}

/// What became of one input event.
#[derive(Clone, Copy, Debug, PartialEq, Eq, Structural)]
pub enum DispatchResult {
    /// A global binding consumed the event. No client sees it.
    Intercepted(ActionToken),
    /// The event goes to the focused surface's client.
    Forwarded(Delivery),
    /// Nothing holds the focus, or the serials are used up: the event is
    /// dropped.
    Dropped,
}

/// Keeps every code but `code`.
pub open spec fn other_code(code: u32) -> spec_fn(u32) -> bool {
    |k: u32| k != code
}

/// The keys or buttons held down, once the one with code `code` has gone
/// down or come up.
pub open spec fn held_after(held: Seq<u32>, code: u32, down: bool) -> Seq<u32> {
    if !down {
        held.filter(other_code(code))
    } else if held.contains(code) {
        held
    } else {
        held.push(code)
    }
}

/// After an event for `code`, `code` is held exactly if it went down, and
/// every other code is held exactly if it was before.
pub proof fn lemma_held_after(held: Seq<u32>, code: u32, down: bool, other: u32)
    ensures
        held_after(held, code, down).contains(other) == if other == code {
            down
        } else {
            held.contains(other)
        },
{
    lemma_filter_member(held, other_code(code));
    if down && !held.contains(code) {
        let after = held.push(code);
        assert(after[held.len() as int] == code);
        if held.contains(other) {
            let k = held.index_of(other);
            assert(after[k] == other);
        }
    }
}

fn holds(held: &Vec<u32>, code: u32) -> (r: bool)
    ensures
        r == held@.contains(code),
{
    let mut i: usize = 0;
    while i < held.len()
        invariant
            i <= held.len(),
            forall|k: int| 0 <= k < i ==> held@[k] != code,
        decreases held.len() - i,
    {
        if held[i] == code {
            return true;
        }
        i += 1;
    }
    false
}

fn hold(held: &mut Vec<u32>, code: u32, down: bool)
    ensures
        final(held)@ == held_after(old(held)@, code, down),
{
    if down {
        if !holds(held, code) {
            held.push(code);
        }
    } else {
        let mut kept: Vec<u32> = Vec::new();
        let mut i: usize = 0;
        proof {
            reveal(Seq::filter);
            assert(held@.take(0) =~= Seq::<u32>::empty());
        }
        while i < held.len()
            invariant
                i <= held.len(),
                kept@ == held@.take(i as int).filter(other_code(code)),
            decreases held.len() - i,
        {
            let k: u32 = held[i];
            proof {
                assert(held@.take(i + 1) =~= held@.take(i as int).push(k));
                held@.take(i as int).lemma_filter_push(k, other_code(code));
            }
            if k != code {
                kept.push(k);
            }
            i += 1;
        }
        proof {
            assert(held@.take(held.len() as int) =~= held@);
        }
        *held = kept;
    }
}

/// The seat as a mathematical value.
pub struct SeatModel {
    /// The surface that input goes to. Only a name: the window is looked up
    /// again at every dispatch.
    pub focus: Option<SurfaceId>,
    /// The serial that the next forwarded event gets.
    pub next_serial: u64,
    /// The global bindings, in the order in which they were registered.
    pub bindings: Seq<Binding>,
    /// The keycodes of the keys that are held down.
    pub pressed: Seq<u32>,
    /// The modifiers in effect, as of the last key event.
    pub modifiers: Modifiers,
    /// The codes of the pointer buttons that are held down.
    pub buttons: Seq<u32>,
}

impl SeatModel {
    /// What holds of every seat: no key symbol is bound twice.
    pub open spec fn inv(self) -> bool {
        forall|i: int, j: int|
            0 <= i < j < self.bindings.len() ==> (#[trigger] self.bindings[i]).keysym != (
            #[trigger] self.bindings[j]).keysym
    }

    /// The seat to begin with.
    pub open spec fn empty() -> SeatModel {
        SeatModel {
            focus: None,
            next_serial: 1,
            bindings: Seq::empty(),
            pressed: Seq::empty(),
            modifiers: Modifiers { ctrl: false, alt: false, shift: false, logo: false },
            buttons: Seq::empty(),
        }
    }

    /// Whether `keysym` has a binding.
    pub open spec fn bound(self, keysym: u32) -> bool {
        exists|i: int| 0 <= i < self.bindings.len() && (#[trigger] self.bindings[i]).keysym == keysym
    }

    /// The action bound to `keysym`, if one is.
    pub open spec fn action_for(self, keysym: u32) -> Option<ActionToken> {
        if self.bound(keysym) {
            let i = choose|i: int|
                0 <= i < self.bindings.len() && (#[trigger] self.bindings[i]).keysym == keysym;
            Some(self.bindings[i].action)
        } else {
            None
        }
    }

    /// The seat with `keysym` bound to `action`, unless `keysym` was bound
    /// already.
    pub open spec fn bind(self, keysym: u32, action: ActionToken) -> SeatModel {
        if self.bound(keysym) {
            self
        } else {
            SeatModel { bindings: self.bindings.push(Binding { keysym, action }), ..self }
        }
    }

    /// The global filter: a bound key symbol, on press.
    pub open spec fn intercepts(self, key: KeyEvent) -> Option<ActionToken> {
        if key.state is Pressed {
            self.action_for(key.keysym)
        } else {
            None
        }
    }

    /// Whether the key with this keycode is held down.
    pub open spec fn is_pressed(self, keycode: u32) -> bool {
        self.pressed.contains(keycode)
    }

    /// Whether the pointer button with this code is held down.
    pub open spec fn is_button_pressed(self, button: u32) -> bool {
        self.buttons.contains(button)
    }

    /// The seat with `event` noted in its keyboard or pointer state: which
    /// keys and buttons are held, and which modifiers are in effect. This
    /// happens to every event, whatever becomes of it afterwards.
    pub open spec fn note(self, event: InputEvent) -> SeatModel {
        match event {
            InputEvent::Key(key) => SeatModel {
                pressed: held_after(self.pressed, key.keycode, key.state is Pressed),
                modifiers: key.modifiers,
                ..self
            },
            InputEvent::Button(button) => SeatModel {
                buttons: held_after(self.buttons, button.button, button.state is Pressed),
                ..self
            },
        }
    }

    /// The window that input goes to: the focused one, if it still lives.
    pub open spec fn target(self, space: SpaceModel) -> Option<Window> {
        match self.focus {
            Some(s) => if space.live(s) {
                space.window(s)
            } else {
                None
            },
            None => None,
        }
    }

    /// The seat with the focus on the live window on `to`, or on nothing; a
    /// target that is no live window leaves the focus where it was.
    pub open spec fn set_focus(self, space: SpaceModel, to: Option<SurfaceId>) -> SeatModel {
        match to {
            Some(s) => if space.live(s) {
                SeatModel { focus: to, ..self }
            } else {
                self
            },
            None => SeatModel { focus: None, ..self },
        }
    }

    /// The seat with the focus kept only if its window still lives.
    pub open spec fn revalidate(self, space: SpaceModel) -> SeatModel {
        match self.target(space) {
            Some(w) => self,
            None => SeatModel { focus: None, ..self },
        }
    }

    /// The seat after `event` went the ordinary way, past the filter.
    pub open spec fn forward(self, space: SpaceModel) -> SeatModel {
        match self.target(space) {
            Some(w) => if self.next_serial < u64::MAX {
                SeatModel { next_serial: (self.next_serial + 1) as u64, ..self }
            } else {
                self
            },
            None => SeatModel { focus: None, ..self },
        }
    }

    /// What becomes of an event that goes the ordinary way: it is forwarded
    /// to the client of the focused window with the next serial, or dropped
    /// where no live window is in focus or no serial is left.
    pub open spec fn forwarded(self, space: SpaceModel, event: InputEvent) -> DispatchResult {
        match self.target(space) {
            Some(w) => if self.next_serial < u64::MAX {
                DispatchResult::Forwarded(
                    Delivery {
                        client: w.surface.client,
                        surface: w.surface.id,
                        serial: self.next_serial,
                        event,
                    },
                )
            } else {
                DispatchResult::Dropped
            },
            None => DispatchResult::Dropped,
        }
    }

    /// The seat after one input event.
    pub open spec fn dispatch(self, space: SpaceModel, event: InputEvent) -> SeatModel {
        if self.outcome(space, event) is Intercepted {
            self.note(event)
        } else {
            self.note(event).forward(space)
        }
    }

    /// What becomes of one input event.
    pub open spec fn outcome(self, space: SpaceModel, event: InputEvent) -> DispatchResult {
        match event {
            InputEvent::Key(key) => match self.intercepts(key) {
                Some(action) => DispatchResult::Intercepted(action),
                None => self.forwarded(space, event),
            },
            InputEvent::Button(_) => self.forwarded(space, event),
        }
    }

    /// The seat after a run of input events, taken in order.
    pub open spec fn run(self, space: SpaceModel, events: Seq<InputEvent>) -> SeatModel
        decreases events.len(),
    {
        if events.len() == 0 {
            self
        } else {
            self.run(space, events.drop_last()).dispatch(space, events.last())
        }
    }

    /// What becomes of each event of a run, in order.
    pub open spec fn outcomes(self, space: SpaceModel, events: Seq<InputEvent>) -> Seq<
        DispatchResult,
    >
        decreases events.len(),
    {
        if events.len() == 0 {
            Seq::empty()
        } else {
            self.outcomes(space, events.drop_last()).push(
                self.run(space, events.drop_last()).outcome(space, events.last()),
            )
        }
    }

    /// A binding found at a place is the binding that `action_for` gives.
    pub proof fn lemma_binding(self, i: int)
        requires
            self.inv(),
            0 <= i < self.bindings.len(),
        ensures
            self.bound(self.bindings[i].keysym),
            self.action_for(self.bindings[i].keysym) == Some(self.bindings[i].action),
    {
        let keysym = self.bindings[i].keysym;
        let k = choose|k: int|
            0 <= k < self.bindings.len() && (#[trigger] self.bindings[k]).keysym == keysym;
        if k < i {
            assert(self.bindings[k].keysym != self.bindings[i].keysym);
        } else if i < k {
            assert(self.bindings[i].keysym != self.bindings[k].keysym);
        }
    }

    /// Registering a binding keeps the seat valid. A free key symbol is bound
    /// to the action; a bound one keeps the action it had.
    pub proof fn lemma_bind(self, keysym: u32, action: ActionToken)
        requires
            self.inv(),
        ensures
            self.bind(keysym, action).inv(),
            self.bind(keysym, action).action_for(keysym) == if self.bound(keysym) {
                self.action_for(keysym)
            } else {
                Some(action)
            },
            forall|other: u32|
                other != keysym ==> #[trigger] self.bind(keysym, action).action_for(other)
                    == self.action_for(other),
    {
        let post = self.bind(keysym, action);
        if !self.bound(keysym) {
            let n = self.bindings.len() as int;
            assert(post.bindings[n] == Binding { keysym, action });
            assert forall|i: int, j: int| 0 <= i < j < post.bindings.len() implies (
            #[trigger] post.bindings[i]).keysym != (#[trigger] post.bindings[j]).keysym by {
                if j < n {
                    assert(self.bindings[i].keysym != self.bindings[j].keysym);
                } else {
                    assert(self.bindings[i].keysym != keysym);
                }
            }
            post.lemma_binding(n);
            assert forall|other: u32| other != keysym implies #[trigger] post.action_for(other)
                == self.action_for(other) by {
                if self.bound(other) {
                    let i = choose|i: int|
                        0 <= i < self.bindings.len() && (#[trigger] self.bindings[i]).keysym
                            == other;
                    assert(post.bindings[i] == self.bindings[i]);
                    post.lemma_binding(i);
                }
                if post.bound(other) {
                    let i = choose|i: int|
                        0 <= i < post.bindings.len() && (#[trigger] post.bindings[i]).keysym
                            == other;
                    assert(self.bindings[i].keysym == other);
                }
            }
        }
    }

    /// One event: the seat stays valid, bindings stay, the counter never
    /// goes back, and a forwarded event carries exactly the serial that the
    /// counter stood at, goes to the live focused window, and moves the
    /// counter past its serial.
    pub proof fn lemma_dispatch(self, space: SpaceModel, event: InputEvent)
        requires
            self.inv(),
        ensures
            self.dispatch(space, event).inv(),
            self.dispatch(space, event).bindings == self.bindings,
            self.next_serial <= self.dispatch(space, event).next_serial,
            match self.outcome(space, event) {
                DispatchResult::Forwarded(d) => {
                    &&& d.serial == self.next_serial
                    &&& self.dispatch(space, event).next_serial == d.serial + 1
                    &&& self.focus == Some(d.surface)
                    &&& space.live(d.surface)
                    &&& space.window(d.surface)->0.surface.client == d.client
                    &&& d.event == event
                },
                _ => self.dispatch(space, event).next_serial == self.next_serial,
            },
            self.dispatch(space, event).focus == self.focus || self.dispatch(space, event).focus
                is None,
    {
        match self.focus {
            Some(s) => {
                if space.live(s) {
                    space.lemma_window(s);
                }
            },
            None => {},
        }
    }

    /// A run of events: the seat stays valid, and there is one outcome for
    /// each event.
    pub proof fn lemma_run(self, space: SpaceModel, events: Seq<InputEvent>)
        requires
            self.inv(),
        ensures
            self.run(space, events).inv(),
            self.run(space, events).bindings == self.bindings,
            self.outcomes(space, events).len() == events.len(),
            self.next_serial <= self.run(space, events).next_serial,
            self.run(space, events).focus == self.focus || self.run(space, events).focus is None,
            forall|i: int|
                0 <= i < events.len() ==> (#[trigger] self.outcomes(space, events)[i]
                    matches DispatchResult::Forwarded(d) ==> self.next_serial <= d.serial
                    < self.run(space, events).next_serial),
        decreases events.len(),
    {
        if events.len() > 0 {
            let head = events.drop_last();
            self.lemma_run(space, head);
            let mid = self.run(space, head);
            mid.lemma_dispatch(space, events.last());
            assert forall|i: int| 0 <= i < events.len() implies (#[trigger] self.outcomes(
                space,
                events,
            )[i] matches DispatchResult::Forwarded(d) ==> self.next_serial <= d.serial
                < self.run(space, events).next_serial) by {
                if i < head.len() {
                    assert(self.outcomes(space, events)[i] == self.outcomes(space, head)[i]);
                }
            }
        }
    }

    /// A run of events, outcome by outcome. An event is intercepted exactly
    /// when the filter matches it, and then yields the bound action. A
    /// forwarded event is the event that came in, goes to the live focused
    /// window and its client, and carries a serial above those of all
    /// events forwarded before it.
    pub proof fn lemma_outcomes(self, space: SpaceModel, events: Seq<InputEvent>)
        requires
            self.inv(),
        ensures
            self.outcomes(space, events).len() == events.len(),
            forall|i: int|
                0 <= i < events.len() ==> (#[trigger] self.outcomes(space, events)[i]
                    matches DispatchResult::Intercepted(a) ==> events[i] matches InputEvent::Key(
                    k,
                ) && self.intercepts(k) == Some(a)),
            forall|i: int|
                0 <= i < events.len() ==> (events[i] matches InputEvent::Key(k) ==> (
                self.intercepts(k) is Some ==> #[trigger] self.outcomes(space, events)[i]
                    == DispatchResult::Intercepted(self.intercepts(k)->0))),
            forall|i: int|
                0 <= i < events.len() ==> (#[trigger] self.outcomes(space, events)[i]
                    matches DispatchResult::Forwarded(d) ==> {
                    &&& d.event == events[i]
                    &&& self.focus == Some(d.surface)
                    &&& space.live(d.surface)
                    &&& space.window(d.surface)->0.surface.client == d.client
                    &&& self.next_serial <= d.serial < self.run(space, events).next_serial
                }),
            forall|i: int, j: int|
                0 <= i < j < events.len() ==> (#[trigger] self.outcomes(space, events)[i]
                    matches DispatchResult::Forwarded(a) ==> (#[trigger] self.outcomes(
                    space,
                    events,
                )[j] matches DispatchResult::Forwarded(b) ==> a.serial < b.serial)),
        decreases events.len(),
    {
        if events.len() > 0 {
            let head = events.drop_last();
            let last = events.last();
            self.lemma_outcomes(space, head);
            self.lemma_run(space, head);
            let mid = self.run(space, head);
            mid.lemma_dispatch(space, last);
            let outs = self.outcomes(space, events);
            let n = head.len() as int;
            assert(outs[n] == mid.outcome(space, last));
            assert forall|i: int| 0 <= i < n implies #[trigger] outs[i] == self.outcomes(
                space,
                head,
            )[i] && events[i] == head[i] by {}
            assert(forall|k: crate::seat::KeyEvent| mid.intercepts(k) == self.intercepts(k));
        }
    }
}

/// The input seat router.
pub struct Seat {
    focus: Option<SurfaceId>,
    next_serial: u64,
    bindings: Vec<Binding>,
    pressed: Vec<u32>,
    modifiers: Modifiers,
    buttons: Vec<u32>,
}

impl View for Seat {
    type V = SeatModel;

    closed spec fn view(&self) -> SeatModel {
        SeatModel {
            focus: self.focus,
            next_serial: self.next_serial,
            bindings: self.bindings@,
            pressed: self.pressed@,
            modifiers: self.modifiers,
            buttons: self.buttons@,
        }
    }
}

impl Seat {
    /// A seat without focus, bindings or held keys, whose first serial is 1.
    pub fn new() -> (s: Seat)
        ensures
            s@ == SeatModel::empty(),
            s@.inv(),
    {
        Seat {
            focus: None,
            next_serial: 1,
            bindings: Vec::new(),
            pressed: Vec::new(),
            modifiers: Modifiers { ctrl: false, alt: false, shift: false, logo: false },
            buttons: Vec::new(),
        }
    }

    /// The surface that input goes to.
    pub fn focus(&self) -> (f: Option<SurfaceId>)
        ensures
            f == self@.focus,
    {
        self.focus
    }

    /// The serial that the next forwarded event will carry.
    pub fn next_serial(&self) -> (n: u64)
        ensures
            n == self@.next_serial,
    {
        self.next_serial
    }

    /// The action bound to `keysym`, if one is.
    pub fn action_for(&self, keysym: u32) -> (r: Option<ActionToken>)
        requires
            self@.inv(),
        ensures
            r == self@.action_for(keysym),
    {
        let mut i: usize = 0;
        while i < self.bindings.len()
            invariant
                self@.inv(),
                i <= self.bindings.len(),
                forall|k: int| 0 <= k < i ==> (#[trigger] self.bindings@[k]).keysym != keysym,
            decreases self.bindings.len() - i,
        {
            if self.bindings[i].keysym == keysym {
                proof {
                    self@.lemma_binding(i as int);
                }
                return Some(self.bindings[i].action);
            }
            i += 1;
        }
        None
    }

    /// Registers a global binding. A key symbol that is bound already keeps
    /// its action; the result says whether the binding was added.
    pub fn bind(&mut self, keysym: u32, action: ActionToken) -> (added: bool)
        requires
            old(self)@.inv(),
        ensures
            final(self)@ == old(self)@.bind(keysym, action),
            added == !old(self)@.bound(keysym),
            final(self)@.inv(),
    {
        proof {
            self@.lemma_bind(keysym, action);
        }
        match self.action_for(keysym) {
            Some(_) => false,
            None => {
                self.bindings.push(Binding { keysym, action });
                true
            },
        }
    }

    /// Whether the key with this keycode is held down.
    pub fn is_pressed(&self, keycode: u32) -> (r: bool)
        ensures
            r == self@.is_pressed(keycode),
    {
        holds(&self.pressed, keycode)
    }

    /// Whether the pointer button with this code is held down.
    pub fn is_button_pressed(&self, button: u32) -> (r: bool)
        ensures
            r == self@.is_button_pressed(button),
    {
        holds(&self.buttons, button)
    }

    /// The modifiers in effect, as of the last key event.
    pub fn modifiers(&self) -> (m: Modifiers)
        ensures
            m == self@.modifiers,
    {
        self.modifiers
    }

    /// Gives the focus to the live window on `to`, or to nothing. A target
    /// that is no live window leaves the focus as it was; the result says
    /// whether the focus was set as asked.
    pub fn set_focus(&mut self, space: &Space, to: Option<SurfaceId>) -> (set: bool)
        requires
            space@.inv(),
        ensures
            final(self)@ == old(self)@.set_focus(space@, to),
            set == (to matches Some(s) ==> space@.live(s)),
    {
        match to {
            Some(s) => match space.window(s) {
                Some(w) => {
                    if w.alive {
                        self.focus = to;
                        true
                    } else {
                        false
                    }
                },
                None => false,
            },
            None => {
                self.focus = None;
                true
            },
        }
    }

    /// Drops the focus unless it names a live window of `space`.
    pub fn revalidate(&mut self, space: &Space)
        requires
            space@.inv(),
        ensures
            final(self)@ == old(self)@.revalidate(space@),
    {
        let keep: bool = match self.focus {
            Some(s) => match space.window(s) {
                Some(w) => w.alive,
                None => false,
            },
            None => false,
        };
        if !keep {
            self.focus = None;
        }
    }

    fn note(&mut self, event: InputEvent)
        ensures
            final(self)@ == old(self)@.note(event),
    {
        match event {
            InputEvent::Key(key) => {
                let down: bool = match key.state {
                    KeyState::Pressed => true,
                    KeyState::Released => false,
                };
                hold(&mut self.pressed, key.keycode, down);
                self.modifiers = key.modifiers;
            },
            InputEvent::Button(button) => {
                let down: bool = match button.state {
                    ButtonState::Pressed => true,
                    ButtonState::Released => false,
                };
                hold(&mut self.buttons, button.button, down);
            },
        }
    }

    fn forward(&mut self, space: &Space, event: InputEvent) -> (r: DispatchResult)
        requires
            space@.inv(),
        ensures
            final(self)@ == old(self)@.forward(space@),
            r == old(self)@.forwarded(space@, event),
    {
        let target: Option<Window> = match self.focus {
            Some(s) => match space.window(s) {
                Some(w) => if w.alive {
                    Some(w)
                } else {
                    None
                },
                None => None,
            },
            None => None,
        };
        match target {
            Some(w) => {
                if self.next_serial < u64::MAX {
                    let serial: u64 = self.next_serial;
                    self.next_serial = serial + 1;
                    DispatchResult::Forwarded(
                        Delivery {
                            client: w.surface.client,
                            surface: w.surface.id,
                            serial,
                            event,
                        },
                    )
                } else {
                    DispatchResult::Dropped
                }
            },
            None => {
                self.focus = None;
                DispatchResult::Dropped
            },
        }
    }

    /// Routes one key event. The global filter sees it first: a bound key
    /// symbol, on press, is consumed and yields its action. Any other key
    /// goes to the client of the focused window with the next serial, or is
    /// dropped where there is no live focused window.
    pub fn dispatch_key(&mut self, space: &Space, key: KeyEvent) -> (r: DispatchResult)
        requires
            old(self)@.inv(),
            space@.inv(),
        ensures
            final(self)@ == old(self)@.dispatch(space@, InputEvent::Key(key)),
            r == old(self)@.outcome(space@, InputEvent::Key(key)),
            final(self)@.inv(),
    {
        proof {
            self@.lemma_dispatch(space@, InputEvent::Key(key));
        }
        let hit: Option<ActionToken> = match key.state {
            KeyState::Pressed => self.action_for(key.keysym),
            KeyState::Released => None,
        };
        self.note(InputEvent::Key(key));
        match hit {
            Some(action) => DispatchResult::Intercepted(action),
            None => self.forward(space, InputEvent::Key(key)),
        }
    }

    /// Routes one pointer button event: to the client of the focused window
    /// with the next serial, or nowhere.
    pub fn dispatch_button(&mut self, space: &Space, button: ButtonEvent) -> (r: DispatchResult)
        requires
            old(self)@.inv(),
            space@.inv(),
        ensures
            final(self)@ == old(self)@.dispatch(space@, InputEvent::Button(button)),
            r == old(self)@.outcome(space@, InputEvent::Button(button)),
            final(self)@.inv(),
    {
        proof {
            self@.lemma_dispatch(space@, InputEvent::Button(button));
        }
        self.note(InputEvent::Button(button));
        self.forward(space, InputEvent::Button(button))
    }

    /// Routes one input event of either kind.
    pub fn dispatch(&mut self, space: &Space, event: InputEvent) -> (r: DispatchResult)
        requires
            old(self)@.inv(),
            space@.inv(),
        ensures
            final(self)@ == old(self)@.dispatch(space@, event),
            r == old(self)@.outcome(space@, event),
            final(self)@.inv(),
    {
        match event {
            InputEvent::Key(key) => self.dispatch_key(space, key),
            InputEvent::Button(button) => self.dispatch_button(space, button),
        }
    }

    /// Routes a batch of input events in order and gives one outcome for
    /// each.
    pub fn dispatch_all(&mut self, space: &Space, events: &Vec<InputEvent>) -> (r: Vec<
        DispatchResult,
    >)
        requires
            old(self)@.inv(),
            space@.inv(),
        ensures
            final(self)@ == old(self)@.run(space@, events@),
            r@ == old(self)@.outcomes(space@, events@),
            final(self)@.inv(),
    {
        let mut out: Vec<DispatchResult> = Vec::new();
        let mut i: usize = 0;
        proof {
            assert(events@.take(0) =~= Seq::<InputEvent>::empty());
        }
        while i < events.len()
            invariant
                i <= events.len(),
                space@.inv(),
                self@.inv(),
                self@ == old(self)@.run(space@, events@.take(i as int)),
                out@ == old(self)@.outcomes(space@, events@.take(i as int)),
            decreases events.len() - i,
        {
            let event = events[i];
            proof {
                assert(events@.take(i + 1).drop_last() =~= events@.take(i as int));
                assert(events@.take(i + 1).last() == event);
            }
            let r = self.dispatch(space, event);
            out.push(r);
            i += 1;
        }
        proof {
            assert(events@.take(events.len() as int) =~= events@);
        }
        out
    }
}

} // verus!
