//! The compositor state: the one context that every operation works on.

use vstd::prelude::*;
use crate::frame::{Frame, FRAME_PERIOD_MS};
use crate::ids::{BufferId, ClientId, SurfaceId, WindowHandle};
use crate::model::Model;
use crate::output::{Mode, Output, Transform};
use crate::protocol::{Request, Response};
use crate::registry::{ClientRegistry, ConnectionRejected};
use crate::seat::{
    ActionToken, ButtonEvent, DispatchResult, InputEvent, KeyEvent, Modifiers, Seat,
};
use crate::space::{Space, SurfaceCommit};
use crate::window::{Position, ProtocolError, Window};

verus! {

/// The compositor's whole state. It is built once at startup and handed to
/// every operation; nothing lives outside it.
pub struct State {
    registry: ClientRegistry,
    space: Space,
    seat: Seat,
    output: Output,
}

impl View for State {
    type V = Model;

    closed spec fn view(&self) -> Model {
        Model {
            registry: self.registry@,
            space: self.space@,
            seat: self.seat@,
            output: self.output,
        }
    }
}

impl State {
    /// A state without clients, windows, focus or bindings, which admits up
    /// to `max_clients` connections at a time and drives `output`.
    pub fn new(max_clients: usize, output: Output) -> (s: State)
        ensures
            s@ == Model::initial(max_clients, output),
            s@.inv(),
    {
        State {
            registry: ClientRegistry::new(max_clients),
            space: Space::new(),
            seat: Seat::new(),
            output,
        }
    }

    /// Admits a new connection. It is turned away exactly when no per-client
    /// state can be had: the registry is full or out of client numbers. The
    /// clients already connected are not touched either way.
    pub fn accept(&mut self) -> (r: Result<ClientId, ConnectionRejected>)
        requires
            old(self)@.inv(),
        ensures
            final(self)@ == old(self)@.accept(),
            r == old(self)@.accepted(),
            final(self)@.inv(),
    {
        proof {
            self@.lemma_accept();
        }
        self.registry.accept()
    }

    /// Tears down client `c`: its record and buffers are forgotten, its
    /// windows destroyed, and the focus dropped if one of them held it.
    pub fn on_disconnect(&mut self, c: ClientId)
        requires
            old(self)@.inv(),
        ensures
            final(self)@ == old(self)@.disconnect(c),
            final(self)@.inv(),
    {
        proof {
            self@.lemma_disconnect(c);
        }
        self.registry.disconnect(c);
        self.space.release_client(c);
        self.seat.revalidate(&self.space);
    }

    /// Makes a toplevel window for client `c`: unconfigured, at the origin,
    /// holding the focus. Gives none, and changes nothing, if `c` is not
    /// connected or the surface numbers have run out.
    pub fn new_toplevel(&mut self, c: ClientId) -> (r: Option<WindowHandle>)
        requires
            old(self)@.inv(),
        ensures
            final(self)@ == old(self)@.new_toplevel(c),
            r == old(self)@.created_toplevel(c),
            final(self)@.inv(),
    {
        proof {
            self@.lemma_new_toplevel(c);
        }
        if !self.registry.is_connected(c) {
            return None;
        }
        match self.space.create_toplevel(c) {
            Some(h) => {
                self.seat.set_focus(&self.space, Some(h.surface));
                Some(h)
            },
            None => None,
        }
    }

    /// Notes a new buffer of client `c`. Gives none if `c` is not connected
    /// or the buffer numbers have run out.
    pub fn create_buffer(&mut self, c: ClientId) -> (r: Option<BufferId>)
        requires
            old(self)@.inv(),
        ensures
            final(self)@ == old(self)@.create_buffer(c),
            r == old(self)@.created_buffer(c),
            final(self)@.inv(),
    {
        proof {
            self@.lemma_create_buffer(c);
        }
        self.registry.create_buffer(c)
    }

    /// Forgets buffer `b`.
    pub fn buffer_destroyed(&mut self, b: BufferId)
        requires
            old(self)@.inv(),
        ensures
            final(self)@ == old(self)@.destroy_buffer(b),
            final(self)@.inv(),
    {
        proof {
            self@.lemma_destroy_buffer(b);
        }
        self.registry.buffer_destroyed(b);
    }

    /// Stages `buffer` on surface `s`. Says whether `s` has a live window.
    pub fn attach(&mut self, s: SurfaceId, buffer: Option<BufferId>) -> (staged: bool)
        requires
            old(self)@.inv(),
        ensures
            final(self)@ == old(self)@.attach(s, buffer),
            staged == old(self)@.space.live(s),
            final(self)@.inv(),
    {
        proof {
            self@.lemma_attach(s, buffer);
        }
        self.space.attach(s, buffer)
    }

    /// Commits surface `s`.
    ///
    /// Where `s` has no live window, nothing happens. Where the staged
    /// buffer is not one of the client's, or is committed before the client
    /// acknowledged the initial configure, the client is disconnected and
    /// nothing is applied. Otherwise the staged state becomes current; on
    /// the window's first commit the result asks for the initial configure
    /// to be sent, and on no later one.
    pub fn commit(&mut self, s: SurfaceId) -> (r: SurfaceCommit)
        requires
            old(self)@.inv(),
        ensures
            final(self)@ == old(self)@.commit(s),
            r == old(self)@.committed(s),
            final(self)@.inv(),
    {
        proof {
            self@.lemma_commit(s);
        }
        let r = self.space.commit(s, &self.registry);
        match r {
            SurfaceCommit::Refused { client, error } => {
                self.on_disconnect(client);
            },
            _ => {},
        }
        r
    }

    /// Records that the client acknowledged the initial configure of the
    /// window on `s`. Says whether the window was waiting for that.
    pub fn ack_configure(&mut self, s: SurfaceId) -> (acknowledged: bool)
        requires
            old(self)@.inv(),
        ensures
            final(self)@ == old(self)@.ack_configure(s),
            acknowledged == old(self)@.space.awaits_acknowledge(s),
            final(self)@.inv(),
    {
        proof {
            self@.lemma_ack_configure(s);
        }
        self.space.ack_configure(s)
    }

    /// Destroys a window. If it held the focus, nothing holds it afterwards.
    /// Destroying a window twice, or one that never was, changes nothing.
    /// Says whether a window was destroyed.
    pub fn toplevel_destroyed(&mut self, window: WindowHandle) -> (destroyed: bool)
        requires
            old(self)@.inv(),
        ensures
            final(self)@ == old(self)@.destroy(window.surface),
            destroyed == old(self)@.space.live(window.surface),
            final(self)@.inv(),
    {
        proof {
            self@.lemma_destroy(window.surface);
        }
        let destroyed = self.space.destroy(window.surface);
        self.seat.revalidate(&self.space);
        destroyed
    }

    /// Gives the focus to the live window on `to`, or to nothing. Says
    /// whether the focus was set as asked; if not, it is as it was.
    pub fn set_focus(&mut self, to: Option<SurfaceId>) -> (set: bool)
        requires
            old(self)@.inv(),
        ensures
            final(self)@ == old(self)@.set_focus(to),
            set == (to matches Some(s) ==> old(self)@.space.live(s)),
            final(self)@.inv(),
    {
        self.seat.set_focus(&self.space, to)
    }

    /// Registers a global key binding. Says whether it was added; a key
    /// symbol that is bound already keeps its action.
    pub fn bind_key(&mut self, keysym: u32, action: ActionToken) -> (added: bool)
        requires
            old(self)@.inv(),
        ensures
            final(self)@ == old(self)@.bind(keysym, action),
            added == !old(self)@.seat.bound(keysym),
            final(self)@.inv(),
    {
        proof {
            self@.lemma_bind(keysym, action);
        }
        self.seat.bind(keysym, action)
    }

    /// Routes one key event: intercepted by a global binding, forwarded to
    /// the focused window's client with the next serial, or dropped.
    pub fn dispatch_key(&mut self, key: KeyEvent) -> (r: DispatchResult)
        requires
            old(self)@.inv(),
        ensures
            final(self)@ == old(self)@.input(InputEvent::Key(key)),
            r == old(self)@.input_outcome(InputEvent::Key(key)),
            final(self)@.inv(),
    {
        proof {
            self@.lemma_input(InputEvent::Key(key));
        }
        self.seat.dispatch_key(&self.space, key)
    }

    /// Routes one pointer button event: forwarded to the focused window's
    /// client with the next serial, or dropped.
    pub fn dispatch_button(&mut self, button: ButtonEvent) -> (r: DispatchResult)
        requires
            old(self)@.inv(),
        ensures
            final(self)@ == old(self)@.input(InputEvent::Button(button)),
            r == old(self)@.input_outcome(InputEvent::Button(button)),
            final(self)@.inv(),
    {
        proof {
            self@.lemma_input(InputEvent::Button(button));
        }
        self.seat.dispatch_button(&self.space, button)
    }

    /// One tick of the frame timer.
    ///
    /// The drained input events are routed first, in order. The scene and
    /// the frame callbacks are then taken from the windows mapped at that
    /// moment, oldest first: one scene element and one callback for each,
    /// and none for any other window. Last, the space is tidied: destroyed
    /// windows are dropped and no window counts as changed any more.
    pub fn tick(&mut self, events: &Vec<InputEvent>, elapsed_ms: u64) -> (frame: Frame)
        requires
            old(self)@.inv(),
        ensures
            final(self)@ == old(self)@.tick(events@),
            frame@ == old(self)@.frame(events@, elapsed_ms),
            final(self)@.inv(),
    {
        proof {
            self@.lemma_tick(events@);
        }
        let outcomes = self.seat.dispatch_all(&self.space, events);
        let scene = self.space.scene();
        let callbacks = self.space.callbacks(elapsed_ms);
        self.space.refresh();
        Frame { outcomes, scene, callbacks, next_tick_ms: FRAME_PERIOD_MS }
    }

    /// Handles one request of client `client`.
    ///
    /// A request from a client that is not connected is ignored. A request
    /// that names a surface of another client disconnects the sender. Any
    /// other request is carried out as the operation of its name.
    pub fn handle_request(&mut self, client: ClientId, req: Request) -> (r: Response)
        requires
            old(self)@.inv(),
        ensures
            final(self)@ == old(self)@.request(client, req),
            r == old(self)@.response(client, req),
            final(self)@.inv(),
    {
        proof {
            self@.lemma_request(client, req);
        }
        if !self.registry.is_connected(client) {
            return Response::Ignored;
        }
        let trespasses: bool = match req.named_surface() {
            Some(s) => match self.space.window(s) {
                Some(w) => w.surface.client.0 != client.0,
                None => false,
            },
            None => false,
        };
        if trespasses {
            self.on_disconnect(client);
            return Response::Disconnected { client, error: ProtocolError::ForeignSurface };
        }
        match req {
            Request::CreateToplevel => match self.new_toplevel(client) {
                Some(h) => Response::ToplevelCreated(h),
                None => Response::Exhausted,
            },
            Request::CreateBuffer => match self.create_buffer(client) {
                Some(b) => Response::BufferCreated(b),
                None => Response::Exhausted,
            },
            Request::DestroyBuffer { id } => {
                if self.registry.owns(client, id) {
                    self.buffer_destroyed(id);
                    Response::Done
                } else {
                    Response::Ignored
                }
            },
            Request::Attach { surface, buffer } => {
                if self.attach(surface, buffer) {
                    Response::Done
                } else {
                    Response::Ignored
                }
            },
            Request::Commit { surface } => match self.commit(surface) {
                SurfaceCommit::Ignored => Response::Ignored,
                SurfaceCommit::Refused { client, error } => Response::Disconnected { client, error },
                SurfaceCommit::Applied { configure } => {
                    if configure {
                        Response::Configure { surface }
                    } else {
                        Response::Done
                    }
                },
            },
            Request::AckConfigure { surface } => {
                if self.ack_configure(surface) {
                    Response::Done
                } else {
                    Response::Ignored
                }
            },
            Request::Destroy { window } => {
                if self.toplevel_destroyed(window) {
                    Response::Done
                } else {
                    Response::Ignored
                }
            },
        }
    }

    /// Changes what is given of the output's state and keeps the rest.
    pub fn change_output(
        &mut self,
        mode: Option<Mode>,
        transform: Option<Transform>,
        scale: Option<i32>,
        location: Option<Position>,
    )
        requires
            old(self)@.inv(),
        ensures
            final(self)@ == old(self)@.change_output(mode, transform, scale, location),
            final(self)@.inv(),
    {
        self.output.change_current_state(mode, transform, scale, location);
    }

    /// The output as it is advertised.
    pub fn output(&self) -> (o: Output)
        ensures
            o == self@.output,
    {
        self.output
    }

    /// Whether client `c` is connected.
    pub fn is_connected(&self, c: ClientId) -> (r: bool)
        ensures
            r == self@.registry.has_client(c),
    {
        self.registry.is_connected(c)
    }

    /// The number of connected clients.
    pub fn client_count(&self) -> (n: usize)
        ensures
            n == self@.registry.clients.len(),
    {
        self.registry.client_count()
    }

    /// The window on surface `s`, destroyed or not, if the space still
    /// holds one.
    pub fn window(&self, s: SurfaceId) -> (r: Option<Window>)
        requires
            self@.inv(),
        ensures
            r == self@.space.window(s),
    {
        self.space.window(s)
    }

    /// The number of windows held, destroyed ones that await the next tick
    /// included.
    pub fn window_count(&self) -> (n: usize)
        ensures
            n == self@.space.windows.len(),
    {
        self.space.len()
    }

    /// The surface that input goes to.
    pub fn focus(&self) -> (f: Option<SurfaceId>)
        ensures
            f == self@.seat.focus,
    {
        self.seat.focus()
    }

    /// The serial that the next forwarded event will carry.
    pub fn next_serial(&self) -> (n: u64)
        ensures
            n == self@.seat.next_serial,
    {
        self.seat.next_serial()
    }

    /// Whether the key with this keycode is held down.
    pub fn is_pressed(&self, keycode: u32) -> (r: bool)
        ensures
            r == self@.seat.is_pressed(keycode),
    {
        self.seat.is_pressed(keycode)
    }

    /// Whether the pointer button with this code is held down.
    pub fn is_button_pressed(&self, button: u32) -> (r: bool)
        ensures
            r == self@.seat.is_button_pressed(button),
    {
        self.seat.is_button_pressed(button)
    }

    /// The modifiers in effect, as of the last key event.
    pub fn modifiers(&self) -> (m: Modifiers)
        ensures
            m == self@.seat.modifiers,
    {
        self.seat.modifiers()
    }
}

} // verus!
