//! The compositor as a mathematical value, and each of its operations as a
//! function from the state before to the state after.

use vstd::prelude::*;
use crate::frame::{FrameModel, FRAME_PERIOD_MS};
use crate::ids::{BufferId, ClientId, SurfaceId, WindowHandle};
use crate::output::{Mode, Output, Transform};
use crate::protocol::{Request, Response};
use crate::registry::{ConnectionRejected, RegistryModel};
use crate::seat::{ActionToken, DispatchResult, InputEvent, SeatModel};
use crate::space::{living, released, settled, SpaceModel, SurfaceCommit};
use crate::window::{Position, ProtocolError};

verus! {

/// Everything the compositor knows.
pub struct Model {
    pub registry: RegistryModel,
    pub space: SpaceModel,
    pub seat: SeatModel,
    pub output: Output,
}

/// One thing that can happen to the compositor: an operation together with
/// its arguments.
pub enum Step {
    Accept,
    Disconnect(ClientId),
    NewToplevel(ClientId),
    CreateBuffer(ClientId),
    BufferDestroyed(BufferId),
    Attach(SurfaceId, Option<BufferId>),
    Commit(SurfaceId),
    AckConfigure(SurfaceId),
    Destroy(SurfaceId),
    SetFocus(Option<SurfaceId>),
    Bind(u32, ActionToken),
    Input(InputEvent),
    Tick(Seq<InputEvent>),
    ChangeOutput(Option<Mode>, Option<Transform>, Option<i32>, Option<Position>),
    Request(ClientId, Request),
}

impl Step {
    /// Whether the step is a commit of surface `id`, made directly or by a
    /// client's request.
    pub open spec fn commits(self, id: SurfaceId) -> bool {
        match self {
            Step::Commit(s) => s == id,
            Step::Request(_, Request::Commit { surface }) => surface == id,
            _ => false,
        }
    }
}

impl Model {
    /// What holds of every state that the operations can reach: each part is
    /// valid in itself, no live window outlives its client, and the focus
    /// names a live window or nothing.
    pub open spec fn inv(self) -> bool {
        &&& self.registry.inv()
        &&& self.space.inv()
        &&& self.seat.inv()
        &&& forall|id: SurfaceId| #[trigger]
            self.space.live(id) ==> self.registry.has_client(
                self.space.window(id)->0.surface.client,
            )
        &&& self.seat.focus matches Some(s) ==> self.space.live(s)
    }

    /// The state to begin with: nobody connected, no window, no focus.
    pub open spec fn initial(capacity: usize, output: Output) -> Model {
        Model {
            registry: RegistryModel::empty(capacity),
            space: SpaceModel::empty(),
            seat: SeatModel::empty(),
            output,
        }
    }

    /// A connection is admitted, if there is room for it.
    pub open spec fn accept(self) -> Model {
        Model { registry: self.registry.accept(), ..self }
    }

    /// The client that `accept` admits, or the rejection.
    pub open spec fn accepted(self) -> Result<ClientId, ConnectionRejected> {
        self.registry.accepted()
    }

    /// Client `c` is gone: its record, its buffers and its windows go with
    /// it, and so does the focus if one of its windows held it.
    pub open spec fn disconnect(self, c: ClientId) -> Model {
        let space = self.space.release_client(c);
        Model {
            registry: self.registry.disconnect(c),
            space,
            seat: self.seat.revalidate(space),
            ..self
        }
    }

    /// Whether a window can be made for client `c`: `c` is connected and a
    /// surface number is left.
    pub open spec fn can_create_toplevel(self, c: ClientId) -> bool {
        self.registry.has_client(c) && self.space.can_create()
    }

    /// A new window for client `c`, which takes the focus.
    pub open spec fn new_toplevel(self, c: ClientId) -> Model {
        if self.can_create_toplevel(c) {
            let space = self.space.create(c);
            Model {
                space,
                seat: self.seat.set_focus(space, Some(SurfaceId(self.space.next_surface))),
                ..self
            }
        } else {
            self
        }
    }

    /// The handle that `new_toplevel` gives.
    pub open spec fn created_toplevel(self, c: ClientId) -> Option<WindowHandle> {
        if self.can_create_toplevel(c) {
            self.space.created()
        } else {
            None
        }
    }

    /// Client `c` announces a buffer.
    pub open spec fn create_buffer(self, c: ClientId) -> Model {
        Model { registry: self.registry.create_buffer(c), ..self }
    }

    /// The buffer that `create_buffer` notes.
    pub open spec fn created_buffer(self, c: ClientId) -> Option<BufferId> {
        self.registry.created_buffer(c)
    }

    /// Buffer `b` is forgotten.
    pub open spec fn destroy_buffer(self, b: BufferId) -> Model {
        Model { registry: self.registry.destroy_buffer(b), ..self }
    }

    /// `buffer` is staged on surface `s`.
    pub open spec fn attach(self, s: SurfaceId, buffer: Option<BufferId>) -> Model {
        Model { space: self.space.attach(s, buffer), ..self }
    }

    /// What a commit of surface `s` comes to.
    pub open spec fn committed(self, s: SurfaceId) -> SurfaceCommit {
        self.space.commit_outcome(s, self.registry)
    }

    /// A commit of surface `s`. A malformed one disconnects the client at
    /// fault and applies nothing.
    pub open spec fn commit(self, s: SurfaceId) -> Model {
        match self.committed(s) {
            SurfaceCommit::Ignored => self,
            SurfaceCommit::Refused { client, error } => self.disconnect(client),
            SurfaceCommit::Applied { configure } => Model {
                space: self.space.commit(s, self.registry),
                ..self
            },
        }
    }

    /// The client acknowledges the initial configure of the window on `s`.
    pub open spec fn ack_configure(self, s: SurfaceId) -> Model {
        Model { space: self.space.acknowledge(s), ..self }
    }

    /// The window on `s` is destroyed; if it held the focus, nothing does now.
    pub open spec fn destroy(self, s: SurfaceId) -> Model {
        let space = self.space.destroy(s);
        Model { space, seat: self.seat.revalidate(space), ..self }
    }

    /// The focus goes to the live window on `to`, or to nothing.
    pub open spec fn set_focus(self, to: Option<SurfaceId>) -> Model {
        Model { seat: self.seat.set_focus(self.space, to), ..self }
    }

    /// A global key binding is registered.
    pub open spec fn bind(self, keysym: u32, action: ActionToken) -> Model {
        Model { seat: self.seat.bind(keysym, action), ..self }
    }

    /// One input event is routed.
    pub open spec fn input(self, event: InputEvent) -> Model {
        Model { seat: self.seat.dispatch(self.space, event), ..self }
    }

    /// What becomes of one input event.
    pub open spec fn input_outcome(self, event: InputEvent) -> DispatchResult {
        self.seat.outcome(self.space, event)
    }

    /// One tick of the frame timer: the drained input is routed, the frame
    /// is composed and presented, the callbacks go out, and the space is
    /// tidied.
    pub open spec fn tick(self, events: Seq<InputEvent>) -> Model {
        Model {
            seat: self.seat.run(self.space, events),
            space: self.space.refresh(),
            ..self
        }
    }

    /// What a tick leaves to the caller. The scene and the callbacks are
    /// those of the windows mapped at the tick.
    pub open spec fn frame(self, events: Seq<InputEvent>, elapsed_ms: u64) -> FrameModel {
        FrameModel {
            outcomes: self.seat.outcomes(self.space, events),
            scene: self.space.scene(),
            callbacks: self.space.callbacks(elapsed_ms),
            next_tick_ms: FRAME_PERIOD_MS,
        }
    }

    /// The output's state is changed.
    pub open spec fn change_output(
        self,
        mode: Option<Mode>,
        transform: Option<Transform>,
        scale: Option<i32>,
        location: Option<Position>,
    ) -> Model {
        Model { output: self.output.changed(mode, transform, scale, location), ..self }
    }

    /// Whether `req`, sent by `client`, names a surface whose window belongs
    /// to another client.
    pub open spec fn trespasses(self, client: ClientId, req: Request) -> bool {
        req.surface() matches Some(s) && self.space.window(s) matches Some(w) && w.surface.client
            != client
    }

    /// One request of client `client`.
    pub open spec fn request(self, client: ClientId, req: Request) -> Model {
        if !self.registry.has_client(client) {
            self
        } else if self.trespasses(client, req) {
            self.disconnect(client)
        } else {
            match req {
                Request::CreateToplevel => self.new_toplevel(client),
                Request::CreateBuffer => self.create_buffer(client),
                Request::DestroyBuffer { id } => if self.registry.owns(client, id) {
                    self.destroy_buffer(id)
                } else {
                    self
                },
                Request::Attach { surface, buffer } => self.attach(surface, buffer),
                Request::Commit { surface } => self.commit(surface),
                Request::AckConfigure { surface } => self.ack_configure(surface),
                Request::Destroy { window } => self.destroy(window.surface),
            }
        }
    }

    /// The answer to one request of client `client`.
    pub open spec fn response(self, client: ClientId, req: Request) -> Response {
        if !self.registry.has_client(client) {
            Response::Ignored
        } else if self.trespasses(client, req) {
            Response::Disconnected { client, error: ProtocolError::ForeignSurface }
        } else {
            match req {
                Request::CreateToplevel => match self.created_toplevel(client) {
                    Some(h) => Response::ToplevelCreated(h),
                    None => Response::Exhausted,
                },
                Request::CreateBuffer => match self.created_buffer(client) {
                    Some(b) => Response::BufferCreated(b),
                    None => Response::Exhausted,
                },
                Request::DestroyBuffer { id } => if self.registry.owns(client, id) {
                    Response::Done
                } else {
                    Response::Ignored
                },
                Request::Attach { surface, buffer } => if self.space.live(surface) {
                    Response::Done
                } else {
                    Response::Ignored
                },
                Request::Commit { surface } => match self.committed(surface) {
                    SurfaceCommit::Ignored => Response::Ignored,
                    SurfaceCommit::Refused { client, error } => Response::Disconnected {
                        client,
                        error,
                    },
                    SurfaceCommit::Applied { configure } => if configure {
                        Response::Configure { surface }
                    } else {
                        Response::Done
                    },
                },
                Request::AckConfigure { surface } => if self.space.awaits_acknowledge(surface) {
                    Response::Done
                } else {
                    Response::Ignored
                },
                Request::Destroy { window } => if self.space.live(window.surface) {
                    Response::Done
                } else {
                    Response::Ignored
                },
            }
        }
    }

    /// The state after one step.
    pub open spec fn step(self, step: Step) -> Model {
        match step {
            Step::Accept => self.accept(),
            Step::Disconnect(c) => self.disconnect(c),
            Step::NewToplevel(c) => self.new_toplevel(c),
            Step::CreateBuffer(c) => self.create_buffer(c),
            Step::BufferDestroyed(b) => self.destroy_buffer(b),
            Step::Attach(s, buffer) => self.attach(s, buffer),
            Step::Commit(s) => self.commit(s),
            Step::AckConfigure(s) => self.ack_configure(s),
            Step::Destroy(s) => self.destroy(s),
            Step::SetFocus(to) => self.set_focus(to),
            Step::Bind(keysym, action) => self.bind(keysym, action),
            Step::Input(event) => self.input(event),
            Step::Tick(events) => self.tick(events),
            Step::ChangeOutput(mode, transform, scale, location) => self.change_output(
                mode,
                transform,
                scale,
                location,
            ),
            Step::Request(client, req) => self.request(client, req),
        }
    }

    /// What became of the input events that one step routed, in order.
    pub open spec fn step_outcomes(self, step: Step) -> Seq<DispatchResult> {
        match step {
            Step::Input(event) => seq![self.input_outcome(event)],
            Step::Tick(events) => self.seat.outcomes(self.space, events),
            _ => Seq::empty(),
        }
    }

    /// The state after a run of steps, taken in order.
    pub open spec fn run(self, steps: Seq<Step>) -> Model
        decreases steps.len(),
    {
        if steps.len() == 0 {
            self
        } else {
            self.run(steps.drop_last()).step(steps.last())
        }
    }

    /// What became of every input event routed in a run of steps, in order.
    pub open spec fn run_outcomes(self, steps: Seq<Step>) -> Seq<DispatchResult>
        decreases steps.len(),
    {
        if steps.len() == 0 {
            Seq::empty()
        } else {
            self.run_outcomes(steps.drop_last()) + self.run(steps.drop_last()).step_outcomes(
                steps.last(),
            )
        }
    }

    /// Whether the window on `id` has had its initial configure sent.
    pub open spec fn configure_sent(self, id: SurfaceId) -> bool {
        self.space.window(id) matches Some(w) && w.initial_configure_sent
    }

    /// Accepting keeps the state valid.
    pub proof fn lemma_accept(self)
        requires
            self.inv(),
        ensures
            self.accept().inv(),
    {
        self.registry.lemma_accept();
    }

    /// A teardown keeps the state valid.
    pub proof fn lemma_disconnect(self, c: ClientId)
        requires
            self.inv(),
        ensures
            self.disconnect(c).inv(),
    {
        let post = self.disconnect(c);
        self.registry.lemma_disconnect(c);
        self.space.lemma_map(released(c));
        assert forall|id: SurfaceId| #[trigger] post.space.live(id) implies post.registry.has_client(
            post.space.window(id)->0.surface.client,
        ) by {
            assert(self.space.live(id));
        }
    }

    /// A new window keeps the state valid.
    pub proof fn lemma_new_toplevel(self, c: ClientId)
        requires
            self.inv(),
        ensures
            self.new_toplevel(c).inv(),
    {
        let post = self.new_toplevel(c);
        self.space.lemma_create(c);
        if self.can_create_toplevel(c) {
            assert forall|id: SurfaceId| #[trigger]
                post.space.live(id) implies post.registry.has_client(
                post.space.window(id)->0.surface.client,
            ) by {
                if self.space.has(id) {
                    assert(self.space.live(id));
                }
            }
            match self.seat.focus {
                Some(s) => {
                    assert(self.space.live(s));
                },
                None => {},
            }
        }
    }

    /// Announcing a buffer keeps the state valid.
    pub proof fn lemma_create_buffer(self, c: ClientId)
        requires
            self.inv(),
        ensures
            self.create_buffer(c).inv(),
    {
        self.registry.lemma_create_buffer(c);
        let post = self.create_buffer(c);
        assert forall|id: SurfaceId| #[trigger] post.space.live(id) implies post.registry.has_client(
            post.space.window(id)->0.surface.client,
        ) by {
            assert(self.space.live(id));
        }
    }

    /// Forgetting a buffer keeps the state valid.
    pub proof fn lemma_destroy_buffer(self, b: BufferId)
        requires
            self.inv(),
        ensures
            self.destroy_buffer(b).inv(),
    {
        self.registry.lemma_destroy_buffer(b);
        let post = self.destroy_buffer(b);
        assert forall|id: SurfaceId| #[trigger] post.space.live(id) implies post.registry.has_client(
            post.space.window(id)->0.surface.client,
        ) by {
            assert(self.space.live(id));
        }
    }

    /// Staging keeps the state valid.
    pub proof fn lemma_attach(self, s: SurfaceId, buffer: Option<BufferId>)
        requires
            self.inv(),
        ensures
            self.attach(s, buffer).inv(),
    {
        let post = self.attach(s, buffer);
        if self.space.live(s) {
            self.space.lemma_window(s);
            self.space.lemma_put(s, self.space.window(s)->0.staged(buffer));
            assert forall|id: SurfaceId| #[trigger]
                post.space.live(id) implies post.registry.has_client(
                post.space.window(id)->0.surface.client,
            ) by {
                assert(self.space.live(id));
            }
            match self.seat.focus {
                Some(f) => {
                    assert(self.space.live(f));
                },
                None => {},
            }
        }
    }

    /// A commit keeps the state valid, whether it is applied, ignored or
    /// refused.
    pub proof fn lemma_commit(self, s: SurfaceId)
        requires
            self.inv(),
        ensures
            self.commit(s).inv(),
    {
        let post = self.commit(s);
        match self.committed(s) {
            SurfaceCommit::Ignored => {},
            SurfaceCommit::Refused { client, error } => {
                self.lemma_disconnect(client);
            },
            SurfaceCommit::Applied { configure } => {
                self.space.lemma_window(s);
                self.space.lemma_put(s, self.space.window(s)->0.committed());
                assert forall|id: SurfaceId| #[trigger]
                    post.space.live(id) implies post.registry.has_client(
                    post.space.window(id)->0.surface.client,
                ) by {
                    assert(self.space.live(id));
                }
                match self.seat.focus {
                    Some(f) => {
                        assert(self.space.live(f));
                    },
                    None => {},
                }
            },
        }
    }

    /// An acknowledgement keeps the state valid.
    pub proof fn lemma_ack_configure(self, s: SurfaceId)
        requires
            self.inv(),
        ensures
            self.ack_configure(s).inv(),
    {
        let post = self.ack_configure(s);
        if self.space.awaits_acknowledge(s) {
            self.space.lemma_window(s);
            self.space.lemma_put(s, self.space.window(s)->0.acknowledged());
            assert forall|id: SurfaceId| #[trigger]
                post.space.live(id) implies post.registry.has_client(
                post.space.window(id)->0.surface.client,
            ) by {
                assert(self.space.live(id));
            }
            match self.seat.focus {
                Some(f) => {
                    assert(self.space.live(f));
                },
                None => {},
            }
        }
    }

    /// Destroying a window keeps the state valid.
    pub proof fn lemma_destroy(self, s: SurfaceId)
        requires
            self.inv(),
        ensures
            self.destroy(s).inv(),
    {
        let post = self.destroy(s);
        if self.space.live(s) {
            self.space.lemma_window(s);
            self.space.lemma_put(s, self.space.window(s)->0.destroyed());
            assert forall|id: SurfaceId| #[trigger]
                post.space.live(id) implies post.registry.has_client(
                post.space.window(id)->0.surface.client,
            ) by {
                assert(self.space.live(id));
            }
        }
    }

    /// Setting the focus keeps the state valid.
    pub proof fn lemma_set_focus(self, to: Option<SurfaceId>)
        requires
            self.inv(),
        ensures
            self.set_focus(to).inv(),
    {
    }

    /// Registering a binding keeps the state valid.
    pub proof fn lemma_bind(self, keysym: u32, action: ActionToken)
        requires
            self.inv(),
        ensures
            self.bind(keysym, action).inv(),
    {
        self.seat.lemma_bind(keysym, action);
    }

    /// Routing an input event keeps the state valid.
    pub proof fn lemma_input(self, event: InputEvent)
        requires
            self.inv(),
        ensures
            self.input(event).inv(),
    {
        self.seat.lemma_dispatch(self.space, event);
    }

    /// The space after a tick: the live windows, each as it was but for the
    /// mark of change, and no destroyed one.
    pub proof fn lemma_refresh(self)
        requires
            self.space.inv(),
        ensures
            self.space.refresh().inv(),
            forall|id: SurfaceId|
                #![trigger self.space.refresh().window(id)]
                self.space.refresh().window(id) == (if self.space.live(id) {
                    Some(self.space.window(id)->0.presented())
                } else {
                    None
                }),
            forall|id: SurfaceId|
                #![trigger self.space.refresh().live(id)]
                self.space.refresh().live(id) == self.space.live(id),
    {
        let mid = SpaceModel { windows: self.space.windows.filter(living()), ..self.space };
        self.space.lemma_filter(living());
        mid.lemma_map(settled());
        assert forall|id: SurfaceId|
            #![trigger self.space.refresh().window(id)]
            self.space.refresh().window(id) == (if self.space.live(id) {
                Some(self.space.window(id)->0.presented())
            } else {
                None
            }) by {
            let _ = mid.window(id);
        }
        assert forall|id: SurfaceId|
            #![trigger self.space.refresh().live(id)]
            self.space.refresh().live(id) == self.space.live(id) by {
            let _ = self.space.refresh().window(id);
        }
    }

    /// A tick keeps the state valid.
    pub proof fn lemma_tick(self, events: Seq<InputEvent>)
        requires
            self.inv(),
        ensures
            self.tick(events).inv(),
    {
        let post = self.tick(events);
        self.seat.lemma_run(self.space, events);
        self.lemma_refresh();
        assert forall|id: SurfaceId| #[trigger] post.space.live(id) implies post.registry.has_client(
            post.space.window(id)->0.surface.client,
        ) by {
            let _ = self.space.refresh().window(id);
            assert(self.space.live(id));
        }
        match post.seat.focus {
            Some(f) => {
                assert(self.space.live(f));
                assert(self.space.refresh().live(f));
            },
            None => {},
        }
    }

    /// Every step keeps the state valid.
    pub proof fn lemma_step(self, step: Step)
        requires
            self.inv(),
        ensures
            self.step(step).inv(),
    {
        match step {
            Step::Accept => self.lemma_accept(),
            Step::Disconnect(c) => self.lemma_disconnect(c),
            Step::NewToplevel(c) => self.lemma_new_toplevel(c),
            Step::CreateBuffer(c) => self.lemma_create_buffer(c),
            Step::BufferDestroyed(b) => self.lemma_destroy_buffer(b),
            Step::Attach(s, buffer) => self.lemma_attach(s, buffer),
            Step::Commit(s) => self.lemma_commit(s),
            Step::AckConfigure(s) => self.lemma_ack_configure(s),
            Step::Destroy(s) => self.lemma_destroy(s),
            Step::SetFocus(to) => self.lemma_set_focus(to),
            Step::Bind(keysym, action) => self.lemma_bind(keysym, action),
            Step::Input(event) => self.lemma_input(event),
            Step::Tick(events) => self.lemma_tick(events),
            Step::ChangeOutput(mode, transform, scale, location) => {},
            Step::Request(client, req) => self.lemma_request(client, req),
        }
    }

    /// Every run of steps keeps the state valid.
    pub proof fn lemma_run(self, steps: Seq<Step>)
        requires
            self.inv(),
        ensures
            self.run(steps).inv(),
        decreases steps.len(),
    {
        if steps.len() > 0 {
            self.lemma_run(steps.drop_last());
            self.run(steps.drop_last()).lemma_step(steps.last());
        }
    }

    /// A request keeps the state valid.
    pub proof fn lemma_request(self, client: ClientId, req: Request)
        requires
            self.inv(),
        ensures
            self.request(client, req).inv(),
    {
        if self.registry.has_client(client) {
            if self.trespasses(client, req) {
                self.lemma_disconnect(client);
            } else {
                match req {
                    Request::CreateToplevel => self.lemma_new_toplevel(client),
                    Request::CreateBuffer => self.lemma_create_buffer(client),
                    Request::DestroyBuffer { id } => self.lemma_destroy_buffer(id),
                    Request::Attach { surface, buffer } => self.lemma_attach(surface, buffer),
                    Request::Commit { surface } => self.lemma_commit(surface),
                    Request::AckConfigure { surface } => self.lemma_ack_configure(surface),
                    Request::Destroy { window } => self.lemma_destroy(window.surface),
                }
            }
        }
    }
}

} // verus!
