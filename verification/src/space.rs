//! The space: every window the compositor knows, in the order in which the
//! windows were created, and what of them a frame shows.

use vstd::prelude::*;
use crate::ids::{BufferId, ClientId, SurfaceId, WindowHandle};
use crate::registry::{ClientRegistry, RegistryModel};
use crate::seqs::lemma_filter_member;
use crate::window::{Position, ProtocolError, Surface, SurfaceState, Window};

verus! {

/// One window as the renderer is to draw it.
#[derive(Clone, Copy, Debug, PartialEq, Eq, Structural)]
pub struct SceneElement {
    pub surface: SurfaceId,
    pub client: ClientId,
    pub position: Position,
    /// The committed buffer; none while the client has not supplied one.
    pub buffer: Option<BufferId>,
    /// Whether the window was committed since the last presented frame.
    /// Where it was not, the renderer has nothing to redraw.
    pub damaged: bool,
}

/// The notice that a frame showing the window was presented.
#[derive(Clone, Copy, Debug, PartialEq, Eq, Structural)]
pub struct FrameCallback {
    pub surface: SurfaceId,
    pub client: ClientId,
    /// Time since the server started, in milliseconds.
    pub elapsed_ms: u64,
}

/// What a commit did to the space.
#[derive(Clone, Copy, Debug, PartialEq, Eq, Structural)]
pub enum SurfaceCommit {
    /// The surface is unknown or destroyed: nothing happened.
    Ignored,
    /// The commit is malformed: nothing was applied, and `client` is at fault.
    Refused { client: ClientId, error: ProtocolError },
    /// Staged state became current. `configure` is set on the window's first
    /// commit, when the initial configure is to be sent.
    Applied { configure: bool },
}

/// Passes the windows that a frame shows.
pub open spec fn shown() -> spec_fn(Window) -> bool {
    |w: Window| w.is_mapped()
}

/// Passes the windows that were not destroyed.
pub open spec fn living() -> spec_fn(Window) -> bool {
    |w: Window| w.alive
}

/// Makes the scene element of a window.
pub open spec fn element_of() -> spec_fn(Window) -> SceneElement {
    |w: Window|
        SceneElement {
            surface: w.surface.id,
            client: w.surface.client,
            position: w.position,
            buffer: w.surface.current.buffer,
            damaged: w.damaged,
        }
}

/// Makes the frame callback of a window for a frame presented at
/// `elapsed_ms`.
pub open spec fn callback_at(elapsed_ms: u64) -> spec_fn(Window) -> FrameCallback {
    |w: Window| FrameCallback { surface: w.surface.id, client: w.surface.client, elapsed_ms }
}

/// Clears the mark of change of a window.
pub open spec fn settled() -> spec_fn(Window) -> Window {
    |w: Window| w.presented()
}

/// Destroys the windows of client `c` and leaves the others.
pub open spec fn released(c: ClientId) -> spec_fn(Window) -> Window {
    |w: Window| if w.surface.client == c { w.destroyed() } else { w }
}

/// No two windows of `ws` share a surface.
pub open spec fn distinct_surfaces(ws: Seq<Window>) -> bool {
    forall|i: int, j: int|
        0 <= i < j < ws.len() ==> (#[trigger] ws[i]).surface.id != (#[trigger] ws[j]).surface.id
}

/// Filtering keeps surfaces distinct.
pub proof fn lemma_filter_distinct(ws: Seq<Window>, keep: spec_fn(Window) -> bool)
    requires
        distinct_surfaces(ws),
    ensures
        distinct_surfaces(ws.filter(keep)),
    decreases ws.len(),
{
    reveal(Seq::filter);
    if ws.len() > 0 {
        let rest = ws.drop_last();
        let last = ws.last();
        assert forall|i: int, j: int| 0 <= i < j < rest.len() implies (#[trigger] rest[i]).surface.id
            != (#[trigger] rest[j]).surface.id by {
            assert(rest[i] == ws[i] && rest[j] == ws[j]);
        }
        lemma_filter_distinct(rest, keep);
        lemma_filter_member(rest, keep);
        let f = rest.filter(keep);
        assert forall|i: int| 0 <= i < f.len() implies (#[trigger] f[i]).surface.id
            != last.surface.id by {
            assert(f.contains(f[i]));
            let k = rest.index_of(f[i]);
            assert(rest[k] == ws[k]);
        }
    }
}

/// The space as a mathematical value.
pub struct SpaceModel {
    /// Every window not yet dropped, oldest first.
    pub windows: Seq<Window>,
    /// The number that the next surface gets.
    pub next_surface: u64,
}

impl SpaceModel {
    /// What holds of every space: each window is well formed and has a
    /// number below the next one, and no two windows share a surface.
    pub open spec fn inv(self) -> bool {
        &&& forall|i: int|
            0 <= i < self.windows.len() ==> (#[trigger] self.windows[i]).surface.id.0
                < self.next_surface && self.windows[i].wf()
        &&& distinct_surfaces(self.windows)
    }

    /// The space to begin with.
    pub open spec fn empty() -> SpaceModel {
        SpaceModel { windows: Seq::empty(), next_surface: 1 }
    }

    /// Whether the space holds a window on surface `id`, live or destroyed.
    pub open spec fn has(self, id: SurfaceId) -> bool {
        exists|i: int| 0 <= i < self.windows.len() && (#[trigger] self.windows[i]).surface.id == id
    }

    /// Where the window on surface `id` stands, if there is one.
    pub open spec fn slot(self, id: SurfaceId) -> int {
        choose|i: int| 0 <= i < self.windows.len() && (#[trigger] self.windows[i]).surface.id == id
    }

    /// The window on surface `id`.
    pub open spec fn window(self, id: SurfaceId) -> Option<Window> {
        if self.has(id) {
            Some(self.windows[self.slot(id)])
        } else {
            None
        }
    }

    /// Whether surface `id` has a window that was not destroyed.
    pub open spec fn live(self, id: SurfaceId) -> bool {
        self.window(id) matches Some(w) && w.alive
    }

    /// The space with `w` in the place of the window on surface `id`.
    pub open spec fn put(self, id: SurfaceId, w: Window) -> SpaceModel {
        SpaceModel { windows: self.windows.update(self.slot(id), w), ..self }
    }

    /// Whether a surface number is left for a new window.
    pub open spec fn can_create(self) -> bool {
        self.next_surface < u64::MAX
    }

    /// The space with a fresh window for `client` behind all others.
    pub open spec fn create(self, client: ClientId) -> SpaceModel {
        if self.can_create() {
            SpaceModel {
                windows: self.windows.push(Window::fresh(SurfaceId(self.next_surface), client)),
                next_surface: (self.next_surface + 1) as u64,
            }
        } else {
            self
        }
    }

    /// The handle of the window that `create` makes.
    pub open spec fn created(self) -> Option<WindowHandle> {
        if self.can_create() {
            Some(WindowHandle { surface: SurfaceId(self.next_surface) })
        } else {
            None
        }
    }

    /// The space with `buffer` staged on the live window on `id`.
    pub open spec fn attach(self, id: SurfaceId, buffer: Option<BufferId>) -> SpaceModel {
        if self.live(id) {
            self.put(id, self.window(id)->0.staged(buffer))
        } else {
            self
        }
    }

    /// Whether the buffer staged on `w`, if there is one, is a buffer of the
    /// client that owns `w`.
    pub open spec fn announced(w: Window, registry: RegistryModel) -> bool {
        w.staged_buffer() matches Some(b) ==> registry.owns(w.surface.client, b)
    }

    /// What a commit of surface `id` comes to.
    pub open spec fn commit_outcome(self, id: SurfaceId, registry: RegistryModel) -> SurfaceCommit {
        if self.live(id) {
            let w = self.window(id)->0;
            match w.commit_fault(Self::announced(w, registry)) {
                Some(error) => SurfaceCommit::Refused { client: w.surface.client, error },
                None => SurfaceCommit::Applied { configure: !w.initial_configure_sent },
            }
        } else {
            SurfaceCommit::Ignored
        }
    }

    /// The space after a commit of surface `id`: where the commit is applied,
    /// the window is committed; otherwise nothing changes.
    pub open spec fn commit(self, id: SurfaceId, registry: RegistryModel) -> SpaceModel {
        if self.commit_outcome(id, registry) is Applied {
            self.put(id, self.window(id)->0.committed())
        } else {
            self
        }
    }

    /// Whether the window on `id` waits for its initial configure to be
    /// acknowledged.
    pub open spec fn awaits_acknowledge(self, id: SurfaceId) -> bool {
        self.window(id) matches Some(w) && w.alive && w.initial_configure_sent
            && !w.surface.configured
    }

    /// The space after the initial configure of the window on `id` was
    /// acknowledged.
    pub open spec fn acknowledge(self, id: SurfaceId) -> SpaceModel {
        if self.awaits_acknowledge(id) {
            self.put(id, self.window(id)->0.acknowledged())
        } else {
            self
        }
    }

    /// The space with the live window on `id` destroyed.
    pub open spec fn destroy(self, id: SurfaceId) -> SpaceModel {
        if self.live(id) {
            self.put(id, self.window(id)->0.destroyed())
        } else {
            self
        }
    }

    /// The space with every window of client `c` destroyed.
    pub open spec fn release_client(self, c: ClientId) -> SpaceModel {
        SpaceModel { windows: self.windows.map_values(released(c)), ..self }
    }

    /// The windows that a frame shows, oldest first.
    pub open spec fn mapped(self) -> Seq<Window> {
        self.windows.filter(shown())
    }

    /// What a frame draws: an element for each mapped window, oldest first.
    pub open spec fn scene(self) -> Seq<SceneElement> {
        self.mapped().map_values(element_of())
    }

    /// The callbacks that a frame owes: one for each mapped window, oldest
    /// first.
    pub open spec fn callbacks(self, elapsed_ms: u64) -> Seq<FrameCallback> {
        self.mapped().map_values(callback_at(elapsed_ms))
    }

    /// The space after a frame was presented: destroyed windows are dropped,
    /// and no remaining window counts as changed.
    pub open spec fn refresh(self) -> SpaceModel {
        SpaceModel { windows: self.windows.filter(living()).map_values(settled()), ..self }
    }

    /// A window found at a place is the window that `window` gives.
    pub proof fn lemma_slot(self, i: int)
        requires
            self.inv(),
            0 <= i < self.windows.len(),
        ensures
            self.has(self.windows[i].surface.id),
            self.slot(self.windows[i].surface.id) == i,
            self.window(self.windows[i].surface.id) == Some(self.windows[i]),
    {
        let id = self.windows[i].surface.id;
        let k = self.slot(id);
        if k < i {
            assert(self.windows[k].surface.id != self.windows[i].surface.id);
        } else if i < k {
            assert(self.windows[i].surface.id != self.windows[k].surface.id);
        }
    }

    /// What `window` gives is a window of the space, on the surface asked for.
    pub proof fn lemma_window(self, id: SurfaceId)
        requires
            self.has(id),
        ensures
            0 <= self.slot(id) < self.windows.len(),
            self.windows[self.slot(id)].surface.id == id,
            self.window(id)->0.surface.id == id,
    {
    }

    /// Replacing one window by another on the same surface keeps the space
    /// valid and changes no other window.
    pub proof fn lemma_put(self, id: SurfaceId, w: Window)
        requires
            self.inv(),
            self.has(id),
            w.surface.id == id,
            w.wf(),
        ensures
            self.put(id, w).inv(),
            self.put(id, w).windows.len() == self.windows.len(),
            self.put(id, w).window(id) == Some(w),
            forall|other: SurfaceId|
                other != id ==> #[trigger] self.put(id, w).window(other) == self.window(other),
            forall|other: SurfaceId| #[trigger] self.put(id, w).has(other) == self.has(other),
    {
        let post = self.put(id, w);
        let k = self.slot(id);
        assert(post.windows[k] == w);
        assert forall|i: int, j: int| 0 <= i < j < post.windows.len() implies (
        #[trigger] post.windows[i]).surface.id != (#[trigger] post.windows[j]).surface.id by {
            assert(self.windows[i].surface.id != self.windows[j].surface.id);
        }
        assert(post.inv()) by {
            assert forall|i: int| 0 <= i < post.windows.len() implies (
            #[trigger] post.windows[i]).surface.id.0 < post.next_surface
                && post.windows[i].wf() by {
                assert(self.windows[i].surface.id.0 < self.next_surface);
            }
        }
        post.lemma_slot(k);
        assert forall|other: SurfaceId| #[trigger] post.has(other) == self.has(other) by {
            if self.has(other) {
                let i = self.slot(other);
                assert(post.windows[i].surface.id == other);
            }
            if post.has(other) {
                let i = post.slot(other);
                assert(self.windows[i].surface.id == other);
            }
        }
        assert forall|other: SurfaceId| other != id implies #[trigger] post.window(other)
            == self.window(other) by {
            if self.has(other) {
                let i = self.slot(other);
                assert(post.windows[i] == self.windows[i]);
                post.lemma_slot(i);
            }
        }
    }

    /// A new window keeps the space valid, is found under its handle, and
    /// changes no window that was there.
    pub proof fn lemma_create(self, client: ClientId)
        requires
            self.inv(),
        ensures
            self.create(client).inv(),
            self.created() matches Some(h) ==> !self.has(h.surface) && self.create(client).window(
                h.surface,
            ) == Some(Window::fresh(h.surface, client)),
            forall|other: SurfaceId|
                self.has(other) ==> #[trigger] self.create(client).window(other) == self.window(
                    other,
                ),
            forall|other: SurfaceId|
                #[trigger] self.create(client).has(other) ==> self.has(other) || self.created()
                    == Some(WindowHandle { surface: other }),
    {
        let post = self.create(client);
        if self.can_create() {
            let id = SurfaceId(self.next_surface);
            let n = self.windows.len() as int;
            assert(post.windows[n] == Window::fresh(id, client));
            assert forall|i: int| 0 <= i < n implies post.windows[i] == self.windows[i] by {}
            assert(distinct_surfaces(post.windows)) by {
                assert forall|i: int, j: int| 0 <= i < j < post.windows.len() implies (
                #[trigger] post.windows[i]).surface.id != (
                #[trigger] post.windows[j]).surface.id by {
                    if j < n {
                        assert(self.windows[i].surface.id != self.windows[j].surface.id);
                    } else {
                        assert(self.windows[i].surface.id.0 < self.next_surface);
                    }
                }
            }
            assert(post.inv()) by {
                assert forall|i: int| 0 <= i < post.windows.len() implies (
                #[trigger] post.windows[i]).surface.id.0 < post.next_surface
                    && post.windows[i].wf() by {
                    if i < n {
                        assert(self.windows[i].surface.id.0 < self.next_surface);
                    }
                }
            }
            post.lemma_slot(n);
            if self.has(id) {
                let k = self.slot(id);
                assert(self.windows[k].surface.id.0 < self.next_surface);
            }
            assert forall|other: SurfaceId| self.has(other) implies #[trigger] post.window(other)
                == self.window(other) by {
                let i = self.slot(other);
                assert(post.windows[i] == self.windows[i]);
                post.lemma_slot(i);
            }
            assert forall|other: SurfaceId| #[trigger] post.has(other) implies self.has(other)
                || self.created() == Some(WindowHandle { surface: other }) by {
                let i = post.slot(other);
                if i < n {
                    assert(self.windows[i].surface.id == other);
                }
            }
        }
    }

    /// Applying one change to every window, which keeps each window's
    /// surface, keeps the windows where they were.
    pub proof fn lemma_map(self, change: spec_fn(Window) -> Window)
        requires
            self.inv(),
            forall|w: Window| #[trigger] change(w).surface.id == w.surface.id,
            forall|w: Window| w.wf() ==> #[trigger] change(w).wf(),
        ensures
            (SpaceModel { windows: self.windows.map_values(change), ..self }).inv(),
            forall|id: SurfaceId|
                #![trigger (SpaceModel { windows: self.windows.map_values(change), ..self }).window(id)]
                (SpaceModel { windows: self.windows.map_values(change), ..self }).window(id) == (
                match self.window(id) {
                    Some(w) => Some(change(w)),
                    None => None,
                }),
    {
        let post = SpaceModel { windows: self.windows.map_values(change), ..self };
        assert forall|i: int| 0 <= i < post.windows.len() implies (
        #[trigger] post.windows[i]).surface.id.0 < post.next_surface && post.windows[i].wf() by {
            assert(self.windows[i].surface.id.0 < self.next_surface);
        }
        assert forall|i: int, j: int| 0 <= i < j < post.windows.len() implies (
        #[trigger] post.windows[i]).surface.id != (#[trigger] post.windows[j]).surface.id by {
            assert(self.windows[i].surface.id != self.windows[j].surface.id);
        }
        assert forall|id: SurfaceId| #![trigger post.window(id)] post.window(id) == (match self.window(
            id,
        ) {
            Some(w) => Some(change(w)),
            None => None,
        }) by {
            if self.has(id) {
                let i = self.slot(id);
                assert(post.windows[i].surface.id == id);
                post.lemma_slot(i);
            }
            if post.has(id) {
                let i = post.slot(id);
                assert(self.windows[i].surface.id == id);
            }
        }
    }

    /// Dropping windows keeps the space valid; a window that passes the
    /// filter is found as before, and one that does not is gone.
    pub proof fn lemma_filter(self, keep: spec_fn(Window) -> bool)
        requires
            self.inv(),
        ensures
            (SpaceModel { windows: self.windows.filter(keep), ..self }).inv(),
            forall|id: SurfaceId|
                #![trigger (SpaceModel { windows: self.windows.filter(keep), ..self }).window(id)]
                (SpaceModel { windows: self.windows.filter(keep), ..self }).window(id) == (
                match self.window(id) {
                    Some(w) => if keep(w) {
                        Some(w)
                    } else {
                        None
                    },
                    None => None,
                }),
    {
        let post = SpaceModel { windows: self.windows.filter(keep), ..self };
        lemma_filter_distinct(self.windows, keep);
        lemma_filter_member(self.windows, keep);
        assert forall|i: int| 0 <= i < post.windows.len() implies (
        #[trigger] post.windows[i]).surface.id.0 < post.next_surface && post.windows[i].wf() by {
            assert(post.windows.contains(post.windows[i]));
            let k = self.windows.index_of(post.windows[i]);
            assert(self.windows[k].wf());
        }
        assert forall|id: SurfaceId| #![trigger post.window(id)] post.window(id) == (match self.window(
            id,
        ) {
            Some(w) => if keep(w) {
                Some(w)
            } else {
                None
            },
            None => None,
        }) by {
            if post.has(id) {
                let i = post.slot(id);
                let w = post.windows[i];
                assert(post.windows.contains(w));
                let k = self.windows.index_of(w);
                self.lemma_slot(k);
            }
            if self.has(id) {
                let k = self.slot(id);
                let w = self.windows[k];
                if keep(w) {
                    assert(self.windows.contains(w));
                    assert(post.windows.contains(w));
                    let i = post.windows.index_of(w);
                    post.lemma_slot(i);
                }
            }
        }
    }
}

/// The surface and window manager.
pub struct Space {
    windows: Vec<Window>,
    next_surface: u64,
}

impl View for Space {
    type V = SpaceModel;

    closed spec fn view(&self) -> SpaceModel {
        SpaceModel { windows: self.windows@, next_surface: self.next_surface }
    }
}

impl Space {
    /// An empty space.
    pub fn new() -> (s: Space)
        ensures
            s@ == SpaceModel::empty(),
            s@.inv(),
    {
        Space { windows: Vec::new(), next_surface: 1 }
    }

    fn find(&self, id: SurfaceId) -> (r: Option<usize>)
        requires
            self@.inv(),
        ensures
            match r {
                Some(i) => i < self.windows@.len() && self@.has(id) && self@.slot(id) == i
                    && self@.window(id) == Some(self.windows@[i as int]),
                None => !self@.has(id),
            },
    {
        let mut i: usize = 0;
        while i < self.windows.len()
            invariant
                self@.inv(),
                i <= self.windows.len(),
                forall|k: int| 0 <= k < i ==> (#[trigger] self.windows@[k]).surface.id != id,
            decreases self.windows.len() - i,
        {
            if self.windows[i].surface.id.0 == id.0 {
                proof {
                    self@.lemma_slot(i as int);
                }
                return Some(i);
            }
            i += 1;
        }
        None
    }

    /// The window on surface `id`, if the space holds one.
    pub fn window(&self, id: SurfaceId) -> (r: Option<Window>)
        requires
            self@.inv(),
        ensures
            r == self@.window(id),
    {
        match self.find(id) {
            Some(i) => Some(self.windows[i]),
            None => None,
        }
    }

    /// The number of windows held, destroyed ones that await the next
    /// refresh included.
    pub fn len(&self) -> (n: usize)
        ensures
            n == self@.windows.len(),
    {
        self.windows.len()
    }

    /// Makes a window for `client`: unconfigured, at the origin. Gives none
    /// only when the surface numbers have run out.
    pub fn create_toplevel(&mut self, client: ClientId) -> (r: Option<WindowHandle>)
        requires
            old(self)@.inv(),
        ensures
            final(self)@ == old(self)@.create(client),
            r == old(self)@.created(),
            final(self)@.inv(),
    {
        proof {
            self@.lemma_create(client);
        }
        if self.next_surface < u64::MAX {
            let id = SurfaceId(self.next_surface);
            self.windows.push(Window::new(id, client));
            self.next_surface = self.next_surface + 1;
            Some(WindowHandle { surface: id })
        } else {
            None
        }
    }

    /// Stages `buffer` on surface `id`. Nothing that composition reads
    /// changes. Says whether there was a live window to stage it on.
    pub fn attach(&mut self, id: SurfaceId, buffer: Option<BufferId>) -> (staged: bool)
        requires
            old(self)@.inv(),
        ensures
            final(self)@ == old(self)@.attach(id, buffer),
            staged == old(self)@.live(id),
            final(self)@.inv(),
    {
        match self.find(id) {
            Some(i) => {
                let w = self.windows[i];
                if w.alive {
                    let staged = Window {
                        surface: Surface { pending: Some(SurfaceState { buffer }), ..w.surface },
                        ..w
                    };
                    proof {
                        self@.lemma_put(id, staged);
                    }
                    self.windows.set(i, staged);
                    true
                } else {
                    false
                }
            },
            None => false,
        }
    }

    /// Commits surface `id`: unless the commit is malformed, the staged
    /// state becomes current in one step and the window counts as having
    /// had its initial configure sent.
    pub fn commit(&mut self, id: SurfaceId, registry: &ClientRegistry) -> (r: SurfaceCommit)
        requires
            old(self)@.inv(),
        ensures
            final(self)@ == old(self)@.commit(id, registry@),
            r == old(self)@.commit_outcome(id, registry@),
            final(self)@.inv(),
    {
        match self.find(id) {
            Some(i) => {
                let w = self.windows[i];
                if !w.alive {
                    return SurfaceCommit::Ignored;
                }
                let staged: Option<BufferId> = match w.surface.pending {
                    Some(state) => state.buffer,
                    None => None,
                };
                match staged {
                    Some(b) => {
                        if !registry.owns(w.surface.client, b) {
                            return SurfaceCommit::Refused {
                                client: w.surface.client,
                                error: ProtocolError::UnknownBuffer,
                            };
                        }
                        if !w.surface.configured {
                            return SurfaceCommit::Refused {
                                client: w.surface.client,
                                error: ProtocolError::BufferBeforeAcknowledge,
                            };
                        }
                    },
                    None => {},
                }
                let next: SurfaceState = match w.surface.pending {
                    Some(state) => state,
                    None => w.surface.current,
                };
                let committed = Window {
                    surface: Surface { current: next, pending: None, ..w.surface },
                    initial_configure_sent: true,
                    damaged: true,
                    ..w
                };
                proof {
                    self@.lemma_put(id, committed);
                }
                self.windows.set(i, committed);
                SurfaceCommit::Applied { configure: !w.initial_configure_sent }
            },
            None => SurfaceCommit::Ignored,
        }
    }

    /// Records that the client acknowledged the initial configure of the
    /// window on `id`. Says whether the window was waiting for that.
    pub fn ack_configure(&mut self, id: SurfaceId) -> (acknowledged: bool)
        requires
            old(self)@.inv(),
        ensures
            final(self)@ == old(self)@.acknowledge(id),
            acknowledged == old(self)@.awaits_acknowledge(id),
            final(self)@.inv(),
    {
        match self.find(id) {
            Some(i) => {
                let w = self.windows[i];
                if w.alive && w.initial_configure_sent && !w.surface.configured {
                    let acknowledged = Window {
                        surface: Surface { configured: true, ..w.surface },
                        ..w
                    };
                    proof {
                        self@.lemma_put(id, acknowledged);
                    }
                    self.windows.set(i, acknowledged);
                    true
                } else {
                    false
                }
            },
            None => false,
        }
    }

    /// Destroys the window on `id`. A second call, or a call for a window
    /// that never was, changes nothing. Says whether a window was destroyed.
    pub fn destroy(&mut self, id: SurfaceId) -> (destroyed: bool)
        requires
            old(self)@.inv(),
        ensures
            final(self)@ == old(self)@.destroy(id),
            destroyed == old(self)@.live(id),
            final(self)@.inv(),
    {
        match self.find(id) {
            Some(i) => {
                let w = self.windows[i];
                if w.alive {
                    let gone = Window { alive: false, ..w };
                    proof {
                        self@.lemma_put(id, gone);
                    }
                    self.windows.set(i, gone);
                    true
                } else {
                    false
                }
            },
            None => false,
        }
    }

    /// Destroys every window of client `c`.
    pub fn release_client(&mut self, c: ClientId)
        requires
            old(self)@.inv(),
        ensures
            final(self)@ == old(self)@.release_client(c),
            final(self)@.inv(),
    {
        proof {
            self@.lemma_map(released(c));
        }
        let ghost before = self.windows@;
        let mut i: usize = 0;
        while i < self.windows.len()
            invariant
                i <= self.windows.len(),
                self.windows@.len() == before.len(),
                self.next_surface == old(self).next_surface,
                forall|k: int| 0 <= k < i ==> self.windows@[k] == released(c)(before[k]),
                forall|k: int| i <= k < before.len() ==> self.windows@[k] == before[k],
            decreases self.windows.len() - i,
        {
            let w = self.windows[i];
            if w.surface.client.0 == c.0 {
                self.windows.set(i, Window { alive: false, ..w });
            }
            i += 1;
        }
        proof {
            assert(self.windows@ =~= before.map_values(released(c)));
        }
    }

    /// What the renderer is to draw: the mapped windows, oldest first.
    pub fn scene(&self) -> (r: Vec<SceneElement>)
        ensures
            r@ == self@.scene(),
    {
        let mut out: Vec<SceneElement> = Vec::new();
        let mut i: usize = 0;
        proof {
            reveal(Seq::filter);
            assert(self.windows@.take(0) =~= Seq::<Window>::empty());
            assert(out@ =~= self.windows@.take(0).filter(shown()).map_values(element_of()));
        }
        while i < self.windows.len()
            invariant
                i <= self.windows.len(),
                out@ == self.windows@.take(i as int).filter(shown()).map_values(element_of()),
            decreases self.windows.len() - i,
        {
            let w = self.windows[i];
            proof {
                let head = self.windows@.take(i as int);
                assert(self.windows@.take(i + 1) =~= head.push(w));
                head.lemma_filter_push(w, shown());
                assert(head.filter(shown()).push(w).map_values(element_of()) =~= head.filter(
                    shown(),
                ).map_values(element_of()).push(element_of()(w)));
            }
            if w.mapped() {
                out.push(
                    SceneElement {
                        surface: w.surface.id,
                        client: w.surface.client,
                        position: w.position,
                        buffer: w.surface.current.buffer,
                        damaged: w.damaged,
                    },
                );
            }
            i += 1;
        }
        proof {
            assert(self.windows@.take(self.windows.len() as int) =~= self.windows@);
        }
        out
    }

    /// The frame callbacks that a presented frame owes: one for each mapped
    /// window, oldest first, each carrying `elapsed_ms`.
    pub fn callbacks(&self, elapsed_ms: u64) -> (r: Vec<FrameCallback>)
        ensures
            r@ == self@.callbacks(elapsed_ms),
    {
        let mut out: Vec<FrameCallback> = Vec::new();
        let mut i: usize = 0;
        proof {
            reveal(Seq::filter);
            assert(self.windows@.take(0) =~= Seq::<Window>::empty());
            assert(out@ =~= self.windows@.take(0).filter(shown()).map_values(
                callback_at(elapsed_ms),
            ));
        }
        while i < self.windows.len()
            invariant
                i <= self.windows.len(),
                out@ == self.windows@.take(i as int).filter(shown()).map_values(
                    callback_at(elapsed_ms),
                ),
            decreases self.windows.len() - i,
        {
            let w = self.windows[i];
            proof {
                let head = self.windows@.take(i as int);
                assert(self.windows@.take(i + 1) =~= head.push(w));
                head.lemma_filter_push(w, shown());
                assert(head.filter(shown()).push(w).map_values(callback_at(elapsed_ms))
                    =~= head.filter(shown()).map_values(callback_at(elapsed_ms)).push(
                    callback_at(elapsed_ms)(w),
                ));
            }
            if w.mapped() {
                out.push(
                    FrameCallback { surface: w.surface.id, client: w.surface.client, elapsed_ms },
                );
            }
            i += 1;
        }
        proof {
            assert(self.windows@.take(self.windows.len() as int) =~= self.windows@);
        }
        out
    }

    /// Tidies up after a presented frame: drops the destroyed windows and
    /// marks the others as unchanged.
    pub fn refresh(&mut self)
        requires
            old(self)@.inv(),
        ensures
            final(self)@ == old(self)@.refresh(),
            final(self)@.inv(),
    {
        proof {
            self@.lemma_filter(living());
            (SpaceModel { windows: self@.windows.filter(living()), ..self@ }).lemma_map(settled());
        }
        let mut kept: Vec<Window> = Vec::new();
        let mut i: usize = 0;
        proof {
            reveal(Seq::filter);
            assert(self.windows@.take(0) =~= Seq::<Window>::empty());
            assert(kept@ =~= self.windows@.take(0).filter(living()).map_values(settled()));
        }
        while i < self.windows.len()
            invariant
                i <= self.windows.len(),
                kept@ == self.windows@.take(i as int).filter(living()).map_values(settled()),
            decreases self.windows.len() - i,
        {
            let w = self.windows[i];
            proof {
                let head = self.windows@.take(i as int);
                assert(self.windows@.take(i + 1) =~= head.push(w));
                head.lemma_filter_push(w, living());
                assert(head.filter(living()).push(w).map_values(settled()) =~= head.filter(
                    living(),
                ).map_values(settled()).push(settled()(w)));
            }
            if w.alive {
                kept.push(Window { damaged: false, ..w });
            }
            i += 1;
        }
        proof {
            assert(self.windows@.take(self.windows.len() as int) =~= self.windows@);
        }
        self.windows = kept;
    }
}

} // verus!
