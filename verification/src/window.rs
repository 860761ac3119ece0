//! Surfaces and the toplevel windows built on them.
//!
//! A surface is double-buffered: requests stage changes in `pending`, and
//! only a commit moves them to `current`, which is what composition reads.
//! A window adds placement and the configure handshake to its surface.

use vstd::prelude::*;
use crate::ids::{BufferId, ClientId, SurfaceId};

verus! {

/// The double-buffered part of a surface.
#[derive(Clone, Copy, Debug, PartialEq, Eq, Structural)]
pub struct SurfaceState {
    /// The attached buffer, if any.
    pub buffer: Option<BufferId>,
}

/// A client-owned drawable region.
#[derive(Clone, Copy, Debug, PartialEq, Eq, Structural)]
pub struct Surface {
    pub id: SurfaceId,
    /// The owning client. A back-reference: the surface does not own it.
    pub client: ClientId,
    /// The state staged since the last commit, if any was. It is invisible
    /// to composition.
    pub pending: Option<SurfaceState>,
    /// State as of the last commit.
    pub current: SurfaceState,
    /// Whether the client has acknowledged the initial configure.
    pub configured: bool,
}

/// Where a window sits in the space.
#[derive(Clone, Copy, Debug, PartialEq, Eq, Structural)]
pub struct Position {
    pub x: i32,
    pub y: i32,
}

/// The place every new toplevel is given.
pub open spec fn origin() -> Position {
    Position { x: 0, y: 0 }
}

/// The stations of a window's life.
#[derive(Clone, Copy, Debug, PartialEq, Eq, Structural)]
pub enum WindowPhase {
    /// Created; no commit seen yet.
    Unconfigured,
    /// First commit seen and the initial configure sent; not yet acknowledged.
    ConfigurePending,
    /// The client acknowledged the initial configure.
    Configured,
    /// Destroyed. Nothing leads out of this phase.
    Destroyed,
}

/// Why a commit is refused.
#[derive(Clone, Copy, Debug, PartialEq, Eq, Structural)]
pub enum ProtocolError {
    /// The staged buffer is not one that the surface's client has announced.
    UnknownBuffer,
    /// A buffer was committed before the initial configure was acknowledged.
    BufferBeforeAcknowledge,
    /// The request names a surface that belongs to another client.
    ForeignSurface,
}

/// A toplevel surface with placement and configure state.
#[derive(Clone, Copy, Debug, PartialEq, Eq, Structural)]
pub struct Window {
    pub surface: Surface,
    pub position: Position,
    /// Set by the window's first commit, never cleared.
    pub initial_configure_sent: bool,
    /// False once the window is destroyed; the record then only waits to be
    /// dropped by the next refresh.
    pub alive: bool,
    /// Whether the window was committed since the last presented frame.
    pub damaged: bool,
}

impl Window {
    /// What holds of every record the space keeps.
    pub open spec fn wf(self) -> bool {
        &&& self.surface.configured ==> self.initial_configure_sent
        &&& self.surface.current.buffer is Some ==> self.surface.configured
    }

    /// The phase that the window is in.
    pub open spec fn phase(self) -> WindowPhase {
        if !self.alive {
            WindowPhase::Destroyed
        } else if !self.initial_configure_sent {
            WindowPhase::Unconfigured
        } else if !self.surface.configured {
            WindowPhase::ConfigurePending
        } else {
            WindowPhase::Configured
        }
    }

    /// A window takes part in composition, and is owed frame callbacks, from
    /// its first commit until it is destroyed.
    pub open spec fn is_mapped(self) -> bool {
        self.alive && self.initial_configure_sent
    }

    /// The window that `create_toplevel` makes.
    pub open spec fn fresh(id: SurfaceId, client: ClientId) -> Window {
        Window {
            surface: Surface {
                id,
                client,
                pending: None,
                current: SurfaceState { buffer: None },
                configured: false,
            },
            position: origin(),
            initial_configure_sent: false,
            alive: true,
            damaged: false,
        }
    }

    /// The window with `buffer` staged.
    pub open spec fn staged(self, buffer: Option<BufferId>) -> Window {
        Window {
            surface: Surface { pending: Some(SurfaceState { buffer }), ..self.surface },
            ..self
        }
    }

    /// The buffer that the next commit would make current, if a buffer is
    /// staged.
    pub open spec fn staged_buffer(self) -> Option<BufferId> {
        match self.surface.pending {
            Some(state) => state.buffer,
            None => None,
        }
    }

    /// The state that the next commit makes current: the staged one, or
    /// where nothing is staged, the current one once more.
    pub open spec fn next_state(self) -> SurfaceState {
        match self.surface.pending {
            Some(state) => state,
            None => self.surface.current,
        }
    }

    /// Why a commit of the staged state must be refused, if it must.
    /// `announced` says whether the staged buffer, if there is one, is a
    /// buffer of the surface's client.
    pub open spec fn commit_fault(self, announced: bool) -> Option<ProtocolError> {
        if self.staged_buffer() is None {
            None
        } else if !announced {
            Some(ProtocolError::UnknownBuffer)
        } else if !self.surface.configured {
            Some(ProtocolError::BufferBeforeAcknowledge)
        } else {
            None
        }
    }

    /// The window after a commit that was not refused: staged state becomes
    /// current in one step and nothing is staged any more, and the initial
    /// configure counts as sent.
    pub open spec fn committed(self) -> Window {
        Window {
            surface: Surface { current: self.next_state(), pending: None, ..self.surface },
            initial_configure_sent: true,
            damaged: true,
            ..self
        }
    }

    /// The window after the client acknowledged the initial configure.
    pub open spec fn acknowledged(self) -> Window {
        Window { surface: Surface { configured: true, ..self.surface }, ..self }
    }

    /// The window after it was destroyed.
    pub open spec fn destroyed(self) -> Window {
        Window { alive: false, ..self }
    }

    /// The window after a frame showing it was presented.
    pub open spec fn presented(self) -> Window {
        Window { damaged: false, ..self }
    }

    /// A fresh window on surface `id` for `client`.
    pub fn new(id: SurfaceId, client: ClientId) -> (w: Window)
        ensures
            w == Window::fresh(id, client),
    {
        Window {
            surface: Surface {
                id,
                client,
                pending: None,
                current: SurfaceState { buffer: None },
                configured: false,
            },
            position: Position { x: 0, y: 0 },
            initial_configure_sent: false,
            alive: true,
            damaged: false,
        }
    }

    /// The phase that the window is in.
    pub fn get_phase(&self) -> (p: WindowPhase)
        ensures
            p == self.phase(),
    {
        if !self.alive {
            WindowPhase::Destroyed
        } else if !self.initial_configure_sent {
            WindowPhase::Unconfigured
        } else if !self.surface.configured {
            WindowPhase::ConfigurePending
        } else {
            WindowPhase::Configured
        }
    }

    /// Whether the window takes part in composition.
    pub fn mapped(&self) -> (m: bool)
        ensures
            m == self.is_mapped(),
    {
        self.alive && self.initial_configure_sent
    }
}

} // verus!
