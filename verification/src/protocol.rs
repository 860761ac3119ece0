//! The requests that a connected client can make, and the answers.

use vstd::prelude::*;
use crate::ids::{BufferId, ClientId, SurfaceId, WindowHandle};
use crate::window::ProtocolError;

verus! {

/// One request of a client. The vocabulary is closed.
#[derive(Clone, Copy, Debug, PartialEq, Eq, Structural)]
pub enum Request {
    /// Make a toplevel window for me.
    CreateToplevel,
    /// Take note of a new buffer of mine.
    CreateBuffer,
    /// Forget this buffer.
    DestroyBuffer { id: BufferId },
    /// Stage this buffer, or none, on the surface.
    Attach { surface: SurfaceId, buffer: Option<BufferId> },
    /// Make the staged state of the surface current.
    Commit { surface: SurfaceId },
    /// I have seen the initial configure of the surface's window.
    AckConfigure { surface: SurfaceId },
    /// Destroy the window.
    Destroy { window: WindowHandle },
}

/// What the compositor did with a request, and what the caller now owes
/// the client.
#[derive(Clone, Copy, Debug, PartialEq, Eq, Structural)]
pub enum Response {
    /// Nothing changed: the sender is not connected, or the request names
    /// nothing that it could act on.
    Ignored,
    /// Done; nothing to send.
    Done,
    /// A window was made.
    ToplevelCreated(WindowHandle),
    /// A buffer was noted.
    BufferCreated(BufferId),
    /// Nothing was made: the numbers for new objects have run out.
    Exhausted,
    /// The commit was applied and was the window's first: send the initial
    /// configure for this surface.
    Configure { surface: SurfaceId },
    /// The request broke the protocol. The client has been disconnected and
    /// its windows destroyed; close its connection.
    Disconnected { client: ClientId, error: ProtocolError },
}

impl Request {
    /// The surface that the request names, if it names one.
    pub open spec fn surface(self) -> Option<SurfaceId> {
        match self {
            Request::Attach { surface, .. } => Some(surface),
            Request::Commit { surface } => Some(surface),
            Request::AckConfigure { surface } => Some(surface),
            Request::Destroy { window } => Some(window.surface),
            _ => None,
        }
    }

    /// The surface that the request names, if it names one.
    pub fn named_surface(&self) -> (r: Option<SurfaceId>)
        ensures
            r == self.surface(),
    {
        match self {
            Request::Attach { surface, .. } => Some(*surface),
            Request::Commit { surface } => Some(*surface),
            Request::AckConfigure { surface } => Some(*surface),
            Request::Destroy { window } => Some(window.surface),
            _ => None,
        }
    }
}

} // verus!
