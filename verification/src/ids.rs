//! Identifiers handed out by the compositor core.
//!
//! Every identifier is a number drawn from a counter that only grows, so an
//! identifier that has been retired never names a later object.

use vstd::prelude::*;

verus! {

/// Names one client connection.
#[derive(Clone, Copy, Debug, PartialEq, Eq, Hash, Structural)]
pub struct ClientId(pub u64);

/// Names one surface, and with it the toplevel window built on that surface.
#[derive(Clone, Copy, Debug, PartialEq, Eq, Hash, Structural)]
pub struct SurfaceId(pub u64);

/// Names one buffer that a client has announced.
#[derive(Clone, Copy, Debug, PartialEq, Eq, Hash, Structural)]
pub struct BufferId(pub u64);

/// What `create_toplevel` hands back: the window, named by its surface.
#[derive(Clone, Copy, Debug, PartialEq, Eq, Hash, Structural)]
pub struct WindowHandle {
    pub surface: SurfaceId,
}

} // verus!
