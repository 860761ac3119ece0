//! What one tick of the frame timer yields.

use vstd::prelude::*;
use crate::seat::DispatchResult;
use crate::space::{FrameCallback, SceneElement};

verus! {

/// The time from one tick to the next, in milliseconds. The timer is set
/// anew from each tick and does not make up for a late one.
pub const FRAME_PERIOD_MS: u64 = 16;

/// The work that a tick leaves to the caller, in the order in which it is
/// to be done.
pub struct Frame {
    /// First: what became of each drained input event, in order. Forward
    /// the forwarded ones and carry out the actions of the intercepted ones.
    pub outcomes: Vec<DispatchResult>,
    /// Then: what to draw, back to front, and present.
    pub scene: Vec<SceneElement>,
    /// Then: the frame callbacks to send.
    pub callbacks: Vec<FrameCallback>,
    /// Last: when to tick again, in milliseconds from now.
    pub next_tick_ms: u64,
}

/// A frame as a mathematical value.
pub struct FrameModel {
    pub outcomes: Seq<DispatchResult>,
    pub scene: Seq<SceneElement>,
    pub callbacks: Seq<FrameCallback>,
    pub next_tick_ms: u64,
}

impl View for Frame {
    type V = FrameModel;

    open spec fn view(&self) -> FrameModel {
        FrameModel {
            outcomes: self.outcomes@,
            scene: self.scene@,
            callbacks: self.callbacks@,
            next_tick_ms: self.next_tick_ms,
        }
    }
}

} // verus!
