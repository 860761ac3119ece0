//! The core of a small Wayland-style compositor: which clients are connected,
//! which windows exist and how far their configure handshake has come, where
//! input goes, and what each frame shows.
//!
//! The core does no I/O. Its operations take plain values and return what
//! the caller has to send, draw or launch.

pub mod failure;
pub mod frame;
pub mod ids;
pub mod laws;
pub mod model;
pub mod output;
pub mod protocol;
pub mod registry;
pub mod seat;
pub mod seqs;
pub mod space;
pub mod state;
pub mod window;
