//! Server-side state engine for a real-time party game.
//!
//! Players register, feed their hippo to raise their score, and take part in
//! timed elimination rounds ("nose-goes"). Every state change is published as
//! an event on one of two broadcast channels: one for host displays, one for
//! player clients.
//!
//! The engine is a plain value: every operation takes it by reference, and a
//! caller that shares it between threads puts it behind a lock of its own.
//! Time is a count of milliseconds on a clock that the caller owns.

pub mod api;
pub mod broadcast;
pub mod error;
pub mod events;
pub mod filters;
pub mod game;
pub mod ids;
pub mod names;
pub mod nose_goes;
pub mod player;
mod random;
pub mod registry;
pub mod wire;
