//! Orchestration core of a screen recorder: coordinate transforms,
//! frame-rate limiting, GOP-aware history buffering, capture format
//! negotiation, output selection, and the capture state machine.
//! The compositor, GPU and encoder plumbing live outside this crate;
//! everything here is pure logic over plain values.

pub mod audio;
pub mod cli;
pub mod enc;
pub mod filtergraph;
pub mod format;
pub mod fps_counter;
pub mod fps_limit;
pub mod history;
pub mod machine;
pub mod output;
pub mod transform;
