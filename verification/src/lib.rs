//! An end-to-end-blind publish/subscribe relay.
//!
//! Clients publish opaque frames to a topic. Every other subscriber of the topic is
//! handed the frame; a topic that nobody else listens to holds it in a mailbox, up to a
//! time to live and a depth. The relay holds no keys and reads no payload.

pub mod admission;
pub mod clock;
pub mod config;
pub mod conn;
pub mod hub;
pub mod json;
pub mod laws;
pub mod model;
pub mod protocol;
pub mod sender;
mod seqs;
pub mod state;
pub mod topic;

pub use state::AppState;

