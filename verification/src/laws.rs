//! What holds of the relay as a whole, whichever operations it has been through.

pub mod admission;
pub mod connection;
pub mod effects;
pub mod frames;
pub mod mailbox;
pub mod routing;
pub mod sweeps;
pub mod upkeep;
pub mod wire;
