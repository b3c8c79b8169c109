//! A session-based broadcast relay: the registry of connected sessions, the
//! per-session relay state machine, and the small utilities that ship with it.

pub mod mock_rand;
pub mod relay;
pub mod relay_proofs;
pub mod server;
pub mod session_manager;
pub mod sync_rand;
