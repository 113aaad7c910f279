//! Network synchronization core for a real-time multiplayer client: a binary
//! wire protocol, a session-lifecycle state machine, and a per-frame world
//! reconciliation engine.

pub mod game;
pub mod lifecycle;
pub mod math;
pub mod network;
pub mod objects;
pub mod player;
pub mod reader;
pub mod session;
pub mod wire;
