//! Session tracking for a desktop usage monitor: the platform-independent
//! session state machine, its per-application statistics, and the pure
//! decision logic of the platform backends.

pub mod monitor;
pub mod laws;
pub mod text;
pub mod linux;
pub mod windows;
pub mod power;
