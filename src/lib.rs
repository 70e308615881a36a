//! Device sessions and command dispatch for a fleet of remote agents.
//!
//! - `protocol`: the tagged messages between agents and the server.
//! - `registry`: known devices, online status and last-seen times.
//! - `command`: the command ledger and its lifecycle.
//! - `session`: per-connection sessions, liveness and command delivery.
//! - `query`: filtered reads and operator submission.
//! - `monitor`: the latest telemetry sample of each device.
pub mod command;
pub mod monitor;
pub mod order;
pub mod protocol;
pub mod query;
pub mod registry;
pub mod session;
mod sys;
