//! Deterministic what-if projection of a chain's state.
//!
//! Starting from a chosen block, a run produces and applies blocks that hold
//! only inherent extrinsics and streams one JSON record per produced block to
//! a sink. This library holds the decisions of such a run: how the horizon
//! and the starting point are resolved, how one block is stepped, when the
//! sink is flushed, how a record is laid out on its line, and how the run
//! ends. The chain client, the sink and the shutdown signal stay with the
//! caller, which performs each [`simulation::Action`] and hands back the
//! matching [`simulation::Event`].

pub mod config;
pub mod digits;
pub mod hexadecimal;
pub mod readback;
pub mod record;
pub mod simulation;
pub mod start;
pub mod trace;
