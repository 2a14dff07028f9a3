//! Decision-scoring engine for a multi-agent strategy simulation.
//!
//! Every tick, each simulated country chooses one action (attack, invest,
//! research, diplomacy, fortify, move, or pass) out of a large action space,
//! using precomputed lookup tables, per-country adaptive weights, a
//! six-channel scoring model, and a bounded generate-prune-score-argmax
//! search.  All quantities are fixed-point integers (millionths of a unit),
//! so the whole engine is exact, deterministic arithmetic.

pub mod fixed;
pub mod actions;
pub mod counter;
pub mod country;
pub mod luts;
pub mod scoring;
pub mod system;
pub mod world;
