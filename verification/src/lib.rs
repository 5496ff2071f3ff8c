//! Production-chain planner for a factory-building game.
//!
//! Given a set of recipes mapped onto candidate machines, the planner builds a
//! linear system that balances item production against consumption and solves
//! it for per-machine multipliers. All arithmetic is exact rational
//! arithmetic, so the solver's feasibility checks (zero solution, residual
//! bound, non-negativity) are proved rather than sampled.

pub mod config;
pub mod editor;
pub mod error;
pub mod game_data;
pub mod info;
pub mod linalg;
pub mod machine;
pub mod primitives;
pub mod rational;
pub mod snippet;
pub mod solver;
