//! Tile-based gas diffusion: per-tile gas mixtures, wall-aware connectivity and a
//! sparse activation scheme that only recomputes tiles still exchanging gas.
mod arith;
pub mod gas;
pub mod tile;
pub mod grid;
pub mod diffusion;
pub mod simulation;
pub mod laws;
pub mod convergence;
