//! Runtime logic of the anime champion pack: geometry and targeting helpers,
//! per-match persistent state, periodic damage channels, spawned-unit
//! bookkeeping, buff visuals and champion ability formulas.
use vstd::prelude::*;

pub mod geometry;
pub mod text;
pub mod seq_util;
pub mod periodic;
pub mod table;
pub mod world;
pub mod spawns;
pub mod state;
pub mod buff_persistence;
pub mod visuals;
pub mod targeting;
pub mod abilities;
pub mod laws;
pub mod selection_laws;

verus! {
} // verus!
