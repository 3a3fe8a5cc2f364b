//! A verified core for an entity-component laser-cooling simulation engine.
//!
//! The crate provides the entity-component store with generation-checked
//! handles and deferred deletion, the plugin composition layer with
//! dependency validation, the barrier-synchronized dispatcher that drives one
//! simulation tick, and the steady-state two-level population kernel.
//!
//! All physical quantities are carried as integers in fixed units: excitation
//! rates and natural linewidths as `u64` values of a common rate unit, and
//! level populations as exact rationals (a numerator over a shared
//! denominator), so that every numeric claim is exact.

pub mod dispatch;
pub mod simulation;
pub mod store;
pub mod twolevel;

use vstd::prelude::*;

verus! {

/// Default number of beam lanes for lane-indexed component types.
pub const DEFAULT_BEAM_NUMBER: usize = 8;

/// The single documented maximum lane count shared by all lane-indexed
/// component types; no lane array may grow beyond it.
pub const MAX_BEAM_NUMBER: usize = 1024;

} // verus!
