//! Program configuration: run mode, the alert account, and the
//! two-zone alert rule.  The configuration is built once at startup
//! and handed to the parts that need it; there is no process-wide
//! singleton.

use crate::process::Coord;
use vstd::prelude::*;

verus! {

/// Largest distance or radius the rule logic admits, in micro-km:
/// forty thousand kilometres, beyond any great-circle distance on
/// Earth.  Together with `MAG_LIMIT` it keeps every interpolation
/// product inside `i64`.
pub const DIST_LIMIT: i64 = 40_000_000_000;

/// Largest magnitude the rule logic admits, in micro-magnitudes: one
/// hundred magnitude units.
pub const MAG_LIMIT: i64 = 100_000_000;

/// How the program is being run.
#[derive(Clone, Copy, PartialEq, Eq, Structural)]
pub enum RunMode {
    Debug,
    Dev,
    Release,
}

impl RunMode {
    pub fn is_debug(&self) -> (r: bool)
        ensures
            r == (*self is Debug),
    {
        matches!(self, RunMode::Debug)
    }

    pub fn is_dev(&self) -> (r: bool)
        ensures
            r == (*self is Dev),
    {
        matches!(self, RunMode::Dev)
    }

    pub fn is_release(&self) -> (r: bool)
        ensures
            r == (*self is Release),
    {
        matches!(self, RunMode::Release)
    }
}

impl Default for RunMode {
    fn default() -> (r: Self)
        ensures
            r is Dev,
    {
        RunMode::Dev
    }
}

/// The account alerts are delivered from.
pub struct AlertAccount {
    pub mail: String,
    pub password: String,
}

/// The two-zone alert rule: a flat magnitude threshold inside the
/// inner radius, a linearly interpolated one between the radii, and no
/// alert beyond the outer radius.  Radii are micro-km from `origin`,
/// thresholds micro-magnitudes.
pub struct AlertRule {
    pub origin: Coord,
    pub search_radius_km_1: i64,
    pub min_magnitude_1: i64,
    pub search_radius_km_2: i64,
    pub min_magnitude_2: i64,
}

impl AlertRule {
    /// What the interpolation formula assumes of a rule: radii in
    /// order and every field inside the limits that keep the
    /// arithmetic exact.
    pub open spec fn well_formed(&self) -> bool {
        &&& 0 <= self.search_radius_km_1
        &&& self.search_radius_km_1 < self.search_radius_km_2
        &&& self.search_radius_km_2 <= DIST_LIMIT
        &&& -MAG_LIMIT <= self.min_magnitude_1 <= MAG_LIMIT
        &&& -MAG_LIMIT <= self.min_magnitude_2 <= MAG_LIMIT
    }
}

/// Everything the program is configured with.
pub struct ProgramConfig {
    pub run_mode: RunMode,
    pub account: AlertAccount,
    pub rule: AlertRule,
}

} // verus!
