//! Core of a vehicle-tracking pipeline for a municipal transit feed.
//!
//! A background loop periodically downloads a CSV dump of bus positions,
//! decodes and validates the rows, and maintains a store that maps each
//! vehicle id to its route label and a short bounded history of recent
//! positions. Renderers read immutable snapshots of that store; a visibility
//! flag suspends the loop and purges the store while the application is in
//! the background. Geographic coordinates are kept as integer microdegrees,
//! so every rule of the pipeline is stated and checked over plain values.

use vstd::prelude::*;

pub mod csvtext;
pub mod feed;
pub mod places;
pub mod scheduler;
pub mod store;
pub mod text;
pub mod vehicle;

verus! {

/// Default number of recent positions retained per vehicle.
pub const MAX_HISTORY: usize = 10;

/// Policy knobs of the pipeline. Deployments have used retention bounds of
/// 10 and 100 and have run the validator with and without the coordinate
/// check, so both are configuration rather than fixed constants.
#[derive(Clone, Copy, PartialEq, Eq, Structural, Debug)]
pub struct Config {
    /// Upper bound on the length of one vehicle's position history.
    pub max_history: usize,
    /// Whether the validator also requires coordinates near the service area.
    pub check_coordinates: bool,
}

impl Config {
    /// A configuration is usable when at least one position can be retained.
    pub open spec fn wf(self) -> bool {
        self.max_history >= 1
    }
}

impl Default for Config {
    /// The canonical deployment: retention of `MAX_HISTORY` positions and
    /// the stricter validator that also checks coordinates.
    fn default() -> (c: Self)
        ensures
            c.max_history == MAX_HISTORY,
            c.check_coordinates,
            c.wf(),
    {
        Config { max_history: MAX_HISTORY, check_coordinates: true }
    }
}

/// Whether the consuming application is currently in the background.
/// The platform lifecycle hook writes it; the scheduler samples it once per
/// tick. It is an input to the core, not part of the core's own state.
pub struct VisibilityFlag {
    in_background: bool,
}

impl VisibilityFlag {
    pub closed spec fn spec_in_background(self) -> bool {
        self.in_background
    }

    /// A fresh flag: the application counts as visible until told otherwise.
    pub fn new() -> (f: VisibilityFlag)
        ensures
            !f.spec_in_background(),
    {
        VisibilityFlag { in_background: false }
    }
}

/// Lifecycle hook: record that the application entered or left the background.
pub fn set_app_in_background(flag: &mut VisibilityFlag, in_background: bool)
    ensures
        final(flag).spec_in_background() == in_background,
{
    flag.in_background = in_background;
}

/// Read the visibility flag, as the scheduler does at the start of each tick.
pub fn is_app_in_background(flag: &VisibilityFlag) -> (r: bool)
    ensures
        r == flag.spec_in_background(),
{
    flag.in_background
}

} // verus!
