//! Turn / action ceilings shared by drivers and search rollouts.

use vstd::prelude::*;

verus! {

/// Games that reach this turn number are stopped by the drivers.
pub const MAX_TURNS: u32 = 60;

/// Games that reach this many applied actions are stopped by the drivers.
pub const MAX_ACTIONS: u32 = 800;

} // verus!
