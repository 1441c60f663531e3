//! Information regimes for resampling hidden cards at a search root.

use vstd::prelude::*;

verus! {

/// How much hidden information a search root is allowed to know. This is a
/// search-time knob: the observation still masks the opponent's hand.
#[derive(Debug, Clone, Copy, PartialEq, Eq, Structural)]
pub enum Info {
    /// Open decklists: own draw order is resampled, opponent hand and deck
    /// are resampled under open-information rules.
    Open,
    /// Open decklists: own draw order is resampled, opponent hand and deck
    /// are resampled. Own hand is untouched.
    Fair,
    /// The default: own draw order is exact, the opponent is resampled.
    Draws,
    /// Hard-mode sparring: both sides are the true state. No resampling.
    All,
}

impl Default for Info {
    fn default() -> (r: Self)
        ensures
            r == Info::Draws,
    {
        Info::Draws
    }
}

/// Per-root counters of the open-information regime.
#[derive(Debug, Clone, Copy, PartialEq, Eq, Structural)]
pub struct OpenStats {
    /// Unknown cards dealt from privately removed instances into hand or deck.
    pub hidden: u32,
    /// Revealed fuse hosts held fixed in the opponent hand.
    pub hosts: u32,
}

impl Default for OpenStats {
    fn default() -> (r: Self)
        ensures
            r == (OpenStats { hidden: 0, hosts: 0 }),
    {
        OpenStats { hidden: 0, hosts: 0 }
    }
}

} // verus!
