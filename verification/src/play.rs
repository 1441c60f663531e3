//! Why a driven game stopped, and what a driver reports.

use vstd::prelude::*;
use crate::ids::PlayerId;

verus! {

/// Why a driven game stopped.
#[derive(Debug, Clone, Copy, PartialEq, Eq, Structural)]
pub enum End {
    Lethal,
    Deckout,
    TurnCap,
    ActionCap,
    NoLegal,
    Illegal,
}

/// Report label of an end reason.
pub open spec fn end_label(e: End) -> Seq<char> {
    match e {
        End::Lethal => "lethal"@,
        End::Deckout => "deckout"@,
        End::TurnCap => "turn_cap"@,
        End::ActionCap => "action_cap"@,
        End::NoLegal => "no_legal"@,
        End::Illegal => "illegal"@,
    }
}

impl End {
    pub fn as_str(self) -> (r: &'static str)
        ensures
            r@ == end_label(self),
    {
        match self {
            End::Lethal => "lethal",
            End::Deckout => "deckout",
            End::TurnCap => "turn_cap",
            End::ActionCap => "action_cap",
            End::NoLegal => "no_legal",
            End::Illegal => "illegal",
        }
    }
}

/// Result of a driven game.
#[derive(Debug, Clone, Copy, PartialEq, Eq, Structural)]
pub struct Outcome {
    pub winner: Option<PlayerId>,
    pub first: PlayerId,
    pub turns: u32,
    pub actions: u32,
    pub end: End,
}

} // verus!
