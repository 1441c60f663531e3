//! Typed engine errors. A load or play path that would reach unimplemented
//! behaviour fails here, never as a silent no-op.

use vstd::prelude::*;
use crate::card::CardId;
use crate::ids::PlayerId;
use crate::trace::PickWhat;

verus! {

/// `serde_json`'s error, carried by load and replay failures.
#[verifier::external_type_specification]
#[verifier::external_body]
pub struct ExJsonError(serde_json::Error);

/// std's I/O error, carried by load and replay failures.
#[verifier::external_type_specification]
#[verifier::external_body]
pub struct ExIoError(std::io::Error);

/// Failures that abort loading a card or starting a game.
#[derive(Debug)]
pub enum LoadError {
    Io { path: String, source: std::io::Error },
    Parse { path: String, source: serde_json::Error },
    Catalog { path: String, source: serde_json::Error },
    Duplicate { id: String, first: String, second: String },
    MissingCard(CardId),
    MissingCrest(String),
    Unsupported(Unsupported),
    UnboundRef { card: String, name: String },
    OpeningHandNotInDeck { player: String, card: String },
}

/// A card uses a schema construct the engine does not implement.
#[derive(Debug, Clone)]
pub struct Unsupported {
    pub card: String,
    pub construct: String,
}

/// An action was not among the legal actions (or a scripted pick was
/// illegal).
#[derive(Debug)]
pub enum Illegal {
    NotLegal,
    Terminal,
    OraclePickNotLegal(OraclePickNotLegal),
    StepCeiling,
    Unsupported(Unsupported),
}

/// A recorded pick is not among the current candidates.
#[derive(Debug, Clone)]
pub struct OraclePickNotLegal {
    pub what: PickWhat,
    pub chose: String,
    pub candidates: Vec<String>,
}

/// Failures from the replay / diff harness.
#[derive(Debug)]
pub enum ReplayError {
    Io(std::io::Error),
    Parse { line: usize, source: serde_json::Error },
    Header(String),
    Diverge { i: u32, path: String, arena: String, trace: String },
    Unsupported(Unsupported),
    Oracle(OraclePickNotLegal),
    OracleAt { i: u32, err: OraclePickNotLegal },
    Illegal { i: u32, action: String, legal: String, source: Illegal },
}

/// Process exit code of a replay failure: divergence, header and illegal
/// action are 2; unsupported and oracle picks are 3; I/O and parse are 1.
pub open spec fn spec_exit_code(e: ReplayError) -> i32 {
    match e {
        ReplayError::Diverge { .. } | ReplayError::Header(_) | ReplayError::Illegal { .. } => 2,
        ReplayError::Unsupported(_) | ReplayError::Oracle(_) | ReplayError::OracleAt { .. } => 3,
        ReplayError::Io(_) | ReplayError::Parse { .. } => 1,
    }
}

impl ReplayError {
    pub fn exit_code(&self) -> (r: i32)
        ensures
            r == spec_exit_code(*self),
    {
        match self {
            ReplayError::Diverge { .. } | ReplayError::Header(_) | ReplayError::Illegal { .. } => 2,
            ReplayError::Unsupported(_) | ReplayError::Oracle(_) | ReplayError::OracleAt { .. } => 3,
            ReplayError::Io(_) | ReplayError::Parse { .. } => 1,
        }
    }
}

/// Winner label of a seat.
pub fn winner_label(p: PlayerId) -> (r: &'static str)
    ensures
        r@ == crate::ids::spec_player_label(p),
{
    proof {
        reveal_strlit("a");
        reveal_strlit("b");
    }
    match p {
        PlayerId::A => "a",
        PlayerId::B => "b",
    }
}

} // verus!
