//! Verdicts and action classes of the within-turn forced-lethal search.

use vstd::prelude::*;
use crate::action::Action;
use crate::ids::{AttackTarget, PlayerId};
use crate::state::{Phase, State};

verus! {

/// Three-way verdict. There is no `Default` and no `is_lethal()`: a
/// search that ran out of budget is not a proof of absence.
#[derive(Debug, Clone)]
pub enum LethalVerdict {
    /// A line that ends the turn-holder's turn with the opponent's leader dead.
    Lethal { line: Vec<Action>, nodes: u32, rng_dependent: bool },
    /// Every branch was exhausted and none was found. This is a proof.
    Absent { nodes: u32 },
    /// The node budget ran out first. This is not a proof of absence.
    Unknown { nodes: u32 },
}

/// Action kinds the search expands.
#[derive(Debug, Clone, Copy, PartialEq, Eq, Structural, Hash)]
pub enum LethalActionKind {
    Play,
    Attack,
    Evolve,
    Engage,
    Fuse,
    BonusPp,
    Choose,
    Confirm,
}

/// Kind the search expands; none for ending the turn or a mulligan.
pub open spec fn spec_lethal_action_kind(a: Action) -> Option<LethalActionKind> {
    match a {
        Action::Play { .. } => Some(LethalActionKind::Play),
        Action::Attack { .. } => Some(LethalActionKind::Attack),
        Action::Evolve { .. } => Some(LethalActionKind::Evolve),
        Action::Engage { .. } => Some(LethalActionKind::Engage),
        Action::Fuse { .. } => Some(LethalActionKind::Fuse),
        Action::BonusPp => Some(LethalActionKind::BonusPp),
        Action::Choose(_) => Some(LethalActionKind::Choose),
        Action::Confirm => Some(LethalActionKind::Confirm),
        Action::EndTurn | Action::MulliganConfirm { .. } => None,
    }
}

pub fn lethal_action_kind(a: &Action) -> (r: Option<LethalActionKind>)
    ensures
        r == spec_lethal_action_kind(*a),
{
    match a {
        Action::Play { .. } => Some(LethalActionKind::Play),
        Action::Attack { .. } => Some(LethalActionKind::Attack),
        Action::Evolve { .. } => Some(LethalActionKind::Evolve),
        Action::Engage { .. } => Some(LethalActionKind::Engage),
        Action::Fuse { .. } => Some(LethalActionKind::Fuse),
        Action::BonusPp => Some(LethalActionKind::BonusPp),
        Action::Choose(_) => Some(LethalActionKind::Choose),
        Action::Confirm => Some(LethalActionKind::Confirm),
        Action::EndTurn | Action::MulliganConfirm { .. } => None,
    }
}

/// Whether the search expands an action: every kind but ending the turn
/// and the mulligan.
pub fn consider(a: &Action) -> (r: bool)
    ensures
        r == spec_lethal_action_kind(*a) is Some,
        r == !(*a is EndTurn || *a is MulliganConfirm),
{
    lethal_action_kind(a).is_some()
}

/// Search order: leader attacks first, then other attacks, evolves,
/// engages, plays, fuses, bonus PP, choices, confirms.
pub open spec fn spec_action_rank(a: Action) -> u8 {
    match a {
        Action::Attack { target: AttackTarget::Leader, .. } => 0,
        Action::Attack { .. } => 1,
        Action::Evolve { .. } => 2,
        Action::Engage { .. } => 3,
        Action::Play { .. } => 4,
        Action::Fuse { .. } => 5,
        Action::BonusPp => 6,
        Action::Choose(_) => 7,
        Action::Confirm => 8,
        Action::MulliganConfirm { .. } => 9,
        Action::EndTurn => 10,
    }
}

pub fn action_rank(a: &Action) -> (r: u8)
    ensures
        r == spec_action_rank(*a),
{
    match a {
        Action::Attack { target: AttackTarget::Leader, .. } => 0,
        Action::Attack { .. } => 1,
        Action::Evolve { .. } => 2,
        Action::Engage { .. } => 3,
        Action::Play { .. } => 4,
        Action::Fuse { .. } => 5,
        Action::BonusPp => 6,
        Action::Choose(_) => 7,
        Action::Confirm => 8,
        Action::MulliganConfirm { .. } => 9,
        Action::EndTurn => 10,
    }
}

/// The search is still inside `perspective`'s turn: no winner, it holds
/// the turn, and the phase is not terminal, mulligan or end.
pub open spec fn spec_within_turn(s: State, perspective: PlayerId) -> bool {
    s.winner is None && s.active == perspective && !(s.phase is Terminal || s.phase is Mulligan
        || s.phase is End)
}

pub fn within_turn(state: &State, perspective: PlayerId) -> (r: bool)
    ensures
        r == spec_within_turn(*state, perspective),
{
    state.winner.is_none() && state.active == perspective && !(match state.phase {
        Phase::Terminal | Phase::Mulligan { .. } | Phase::End => true,
        _ => false,
    })
}

/// Every action the search expands ranks before the two it never expands,
/// and the leader attack ranks first.
pub proof fn lemma_rank_orders_expanded_first(a: Action, b: Action)
    ensures
        spec_lethal_action_kind(a) is Some && spec_lethal_action_kind(b) is None ==> spec_action_rank(a)
            < spec_action_rank(b),
        a matches Action::Attack { target: AttackTarget::Leader, .. } ==> spec_action_rank(a)
            <= spec_action_rank(b),
{
}

} // verus!
