//! The neutral, JSON-shaped action vocabulary of a recorded trace.

use vstd::prelude::*;

verus! {

/// The word `"leader"` as an attack / choice target.
#[derive(Debug, Clone, Copy, PartialEq, Eq, Structural)]
pub enum LeaderWord {
    Leader,
}

/// Attack target as recorded: a field slot or the leader.
#[derive(Debug, Clone, Copy, PartialEq, Eq, Structural)]
pub enum AttackTargetJson {
    Slot { slot: u8 },
    Leader(LeaderWord),
}

/// A chosen option as recorded: a slot, the leader, a card id or a mode.
#[derive(Debug, Clone)]
pub enum ChooseOptionJson {
    Slot { slot: u8 },
    Leader(LeaderWord),
    Card { card: String },
    Mode { mode: u8 },
}

/// View of a recorded option, with the card id as text.
pub enum ChooseOptionView {
    Slot { slot: u8 },
    Leader,
    Card { card: Seq<char> },
    Mode { mode: u8 },
}

impl View for ChooseOptionJson {
    type V = ChooseOptionView;

    open spec fn view(&self) -> ChooseOptionView {
        match self {
            ChooseOptionJson::Slot { slot } => ChooseOptionView::Slot { slot: *slot },
            ChooseOptionJson::Leader(_) => ChooseOptionView::Leader,
            ChooseOptionJson::Card { card } => ChooseOptionView::Card { card: card@ },
            ChooseOptionJson::Mode { mode } => ChooseOptionView::Mode { mode: *mode },
        }
    }
}

/// Whether two recorded options are the same option.
pub fn same_option(a: &ChooseOptionJson, b: &ChooseOptionJson) -> (r: bool)
    ensures
        r == (a@ == b@),
{
    match (a, b) {
        (ChooseOptionJson::Slot { slot: x }, ChooseOptionJson::Slot { slot: y }) => *x == *y,
        (ChooseOptionJson::Leader(_), ChooseOptionJson::Leader(_)) => true,
        (ChooseOptionJson::Card { card: x }, ChooseOptionJson::Card { card: y }) => *x == *y,
        (ChooseOptionJson::Mode { mode: x }, ChooseOptionJson::Mode { mode: y }) => *x == *y,
        _ => false,
    }
}

/// One action of a trace, keyed by the acting seat's label.
#[derive(Debug, Clone)]
pub enum NeutralAction {
    Mulligan { player: String, swap: [bool; 4] },
    Play { player: String, hand_pos: u8, card: String },
    Attack { player: String, attacker_slot: u8, target: AttackTargetJson },
    Evolve { player: String, slot: u8, super_evolve: bool },
    Engage { player: String, slot: u8 },
    Fuse { player: String, host_pos: u8, partner_pos: Vec<u8> },
    BonusPp { player: String },
    Choose { player: String, option: ChooseOptionJson },
    Confirm { player: String },
    EndTurn { player: String },
}

/// The seat label every neutral action carries.
pub open spec fn neutral_player(n: NeutralAction) -> Seq<char> {
    match n {
        NeutralAction::Mulligan { player, .. } => player@,
        NeutralAction::Play { player, .. } => player@,
        NeutralAction::Attack { player, .. } => player@,
        NeutralAction::Evolve { player, .. } => player@,
        NeutralAction::Engage { player, .. } => player@,
        NeutralAction::Fuse { player, .. } => player@,
        NeutralAction::BonusPp { player } => player@,
        NeutralAction::Choose { player, .. } => player@,
        NeutralAction::Confirm { player } => player@,
        NeutralAction::EndTurn { player } => player@,
    }
}

/// View of a neutral action, with its texts as character sequences.
pub enum NeutralView {
    Mulligan { player: Seq<char>, swap: [bool; 4] },
    Play { player: Seq<char>, hand_pos: u8, card: Seq<char> },
    Attack { player: Seq<char>, attacker_slot: u8, target: AttackTargetJson },
    Evolve { player: Seq<char>, slot: u8, super_evolve: bool },
    Engage { player: Seq<char>, slot: u8 },
    Fuse { player: Seq<char>, host_pos: u8, partner_pos: Seq<u8> },
    BonusPp { player: Seq<char> },
    Choose { player: Seq<char>, option: ChooseOptionView },
    Confirm { player: Seq<char> },
    EndTurn { player: Seq<char> },
}

impl View for NeutralAction {
    type V = NeutralView;

    open spec fn view(&self) -> NeutralView {
        match self {
            NeutralAction::Mulligan { player, swap } => NeutralView::Mulligan { player: player@, swap: *swap },
            NeutralAction::Play { player, hand_pos, card } => NeutralView::Play {
                player: player@,
                hand_pos: *hand_pos,
                card: card@,
            },
            NeutralAction::Attack { player, attacker_slot, target } => NeutralView::Attack {
                player: player@,
                attacker_slot: *attacker_slot,
                target: *target,
            },
            NeutralAction::Evolve { player, slot, super_evolve } => NeutralView::Evolve {
                player: player@,
                slot: *slot,
                super_evolve: *super_evolve,
            },
            NeutralAction::Engage { player, slot } => NeutralView::Engage { player: player@, slot: *slot },
            NeutralAction::Fuse { player, host_pos, partner_pos } => NeutralView::Fuse {
                player: player@,
                host_pos: *host_pos,
                partner_pos: partner_pos@,
            },
            NeutralAction::BonusPp { player } => NeutralView::BonusPp { player: player@ },
            NeutralAction::Choose { player, option } => NeutralView::Choose { player: player@, option: option@ },
            NeutralAction::Confirm { player } => NeutralView::Confirm { player: player@ },
            NeutralAction::EndTurn { player } => NeutralView::EndTurn { player: player@ },
        }
    }
}

fn same_bytes(a: &Vec<u8>, b: &Vec<u8>) -> (r: bool)
    ensures
        r == (a@ == b@),
{
    if a.len() != b.len() {
        return false;
    }
    let mut i: usize = 0;
    while i < a.len()
        invariant
            a@.len() == b@.len(),
            0 <= i <= a@.len(),
            forall|j: int| 0 <= j < i ==> a@[j] == b@[j],
        decreases a.len() - i,
    {
        if a[i] != b[i] {
            return false;
        }
        i = i + 1;
    }
    assert(a@ =~= b@);
    true
}

/// Whether two neutral actions record the same thing.
pub fn same_neutral(a: &NeutralAction, b: &NeutralAction) -> (r: bool)
    ensures
        r == (a@ == b@),
{
    match (a, b) {
        (NeutralAction::Mulligan { player: p, swap: x }, NeutralAction::Mulligan { player: q, swap: y }) => {
            let same_swap = x[0] == y[0] && x[1] == y[1] && x[2] == y[2] && x[3] == y[3];
            proof {
                if same_swap {
                    assert(*x =~= *y);
                }
            }
            *p == *q && same_swap
        },
        (
            NeutralAction::Play { player: p, hand_pos: x, card: c },
            NeutralAction::Play { player: q, hand_pos: y, card: d },
        ) => *p == *q && *x == *y && *c == *d,
        (
            NeutralAction::Attack { player: p, attacker_slot: x, target: t },
            NeutralAction::Attack { player: q, attacker_slot: y, target: u },
        ) => *p == *q && *x == *y && *t == *u,
        (
            NeutralAction::Evolve { player: p, slot: x, super_evolve: e },
            NeutralAction::Evolve { player: q, slot: y, super_evolve: f },
        ) => *p == *q && *x == *y && *e == *f,
        (NeutralAction::Engage { player: p, slot: x }, NeutralAction::Engage { player: q, slot: y }) => *p == *q
            && *x == *y,
        (
            NeutralAction::Fuse { player: p, host_pos: x, partner_pos: v },
            NeutralAction::Fuse { player: q, host_pos: y, partner_pos: w },
        ) => *p == *q && *x == *y && same_bytes(v, w),
        (NeutralAction::BonusPp { player: p }, NeutralAction::BonusPp { player: q }) => *p == *q,
        (NeutralAction::Choose { player: p, option: o }, NeutralAction::Choose { player: q, option: u }) => *p == *q
            && same_option(o, u),
        (NeutralAction::Confirm { player: p }, NeutralAction::Confirm { player: q }) => *p == *q,
        (NeutralAction::EndTurn { player: p }, NeutralAction::EndTurn { player: q }) => *p == *q,
        _ => false,
    }
}

/// What a random pick was for.
#[derive(Debug, Clone, Copy, PartialEq, Eq, Structural)]
pub enum PickWhat {
    Draw,
}

} // verus!
