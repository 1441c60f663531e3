//! Fixed action table: every `Action` the engine can return, as a number
//! independent of the state.

use vstd::prelude::*;
use crate::action::Action;
use crate::apply::{legal_actions, legal_fits, spec_legal_actions};
use crate::db::CardDb;
use crate::state::State;
use crate::ids::{AttackTarget, Slot};
use crate::state::HAND_LIMIT;

verus! {

/// Total, fixed enumeration of actions.
#[derive(Debug, Clone, Copy, PartialEq, Eq, Structural, Hash, PartialOrd, Ord)]
pub struct ActionId(pub u8);

/// Mulligan swap set as a four-bit number: card `b` swapped sets bit `b`.
pub open spec fn mulligan_mask(swap: [bool; 4]) -> int {
    (if swap[0] { 1int } else { 0 }) + (if swap[1] { 2int } else { 0 }) + (if swap[2] { 4int } else { 0 }) + (
    if swap[3] { 8int } else { 0 })
}

/// Table position of an action (before narrowing to a byte).
pub open spec fn action_index(a: Action) -> int {
    match a {
        Action::MulliganConfirm { swap } => 0 + mulligan_mask(swap),
        Action::Play { hand } => 16 + hand,
        Action::Attack { attacker, target } => 25 + attacker.0 * 6 + match target {
            AttackTarget::Slot(s) => s.0 as int,
            AttackTarget::Leader => 5,
        },
        Action::Evolve { slot, super_evolve } => 55 + slot.0 * 2 + if super_evolve { 1int } else { 0 },
        Action::Engage { slot } => 65 + slot.0,
        Action::Fuse { host } => 70 + host,
        Action::BonusPp => 79,
        Action::Choose(i) => 80 + i,
        Action::Confirm => 112,
        Action::EndTurn => 113,
    }
}

/// Actions whose fields are inside the table's ranges: hand positions below
/// the hand limit, slots below five, choice indices below 32.
pub open spec fn in_table(a: Action) -> bool {
    match a {
        Action::MulliganConfirm { .. } => true,
        Action::Play { hand } => hand < 9,
        Action::Attack { attacker, target } => attacker.0 < 5 && match target {
            AttackTarget::Slot(s) => s.0 < 5,
            AttackTarget::Leader => true,
        },
        Action::Evolve { slot, .. } => slot.0 < 5,
        Action::Engage { slot } => slot.0 < 5,
        Action::Fuse { host } => host < 9,
        Action::BonusPp => true,
        Action::Choose(i) => i < 32,
        Action::Confirm => true,
        Action::EndTurn => true,
    }
}

/// The action at a table position; positions past the table read as
/// `EndTurn`.
pub open spec fn spec_to_action(id: ActionId) -> Action {
    let i = id.0 as int;
    if i < 16 {
        Action::MulliganConfirm {
            swap: [i % 2 == 1, (i / 2) % 2 == 1, (i / 4) % 2 == 1, (i / 8) % 2 == 1],
        }
    } else if i < 25 {
        Action::Play { hand: (i - 16) as u8 }
    } else if i < 55 {
        let rel = i - 25;
        Action::Attack {
            attacker: Slot((rel / 6) as u8),
            target: if rel % 6 < 5 {
                AttackTarget::Slot(Slot((rel % 6) as u8))
            } else {
                AttackTarget::Leader
            },
        }
    } else if i < 65 {
        let rel = i - 55;
        Action::Evolve { slot: Slot((rel / 2) as u8), super_evolve: rel % 2 == 1 }
    } else if i < 70 {
        Action::Engage { slot: Slot((i - 65) as u8) }
    } else if i < 79 {
        Action::Fuse { host: (i - 70) as u8 }
    } else if i == 79 {
        Action::BonusPp
    } else if i < 112 {
        Action::Choose((i - 80) as u8)
    } else if i == 112 {
        Action::Confirm
    } else {
        Action::EndTurn
    }
}

impl ActionId {
    pub const COUNT: usize = 114;
    pub const MULLIGAN_BASE: usize = 0;
    pub const MULLIGAN_N: usize = 16;
    pub const PLAY_BASE: usize = 16;
    pub const PLAY_N: usize = HAND_LIMIT;
    pub const ATTACK_BASE: usize = 25;
    pub const ATTACK_N: usize = 30;
    pub const EVOLVE_BASE: usize = 55;
    pub const EVOLVE_N: usize = 10;
    pub const ENGAGE_BASE: usize = 65;
    pub const ENGAGE_N: usize = 5;
    pub const FUSE_BASE: usize = 70;
    pub const FUSE_N: usize = HAND_LIMIT;
    pub const BONUS_PP: usize = 79;
    pub const CHOOSE_BASE: usize = 80;
    pub const CHOOSE_N: usize = 32;
    pub const CONFIRM: usize = 112;
    pub const END_TURN: usize = 113;

    pub fn from_action(action: &Action) -> (r: ActionId)
        ensures
            r.0 == action_index(*action) as u8,
    {
        let i: usize = match action {
            Action::MulliganConfirm { swap } => {
                let mut mask: usize = 0;
                if swap[0] {
                    mask = mask + 1;
                }
                if swap[1] {
                    mask = mask + 2;
                }
                if swap[2] {
                    mask = mask + 4;
                }
                if swap[3] {
                    mask = mask + 8;
                }
                0 + mask
            },
            Action::Play { hand } => 16 + *hand as usize,
            Action::Attack { attacker, target } => {
                let t: usize = match target {
                    AttackTarget::Slot(s) => s.0 as usize,
                    AttackTarget::Leader => 5,
                };
                25 + attacker.0 as usize * 6 + t
            },
            Action::Evolve { slot, super_evolve } => 55 + slot.0 as usize * 2 + if *super_evolve {
                1
            } else {
                0
            },
            Action::Engage { slot } => 65 + slot.0 as usize,
            Action::Fuse { host } => 70 + *host as usize,
            Action::BonusPp => 79,
            Action::Choose(i) => 80 + *i as usize,
            Action::Confirm => 112,
            Action::EndTurn => 113,
        };
        ActionId(#[verifier::truncate] (i as u8))
    }

    pub fn to_action(self) -> (r: Action)
        ensures
            r == spec_to_action(self),
    {
        let i = self.0 as usize;
        if i < 16 {
            let m = i;
            return Action::MulliganConfirm {
                swap: [m % 2 == 1, (m / 2) % 2 == 1, (m / 4) % 2 == 1, (m / 8) % 2 == 1],
            };
        }
        if i < 25 {
            return Action::Play { hand: (i - 16) as u8 };
        }
        if i < 55 {
            let rel = i - 25;
            let attacker = Slot((rel / 6) as u8);
            let t = rel % 6;
            let target = if t < 5 {
                AttackTarget::Slot(Slot(t as u8))
            } else {
                AttackTarget::Leader
            };
            return Action::Attack { attacker, target };
        }
        if i < 65 {
            let rel = i - 55;
            return Action::Evolve { slot: Slot((rel / 2) as u8), super_evolve: rel % 2 == 1 };
        }
        if i < 70 {
            return Action::Engage { slot: Slot((i - 65) as u8) };
        }
        if i < 79 {
            return Action::Fuse { host: (i - 70) as u8 };
        }
        if i == 79 {
            return Action::BonusPp;
        }
        if i < 112 {
            return Action::Choose((i - 80) as u8);
        }
        if i == 112 {
            return Action::Confirm;
        }
        Action::EndTurn
    }
}

/// Every action inside the table's ranges has a table position below
/// `COUNT`, and reading the action back from that position gives it back.
pub proof fn lemma_action_id_roundtrip(a: Action)
    requires
        in_table(a),
    ensures
        0 <= action_index(a) < 114,
        spec_to_action(ActionId(action_index(a) as u8)) == a,
{
    match a {
        Action::MulliganConfirm { swap } => {
            let m = mulligan_mask(swap);
            let b = spec_to_action(ActionId(m as u8));
            assert(b matches Action::MulliganConfirm { swap: w } && w =~= swap);
        },
        Action::Attack { attacker, target } => {
            let t: int = match target {
                AttackTarget::Slot(s) => s.0 as int,
                AttackTarget::Leader => 5,
            };
            let rel = attacker.0 * 6 + t;
            assert(rel / 6 == attacker.0 && rel % 6 == t);
        },
        Action::Evolve { slot, super_evolve } => {
            let rel = slot.0 * 2 + if super_evolve { 1int } else { 0 };
            assert(rel / 2 == slot.0 && rel % 2 == (if super_evolve { 1int } else { 0 }));
        },
        _ => {},
    }
}

/// Every table position below `COUNT` names an action inside the table's
/// ranges, whose position is that same number.
pub proof fn lemma_table_position_roundtrip(id: ActionId)
    requires
        id.0 < 114,
    ensures
        in_table(spec_to_action(id)),
        action_index(spec_to_action(id)) == id.0,
{
    let i = id.0 as int;
    if i < 16 {
        assert(mulligan_mask([i % 2 == 1, (i / 2) % 2 == 1, (i / 4) % 2 == 1, (i / 8) % 2 == 1]) == i);
    } else if 25 <= i < 55 {
        let rel = i - 25;
        assert((rel / 6) * 6 + rel % 6 == rel);
    } else if 55 <= i < 65 {
        let rel = i - 55;
        assert((rel / 2) * 2 + rel % 2 == rel);
    }
}


/// Legal bits in table order: position `i` is set when some legal action
/// has table id `i`.
pub fn legal_mask(db: &CardDb, state: &State) -> (r: [bool; 114])
    requires
        (state.phase is Main || state.phase is Combat) ==> legal_fits(*db, *state),
    ensures
        forall|i: int|
            0 <= i < 114 ==> (r@[i] <==> exists|j: int|
                0 <= j < spec_legal_actions(*db, *state).len() && (action_index(
                    #[trigger] spec_legal_actions(*db, *state)[j],
                ) as u8) as int == i),
{
    let legal = legal_actions(db, state);
    let mut mask: [bool; 114] = [false; 114];
    let mut k: usize = 0;
    while k < legal.len()
        invariant
            0 <= k <= legal@.len(),
            legal@ == spec_legal_actions(*db, *state),
            forall|i: int|
                0 <= i < 114 ==> (mask@[i] <==> exists|j: int|
                    0 <= j < k && (action_index(#[trigger] legal@[j]) as u8) as int == i),
        decreases legal.len() - k,
    {
        let id = ActionId::from_action(&legal[k]);
        let i = id.0 as usize;
        if i < 114 {
            mask[i] = true;
        }
        proof {
            assert forall|n: int|
                0 <= n < 114 implies (mask@[n] <==> exists|j: int|
                    0 <= j < k + 1 && (action_index(#[trigger] legal@[j]) as u8) as int == n) by {
                if (action_index(legal@[k as int]) as u8) as int == n {
                    assert(mask@[n]);
                }
            }
        }
        k = k + 1;
    }
    mask
}

/// The legal actions as table ids, in `legal_actions` order.
pub fn legal_ids(db: &CardDb, state: &State) -> (r: Vec<ActionId>)
    requires
        (state.phase is Main || state.phase is Combat) ==> legal_fits(*db, *state),
    ensures
        r@.len() == spec_legal_actions(*db, *state).len(),
        forall|j: int|
            0 <= j < r@.len() ==> (#[trigger] r@[j]).0 == action_index(spec_legal_actions(*db, *state)[j]) as u8,
{
    let legal = legal_actions(db, state);
    let mut out: Vec<ActionId> = Vec::new();
    let mut k: usize = 0;
    while k < legal.len()
        invariant
            0 <= k <= legal@.len(),
            legal@ == spec_legal_actions(*db, *state),
            out@.len() == k,
            forall|j: int| 0 <= j < k ==> (#[trigger] out@[j]).0 == action_index(legal@[j]) as u8,
        decreases legal.len() - k,
    {
        out.push(ActionId::from_action(&legal[k]));
        k = k + 1;
    }
    out
}

} // verus!
