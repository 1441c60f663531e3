//! Changes an effect makes to one targeted instance (keywords granted or
//! removed, cost changes) and the expiry of the temporary ones when a turn
//! ends.

use vstd::prelude::*;
use crate::card::{grant_fits, remove_fits, spec_merge_grant, spec_merge_remove, Amount, Traits, Until};
use crate::db::CardDb;
use crate::eval::{amount_fits, amount_value, eval_amount};
use crate::ids::{spec_opponent, spec_player_idx, PlayerId};
use crate::select::{slots_fit, target_inst};
use crate::state::{
    first_slot_with_id, inst_pos, lemma_first_slot_with_id, CardInstance, InstanceFlags, LeaderMod, PlayerState, SourceRef, State, TargetOpt, TempTraitGrant,
};

verus! {

/// `n` is `o` with only seat `who` changed, to `p`.
pub open spec fn seat_set(o: State, n: State, who: PlayerId, p: PlayerState) -> bool {
    &&& n.players@ == o.players@.update(spec_player_idx(who) as int, p)
    &&& n == State { players: n.players, ..o }
}

/// `n` is `o` with the instance `t` addresses replaced by `c`.
pub open spec fn target_set(o: State, n: State, t: TargetOpt, c: CardInstance) -> bool {
    match t {
        TargetOpt::Slot { player, slot } => {
            &&& seat_set(o, n, player, n.seat(player))
            &&& n.seat(player) == PlayerState { field: n.seat(player).field, ..o.seat(player) }
            &&& n.seat(player).field@ == o.seat(player).field@.update(slot as int, Some(c))
        },
        TargetOpt::Hand { player, pos } => {
            &&& seat_set(o, n, player, n.seat(player))
            &&& n.seat(player) == PlayerState { hand: n.seat(player).hand, ..o.seat(player) }
            &&& n.seat(player).hand@ == o.seat(player).hand@.update(pos as int, c)
        },
        TargetOpt::Deck { player, id } => {
            &&& seat_set(o, n, player, n.seat(player))
            &&& n.seat(player) == PlayerState { deck: n.seat(player).deck, ..o.seat(player) }
            &&& n.seat(player).deck@ == o.seat(player).deck@.update(inst_pos(o.seat(player).deck@, id, 0), c)
        },
        _ => n == o,
    }
}

/// What one targeted change does to an instance.
#[derive(Debug, Clone, Copy, PartialEq, Eq, Structural)]
pub enum InstOp {
    /// Keywords taken away.
    RemoveTraits { traits: Traits },
    /// Keywords granted by `caster`, until a turn end when `until` is set.
    GrantTraits { traits: Traits, until: Option<Until>, caster: PlayerId },
    /// The cost set, or moved by `delta`, never below zero; with `eot` the
    /// cost before the first such change this turn is kept to restore.
    Cost { set: Option<i32>, delta: Option<i32>, eot: bool },
}

/// Extra attacks a grant of `attacks_per_turn` gives a field instance.
pub open spec fn granted_extra(traits: Traits) -> int {
    match traits.attacks_per_turn {
        Some(n) => if n - 1 > 0 {
            n - 1
        } else {
            0
        },
        None => 0,
    }
}

/// A cost after a set or a delta, never below zero.
pub open spec fn changed_cost(cost: i32, set: Option<i32>, delta: Option<i32>) -> int {
    let v: int = match set {
        Some(s) => s as int,
        None => match delta {
            Some(d) => cost + d,
            None => cost as int,
        },
    };
    if v > 0 {
        v
    } else {
        0
    }
}

/// The change can be made without overflow.
pub open spec fn op_fits(c: CardInstance, op: InstOp, on_field: bool) -> bool {
    match op {
        InstOp::RemoveTraits { traits } => remove_fits(c.traits, traits),
        InstOp::GrantTraits { traits, .. } => grant_fits(c.traits, traits) && (on_field ==> c.flags.attacks_left
            + granted_extra(traits) <= i32::MAX),
        InstOp::Cost { set, delta, .. } => (set is None && delta is Some) ==> i32::MIN <= c.cost + delta->0
            <= i32::MAX,
    }
}

/// `d` is `c` with keywords taken away; taking Ambush away ends its hiding.
pub open spec fn traits_removed(c: CardInstance, d: CardInstance, traits: Traits) -> bool {
    &&& d.traits == spec_merge_remove(c.traits, traits)
    &&& d.flags.ambush_active == if traits.ambush == Some(true) {
        false
    } else {
        c.flags.ambush_active
    }
    &&& d == CardInstance {
        traits: d.traits,
        flags: InstanceFlags { ambush_active: d.flags.ambush_active, ..c.flags },
        ..c
    }
}

/// `d` is `c` with keywords granted; a field instance also starts hiding
/// under a granted Ambush and gains the extra attacks; a timed grant is
/// recorded with its caster.
pub open spec fn traits_granted(
    c: CardInstance,
    d: CardInstance,
    traits: Traits,
    until: Option<Until>,
    caster: PlayerId,
    on_field: bool,
) -> bool {
    &&& d.traits == spec_merge_grant(c.traits, traits)
    &&& d.flags.ambush_active == if on_field {
        traits.ambush == Some(true) || c.flags.ambush_active
    } else {
        c.flags.ambush_active
    }
    &&& d.flags.attacks_left == if on_field {
        c.flags.attacks_left + granted_extra(traits)
    } else {
        c.flags.attacks_left as int
    }
    &&& d.temp_traits@ == match until {
        Some(u) => c.temp_traits@.push(TempTraitGrant { traits, until: u, caster }),
        None => c.temp_traits@,
    }
    &&& d == CardInstance {
        traits: d.traits,
        flags: InstanceFlags {
            ambush_active: d.flags.ambush_active,
            attacks_left: d.flags.attacks_left,
            ..c.flags
        },
        temp_traits: d.temp_traits,
        ..c
    }
}

/// `d` is `c` with its cost changed; with `eot` the cost before the first
/// such change is kept.
pub open spec fn cost_changed(c: CardInstance, d: CardInstance, set: Option<i32>, delta: Option<i32>, eot: bool) -> bool {
    &&& d.cost == changed_cost(c.cost, set, delta)
    &&& d.flags.eot_cost == if eot && c.flags.eot_cost is None {
        Some(c.cost)
    } else {
        c.flags.eot_cost
    }
    &&& d == CardInstance { cost: d.cost, flags: InstanceFlags { eot_cost: d.flags.eot_cost, ..c.flags }, ..c }
}

/// `d` is `c` after the change.
pub open spec fn op_done(c: CardInstance, d: CardInstance, op: InstOp, on_field: bool) -> bool {
    match op {
        InstOp::RemoveTraits { traits } => traits_removed(c, d, traits),
        InstOp::GrantTraits { traits, until, caster } => traits_granted(c, d, traits, until, caster, on_field),
        InstOp::Cost { set, delta, eot } => cost_changed(c, d, set, delta, eot),
    }
}

/// `n` is `o` with the change made to the instance `t` addresses, or
/// unchanged when `t` addresses none.
pub open spec fn target_changed(o: State, n: State, t: TargetOpt, op: InstOp) -> bool {
    match target_inst(o, t) {
        Some(c) => target_inst(n, t) matches Some(d) && op_done(c, d, op, t is Slot) && target_set(o, n, t, d),
        None => n == o,
    }
}

fn remove_op(c: &mut CardInstance, traits: &Traits)
    requires
        remove_fits(old(c).traits, *traits),
    ensures
        traits_removed(*old(c), *final(c), *traits),
{
    let mut tr = c.traits;
    tr.merge_remove(traits);
    c.traits = tr;
    if traits.ambush == Some(true) {
        c.flags.ambush_active = false;
    }
}

fn grant_op(c: &mut CardInstance, traits: &Traits, until: Option<Until>, caster: PlayerId, on_field: bool)
    requires
        grant_fits(old(c).traits, *traits),
        on_field ==> old(c).flags.attacks_left + granted_extra(*traits) <= i32::MAX,
    ensures
        traits_granted(*old(c), *final(c), *traits, until, caster, on_field),
{
    let mut tr = c.traits;
    tr.merge_grant(traits);
    let mut ambush = c.flags.ambush_active;
    let mut attacks = c.flags.attacks_left;
    if on_field {
        if traits.ambush == Some(true) {
            ambush = true;
        }
        if let Some(n) = traits.attacks_per_turn {
            let extra = if n > 1 {
                n - 1
            } else {
                0
            };
            attacks = attacks + extra;
        }
    }
    c.traits = tr;
    c.flags.ambush_active = ambush;
    c.flags.attacks_left = attacks;
    if let Some(u) = until {
        c.temp_traits.push(TempTraitGrant { traits: *traits, until: u, caster });
    }
}

fn cost_op(c: &mut CardInstance, set: Option<i32>, delta: Option<i32>, eot: bool)
    requires
        (set is None && delta is Some) ==> i32::MIN <= old(c).cost + delta->0 <= i32::MAX,
    ensures
        cost_changed(*old(c), *final(c), set, delta, eot),
{
    let keep = if eot && c.flags.eot_cost.is_none() {
        Some(c.cost)
    } else {
        c.flags.eot_cost
    };
    let mut v = match set {
        Some(s) => s,
        None => match delta {
            Some(d) => c.cost + d,
            None => c.cost,
        },
    };
    if v < 0 {
        v = 0;
    }
    c.flags.eot_cost = keep;
    c.cost = v;
}

fn apply_op(c: &mut CardInstance, op: &InstOp, on_field: bool)
    requires
        op_fits(*old(c), *op, on_field),
    ensures
        op_done(*old(c), *final(c), *op, on_field),
{
    match op {
        InstOp::RemoveTraits { traits } => remove_op(c, traits),
        InstOp::GrantTraits { traits, until, caster } => grant_op(c, traits, *until, *caster, on_field),
        InstOp::Cost { set, delta, eot } => cost_op(c, *set, *delta, *eot),
    }
}

/// Updating an instance that keeps its id keeps where an id is first found.
proof fn lemma_inst_pos_update(zone: Seq<CardInstance>, id: u32, k: int, j: int, d: CardInstance)
    requires
        0 <= j < zone.len(),
        0 <= k <= zone.len(),
        d.id == zone[j].id,
    ensures
        inst_pos(zone.update(j, d), id, k) == inst_pos(zone, id, k),
    decreases zone.len() - k,
{
    if k < zone.len() {
        lemma_inst_pos_update(zone, id, k + 1, j, d);
    }
}

proof fn lemma_inst_pos_found(zone: Seq<CardInstance>, id: u32, k: int)
    requires
        0 <= k,
    ensures
        inst_pos(zone, id, k) >= 0 ==> k <= inst_pos(zone, id, k) < zone.len() && zone[inst_pos(zone, id, k)].id
            == id,
    decreases zone.len() - k,
{
    if k < zone.len() {
        lemma_inst_pos_found(zone, id, k + 1);
    }
}

fn deck_pos(deck: &Vec<CardInstance>, id: u32) -> (r: Option<usize>)
    ensures
        match r {
            Some(k) => inst_pos(deck@, id, 0) == k as int && k < deck@.len(),
            None => inst_pos(deck@, id, 0) < 0,
        },
{
    let mut i: usize = 0;
    while i < deck.len()
        invariant
            0 <= i <= deck.len(),
            inst_pos(deck@, id, 0) == inst_pos(deck@, id, i as int),
        decreases deck.len() - i,
    {
        if deck[i].id == id {
            return Some(i);
        }
        i = i + 1;
    }
    None
}

/// Makes one change to the instance a target addresses.
pub fn change_target(state: &mut State, t: &TargetOpt, op: &InstOp)
    requires
        target_inst(*old(state), *t) matches Some(c) ==> op_fits(c, *op, t is Slot),
    ensures
        target_changed(*old(state), *final(state), *t, *op),
{
    match t {
        TargetOpt::Slot { player, slot } => {
            let i = *slot as usize;
            if i < state.player(*player).field.len() && state.player(*player).field[i].is_some() {
                let p = state.player_mut(*player);
                let ghost before = p.field@;
                let taken = p.field.remove(i);
                match taken {
                    Some(mut c) => {
                        apply_op(&mut c, op, true);
                        p.field.insert(i, Some(c));
                        assert(p.field@ =~= before.update(i as int, Some(c)));
                    },
                    None => {
                        p.field.insert(i, None);
                        assert(p.field@ =~= before);
                    },
                }
            }
        },
        TargetOpt::Hand { player, pos } => {
            let i = *pos as usize;
            if i < state.player(*player).hand.len() {
                let p = state.player_mut(*player);
                let ghost before = p.hand@;
                let mut c = p.hand.remove(i);
                apply_op(&mut c, op, false);
                p.hand.insert(i, c);
                assert(p.hand@ =~= before.update(i as int, c));
            }
        },
        TargetOpt::Deck { player, id } => {
            if let Some(i) = deck_pos(&state.player(*player).deck, *id) {
                let p = state.player_mut(*player);
                let ghost before = p.deck@;
                proof {
                    lemma_inst_pos_found(before, *id, 0);
                }
                let mut c = p.deck.remove(i);
                apply_op(&mut c, op, false);
                p.deck.insert(i, c);
                assert(p.deck@ =~= before.update(i as int, c));
                proof {
                    lemma_inst_pos_update(before, *id, 0, i as int, c);
                }
            }
        },
        _ => {},
    }
}

/// Takes keywords away from a field target; other targets are left alone.
pub fn remove_traits_opt(state: &mut State, t: &TargetOpt, traits: &Traits)
    requires
        t is Slot ==> (target_inst(*old(state), *t) matches Some(c) ==> remove_fits(c.traits, *traits)),
    ensures
        t is Slot ==> target_changed(*old(state), *final(state), *t, InstOp::RemoveTraits { traits: *traits }),
        !(t is Slot) ==> *final(state) == *old(state),
{
    if let TargetOpt::Slot { .. } = t {
        change_target(state, t, &InstOp::RemoveTraits { traits: *traits });
    }
}

/// Grants keywords to a field, hand or deck target, for good or until a
/// turn end (then recorded with the caster to expire).
pub fn grant_traits_opt(state: &mut State, caster: PlayerId, t: &TargetOpt, traits: &Traits, until: Option<&Until>)
    requires
        target_inst(*old(state), *t) matches Some(c) ==> op_fits(
            c,
            InstOp::GrantTraits {
                traits: *traits,
                until: match until {
                    Some(u) => Some(*u),
                    None => None,
                },
                caster,
            },
            t is Slot,
        ),
    ensures
        target_changed(
            *old(state),
            *final(state),
            *t,
            InstOp::GrantTraits {
                traits: *traits,
                until: match until {
                    Some(u) => Some(*u),
                    None => None,
                },
                caster,
            },
        ),
{
    let u = match until {
        Some(u) => Some(*u),
        None => None,
    };
    change_target(state, t, &InstOp::GrantTraits { traits: *traits, until: u, caster });
}

/// The value an optional amount evaluates to.
pub open spec fn opt_amount(db: CardDb, s: State, who: PlayerId, source: SourceRef, a: Option<&Amount>) -> Option<i32> {
    match a {
        Some(x) => Some(amount_value(db, s, who, Some(source), *x) as i32),
        None => None,
    }
}

/// Sets or moves the cost of a hand or field target (never below zero),
/// remembering the cost to restore at end of turn when `eot`; deck and
/// other targets are left alone.
pub fn cost_opt(
    state: &mut State,
    t: &TargetOpt,
    delta: Option<&Amount>,
    set: Option<&Amount>,
    eot: bool,
    db: &CardDb,
    controller: PlayerId,
    source: SourceRef,
)
    requires
        slots_fit(*old(state)),
        set matches Some(a) ==> amount_fits(*db, *old(state), controller, Some(source), *a),
        delta matches Some(a) ==> amount_fits(*db, *old(state), controller, Some(source), *a),
        (t is Slot || t is Hand) ==> (target_inst(*old(state), *t) matches Some(c) ==> op_fits(
            c,
            InstOp::Cost {
                set: opt_amount(*db, *old(state), controller, source, set),
                delta: opt_amount(*db, *old(state), controller, source, delta),
                eot,
            },
            t is Slot,
        )),
    ensures
        (t is Slot || t is Hand) ==> target_changed(
            *old(state),
            *final(state),
            *t,
            InstOp::Cost {
                set: opt_amount(*db, *old(state), controller, source, set),
                delta: opt_amount(*db, *old(state), controller, source, delta),
                eot,
            },
        ),
        !(t is Slot || t is Hand) ==> *final(state) == *old(state),
{
    let set_v = match set {
        Some(s) => Some(eval_amount(db, state, controller, Some(source), s)),
        None => None,
    };
    let delta_v = match delta {
        Some(d) => Some(eval_amount(db, state, controller, Some(source), d)),
        None => None,
    };
    match t {
        TargetOpt::Hand { .. } | TargetOpt::Slot { .. } => {
            change_target(state, t, &InstOp::Cost { set: set_v, delta: delta_v, eot });
        },
        _ => {},
    }
}

/// A field instance when its owner's turn ends: the attack and defense
/// granted until end of turn are taken back (defense kept within the new
/// maximum) and a cost changed until end of turn is restored.
pub open spec fn eot_field(c: CardInstance, d: CardInstance) -> bool {
    &&& d.attack == c.attack - c.flags.eot_attack
    &&& d.max_defense == c.max_defense - c.flags.eot_defense
    &&& d.defense == if c.defense < d.max_defense {
        c.defense
    } else {
        d.max_defense
    }
    &&& d.cost == match c.flags.eot_cost {
        Some(v) => v,
        None => c.cost,
    }
    &&& d == CardInstance {
        attack: d.attack,
        max_defense: d.max_defense,
        defense: d.defense,
        cost: d.cost,
        flags: InstanceFlags { eot_attack: 0, eot_defense: 0, eot_cost: None, ..c.flags },
        ..c
    }
}

/// A hand card when its owner's turn ends: a cost changed until end of
/// turn is restored.
pub open spec fn eot_hand(c: CardInstance, d: CardInstance) -> bool {
    d == CardInstance {
        cost: match c.flags.eot_cost {
            Some(v) => v,
            None => c.cost,
        },
        flags: InstanceFlags { eot_cost: None, ..c.flags },
        ..c
    }
}

/// Taking back the end-of-turn buffs of every field instance fits `i32`.
pub open spec fn eot_fits(field: Seq<Option<CardInstance>>) -> bool {
    forall|k: int|
        0 <= k < field.len() ==> (#[trigger] field[k] matches Some(c) ==> (i32::MIN <= c.attack - c.flags.eot_attack
            <= i32::MAX && i32::MIN <= c.max_defense - c.flags.eot_defense <= i32::MAX))
}

/// Field slots paired up by `eot_field`, empty slots staying empty.
pub open spec fn eot_slot(o: Option<CardInstance>, n: Option<CardInstance>) -> bool {
    match (o, n) {
        (Some(c), Some(d)) => eot_field(c, d),
        (None, None) => true,
        _ => false,
    }
}

fn expire_field(v: Vec<Option<CardInstance>>) -> (r: Vec<Option<CardInstance>>)
    requires
        eot_fits(v@),
    ensures
        r@.len() == v@.len(),
        forall|k: int| 0 <= k < v@.len() ==> eot_slot(v@[k], #[trigger] r@[k]),
{
    let ghost orig = v@;
    let mut rest = v;
    let mut out: Vec<Option<CardInstance>> = Vec::new();
    while rest.len() > 0
        invariant
            out@.len() + rest@.len() == orig.len(),
            rest@ == orig.subrange(out@.len() as int, orig.len() as int),
            eot_fits(orig),
            forall|k: int| 0 <= k < out@.len() ==> eot_slot(orig[k], #[trigger] out@[k]),
        decreases rest.len(),
    {
        let ghost at = out@.len() as int;
        let x = rest.remove(0);
        assert(orig[at] == x);
        match x {
            Some(mut c) => {
                let attack = c.attack - c.flags.eot_attack;
                let max_defense = c.max_defense - c.flags.eot_defense;
                let defense = if c.defense < max_defense {
                    c.defense
                } else {
                    max_defense
                };
                let cost = match c.flags.eot_cost {
                    Some(v) => v,
                    None => c.cost,
                };
                c.attack = attack;
                c.max_defense = max_defense;
                c.defense = defense;
                c.cost = cost;
                c.flags.eot_attack = 0;
                c.flags.eot_defense = 0;
                c.flags.eot_cost = None;
                out.push(Some(c));
            },
            None => {
                out.push(None);
            },
        }
        assert(rest@ =~= orig.subrange(out@.len() as int, orig.len() as int));
    }
    out
}

fn expire_hand(v: Vec<CardInstance>) -> (r: Vec<CardInstance>)
    ensures
        r@.len() == v@.len(),
        forall|k: int| 0 <= k < v@.len() ==> eot_hand(v@[k], #[trigger] r@[k]),
{
    let ghost orig = v@;
    let mut rest = v;
    let mut out: Vec<CardInstance> = Vec::new();
    while rest.len() > 0
        invariant
            out@.len() + rest@.len() == orig.len(),
            rest@ == orig.subrange(out@.len() as int, orig.len() as int),
            forall|k: int| 0 <= k < out@.len() ==> eot_hand(orig[k], #[trigger] out@[k]),
        decreases rest.len(),
    {
        let mut c = rest.remove(0);
        let cost = match c.flags.eot_cost {
            Some(v) => v,
            None => c.cost,
        };
        c.cost = cost;
        c.flags.eot_cost = None;
        out.push(c);
        assert(rest@ =~= orig.subrange(out@.len() as int, orig.len() as int));
    }
    out
}

/// Ends the until-end-of-turn changes on `who`'s field and hand.
pub fn expire_eot(state: &mut State, who: PlayerId)
    requires
        eot_fits(old(state).seat(who).field@),
    ensures
        seat_set(*old(state), *final(state), who, final(state).seat(who)),
        final(state).seat(who) == (PlayerState {
            field: final(state).seat(who).field,
            hand: final(state).seat(who).hand,
            ..old(state).seat(who)
        }),
        final(state).seat(who).field@.len() == old(state).seat(who).field@.len(),
        forall|k: int|
            0 <= k < old(state).seat(who).field@.len() ==> eot_slot(
                old(state).seat(who).field@[k],
                #[trigger] final(state).seat(who).field@[k],
            ),
        final(state).seat(who).hand@.len() == old(state).seat(who).hand@.len(),
        forall|k: int|
            0 <= k < old(state).seat(who).hand@.len() ==> eot_hand(
                old(state).seat(who).hand@[k],
                #[trigger] final(state).seat(who).hand@[k],
            ),
{
    let p = state.player_mut(who);
    let mut field = Vec::new();
    std::mem::swap(&mut field, &mut p.field);
    p.field = expire_field(field);
    let mut hand = Vec::new();
    std::mem::swap(&mut hand, &mut p.hand);
    p.hand = expire_hand(hand);
}

/// A cost changed until end of turn, for the first time this turn, is
/// back to its value before the change once the turn ends.
pub proof fn lemma_eot_cost_restored(c: CardInstance, d: CardInstance, set: Option<i32>, delta: Option<i32>, e: CardInstance)
    requires
        c.flags.eot_cost is None,
        cost_changed(c, d, set, delta, true),
        eot_hand(d, e) || eot_field(d, e),
    ensures
        e.cost == c.cost,
        e.flags.eot_cost is None,
{
}

/// Later cost changes in the same turn keep the cost first remembered.
pub proof fn lemma_eot_cost_kept(c: CardInstance, d: CardInstance, set: Option<i32>, delta: Option<i32>, eot: bool)
    requires
        c.flags.eot_cost is Some,
        cost_changed(c, d, set, delta, eot),
    ensures
        d.flags.eot_cost == c.flags.eot_cost,
{
}

/// A timed keyword grant ends with this turn end: one granted until end
/// of turn when its caster's turn ends, one granted until the end of the
/// opponent's turn when that opponent's turn ends.
pub open spec fn grant_expires(g: TempTraitGrant, until: Until, ended: PlayerId) -> bool {
    until == Until::EndOfTurn && match g.until {
        Until::EndOfTurn => ended == g.caster,
        Until::EndOfOpponentTurn => ended == spec_opponent(g.caster),
    }
}

/// Keywords, Ambush hiding and attacks left after one grant ends: its
/// keywords are taken away, hiding follows whether Ambush remains, and a
/// granted attack count leaves at most one attack.
pub open spec fn drop_grant(st: (Traits, bool, i32), g: Traits) -> (Traits, bool, i32) {
    let nt = spec_merge_remove(st.0, g);
    (
        nt,
        if g.ambush == Some(true) {
            nt.ambush == Some(true)
        } else {
            st.1
        },
        if g.attacks_per_turn is Some && st.2 > 1 {
            1
        } else {
            st.2
        },
    )
}

/// Keywords, hiding and attacks left after the grants of `gs` that end
/// are dropped, in order.
pub open spec fn expired_state(st: (Traits, bool, i32), gs: Seq<TempTraitGrant>, until: Until, ended: PlayerId) -> (
    Traits,
    bool,
    i32,
)
    decreases gs.len(),
{
    if gs.len() == 0 {
        st
    } else {
        let prev = expired_state(st, gs.drop_last(), until, ended);
        if grant_expires(gs.last(), until, ended) {
            drop_grant(prev, gs.last().traits)
        } else {
            prev
        }
    }
}

/// Dropping the ending grants of `gs` in order cannot overflow.
pub open spec fn expire_fits(st: (Traits, bool, i32), gs: Seq<TempTraitGrant>, until: Until, ended: PlayerId) -> bool
    decreases gs.len(),
{
    if gs.len() == 0 {
        true
    } else {
        &&& expire_fits(st, gs.drop_last(), until, ended)
        &&& grant_expires(gs.last(), until, ended) ==> remove_fits(
            expired_state(st, gs.drop_last(), until, ended).0,
            gs.last().traits,
        )
    }
}

/// The grants of `gs` that do not end, in order.
pub open spec fn kept_grants(gs: Seq<TempTraitGrant>, until: Until, ended: PlayerId) -> Seq<TempTraitGrant>
    decreases gs.len(),
{
    if gs.len() == 0 {
        gs
    } else {
        let k = kept_grants(gs.drop_last(), until, ended);
        if grant_expires(gs.last(), until, ended) {
            k
        } else {
            k.push(gs.last())
        }
    }
}

/// The starting point of expiry for an instance.
pub open spec fn grant_state(c: CardInstance) -> (Traits, bool, i32) {
    (c.traits, c.flags.ambush_active, c.flags.attacks_left)
}

/// `d` is `c` with its ending grants dropped and the rest kept.
pub open spec fn temp_expired(c: CardInstance, d: CardInstance, until: Until, ended: PlayerId) -> bool {
    let st = expired_state(grant_state(c), c.temp_traits@, until, ended);
    &&& grant_state(d) == st
    &&& d.temp_traits@ == kept_grants(c.temp_traits@, until, ended)
    &&& d == CardInstance {
        traits: d.traits,
        flags: InstanceFlags { ambush_active: d.flags.ambush_active, attacks_left: d.flags.attacks_left, ..c.flags },
        temp_traits: d.temp_traits,
        ..c
    }
}

/// Expiry of the instance's grants cannot overflow.
pub open spec fn inst_expire_fits(c: CardInstance, until: Until, ended: PlayerId) -> bool {
    expire_fits(grant_state(c), c.temp_traits@, until, ended)
}

fn expires(g: &TempTraitGrant, until: Until, ended: PlayerId) -> (r: bool)
    ensures
        r == grant_expires(*g, until, ended),
{
    match g.until {
        Until::EndOfTurn => until == Until::EndOfTurn && ended == g.caster,
        Until::EndOfOpponentTurn => until == Until::EndOfTurn && ended == g.caster.opponent(),
    }
}

/// Drops the timed keyword grants on `inst` that end with this turn end.
pub fn expire_temp_traits(inst: &mut CardInstance, until: Until, whose_turn_ended: PlayerId)
    requires
        inst_expire_fits(*old(inst), until, whose_turn_ended),
    ensures
        temp_expired(*old(inst), *final(inst), until, whose_turn_ended),
{
    let ghost orig = inst.temp_traits@;
    let ghost st0 = grant_state(*inst);
    let mut rest: Vec<TempTraitGrant> = Vec::new();
    std::mem::swap(&mut rest, &mut inst.temp_traits);
    let mut kept: Vec<TempTraitGrant> = Vec::new();
    let mut tr = inst.traits;
    let mut ambush = inst.flags.ambush_active;
    let mut attacks = inst.flags.attacks_left;
    let total = rest.len();
    let mut n: usize = 0;
    while rest.len() > 0
        invariant
            orig.len() == total,
            n + rest@.len() == orig.len(),
            rest@ == orig.subrange(n as int, orig.len() as int),
            (tr, ambush, attacks) == expired_state(st0, orig.subrange(0, n as int), until, whose_turn_ended),
            kept@ == kept_grants(orig.subrange(0, n as int), until, whose_turn_ended),
            expire_fits(st0, orig, until, whose_turn_ended),
        decreases rest.len(),
    {
        let g = rest.remove(0);
        proof {
            let pre = orig.subrange(0, n as int + 1);
            assert(pre.drop_last() =~= orig.subrange(0, n as int));
            assert(pre.last() == g);
            lemma_expire_fits_prefix(st0, orig, n as int + 1, until, whose_turn_ended);
        }
        if expires(&g, until, whose_turn_ended) {
            tr.merge_remove(&g.traits);
            if g.traits.ambush == Some(true) {
                ambush = tr.ambush == Some(true);
            }
            if g.traits.attacks_per_turn.is_some() && attacks > 1 {
                attacks = 1;
            }
        } else {
            kept.push(g);
        }
        n = n + 1;
        assert(rest@ =~= orig.subrange(n as int, orig.len() as int));
    }
    assert(orig.subrange(0, orig.len() as int) =~= orig);
    inst.traits = tr;
    inst.flags.ambush_active = ambush;
    inst.flags.attacks_left = attacks;
    inst.temp_traits = kept;
}

proof fn lemma_expire_fits_prefix(st: (Traits, bool, i32), gs: Seq<TempTraitGrant>, k: int, until: Until, ended: PlayerId)
    requires
        0 <= k <= gs.len(),
        expire_fits(st, gs, until, ended),
    ensures
        expire_fits(st, gs.subrange(0, k), until, ended),
    decreases gs.len() - k,
{
    if k < gs.len() {
        lemma_expire_fits_prefix(st, gs, k + 1, until, ended);
        let s1 = gs.subrange(0, k + 1);
        assert(s1.drop_last() =~= gs.subrange(0, k));
    } else {
        assert(gs.subrange(0, k) =~= gs);
    }
}

/// A leader modifier survives this turn end: one until end of turn ends
/// with any turn end, one until the end of the opponent's turn ends when
/// the turn of its seat's opponent ends.
pub open spec fn mod_kept(m: LeaderMod, until: Until, p: PlayerId, ended: PlayerId) -> bool {
    match m.until {
        Some(Until::EndOfTurn) => until != Until::EndOfTurn,
        Some(Until::EndOfOpponentTurn) => !(until == Until::EndOfTurn && p == spec_opponent(ended)),
        None => true,
    }
}

/// The modifiers of `ms` that survive, in order.
pub open spec fn kept_mods(ms: Seq<LeaderMod>, until: Until, p: PlayerId, ended: PlayerId) -> Seq<LeaderMod>
    decreases ms.len(),
{
    if ms.len() == 0 {
        ms
    } else {
        let k = kept_mods(ms.drop_last(), until, p, ended);
        if mod_kept(ms.last(), until, p, ended) {
            k.push(ms.last())
        } else {
            k
        }
    }
}

/// Field slots paired up by `temp_expired`, empty slots staying empty.
pub open spec fn slot_expired(o: Option<CardInstance>, n: Option<CardInstance>, until: Until, ended: PlayerId) -> bool {
    match (o, n) {
        (Some(c), Some(d)) => temp_expired(c, d, until, ended),
        (None, None) => true,
        _ => false,
    }
}

/// Seat `p` after a turn end: surviving leader modifiers, and every field
/// and hand instance with its ending grants dropped.
pub open spec fn seat_expired(o: PlayerState, n: PlayerState, until: Until, p: PlayerId, ended: PlayerId) -> bool {
    &&& n == PlayerState { leader_mods: n.leader_mods, field: n.field, hand: n.hand, ..o }
    &&& n.leader_mods@ == kept_mods(o.leader_mods@, until, p, ended)
    &&& n.field@.len() == o.field@.len()
    &&& forall|k: int| 0 <= k < o.field@.len() ==> slot_expired(o.field@[k], #[trigger] n.field@[k], until, ended)
    &&& n.hand@.len() == o.hand@.len()
    &&& forall|k: int| 0 <= k < o.hand@.len() ==> temp_expired(o.hand@[k], #[trigger] n.hand@[k], until, ended)
}

/// Expiry on the seat cannot overflow.
pub open spec fn seat_expire_fits(p: PlayerState, until: Until, ended: PlayerId) -> bool {
    &&& forall|k: int|
        0 <= k < p.field@.len() ==> (#[trigger] p.field@[k] matches Some(c) ==> inst_expire_fits(c, until, ended))
    &&& forall|k: int| 0 <= k < p.hand@.len() ==> inst_expire_fits(#[trigger] p.hand@[k], until, ended)
}

fn expire_mods(v: Vec<LeaderMod>, until: Until, p: PlayerId, ended: PlayerId) -> (r: Vec<LeaderMod>)
    ensures
        r@ == kept_mods(v@, until, p, ended),
{
    let mut out: Vec<LeaderMod> = Vec::new();
    let mut i: usize = 0;
    while i < v.len()
        invariant
            0 <= i <= v.len(),
            out@ == kept_mods(v@.subrange(0, i as int), until, p, ended),
        decreases v.len() - i,
    {
        let m = v[i];
        let ghost pre = v@.subrange(0, i as int + 1);
        assert(pre.drop_last() =~= v@.subrange(0, i as int));
        let keep = match m.until {
            Some(Until::EndOfTurn) => until != Until::EndOfTurn,
            Some(Until::EndOfOpponentTurn) => !(until == Until::EndOfTurn && p == ended.opponent()),
            None => true,
        };
        if keep {
            out.push(m);
        }
        i = i + 1;
    }
    assert(v@.subrange(0, v.len() as int) =~= v@);
    out
}

fn expire_field_grants(v: Vec<Option<CardInstance>>, until: Until, ended: PlayerId) -> (r: Vec<Option<CardInstance>>)
    requires
        forall|k: int| 0 <= k < v@.len() ==> (#[trigger] v@[k] matches Some(c) ==> inst_expire_fits(c, until, ended)),
    ensures
        r@.len() == v@.len(),
        forall|k: int| 0 <= k < v@.len() ==> slot_expired(v@[k], #[trigger] r@[k], until, ended),
{
    let ghost orig = v@;
    let mut rest = v;
    let mut out: Vec<Option<CardInstance>> = Vec::new();
    while rest.len() > 0
        invariant
            out@.len() + rest@.len() == orig.len(),
            rest@ == orig.subrange(out@.len() as int, orig.len() as int),
            forall|k: int| 0 <= k < orig.len() ==> (#[trigger] orig[k] matches Some(c) ==> inst_expire_fits(c, until, ended)),
            forall|k: int| 0 <= k < out@.len() ==> slot_expired(orig[k], #[trigger] out@[k], until, ended),
        decreases rest.len(),
    {
        let ghost at = out@.len() as int;
        let x = rest.remove(0);
        assert(orig[at] == x);
        match x {
            Some(mut c) => {
                expire_temp_traits(&mut c, until, ended);
                out.push(Some(c));
            },
            None => {
                out.push(None);
            },
        }
        assert(rest@ =~= orig.subrange(out@.len() as int, orig.len() as int));
    }
    out
}

fn expire_hand_grants(v: Vec<CardInstance>, until: Until, ended: PlayerId) -> (r: Vec<CardInstance>)
    requires
        forall|k: int| 0 <= k < v@.len() ==> inst_expire_fits(#[trigger] v@[k], until, ended),
    ensures
        r@.len() == v@.len(),
        forall|k: int| 0 <= k < v@.len() ==> temp_expired(v@[k], #[trigger] r@[k], until, ended),
{
    let ghost orig = v@;
    let mut rest = v;
    let mut out: Vec<CardInstance> = Vec::new();
    while rest.len() > 0
        invariant
            out@.len() + rest@.len() == orig.len(),
            rest@ == orig.subrange(out@.len() as int, orig.len() as int),
            forall|k: int| 0 <= k < orig.len() ==> inst_expire_fits(#[trigger] orig[k], until, ended),
            forall|k: int| 0 <= k < out@.len() ==> temp_expired(orig[k], #[trigger] out@[k], until, ended),
        decreases rest.len(),
    {
        let ghost at = out@.len() as int;
        let mut c = rest.remove(0);
        assert(orig[at] == c);
        expire_temp_traits(&mut c, until, ended);
        out.push(c);
        assert(rest@ =~= orig.subrange(out@.len() as int, orig.len() as int));
    }
    out
}

fn expire_seat(p: &mut PlayerState, until: Until, who: PlayerId, ended: PlayerId)
    requires
        seat_expire_fits(*old(p), until, ended),
    ensures
        seat_expired(*old(p), *final(p), until, who, ended),
{
    let mut mods = Vec::new();
    std::mem::swap(&mut mods, &mut p.leader_mods);
    p.leader_mods = expire_mods(mods, until, who, ended);
    let mut field = Vec::new();
    std::mem::swap(&mut field, &mut p.field);
    p.field = expire_field_grants(field, until, ended);
    let mut hand = Vec::new();
    std::mem::swap(&mut hand, &mut p.hand);
    p.hand = expire_hand_grants(hand, until, ended);
}

/// At a turn end, drops the leader modifiers and timed keyword grants of
/// both seats that end with it.
pub fn expire_until(state: &mut State, until: Until, whose_turn_ended: PlayerId)
    requires
        seat_expire_fits(old(state).seat(PlayerId::A), until, whose_turn_ended),
        seat_expire_fits(old(state).seat(PlayerId::B), until, whose_turn_ended),
    ensures
        *final(state) == (State { players: final(state).players, ..*old(state) }),
        seat_expired(
            old(state).seat(PlayerId::A),
            final(state).seat(PlayerId::A),
            until,
            PlayerId::A,
            whose_turn_ended,
        ),
        seat_expired(
            old(state).seat(PlayerId::B),
            final(state).seat(PlayerId::B),
            until,
            PlayerId::B,
            whose_turn_ended,
        ),
{
    expire_seat(state.player_mut(PlayerId::A), until, PlayerId::A, whose_turn_ended);
    expire_seat(state.player_mut(PlayerId::B), until, PlayerId::B, whose_turn_ended);
}

/// A timed keyword grant is gone after the turn end it lasts until, and
/// the grants made before it fare as they would have without it.
pub proof fn lemma_timed_grant_expires(
    c: CardInstance,
    d: CardInstance,
    e: CardInstance,
    traits: Traits,
    u: Until,
    caster: PlayerId,
    on_field: bool,
    ended: PlayerId,
)
    requires
        traits_granted(c, d, traits, Some(u), caster, on_field),
        ended == match u {
            Until::EndOfTurn => caster,
            Until::EndOfOpponentTurn => spec_opponent(caster),
        },
        temp_expired(d, e, Until::EndOfTurn, ended),
    ensures
        e.temp_traits@ == kept_grants(c.temp_traits@, Until::EndOfTurn, ended),
{
    let g = TempTraitGrant { traits, until: u, caster };
    assert(d.temp_traits@.drop_last() =~= c.temp_traits@);
    assert(grant_expires(g, Until::EndOfTurn, ended));
}

/// The Sequence step a field source is at; 0 for other sources and for an
/// instance no longer on the field.
pub open spec fn spec_sequence_index_of(s: State, source: SourceRef) -> u32 {
    match source {
        SourceRef::Field { player, id } => {
            let k = first_slot_with_id(s.seat(player).field@, id, 0);
            if k >= 0 {
                s.seat(player).field@[k]->0.sequence_index
            } else {
                0
            }
        },
        _ => 0,
    }
}

/// The Sequence step a source is at (see `spec_sequence_index_of`).
pub fn sequence_index_of(state: &State, source: SourceRef) -> (r: u32)
    requires
        slots_fit(*state),
    ensures
        r == spec_sequence_index_of(*state, source),
{
    match source {
        SourceRef::Field { player, id } => {
            proof {
                lemma_first_slot_with_id(state.seat(player).field@, id, 0);
            }
            match state.find_field(player, id) {
                Some(slot) => match state.field_inst(player, slot) {
                    Some(c) => c.sequence_index,
                    None => 0,
                },
                None => 0,
            }
        },
        _ => 0,
    }
}

/// Records the Sequence step of a field source that is still on the
/// field; anything else is left alone.
pub fn set_sequence_index(state: &mut State, source: SourceRef, v: u32)
    requires
        slots_fit(*old(state)),
    ensures
        match source {
            SourceRef::Field { player, id } => {
                let field = old(state).seat(player).field@;
                let k = first_slot_with_id(field, id, 0);
                if k >= 0 {
                    &&& seat_set(*old(state), *final(state), player, final(state).seat(player))
                    &&& final(state).seat(player) == (PlayerState { field: final(state).seat(player).field, ..old(state).seat(player) })
                    &&& final(state).seat(player).field@ == field.update(
                        k,
                        Some(CardInstance { sequence_index: v, ..field[k]->0 }),
                    )
                } else {
                    *final(state) == *old(state)
                }
            },
            _ => *final(state) == *old(state),
        },
{
    if let SourceRef::Field { player, id } = source {
        proof {
            lemma_first_slot_with_id(state.seat(player).field@, id, 0);
        }
        if let Some(slot) = state.find_field(player, id) {
            let p = state.player_mut(player);
            let i = slot as usize;
            let ghost before = p.field@;
            let taken = p.field.remove(i);
            match taken {
                Some(mut c) => {
                    c.sequence_index = v;
                    p.field.insert(i, Some(c));
                    assert(p.field@ =~= before.update(i as int, Some(c)));
                },
                None => {
                    p.field.insert(i, None);
                    assert(p.field@ =~= before);
                },
            }
        }
    }
}

} // verus!
