//! Whether a spell's mandatory choices have something to choose: every
//! reachable player choice over a pool must have enough candidates.

use vstd::prelude::*;
use crate::card::{effect_when, Amount, ChooseBy, Effect, PoolPick, PoolSelector, Selector};
use crate::db::CardDb;
use crate::effects::{card_source_choose_pool, spec_card_source_choose_pool};
use crate::form::derefs;
use crate::eval::{amount_fits, amount_value, cond_fits, cond_holds, eval_amount, eval_cond};
use crate::ids::PlayerId;
use crate::select::{pool_candidates, pool_cands, slots_fit};
use crate::state::State;

verus! {

/// A chosen pool has enough candidates: at least its count (at least one),
/// leaving the played card out of the hand.
pub open spec fn pool_choice_ok(db: CardDb, s: State, me: PlayerId, hand_i: usize, p: PoolSelector) -> bool {
    if p.pick == PoolPick::Choose {
        let n = match p.count {
            Some(a) => amount_value(db, s, me, None, a),
            None => 1,
        };
        let cands = pool_cands(db, s, me, None, p, Some(hand_i));
        (cands.len() as i32) as int >= if n > 1 {
            n
        } else {
            1
        }
    } else {
        true
    }
}

/// A selector's choice can be made: only a chosen pool can fail.
pub open spec fn select_ok(db: CardDb, s: State, me: PlayerId, hand_i: usize, sel: Selector) -> bool {
    match sel {
        Selector::Pool(p) => pool_choice_ok(db, s, me, hand_i, p),
        _ => true,
    }
}

/// Evaluating a selector's choice count stays within `i32`.
pub open spec fn select_fits(db: CardDb, s: State, me: PlayerId, sel: Selector) -> bool {
    match sel {
        Selector::Pool(p) => p.pick == PoolPick::Choose ==> match p.count {
            Some(a) => amount_fits(db, s, me, None, a),
            None => true,
        },
        _ => true,
    }
}

/// The target selector of an effect that targets, if it has one.
pub open spec fn effect_select(e: Effect) -> Option<Selector> {
    match e {
        Effect::Damage { select, .. } => Some(select),
        Effect::Restore { select, .. } => Some(select),
        Effect::Buff { select, .. } => Some(select),
        Effect::Select { select, .. } => Some(select),
        Effect::Destroy { select, .. } => Some(select),
        Effect::Banish { select, .. } => Some(select),
        Effect::ReturnToHand { select, .. } => Some(select),
        Effect::ReturnToDeck { select, .. } => Some(select),
        Effect::Discard { select, .. } => Some(select),
        Effect::Evolve { select, .. } => Some(select),
        Effect::GrantTraits { select, .. } => Some(select),
        Effect::RemoveTraits { select, .. } => Some(select),
        Effect::Countdown { select, .. } => Some(select),
        Effect::Transform { select, .. } => Some(select),
        _ => None,
    }
}

/// An effect's reachable choices can be made: an effect whose own condition
/// fails is skipped; a branch is checked along the way the condition takes;
/// series, repeats and payments check their effects; a targeting effect
/// checks its selector; adding a chosen card checks its pool.
pub open spec fn choose_ok(db: CardDb, s: State, me: PlayerId, hand_i: usize, e: Effect) -> bool
    decreases e,
{
    if effect_when(e) matches Some(c) && !cond_holds(db, s, me, None, c) {
        true
    } else {
        match e {
            Effect::If { cond, then, else_effects, .. } => if cond_holds(db, s, me, None, cond) {
                chooses_ok(db, s, me, hand_i, then@)
            } else {
                match else_effects {
                    Some(els) => chooses_ok(db, s, me, hand_i, els@),
                    None => true,
                }
            },
            Effect::Series { effects, .. } => chooses_ok(db, s, me, hand_i, effects@),
            Effect::Repeat { effects, .. } => chooses_ok(db, s, me, hand_i, effects@),
            Effect::Pay { effects, .. } => chooses_ok(db, s, me, hand_i, effects@),
            Effect::Choose { by: ChooseBy::Player, .. } => true,
            Effect::AddToHand { card, .. } => match spec_card_source_choose_pool(card) {
                Some(p) => pool_choice_ok(db, s, me, hand_i, p),
                None => true,
            },
            _ => match effect_select(e) {
                Some(sel) => select_ok(db, s, me, hand_i, sel),
                None => true,
            },
        }
    }
}

/// Every effect of the list can make its choices.
pub open spec fn chooses_ok(db: CardDb, s: State, me: PlayerId, hand_i: usize, es: Seq<Effect>) -> bool
    decreases es,
{
    if es.len() == 0 {
        true
    } else {
        chooses_ok(db, s, me, hand_i, es.subrange(0, es.len() - 1)) && choose_ok(db, s, me, hand_i, es[es.len() - 1])
    }
}

/// Testing an effect's choices stays within `i32` for every amount and condition it reads.
pub open spec fn choose_fits(db: CardDb, s: State, me: PlayerId, hand_i: usize, e: Effect) -> bool
    decreases e,
{
    (match effect_when(e) {
        Some(c) => cond_fits(db, s, me, None, c),
        None => true,
    }) && ((effect_when(e) matches Some(c) && !cond_holds(db, s, me, None, c)) || match e {
        Effect::If { cond, then, else_effects, .. } => cond_fits(db, s, me, None, cond) && if cond_holds(
            db,
            s,
            me,
            None,
            cond,
        ) {
            chooses_fit(db, s, me, hand_i, then@)
        } else {
            match else_effects {
                Some(els) => chooses_fit(db, s, me, hand_i, els@),
                None => true,
            }
        },
        Effect::Series { effects, .. } => chooses_fit(db, s, me, hand_i, effects@),
        Effect::Repeat { effects, .. } => chooses_fit(db, s, me, hand_i, effects@),
        Effect::Pay { effects, .. } => chooses_fit(db, s, me, hand_i, effects@),
        Effect::Choose { by: ChooseBy::Player, .. } => true,
        Effect::AddToHand { card, .. } => match spec_card_source_choose_pool(card) {
            Some(p) => select_fits(db, s, me, Selector::Pool(p)),
            None => true,
        },
        _ => match effect_select(e) {
            Some(sel) => select_fits(db, s, me, sel),
            None => true,
        },
    })
}

/// Checking a list's choices stays within `i32`: each effect reached while
/// all before it could make their choices.
pub open spec fn chooses_fit(db: CardDb, s: State, me: PlayerId, hand_i: usize, es: Seq<Effect>) -> bool
    decreases es,
{
    if es.len() == 0 {
        true
    } else {
        let pre = es.subrange(0, es.len() - 1);
        chooses_fit(db, s, me, hand_i, pre) && (chooses_ok(db, s, me, hand_i, pre) ==> choose_fits(
            db,
            s,
            me,
            hand_i,
            es[es.len() - 1],
        ))
    }
}

fn pool_choose_ok(db: &CardDb, state: &State, me: PlayerId, hand_i: usize, p: &PoolSelector) -> (r: bool)
    requires
        slots_fit(*state),
        select_fits(*db, *state, me, Selector::Pool(*p)),
    ensures
        r == pool_choice_ok(*db, *state, me, hand_i, *p),
{
    if p.pick != PoolPick::Choose {
        return true;
    }
    let n = match &p.count {
        Some(a) => eval_amount(db, state, me, None, a),
        None => 1,
    };
    let cands = pool_candidates(db, state, me, None, p, Some(hand_i));
    let floor = if n > 1 {
        n
    } else {
        1
    };
    cands.len() as i32 >= floor
}

pub fn choose_select_ok(db: &CardDb, state: &State, me: PlayerId, hand_i: usize, select: &Selector) -> (r: bool)
    requires
        slots_fit(*state),
        select_fits(*db, *state, me, *select),
    ensures
        r == select_ok(*db, *state, me, hand_i, *select),
{
    match select {
        Selector::Pool(p) => pool_choose_ok(db, state, me, hand_i, p),
        _ => true,
    }
}

proof fn lemma_chooses_prefix(db: CardDb, s: State, me: PlayerId, hand_i: usize, es: Seq<Effect>, k: int)
    requires
        0 <= k <= es.len(),
        chooses_ok(db, s, me, hand_i, es),
    ensures
        chooses_ok(db, s, me, hand_i, es.subrange(0, k)),
    decreases es.len(),
{
    if k < es.len() {
        let p = es.subrange(0, es.len() - 1);
        lemma_chooses_prefix(db, s, me, hand_i, p, k);
        assert(p.subrange(0, k) =~= es.subrange(0, k));
    } else {
        assert(es.subrange(0, k) =~= es);
    }
}

proof fn lemma_chooses_fit_prefix(db: CardDb, s: State, me: PlayerId, hand_i: usize, es: Seq<Effect>, k: int)
    requires
        0 <= k <= es.len(),
        chooses_fit(db, s, me, hand_i, es),
    ensures
        chooses_fit(db, s, me, hand_i, es.subrange(0, k)),
    decreases es.len(),
{
    if k < es.len() {
        let p = es.subrange(0, es.len() - 1);
        lemma_chooses_fit_prefix(db, s, me, hand_i, p, k);
        assert(p.subrange(0, k) =~= es.subrange(0, k));
    } else {
        assert(es.subrange(0, k) =~= es);
    }
}

fn chooses_ok_list(db: &CardDb, state: &State, me: PlayerId, hand_i: usize, effects: &Vec<Effect>) -> (r: bool)
    requires
        slots_fit(*state),
        chooses_fit(*db, *state, me, hand_i, effects@),
    ensures
        r == chooses_ok(*db, *state, me, hand_i, effects@),
    decreases effects,
{
    let mut i: usize = 0;
    while i < effects.len()
        invariant
            0 <= i <= effects.len(),
            slots_fit(*state),
            chooses_fit(*db, *state, me, hand_i, effects@),
            chooses_ok(*db, *state, me, hand_i, effects@.subrange(0, i as int)),
        decreases effects.len() - i,
    {
        let ghost s1 = effects@.subrange(0, i as int + 1);
        proof {
            assert(s1.subrange(0, s1.len() - 1) =~= effects@.subrange(0, i as int));
            assert(s1[s1.len() - 1] == effects@[i as int]);
            lemma_chooses_fit_prefix(*db, *state, me, hand_i, effects@, i as int + 1);
        }
        let ok = choose_ok_one(db, state, me, hand_i, &effects[i]);
        if !ok {
            proof {
                if chooses_ok(*db, *state, me, hand_i, effects@) {
                    lemma_chooses_prefix(*db, *state, me, hand_i, effects@, i as int + 1);
                }
            }
            return false;
        }
        i = i + 1;
    }
    assert(effects@.subrange(0, effects.len() as int) =~= effects@);
    true
}

/// Whether an effect's reachable choices can be made when `me` plays the
/// card at `hand_i`.
pub fn choose_ok_one(db: &CardDb, state: &State, me: PlayerId, hand_i: usize, e: &Effect) -> (r: bool)
    requires
        slots_fit(*state),
        choose_fits(*db, *state, me, hand_i, *e),
    ensures
        r == choose_ok(*db, *state, me, hand_i, *e),
    decreases e,
{
    if let Some(cond) = e.when_cond() {
        if !eval_cond(db, state, me, None, cond) {
            return true;
        }
    }
    match e {
        Effect::If { cond, then, else_effects, .. } => {
            if eval_cond(db, state, me, None, cond) {
                chooses_ok_list(db, state, me, hand_i, then)
            } else if let Some(els) = else_effects {
                chooses_ok_list(db, state, me, hand_i, els)
            } else {
                true
            }
        },
        Effect::Series { effects, .. } | Effect::Repeat { effects, .. } | Effect::Pay { effects, .. } => {
            chooses_ok_list(db, state, me, hand_i, effects)
        },
        Effect::Choose { by: ChooseBy::Player, .. } => true,
        Effect::Damage { select, .. } | Effect::Restore { select, .. } | Effect::Buff { select, .. }
        | Effect::Select { select, .. } | Effect::Destroy { select, .. } | Effect::Banish { select, .. }
        | Effect::ReturnToHand { select, .. } | Effect::ReturnToDeck { select, .. } | Effect::Discard {
            select,
            ..
        } | Effect::Evolve { select, .. } | Effect::GrantTraits { select, .. } | Effect::RemoveTraits {
            select,
            ..
        } | Effect::Countdown { select, .. } | Effect::Transform { select, .. } => {
            choose_select_ok(db, state, me, hand_i, select)
        },
        Effect::AddToHand { card, .. } => match card_source_choose_pool(card) {
            Some(p) => pool_choose_ok(db, state, me, hand_i, p),
            None => true,
        },
        _ => true,
    }
}

/// Whether every effect of the list can make its reachable choices.
pub fn reachable_chooses_ok(db: &CardDb, state: &State, me: PlayerId, hand_i: usize, effects: &[Effect]) -> (r: bool)
    requires
        slots_fit(*state),
        chooses_fit(*db, *state, me, hand_i, effects@),
    ensures
        r == chooses_ok(*db, *state, me, hand_i, effects@),
{
    let mut i: usize = 0;
    while i < effects.len()
        invariant
            0 <= i <= effects.len(),
            slots_fit(*state),
            chooses_fit(*db, *state, me, hand_i, effects@),
            chooses_ok(*db, *state, me, hand_i, effects@.subrange(0, i as int)),
        decreases effects.len() - i,
    {
        let ghost s1 = effects@.subrange(0, i as int + 1);
        proof {
            assert(s1.subrange(0, s1.len() - 1) =~= effects@.subrange(0, i as int));
            assert(s1[s1.len() - 1] == effects@[i as int]);
            lemma_chooses_fit_prefix(*db, *state, me, hand_i, effects@, i as int + 1);
        }
        let ok = choose_ok_one(db, state, me, hand_i, &effects[i]);
        if !ok {
            proof {
                if chooses_ok(*db, *state, me, hand_i, effects@) {
                    lemma_chooses_prefix(*db, *state, me, hand_i, effects@, i as int + 1);
                }
            }
            return false;
        }
        i = i + 1;
    }
    assert(effects@.subrange(0, effects.len() as int) =~= effects@);
    true
}

/// A spell (or an accelerated card) is playable when its reachable choices can be made.
pub fn spell_playable(db: &CardDb, state: &State, me: PlayerId, hand_i: usize, effects: &[Effect]) -> (r: bool)
    requires
        slots_fit(*state),
        chooses_fit(*db, *state, me, hand_i, effects@),
    ensures
        r == chooses_ok(*db, *state, me, hand_i, effects@),
{
    reachable_chooses_ok(db, state, me, hand_i, effects)
}

/// Whether every effect of a list of borrowed effects can make its
/// reachable choices (see `reachable_chooses_ok`).
pub fn chooses_ok_refs(db: &CardDb, state: &State, me: PlayerId, hand_i: usize, effects: &Vec<&Effect>) -> (r: bool)
    requires
        slots_fit(*state),
        chooses_fit(*db, *state, me, hand_i, derefs(effects@)),
    ensures
        r == chooses_ok(*db, *state, me, hand_i, derefs(effects@)),
{
    let ghost es = derefs(effects@);
    let mut i: usize = 0;
    while i < effects.len()
        invariant
            0 <= i <= effects.len(),
            es == derefs(effects@),
            es.len() == effects@.len(),
            slots_fit(*state),
            chooses_fit(*db, *state, me, hand_i, es),
            chooses_ok(*db, *state, me, hand_i, es.subrange(0, i as int)),
        decreases effects.len() - i,
    {
        let ghost s1 = es.subrange(0, i as int + 1);
        proof {
            assert(s1.subrange(0, s1.len() - 1) =~= es.subrange(0, i as int));
            assert(s1[s1.len() - 1] == es[i as int]);
            assert(es[i as int] == *effects@[i as int]);
            lemma_chooses_fit_prefix(*db, *state, me, hand_i, es, i as int + 1);
        }
        let ok = choose_ok_one(db, state, me, hand_i, effects[i]);
        if !ok {
            proof {
                if chooses_ok(*db, *state, me, hand_i, es) {
                    lemma_chooses_prefix(*db, *state, me, hand_i, es, i as int + 1);
                }
            }
            return false;
        }
        i = i + 1;
    }
    assert(es.subrange(0, effects.len() as int) =~= es);
    true
}

} // verus!
