//! Threshold gates shown beside a card: the conditions and payments its
//! printed text checks, with what they need and what the seat has.

use vstd::prelude::*;
use crate::card::{
    ability_effects, ability_when, card_ability_list, card_mode_list, effect_when, string_views, Ability,
    ChooseOption, Condition, Effect, Mode, PayResource, Selector, SequenceStep, Side,
};
use crate::db::{card_pos, CardDb};
use crate::eval::{cond_fits, cond_holds, cost_count, enter_count, eval_cond, in_i32};
use crate::ids::{spec_opponent, PlayerId};
use crate::info::{
    amount_int, count_at_least_label, counter_have, field_has_count, field_has_label, filter_noun,
    gate_push, gates_view, inst_matches_simple, push_gate, spec_amount_int, spec_count_at_least_label,
    spec_counter_have, spec_field_has_count, spec_field_has_label, spec_filter_noun,
    spec_target_matches_simple, target_matches_simple, var_lookup, var_value, GateInfo, GateView,
};
use crate::select::{resolve_select, slots_fit, spec_resolve_select};
use crate::state::{CardInstance, SourceRef, State, TargetOpt};
use crate::action::{acting_player, spec_acting_player, Action};
use crate::card::card_id_text;
use crate::ids::AttackTarget;
use crate::apply::{legal_actions, legal_fits, spec_legal_actions};
use crate::info::{cannot_attack_reason, opt_text, spec_cannot_attack_reason, BoardCardInfo};
use crate::info::{form_label, resolve_play_form, spec_form_label, spec_resolve_play_form, HandCardInfo};
use crate::card::{card_kind, CardKind};
use crate::state::{occupied_count, Phase, PlayForm, FIELD_SLOTS};

verus! {

/// A gate view from its parts.
pub open spec fn gv(kind: Seq<char>, label: Seq<char>, need: i32, have: i32, met: bool) -> GateView {
    GateView { kind, label, need, have, met }
}

/// The literal of an optional amount, else a default.
pub open spec fn int_or(a: Option<i32>, d: i32) -> i32 {
    match a {
        Some(v) => v,
        None => d,
    }
}

/// Targets among the first `n` that name an instance passing the identity checks.
pub open spec fn targets_simple(db: CardDb, s: State, ts: Seq<TargetOpt>, f: crate::card::Filter, n: int) -> int
    decreases n,
{
    if n <= 0 {
        0
    } else {
        targets_simple(db, s, ts, f, n - 1) + if spec_target_matches_simple(db, s, ts[n - 1], f) {
            1int
        } else {
            0int
        }
    }
}

/// Hand cards among the first `n` passing the identity checks.
pub open spec fn hand_simple(hand: Seq<CardInstance>, f: crate::card::Filter, n: int) -> int
    decreases n,
{
    if n <= 0 {
        0
    } else {
        hand_simple(hand, f, n - 1) + if crate::info::simple_holds(hand[n - 1], f) {
            1int
        } else {
            0int
        }
    }
}

/// The largest number of cards sharing one cost among the first `n` of a hand.
pub open spec fn max_same_cost(hand: Seq<CardInstance>, n: int) -> int
    decreases n,
{
    if n <= 0 {
        0
    } else {
        let m = max_same_cost(hand, n - 1);
        let c = cost_count(hand, hand[n - 1].cost, hand.len() as int);
        if c > m {
            c
        } else {
            m
        }
    }
}

/// The threshold entry a tested condition contributes, and whether it holds now.
pub open spec fn evaluated_gate(
    db: CardDb,
    s: State,
    who: PlayerId,
    inst: CardInstance,
    src: SourceRef,
    c: Condition,
) -> Option<GateView> {
    let met = cond_holds(db, s, who, Some(src), c);
    let p = s.seat(who);
    match c {
        Condition::CountAtLeast { count_at_least } => match count_at_least.select {
            Selector::Pool(_) => {
                let ts = spec_resolve_select(db, s, who, src, count_at_least.select);
                let have = match count_at_least.filter {
                    Some(f) => targets_simple(db, s, ts, f, ts.len() as int) as i32,
                    None => ts.len() as i32,
                };
                Some(
                    gv(
                        "countAtLeast"@,
                        spec_count_at_least_label(count_at_least.select, count_at_least.filter),
                        int_or(spec_amount_int(count_at_least.n), 0),
                        have,
                        met,
                    ),
                )
            },
            _ => None,
        },
        Condition::FieldHas { field_has } => Some(
            gv(
                "fieldHas"@,
                spec_field_has_label(field_has),
                match field_has.n {
                    Some(a) => int_or(spec_amount_int(a), 1),
                    None => 1,
                },
                spec_field_has_count(s, who, field_has) as i32,
                met,
            ),
        ),
        Condition::HandHas { hand_has } => Some(
            gv(
                "handHas"@,
                spec_filter_noun(hand_has.filter, "cards in your hand"@),
                int_or(spec_amount_int(hand_has.n), 0),
                hand_simple(p.hand@, hand_has.filter, p.hand@.len() as int) as i32,
                met,
            ),
        ),
        Condition::HandSameCostAtLeast { hand_same_cost_at_least } => Some(
            gv(
                "handSameCostAtLeast"@,
                "cards of the same cost in hand"@,
                int_or(spec_amount_int(hand_same_cost_at_least.n), 0),
                max_same_cost(p.hand@, p.hand@.len() as int) as i32,
                met,
            ),
        ),
        Condition::MaxPpAtLeast { max_pp_at_least } => Some(
            gv("maxPpAtLeast"@, "max PP"@, int_or(spec_amount_int(max_pp_at_least.n), 0), p.pp_max, met),
        ),
        Condition::LeaderDefenseLte { leader_defense_lte } => Some(
            gv(
                "leaderDefenseLte"@,
                "leader defense"@,
                int_or(spec_amount_int(leader_defense_lte), 0),
                p.leader_defense,
                met,
            ),
        ),
        Condition::EvolvedCountAtLeast { evolved_count_at_least } => Some(
            gv(
                "evolvedCountAtLeast"@,
                "evolved followers"@,
                int_or(spec_amount_int(evolved_count_at_least.n), 0),
                p.evolves_used,
                met,
            ),
        ),
        Condition::EnterCountAtLeast { enter_count_at_least } => {
            let side = match enter_count_at_least.side {
                Some(Side::Enemy) => spec_opponent(who),
                _ => who,
            };
            let raw = enter_count(s.seat(side).enter_counts@, enter_count_at_least.card, 0);
            let have = if enter_count_at_least.other == Some(true) && raw > i32::MIN {
                (raw - 1) as i32
            } else {
                raw
            };
            Some(
                gv(
                    "enterCountAtLeast"@,
                    "enters this match"@,
                    int_or(spec_amount_int(enter_count_at_least.n), 0),
                    have,
                    met,
                ),
            )
        },
        Condition::CounterAtLeast { counter_at_least } => {
            let lh = spec_counter_have(p, inst, counter_at_least.key);
            Some(gv("counterAtLeast"@, lh.0, int_or(spec_amount_int(counter_at_least.n), 0), lh.1, met))
        },
        Condition::AmountAtLeast { amount_at_least } => Some(
            gv(
                "amountAtLeast"@,
                "amount"@,
                int_or(spec_amount_int(amount_at_least.n), 0),
                int_or(spec_amount_int(amount_at_least.of), 0),
                met,
            ),
        ),
        Condition::SkyboundArt { skybound_art } => Some(
            gv(
                "skyboundArt"@,
                "skybound art"@,
                int_or(spec_amount_int(skybound_art.n), 0),
                ((s.turn as i32) + inst.skybound) as i32,
                met,
            ),
        ),
        Condition::VarAtLeast { var_at_least } => Some(
            gv(
                "varAtLeast"@,
                "variable"@,
                int_or(spec_amount_int(var_at_least.n), 0),
                var_value(inst.vars@, var_at_least.key, 0),
                met,
            ),
        ),
        Condition::SuperEvolutionUnlocked { .. } => Some(
            gv("superEvolutionUnlocked"@, "super-evolution unlocked"@, 0, 0, met),
        ),
        Condition::WasFused { .. } => Some(gv("wasFused"@, "fused"@, 0, 0, met)),
        Condition::DeckHasNoDuplicates { .. } => Some(
            gv("deckHasNoDuplicates"@, "no duplicate cards in deck"@, 0, 0, met),
        ),
        Condition::PlayedBaseCostsThisMatch { .. } => Some(
            gv("playedBaseCostsThisMatch"@, "played those costs this match"@, 0, 0, met),
        ),
        Condition::AttackedLeaderLastTurn { .. } => Some(
            gv("attackedLeaderLastTurn"@, "attacked the enemy leader last turn"@, 0, 0, met),
        ),
        Condition::TurnOwner { .. } => Some(gv("turnOwner"@, "your turn"@, 0, 0, met)),
        _ => None,
    }
}

/// Evaluating the condition for its gate stays within `i32`: the condition
/// itself fits, the Skybound Art gauge fits, and the hand fits a count.
pub open spec fn evaluated_fits(
    db: CardDb,
    s: State,
    who: PlayerId,
    inst: CardInstance,
    src: SourceRef,
    c: Condition,
) -> bool {
    &&& cond_fits(db, s, who, Some(src), c)
    &&& (c is SkyboundArt ==> in_i32((s.turn as i32) + inst.skybound))
    &&& s.seat(who).hand@.len() <= i32::MAX
}

fn count_targets_simple(db: &CardDb, state: &State, ts: &Vec<TargetOpt>, f: &crate::card::Filter) -> (r: usize)
    ensures
        r == targets_simple(*db, *state, ts@, *f, ts@.len() as int),
{
    let mut n: usize = 0;
    let mut i: usize = 0;
    while i < ts.len()
        invariant
            0 <= i <= ts.len(),
            n <= i,
            n == targets_simple(*db, *state, ts@, *f, i as int),
        decreases ts.len() - i,
    {
        if target_matches_simple(db, state, &ts[i], f) {
            n = n + 1;
        }
        i = i + 1;
    }
    n
}

fn count_hand_simple(hand: &Vec<CardInstance>, f: &crate::card::Filter) -> (r: usize)
    ensures
        r == hand_simple(hand@, *f, hand@.len() as int),
{
    let mut n: usize = 0;
    let mut i: usize = 0;
    while i < hand.len()
        invariant
            0 <= i <= hand.len(),
            n <= i,
            n == hand_simple(hand@, *f, i as int),
        decreases hand.len() - i,
    {
        if inst_matches_simple(&hand[i], f) {
            n = n + 1;
        }
        i = i + 1;
    }
    n
}

proof fn lemma_cost_count_bound(hand: Seq<CardInstance>, cost: i32, n: int)
    requires
        0 <= n,
    ensures
        0 <= cost_count(hand, cost, n) <= n,
    decreases n,
{
    if n > 0 {
        lemma_cost_count_bound(hand, cost, n - 1);
    }
}

proof fn lemma_max_same_cost_bound(hand: Seq<CardInstance>, n: int)
    requires
        0 <= n <= hand.len(),
    ensures
        0 <= max_same_cost(hand, n) <= hand.len(),
    decreases n,
{
    if n > 0 {
        lemma_max_same_cost_bound(hand, n - 1);
        lemma_cost_count_bound(hand, hand[n - 1].cost, hand.len() as int);
    }
}

fn largest_cost_group(hand: &Vec<CardInstance>) -> (r: i32)
    requires
        hand@.len() <= i32::MAX,
    ensures
        r == max_same_cost(hand@, hand@.len() as int),
{
    let mut best: i32 = 0;
    let mut i: usize = 0;
    while i < hand.len()
        invariant
            0 <= i <= hand.len() <= i32::MAX,
            best == max_same_cost(hand@, i as int),
        decreases hand.len() - i,
    {
        let cost = hand[i].cost;
        let mut cnt: i32 = 0;
        let mut j: usize = 0;
        while j < hand.len()
            invariant
                0 <= j <= hand.len() <= i32::MAX,
                0 <= cnt <= j,
                cnt == cost_count(hand@, cost, j as int),
            decreases hand.len() - j,
        {
            if hand[j].cost == cost {
                cnt = cnt + 1;
            }
            j = j + 1;
        }
        if cnt > best {
            best = cnt;
        }
        i = i + 1;
    }
    best
}

fn amount_or(a: &crate::card::Amount, d: i32) -> (r: i32)
    ensures
        r == int_or(spec_amount_int(*a), d),
{
    match amount_int(a) {
        Some(v) => v,
        None => d,
    }
}

/// Adds the threshold entry of a tested condition, when it has one.
pub fn push_evaluated(
    db: &CardDb,
    cond: &Condition,
    state: &State,
    player: PlayerId,
    inst: &CardInstance,
    source: SourceRef,
    gates: &mut Vec<GateInfo>,
)
    requires
        slots_fit(*state),
        evaluated_fits(*db, *state, player, *inst, source, *cond),
    ensures
        gates_view(final(gates)@) == match evaluated_gate(*db, *state, player, *inst, source, *cond) {
            Some(g) => gate_push(gates_view(old(gates)@), g),
            None => gates_view(old(gates)@),
        },
{
    let met = eval_cond(db, state, player, Some(source), cond);
    let p = state.player(player);
    proof {
        reveal_strlit("countAtLeast");
        reveal_strlit("fieldHas");
        reveal_strlit("handHas");
        reveal_strlit("cards in your hand");
        reveal_strlit("handSameCostAtLeast");
        reveal_strlit("cards of the same cost in hand");
        reveal_strlit("maxPpAtLeast");
        reveal_strlit("max PP");
        reveal_strlit("leaderDefenseLte");
        reveal_strlit("leader defense");
        reveal_strlit("evolvedCountAtLeast");
        reveal_strlit("evolved followers");
        reveal_strlit("enterCountAtLeast");
        reveal_strlit("enters this match");
        reveal_strlit("counterAtLeast");
        reveal_strlit("amountAtLeast");
        reveal_strlit("amount");
        reveal_strlit("skyboundArt");
        reveal_strlit("skybound art");
        reveal_strlit("varAtLeast");
        reveal_strlit("variable");
        reveal_strlit("superEvolutionUnlocked");
        reveal_strlit("super-evolution unlocked");
        reveal_strlit("wasFused");
        reveal_strlit("fused");
        reveal_strlit("deckHasNoDuplicates");
        reveal_strlit("no duplicate cards in deck");
        reveal_strlit("playedBaseCostsThisMatch");
        reveal_strlit("played those costs this match");
        reveal_strlit("attackedLeaderLastTurn");
        reveal_strlit("attacked the enemy leader last turn");
        reveal_strlit("turnOwner");
        reveal_strlit("your turn");
    }
    match cond {
        Condition::CountAtLeast { count_at_least } => {
            if let Selector::Pool(_) = &count_at_least.select {
                let ts = resolve_select(db, state, player, source, &count_at_least.select);
                let have = match &count_at_least.filter {
                    Some(f) => count_targets_simple(db, state, &ts, f) as i32,
                    None => ts.len() as i32,
                };
                let need = amount_or(&count_at_least.n, 0);
                let filt = match &count_at_least.filter {
                    Some(f) => Some(f),
                    None => None,
                };
                let label = count_at_least_label(&count_at_least.select, filt);
                push_gate(gates, "countAtLeast", label.as_str(), need, have, met);
            }
        },
        Condition::FieldHas { field_has } => {
            let need = match &field_has.n {
                Some(a) => amount_or(a, 1),
                None => 1,
            };
            let have = field_has_count(state, player, field_has);
            let label = field_has_label(field_has);
            push_gate(gates, "fieldHas", label.as_str(), need, have, met);
        },
        Condition::HandHas { hand_has } => {
            let need = amount_or(&hand_has.n, 0);
            let have = count_hand_simple(&p.hand, &hand_has.filter) as i32;
            let label = filter_noun(Some(&hand_has.filter), "cards in your hand");
            push_gate(gates, "handHas", label.as_str(), need, have, met);
        },
        Condition::HandSameCostAtLeast { hand_same_cost_at_least } => {
            let need = amount_or(&hand_same_cost_at_least.n, 0);
            let have = largest_cost_group(&p.hand);
            push_gate(gates, "handSameCostAtLeast", "cards of the same cost in hand", need, have, met);
        },
        Condition::MaxPpAtLeast { max_pp_at_least } => {
            let need = amount_or(&max_pp_at_least.n, 0);
            push_gate(gates, "maxPpAtLeast", "max PP", need, p.pp_max, met);
        },
        Condition::LeaderDefenseLte { leader_defense_lte } => {
            let need = amount_or(leader_defense_lte, 0);
            push_gate(gates, "leaderDefenseLte", "leader defense", need, p.leader_defense, met);
        },
        Condition::EvolvedCountAtLeast { evolved_count_at_least } => {
            let need = amount_or(&evolved_count_at_least.n, 0);
            push_gate(gates, "evolvedCountAtLeast", "evolved followers", need, p.evolves_used, met);
        },
        Condition::EnterCountAtLeast { enter_count_at_least } => {
            let need = amount_or(&enter_count_at_least.n, 0);
            let side = match enter_count_at_least.side {
                Some(Side::Enemy) => player.opponent(),
                _ => player,
            };
            let mut have = crate::eval::enter_count_of(state, side, enter_count_at_least.card);
            if enter_count_at_least.other == Some(true) && have > i32::MIN {
                have = have - 1;
            }
            push_gate(gates, "enterCountAtLeast", "enters this match", need, have, met);
        },
        Condition::CounterAtLeast { counter_at_least } => {
            let need = amount_or(&counter_at_least.n, 0);
            let (label, have) = counter_have(p, inst, &counter_at_least.key);
            push_gate(gates, "counterAtLeast", label.as_str(), need, have, met);
        },
        Condition::AmountAtLeast { amount_at_least } => {
            let need = amount_or(&amount_at_least.n, 0);
            let have = amount_or(&amount_at_least.of, 0);
            push_gate(gates, "amountAtLeast", "amount", need, have, met);
        },
        Condition::SkyboundArt { skybound_art } => {
            let need = amount_or(&skybound_art.n, 0);
            let have = state.turn as i32 + inst.skybound;
            push_gate(gates, "skyboundArt", "skybound art", need, have, met);
        },
        Condition::VarAtLeast { var_at_least } => {
            let need = amount_or(&var_at_least.n, 0);
            let have = var_lookup(&inst.vars, var_at_least.key);
            push_gate(gates, "varAtLeast", "variable", need, have, met);
        },
        Condition::SuperEvolutionUnlocked { .. } => {
            push_gate(gates, "superEvolutionUnlocked", "super-evolution unlocked", 0, 0, met);
        },
        Condition::WasFused { .. } => {
            push_gate(gates, "wasFused", "fused", 0, 0, met);
        },
        Condition::DeckHasNoDuplicates { .. } => {
            push_gate(gates, "deckHasNoDuplicates", "no duplicate cards in deck", 0, 0, met);
        },
        Condition::PlayedBaseCostsThisMatch { .. } => {
            push_gate(gates, "playedBaseCostsThisMatch", "played those costs this match", 0, 0, met);
        },
        Condition::AttackedLeaderLastTurn { .. } => {
            push_gate(gates, "attackedLeaderLastTurn", "attacked the enemy leader last turn", 0, 0, met);
        },
        Condition::TurnOwner { .. } => {
            push_gate(gates, "turnOwner", "your turn", 0, 0, met);
        },
        _ => {},
    }
}

/// Gates after walking a condition: `not` shows nothing; `all` and `any`
/// walk their parts; Rally, Combo and Overflow show the seat's counters;
/// reference-only conditions show nothing; the rest show their evaluated gate.
pub open spec fn walk_cond(
    db: CardDb,
    s: State,
    who: PlayerId,
    inst: CardInstance,
    src: SourceRef,
    c: Condition,
    gs: Seq<GateView>,
) -> Seq<GateView>
    decreases c,
{
    let p = s.seat(who);
    match c {
        Condition::Not { .. } => gs,
        Condition::All { all } => walk_conds(db, s, who, inst, src, all@, gs),
        Condition::Any { any } => walk_conds(db, s, who, inst, src, any@, gs),
        Condition::Did { .. } | Condition::AttackingFollower { .. } | Condition::AttackingLeader { .. }
        | Condition::BoundHas { .. } | Condition::Evolved { .. } | Condition::CostEq { .. } => gs,
        Condition::Rally { rally } => match spec_amount_int(rally.n) {
            Some(need) => gate_push(gs, gv("rally"@, "rally"@, need, p.rally, p.rally >= need)),
            None => gs,
        },
        Condition::Combo { combo } => match spec_amount_int(combo.n) {
            Some(need) => gate_push(gs, gv("combo"@, "combo"@, need, p.combo, p.combo >= need)),
            None => gs,
        },
        Condition::Overflow { overflow } => if overflow {
            gate_push(gs, gv("overflow"@, "overflow"@, 7, p.pp_max, p.pp_max >= 7))
        } else {
            gs
        },
        _ => match evaluated_gate(db, s, who, inst, src, c) {
            Some(g) => gate_push(gs, g),
            None => gs,
        },
    }
}

pub open spec fn walk_conds(
    db: CardDb,
    s: State,
    who: PlayerId,
    inst: CardInstance,
    src: SourceRef,
    cs: Seq<Condition>,
    gs: Seq<GateView>,
) -> Seq<GateView>
    decreases cs,
{
    if cs.len() == 0 {
        gs
    } else {
        walk_cond(db, s, who, inst, src, cs[cs.len() - 1], walk_conds(db, s, who, inst, src, cs.subrange(0, cs.len() - 1), gs))
    }
}

/// Every condition the walk evaluates fits.
pub open spec fn walk_cond_fits(db: CardDb, s: State, who: PlayerId, inst: CardInstance, src: SourceRef, c: Condition) -> bool
    decreases c,
{
    match c {
        Condition::Not { .. } => true,
        Condition::All { all } => walk_conds_fit(db, s, who, inst, src, all@),
        Condition::Any { any } => walk_conds_fit(db, s, who, inst, src, any@),
        Condition::Did { .. } | Condition::AttackingFollower { .. } | Condition::AttackingLeader { .. }
        | Condition::BoundHas { .. } | Condition::Evolved { .. } | Condition::CostEq { .. } | Condition::Rally { .. }
        | Condition::Combo { .. } | Condition::Overflow { .. } => true,
        _ => evaluated_fits(db, s, who, inst, src, c),
    }
}

pub open spec fn walk_conds_fit(db: CardDb, s: State, who: PlayerId, inst: CardInstance, src: SourceRef, cs: Seq<Condition>) -> bool
    decreases cs,
{
    if cs.len() == 0 {
        true
    } else {
        walk_conds_fit(db, s, who, inst, src, cs.subrange(0, cs.len() - 1)) && walk_cond_fits(
            db,
            s,
            who,
            inst,
            src,
            cs[cs.len() - 1],
        )
    }
}

fn walk_condition_list(
    db: &CardDb,
    cs: &Vec<Condition>,
    state: &State,
    player: PlayerId,
    inst: &CardInstance,
    source: SourceRef,
    gates: &mut Vec<GateInfo>,
)
    requires
        slots_fit(*state),
        walk_conds_fit(*db, *state, player, *inst, source, cs@),
    ensures
        gates_view(final(gates)@) == walk_conds(*db, *state, player, *inst, source, cs@, gates_view(old(gates)@)),
    decreases cs,
{
    let mut i: usize = 0;
    while i < cs.len()
        invariant
            0 <= i <= cs.len(),
            slots_fit(*state),
            walk_conds_fit(*db, *state, player, *inst, source, cs@),
            gates_view(gates@) == walk_conds(
                *db,
                *state,
                player,
                *inst,
                source,
                cs@.subrange(0, i as int),
                gates_view(old(gates)@),
            ),
        decreases cs.len() - i,
    {
        let ghost s1 = cs@.subrange(0, i as int + 1);
        proof {
            assert(s1.subrange(0, s1.len() - 1) =~= cs@.subrange(0, i as int));
            assert(s1[s1.len() - 1] == cs@[i as int]);
            lemma_walk_conds_fit_at(*db, *state, player, *inst, source, cs@, i as int);
        }
        walk_condition(db, &cs[i], state, player, inst, source, gates);
        i = i + 1;
    }
    assert(cs@.subrange(0, cs.len() as int) =~= cs@);
}

proof fn lemma_walk_conds_fit_at(db: CardDb, s: State, who: PlayerId, inst: CardInstance, src: SourceRef, cs: Seq<Condition>, i: int)
    requires
        0 <= i < cs.len(),
        walk_conds_fit(db, s, who, inst, src, cs),
    ensures
        walk_cond_fits(db, s, who, inst, src, cs[i]),
    decreases cs.len(),
{
    if i < cs.len() - 1 {
        let p = cs.subrange(0, cs.len() - 1);
        lemma_walk_conds_fit_at(db, s, who, inst, src, p, i);
    }
}

/// Adds the gates a condition shows.
pub fn walk_condition(
    db: &CardDb,
    cond: &Condition,
    state: &State,
    player: PlayerId,
    inst: &CardInstance,
    source: SourceRef,
    gates: &mut Vec<GateInfo>,
)
    requires
        slots_fit(*state),
        walk_cond_fits(*db, *state, player, *inst, source, *cond),
    ensures
        gates_view(final(gates)@) == walk_cond(*db, *state, player, *inst, source, *cond, gates_view(old(gates)@)),
    decreases cond,
{
    proof {
        reveal_strlit("rally");
        reveal_strlit("combo");
        reveal_strlit("overflow");
    }
    match cond {
        Condition::Not { .. } => {},
        Condition::All { all } => walk_condition_list(db, all, state, player, inst, source, gates),
        Condition::Any { any } => walk_condition_list(db, any, state, player, inst, source, gates),
        Condition::Did { .. } | Condition::AttackingFollower { .. } | Condition::AttackingLeader { .. }
        | Condition::BoundHas { .. } | Condition::Evolved { .. } | Condition::CostEq { .. } => {},
        Condition::Rally { rally } => {
            if let Some(need) = amount_int(&rally.n) {
                let have = state.player(player).rally;
                push_gate(gates, "rally", "rally", need, have, have >= need);
            }
        },
        Condition::Combo { combo } => {
            if let Some(need) = amount_int(&combo.n) {
                let have = state.player(player).combo;
                push_gate(gates, "combo", "combo", need, have, have >= need);
            }
        },
        Condition::Overflow { overflow } => {
            if *overflow {
                let have = state.player(player).pp_max;
                push_gate(gates, "overflow", "overflow", 7, have, have >= 7);
            }
        },
        _ => push_evaluated(db, cond, state, player, inst, source, gates),
    }
}

/// Gates after walking an effect: its own condition, a Shadows or Earth
/// Rite payment's cost, then the conditions and effects nested in it.
pub open spec fn walk_eff(
    db: CardDb,
    s: State,
    who: PlayerId,
    inst: CardInstance,
    src: SourceRef,
    e: Effect,
    gs: Seq<GateView>,
) -> Seq<GateView>
    decreases e,
{
    let p = s.seat(who);
    let g1 = match effect_when(e) {
        Some(c) => walk_cond(db, s, who, inst, src, c, gs),
        None => gs,
    };
    match e {
        Effect::Pay { resource, amount, effects, .. } => {
            let g2 = match spec_amount_int(amount) {
                Some(need) => match resource {
                    PayResource::Shadows => gate_push(
                        g1,
                        gv("necromancy"@, "necromancy"@, need, p.shadows, p.shadows >= need),
                    ),
                    PayResource::Earth => gate_push(g1, gv("earth_rite"@, "earth rite"@, need, p.earth, p.earth >= need)),
                    _ => g1,
                },
                None => g1,
            };
            walk_effs(db, s, who, inst, src, effects@, g2)
        },
        Effect::If { cond, then, else_effects, .. } => {
            let g2 = walk_cond(db, s, who, inst, src, cond, g1);
            let g3 = walk_effs(db, s, who, inst, src, then@, g2);
            match else_effects {
                Some(els) => walk_effs(db, s, who, inst, src, els@, g3),
                None => g3,
            }
        },
        Effect::Series { effects, .. } => walk_effs(db, s, who, inst, src, effects@, g1),
        Effect::Repeat { effects, .. } => walk_effs(db, s, who, inst, src, effects@, g1),
        Effect::Choose { options, .. } => match options {
            Some(opts) => walk_opts(db, s, who, inst, src, opts@, g1),
            None => g1,
        },
        Effect::Sequence { steps, .. } => walk_steps(db, s, who, inst, src, steps@, g1),
        _ => g1,
    }
}

pub open spec fn walk_effs(
    db: CardDb,
    s: State,
    who: PlayerId,
    inst: CardInstance,
    src: SourceRef,
    es: Seq<Effect>,
    gs: Seq<GateView>,
) -> Seq<GateView>
    decreases es,
{
    if es.len() == 0 {
        gs
    } else {
        walk_eff(db, s, who, inst, src, es[es.len() - 1], walk_effs(db, s, who, inst, src, es.subrange(0, es.len() - 1), gs))
    }
}

pub open spec fn walk_opts(
    db: CardDb,
    s: State,
    who: PlayerId,
    inst: CardInstance,
    src: SourceRef,
    os: Seq<ChooseOption>,
    gs: Seq<GateView>,
) -> Seq<GateView>
    decreases os,
{
    if os.len() == 0 {
        gs
    } else {
        walk_effs(
            db,
            s,
            who,
            inst,
            src,
            os[os.len() - 1].effects@,
            walk_opts(db, s, who, inst, src, os.subrange(0, os.len() - 1), gs),
        )
    }
}

pub open spec fn walk_steps(
    db: CardDb,
    s: State,
    who: PlayerId,
    inst: CardInstance,
    src: SourceRef,
    ss: Seq<SequenceStep>,
    gs: Seq<GateView>,
) -> Seq<GateView>
    decreases ss,
{
    if ss.len() == 0 {
        gs
    } else {
        walk_effs(
            db,
            s,
            who,
            inst,
            src,
            ss[ss.len() - 1].effects@,
            walk_steps(db, s, who, inst, src, ss.subrange(0, ss.len() - 1), gs),
        )
    }
}

/// Every condition an effect walk evaluates fits.
pub open spec fn walk_eff_fits(db: CardDb, s: State, who: PlayerId, inst: CardInstance, src: SourceRef, e: Effect) -> bool
    decreases e,
{
    (match effect_when(e) {
        Some(c) => walk_cond_fits(db, s, who, inst, src, c),
        None => true,
    }) && match e {
        Effect::Pay { effects, .. } => walk_effs_fit(db, s, who, inst, src, effects@),
        Effect::If { cond, then, else_effects, .. } => walk_cond_fits(db, s, who, inst, src, cond) && walk_effs_fit(
            db,
            s,
            who,
            inst,
            src,
            then@,
        ) && match else_effects {
            Some(els) => walk_effs_fit(db, s, who, inst, src, els@),
            None => true,
        },
        Effect::Series { effects, .. } => walk_effs_fit(db, s, who, inst, src, effects@),
        Effect::Repeat { effects, .. } => walk_effs_fit(db, s, who, inst, src, effects@),
        Effect::Choose { options, .. } => match options {
            Some(opts) => walk_opts_fit(db, s, who, inst, src, opts@),
            None => true,
        },
        Effect::Sequence { steps, .. } => walk_steps_fit(db, s, who, inst, src, steps@),
        _ => true,
    }
}

pub open spec fn walk_effs_fit(db: CardDb, s: State, who: PlayerId, inst: CardInstance, src: SourceRef, es: Seq<Effect>) -> bool
    decreases es,
{
    if es.len() == 0 {
        true
    } else {
        walk_effs_fit(db, s, who, inst, src, es.subrange(0, es.len() - 1)) && walk_eff_fits(
            db,
            s,
            who,
            inst,
            src,
            es[es.len() - 1],
        )
    }
}

pub open spec fn walk_opts_fit(db: CardDb, s: State, who: PlayerId, inst: CardInstance, src: SourceRef, os: Seq<ChooseOption>) -> bool
    decreases os,
{
    if os.len() == 0 {
        true
    } else {
        walk_opts_fit(db, s, who, inst, src, os.subrange(0, os.len() - 1)) && walk_effs_fit(
            db,
            s,
            who,
            inst,
            src,
            os[os.len() - 1].effects@,
        )
    }
}

pub open spec fn walk_steps_fit(db: CardDb, s: State, who: PlayerId, inst: CardInstance, src: SourceRef, ss: Seq<SequenceStep>) -> bool
    decreases ss,
{
    if ss.len() == 0 {
        true
    } else {
        walk_steps_fit(db, s, who, inst, src, ss.subrange(0, ss.len() - 1)) && walk_effs_fit(
            db,
            s,
            who,
            inst,
            src,
            ss[ss.len() - 1].effects@,
        )
    }
}

proof fn lemma_effs_fit_at(db: CardDb, s: State, who: PlayerId, inst: CardInstance, src: SourceRef, es: Seq<Effect>, i: int)
    requires
        0 <= i < es.len(),
        walk_effs_fit(db, s, who, inst, src, es),
    ensures
        walk_eff_fits(db, s, who, inst, src, es[i]),
    decreases es.len(),
{
    if i < es.len() - 1 {
        lemma_effs_fit_at(db, s, who, inst, src, es.subrange(0, es.len() - 1), i);
    }
}

proof fn lemma_opts_fit_at(
    db: CardDb,
    s: State,
    who: PlayerId,
    inst: CardInstance,
    src: SourceRef,
    os: Seq<ChooseOption>,
    i: int,
)
    requires
        0 <= i < os.len(),
        walk_opts_fit(db, s, who, inst, src, os),
    ensures
        walk_effs_fit(db, s, who, inst, src, os[i].effects@),
    decreases os.len(),
{
    if i < os.len() - 1 {
        lemma_opts_fit_at(db, s, who, inst, src, os.subrange(0, os.len() - 1), i);
    }
}

proof fn lemma_steps_fit_at(
    db: CardDb,
    s: State,
    who: PlayerId,
    inst: CardInstance,
    src: SourceRef,
    ss: Seq<SequenceStep>,
    i: int,
)
    requires
        0 <= i < ss.len(),
        walk_steps_fit(db, s, who, inst, src, ss),
    ensures
        walk_effs_fit(db, s, who, inst, src, ss[i].effects@),
    decreases ss.len(),
{
    if i < ss.len() - 1 {
        lemma_steps_fit_at(db, s, who, inst, src, ss.subrange(0, ss.len() - 1), i);
    }
}

fn walk_effect_list(
    db: &CardDb,
    es: &Vec<Effect>,
    state: &State,
    player: PlayerId,
    inst: &CardInstance,
    source: SourceRef,
    gates: &mut Vec<GateInfo>,
)
    requires
        slots_fit(*state),
        walk_effs_fit(*db, *state, player, *inst, source, es@),
    ensures
        gates_view(final(gates)@) == walk_effs(*db, *state, player, *inst, source, es@, gates_view(old(gates)@)),
    decreases es,
{
    let mut i: usize = 0;
    while i < es.len()
        invariant
            0 <= i <= es.len(),
            slots_fit(*state),
            walk_effs_fit(*db, *state, player, *inst, source, es@),
            gates_view(gates@) == walk_effs(
                *db,
                *state,
                player,
                *inst,
                source,
                es@.subrange(0, i as int),
                gates_view(old(gates)@),
            ),
        decreases es.len() - i,
    {
        let ghost s1 = es@.subrange(0, i as int + 1);
        proof {
            assert(s1.subrange(0, s1.len() - 1) =~= es@.subrange(0, i as int));
            assert(s1[s1.len() - 1] == es@[i as int]);
            lemma_effs_fit_at(*db, *state, player, *inst, source, es@, i as int);
        }
        walk_effect(db, &es[i], state, player, inst, source, gates);
        i = i + 1;
    }
    assert(es@.subrange(0, es.len() as int) =~= es@);
}

fn walk_option_list(
    db: &CardDb,
    os: &Vec<ChooseOption>,
    state: &State,
    player: PlayerId,
    inst: &CardInstance,
    source: SourceRef,
    gates: &mut Vec<GateInfo>,
)
    requires
        slots_fit(*state),
        walk_opts_fit(*db, *state, player, *inst, source, os@),
    ensures
        gates_view(final(gates)@) == walk_opts(*db, *state, player, *inst, source, os@, gates_view(old(gates)@)),
    decreases os,
{
    let mut i: usize = 0;
    while i < os.len()
        invariant
            0 <= i <= os.len(),
            slots_fit(*state),
            walk_opts_fit(*db, *state, player, *inst, source, os@),
            gates_view(gates@) == walk_opts(
                *db,
                *state,
                player,
                *inst,
                source,
                os@.subrange(0, i as int),
                gates_view(old(gates)@),
            ),
        decreases os.len() - i,
    {
        let ghost s1 = os@.subrange(0, i as int + 1);
        proof {
            assert(s1.subrange(0, s1.len() - 1) =~= os@.subrange(0, i as int));
            assert(s1[s1.len() - 1] == os@[i as int]);
            lemma_opts_fit_at(*db, *state, player, *inst, source, os@, i as int);
        }
        walk_effect_list(db, &os[i].effects, state, player, inst, source, gates);
        i = i + 1;
    }
    assert(os@.subrange(0, os.len() as int) =~= os@);
}

fn walk_step_list(
    db: &CardDb,
    ss: &Vec<SequenceStep>,
    state: &State,
    player: PlayerId,
    inst: &CardInstance,
    source: SourceRef,
    gates: &mut Vec<GateInfo>,
)
    requires
        slots_fit(*state),
        walk_steps_fit(*db, *state, player, *inst, source, ss@),
    ensures
        gates_view(final(gates)@) == walk_steps(*db, *state, player, *inst, source, ss@, gates_view(old(gates)@)),
    decreases ss,
{
    let mut i: usize = 0;
    while i < ss.len()
        invariant
            0 <= i <= ss.len(),
            slots_fit(*state),
            walk_steps_fit(*db, *state, player, *inst, source, ss@),
            gates_view(gates@) == walk_steps(
                *db,
                *state,
                player,
                *inst,
                source,
                ss@.subrange(0, i as int),
                gates_view(old(gates)@),
            ),
        decreases ss.len() - i,
    {
        let ghost s1 = ss@.subrange(0, i as int + 1);
        proof {
            assert(s1.subrange(0, s1.len() - 1) =~= ss@.subrange(0, i as int));
            assert(s1[s1.len() - 1] == ss@[i as int]);
            lemma_steps_fit_at(*db, *state, player, *inst, source, ss@, i as int);
        }
        walk_effect_list(db, &ss[i].effects, state, player, inst, source, gates);
        i = i + 1;
    }
    assert(ss@.subrange(0, ss.len() as int) =~= ss@);
}

/// Adds the gates an effect shows: its own condition, a Shadows or Earth
/// Rite payment, and what is nested in it.
pub fn walk_effect(
    db: &CardDb,
    effect: &Effect,
    state: &State,
    player: PlayerId,
    inst: &CardInstance,
    source: SourceRef,
    gates: &mut Vec<GateInfo>,
)
    requires
        slots_fit(*state),
        walk_eff_fits(*db, *state, player, *inst, source, *effect),
    ensures
        gates_view(final(gates)@) == walk_eff(*db, *state, player, *inst, source, *effect, gates_view(old(gates)@)),
    decreases effect,
{
    if let Some(c) = effect.when_cond() {
        walk_condition(db, c, state, player, inst, source, gates);
    }
    proof {
        reveal_strlit("necromancy");
        reveal_strlit("earth_rite");
        reveal_strlit("earth rite");
    }
    match effect {
        Effect::Pay { resource, amount, effects, .. } => {
            if let Some(need) = amount_int(amount) {
                match resource {
                    PayResource::Shadows => {
                        let have = state.player(player).shadows;
                        push_gate(gates, "necromancy", "necromancy", need, have, have >= need);
                    },
                    PayResource::Earth => {
                        let have = state.player(player).earth;
                        push_gate(gates, "earth_rite", "earth rite", need, have, have >= need);
                    },
                    PayResource::Pp | PayResource::Faith => {},
                }
            }
            walk_effect_list(db, effects, state, player, inst, source, gates);
        },
        Effect::If { cond, then, else_effects, .. } => {
            walk_condition(db, cond, state, player, inst, source, gates);
            walk_effect_list(db, then, state, player, inst, source, gates);
            if let Some(els) = else_effects {
                walk_effect_list(db, els, state, player, inst, source, gates);
            }
        },
        Effect::Series { effects, .. } | Effect::Repeat { effects, .. } => {
            walk_effect_list(db, effects, state, player, inst, source, gates);
        },
        Effect::Choose { options: Some(opts), .. } => {
            walk_option_list(db, opts, state, player, inst, source, gates);
        },
        Effect::Sequence { steps, .. } => {
            walk_step_list(db, steps, state, player, inst, source, gates);
        },
        _ => {},
    }
}

/// Adds the gates a list of effects shows, in order.
pub fn walk_effects(
    db: &CardDb,
    effects: &[Effect],
    state: &State,
    player: PlayerId,
    inst: &CardInstance,
    source: SourceRef,
    gates: &mut Vec<GateInfo>,
)
    requires
        slots_fit(*state),
        walk_effs_fit(*db, *state, player, *inst, source, effects@),
    ensures
        gates_view(final(gates)@) == walk_effs(*db, *state, player, *inst, source, effects@, gates_view(old(gates)@)),
{
    let mut i: usize = 0;
    while i < effects.len()
        invariant
            0 <= i <= effects.len(),
            slots_fit(*state),
            walk_effs_fit(*db, *state, player, *inst, source, effects@),
            gates_view(gates@) == walk_effs(
                *db,
                *state,
                player,
                *inst,
                source,
                effects@.subrange(0, i as int),
                gates_view(old(gates)@),
            ),
        decreases effects.len() - i,
    {
        let ghost s1 = effects@.subrange(0, i as int + 1);
        proof {
            assert(s1.subrange(0, s1.len() - 1) =~= effects@.subrange(0, i as int));
            assert(s1[s1.len() - 1] == effects@[i as int]);
            lemma_effs_fit_at(*db, *state, player, *inst, source, effects@, i as int);
        }
        walk_effect(db, &effects[i], state, player, inst, source, gates);
        i = i + 1;
    }
    assert(effects@.subrange(0, effects.len() as int) =~= effects@);
}

/// Gates after walking an ability: its condition, then its effects.
pub open spec fn walk_abil(
    db: CardDb,
    s: State,
    who: PlayerId,
    inst: CardInstance,
    src: SourceRef,
    a: Ability,
    gs: Seq<GateView>,
) -> Seq<GateView> {
    let g1 = match ability_when(a) {
        Some(c) => walk_cond(db, s, who, inst, src, c, gs),
        None => gs,
    };
    walk_effs(db, s, who, inst, src, ability_effects(a), g1)
}

/// Every condition an ability walk evaluates fits.
pub open spec fn walk_abil_fits(db: CardDb, s: State, who: PlayerId, inst: CardInstance, src: SourceRef, a: Ability) -> bool {
    (match ability_when(a) {
        Some(c) => walk_cond_fits(db, s, who, inst, src, c),
        None => true,
    }) && walk_effs_fit(db, s, who, inst, src, ability_effects(a))
}

/// Adds the gates an ability shows.
pub fn walk_ability(
    db: &CardDb,
    ability: &Ability,
    state: &State,
    player: PlayerId,
    inst: &CardInstance,
    source: SourceRef,
    gates: &mut Vec<GateInfo>,
)
    requires
        slots_fit(*state),
        walk_abil_fits(*db, *state, player, *inst, source, *ability),
    ensures
        gates_view(final(gates)@) == walk_abil(*db, *state, player, *inst, source, *ability, gates_view(old(gates)@)),
{
    if let Some(c) = ability.when_cond() {
        walk_condition(db, c, state, player, inst, source, gates);
    }
    walk_effects(db, ability.effects(), state, player, inst, source, gates);
}

/// Gates after walking the Fanfare abilities among the first `n`.
pub open spec fn walk_fanfares(
    db: CardDb,
    s: State,
    who: PlayerId,
    inst: CardInstance,
    src: SourceRef,
    abs: Seq<Ability>,
    n: int,
    gs: Seq<GateView>,
) -> Seq<GateView>
    decreases n,
{
    if n <= 0 {
        gs
    } else {
        let prev = walk_fanfares(db, s, who, inst, src, abs, n - 1, gs);
        if abs[n - 1] is Fanfare {
            walk_abil(db, s, who, inst, src, abs[n - 1], prev)
        } else {
            prev
        }
    }
}

/// Gates after walking all of the first `n` abilities.
pub open spec fn walk_abils(
    db: CardDb,
    s: State,
    who: PlayerId,
    inst: CardInstance,
    src: SourceRef,
    abs: Seq<Ability>,
    n: int,
    gs: Seq<GateView>,
) -> Seq<GateView>
    decreases n,
{
    if n <= 0 {
        gs
    } else {
        walk_abil(db, s, who, inst, src, abs[n - 1], walk_abils(db, s, who, inst, src, abs, n - 1, gs))
    }
}

/// Gates after walking the first `n` play modes: Enhance and Accelerate
/// effects, and a crystallized form's Fanfares.
pub open spec fn walk_modes(
    db: CardDb,
    s: State,
    who: PlayerId,
    inst: CardInstance,
    src: SourceRef,
    ms: Seq<Mode>,
    n: int,
    gs: Seq<GateView>,
) -> Seq<GateView>
    decreases n,
{
    if n <= 0 {
        gs
    } else {
        let prev = walk_modes(db, s, who, inst, src, ms, n - 1, gs);
        match ms[n - 1] {
            Mode::Enhance { effects, .. } => walk_effs(db, s, who, inst, src, effects@, prev),
            Mode::Accelerate { effects, .. } => walk_effs(db, s, who, inst, src, effects@, prev),
            Mode::Crystallize { abilities, .. } => match abilities {
                Some(abs) => walk_fanfares(db, s, who, inst, src, abs@, abs@.len() as int, prev),
                None => prev,
            },
        }
    }
}

/// Every Fanfare of the list walks within `i32`.
pub open spec fn fanfares_fit(db: CardDb, s: State, who: PlayerId, inst: CardInstance, src: SourceRef, abs: Seq<Ability>) -> bool {
    forall|i: int| 0 <= i < abs.len() && (#[trigger] abs[i]) is Fanfare ==> walk_abil_fits(db, s, who, inst, src, abs[i])
}

/// Every ability of the list walks within `i32`.
pub open spec fn abils_fit(db: CardDb, s: State, who: PlayerId, inst: CardInstance, src: SourceRef, abs: Seq<Ability>) -> bool {
    forall|i: int| 0 <= i < abs.len() ==> walk_abil_fits(db, s, who, inst, src, #[trigger] abs[i])
}

/// Every mode of the list walks within `i32`.
pub open spec fn modes_fit(db: CardDb, s: State, who: PlayerId, inst: CardInstance, src: SourceRef, ms: Seq<Mode>) -> bool {
    forall|i: int|
        0 <= i < ms.len() ==> match #[trigger] ms[i] {
            Mode::Enhance { effects, .. } => walk_effs_fit(db, s, who, inst, src, effects@),
            Mode::Accelerate { effects, .. } => walk_effs_fit(db, s, who, inst, src, effects@),
            Mode::Crystallize { abilities, .. } => match abilities {
                Some(abs) => fanfares_fit(db, s, who, inst, src, abs@),
                None => true,
            },
        }
}

fn walk_fanfare_list(
    db: &CardDb,
    abs: &[Ability],
    state: &State,
    player: PlayerId,
    inst: &CardInstance,
    source: SourceRef,
    gates: &mut Vec<GateInfo>,
)
    requires
        slots_fit(*state),
        fanfares_fit(*db, *state, player, *inst, source, abs@),
    ensures
        gates_view(final(gates)@) == walk_fanfares(
            *db,
            *state,
            player,
            *inst,
            source,
            abs@,
            abs@.len() as int,
            gates_view(old(gates)@),
        ),
{
    let mut i: usize = 0;
    while i < abs.len()
        invariant
            0 <= i <= abs.len(),
            slots_fit(*state),
            fanfares_fit(*db, *state, player, *inst, source, abs@),
            gates_view(gates@) == walk_fanfares(*db, *state, player, *inst, source, abs@, i as int, gates_view(old(gates)@)),
        decreases abs.len() - i,
    {
        if let Ability::Fanfare { .. } = &abs[i] {
            walk_ability(db, &abs[i], state, player, inst, source, gates);
        }
        i = i + 1;
    }
}

fn walk_ability_list(
    db: &CardDb,
    abs: &[Ability],
    state: &State,
    player: PlayerId,
    inst: &CardInstance,
    source: SourceRef,
    gates: &mut Vec<GateInfo>,
)
    requires
        slots_fit(*state),
        abils_fit(*db, *state, player, *inst, source, abs@),
    ensures
        gates_view(final(gates)@) == walk_abils(
            *db,
            *state,
            player,
            *inst,
            source,
            abs@,
            abs@.len() as int,
            gates_view(old(gates)@),
        ),
{
    let mut i: usize = 0;
    while i < abs.len()
        invariant
            0 <= i <= abs.len(),
            slots_fit(*state),
            abils_fit(*db, *state, player, *inst, source, abs@),
            gates_view(gates@) == walk_abils(*db, *state, player, *inst, source, abs@, i as int, gates_view(old(gates)@)),
        decreases abs.len() - i,
    {
        walk_ability(db, &abs[i], state, player, inst, source, gates);
        i = i + 1;
    }
}

fn walk_mode_list(
    db: &CardDb,
    ms: &[Mode],
    state: &State,
    player: PlayerId,
    inst: &CardInstance,
    source: SourceRef,
    gates: &mut Vec<GateInfo>,
)
    requires
        slots_fit(*state),
        modes_fit(*db, *state, player, *inst, source, ms@),
    ensures
        gates_view(final(gates)@) == walk_modes(
            *db,
            *state,
            player,
            *inst,
            source,
            ms@,
            ms@.len() as int,
            gates_view(old(gates)@),
        ),
{
    let mut i: usize = 0;
    while i < ms.len()
        invariant
            0 <= i <= ms.len(),
            slots_fit(*state),
            modes_fit(*db, *state, player, *inst, source, ms@),
            gates_view(gates@) == walk_modes(*db, *state, player, *inst, source, ms@, i as int, gates_view(old(gates)@)),
        decreases ms.len() - i,
    {
        match &ms[i] {
            Mode::Enhance { effects, .. } => walk_effects(db, effects.as_slice(), state, player, inst, source, gates),
            Mode::Accelerate { effects, .. } => walk_effects(db, effects.as_slice(), state, player, inst, source, gates),
            Mode::Crystallize { abilities, .. } => {
                if let Some(abs) = abilities {
                    walk_fanfare_list(db, abs.as_slice(), state, player, inst, source, gates);
                }
            },
        }
        i = i + 1;
    }
}

/// The gates a hand card shows: its play modes', its Fanfares', and a
/// Spellboost counter when it has Spellboost; nothing for an unknown card.
pub open spec fn hand_gates(db: CardDb, s: State, who: PlayerId, inst: CardInstance) -> Seq<GateView> {
    let k = card_pos(db.cards@, inst.card, 0);
    if k < 0 {
        Seq::empty()
    } else {
        let card = db.cards@[k];
        let src = SourceRef::Hand { player: who, id: inst.id };
        let ms = card_mode_list(card);
        let abs = card_ability_list(card);
        let g1 = walk_modes(db, s, who, inst, src, ms, ms.len() as int, Seq::empty());
        let g2 = walk_fanfares(db, s, who, inst, src, abs, abs.len() as int, g1);
        if string_views(inst.printed_tags@).contains("spellboost"@) || exists|i: int|
            0 <= i < abs.len() && #[trigger] abs[i] is Spellboost {
            gate_push(g2, gv("spellboost"@, "spellboost"@, 0, inst.spellboost_count, false))
        } else {
            g2
        }
    }
}

/// The walks of a hand card stay within `i32`.
pub open spec fn hand_gates_fit(db: CardDb, s: State, who: PlayerId, inst: CardInstance) -> bool {
    let k = card_pos(db.cards@, inst.card, 0);
    let src = SourceRef::Hand { player: who, id: inst.id };
    k >= 0 ==> modes_fit(db, s, who, inst, src, card_mode_list(db.cards@[k])) && fanfares_fit(
        db,
        s,
        who,
        inst,
        src,
        card_ability_list(db.cards@[k]),
    )
}

fn has_spellboost(abs: &[Ability]) -> (r: bool)
    ensures
        r == exists|i: int| 0 <= i < abs@.len() && #[trigger] abs@[i] is Spellboost,
{
    let mut i: usize = 0;
    while i < abs.len()
        invariant
            0 <= i <= abs.len(),
            forall|j: int| 0 <= j < i ==> !(#[trigger] abs@[j] is Spellboost),
        decreases abs.len() - i,
    {
        if let Ability::Spellboost { .. } = &abs[i] {
            assert(abs@[i as int] is Spellboost);
            return true;
        }
        i = i + 1;
    }
    false
}

/// Gates a hand card shows for `player`.
pub fn collect_hand_gates(db: &CardDb, state: &State, player: PlayerId, inst: &CardInstance, _pp: i32) -> (r: Vec<
    GateInfo,
>)
    requires
        slots_fit(*state),
        hand_gates_fit(*db, *state, player, *inst),
    ensures
        gates_view(r@) == hand_gates(*db, *state, player, *inst),
{
    let card = match db.card(inst.card) {
        Ok(c) => c,
        Err(_) => {
            let out: Vec<GateInfo> = Vec::new();
            assert(gates_view(out@) =~= Seq::<GateView>::empty());
            return out;
        },
    };
    let mut gates: Vec<GateInfo> = Vec::new();
    assert(gates_view(gates@) =~= Seq::<GateView>::empty());
    let source = SourceRef::Hand { player, id: inst.id };
    walk_mode_list(db, card.modes(), state, player, inst, source, &mut gates);
    walk_fanfare_list(db, card.abilities(), state, player, inst, source, &mut gates);
    let tag = String::from_str("spellboost");
    proof {
        reveal_strlit("spellboost");
    }
    if crate::card::contains_string(&inst.printed_tags, &tag) || has_spellboost(card.abilities()) {
        push_gate(&mut gates, "spellboost", "spellboost", 0, inst.spellboost_count, false);
    }
    gates
}

/// Gates among the first `n` kept on the board: Rally, Combo and Overflow.
pub open spec fn keep_board_kinds(gs: Seq<GateView>, n: int) -> Seq<GateView>
    decreases n,
{
    if n <= 0 {
        Seq::empty()
    } else {
        let prev = keep_board_kinds(gs, n - 1);
        let k = gs[n - 1].kind;
        if k == "rally"@ || k == "combo"@ || k == "overflow"@ {
            prev.push(gs[n - 1])
        } else {
            prev
        }
    }
}

/// The gates a field card shows: Rally, Combo and Overflow thresholds of
/// its printed and granted abilities; nothing for an unknown card.
pub open spec fn board_gates(db: CardDb, s: State, who: PlayerId, inst: CardInstance) -> Seq<GateView> {
    let k = card_pos(db.cards@, inst.card, 0);
    if k < 0 {
        Seq::empty()
    } else {
        let src = SourceRef::Field { player: who, id: inst.id };
        let abs = card_ability_list(db.cards@[k]);
        let g1 = walk_abils(db, s, who, inst, src, abs, abs.len() as int, Seq::empty());
        let g2 = walk_abils(db, s, who, inst, src, inst.granted@, inst.granted@.len() as int, g1);
        keep_board_kinds(g2, g2.len() as int)
    }
}

/// The walks of a field card stay within `i32`.
pub open spec fn board_gates_fit(db: CardDb, s: State, who: PlayerId, inst: CardInstance) -> bool {
    let k = card_pos(db.cards@, inst.card, 0);
    let src = SourceRef::Field { player: who, id: inst.id };
    k >= 0 ==> abils_fit(db, s, who, inst, src, card_ability_list(db.cards@[k])) && abils_fit(
        db,
        s,
        who,
        inst,
        src,
        inst.granted@,
    )
}

/// Gates a field card shows for `player`.
pub fn collect_board_gates(db: &CardDb, state: &State, player: PlayerId, inst: &CardInstance) -> (r: Vec<GateInfo>)
    requires
        slots_fit(*state),
        board_gates_fit(*db, *state, player, *inst),
    ensures
        gates_view(r@) == board_gates(*db, *state, player, *inst),
{
    let card = match db.card(inst.card) {
        Ok(c) => c,
        Err(_) => {
            let out: Vec<GateInfo> = Vec::new();
            assert(gates_view(out@) =~= Seq::<GateView>::empty());
            return out;
        },
    };
    let mut gates: Vec<GateInfo> = Vec::new();
    assert(gates_view(gates@) =~= Seq::<GateView>::empty());
    let source = SourceRef::Field { player, id: inst.id };
    walk_ability_list(db, card.abilities(), state, player, inst, source, &mut gates);
    walk_ability_list(db, inst.granted.as_slice(), state, player, inst, source, &mut gates);
    let rally = String::from_str("rally");
    let combo = String::from_str("combo");
    let overflow = String::from_str("overflow");
    proof {
        reveal_strlit("rally");
        reveal_strlit("combo");
        reveal_strlit("overflow");
    }
    let mut kept: Vec<GateInfo> = Vec::new();
    let mut i: usize = 0;
    while i < gates.len()
        invariant
            0 <= i <= gates.len(),
            rally@ == "rally"@,
            combo@ == "combo"@,
            overflow@ == "overflow"@,
            gates_view(kept@) == keep_board_kinds(gates_view(gates@), i as int),
        decreases gates.len() - i,
    {
        let g = &gates[i];
        assert(gates_view(gates@)[i as int] == gates@[i as int]@);
        if g.kind == rally || g.kind == combo || g.kind == overflow {
            let ghost before = kept@;
            kept.push(GateInfo { kind: g.kind.clone(), label: g.label.clone(), need: g.need, have: g.have, met: g.met });
            assert(gates_view(kept@) =~= gates_view(before).push(gates@[i as int]@));
        }
        i = i + 1;
    }
    kept
}

/// Some legal action attacks with the follower in `slot`.
pub open spec fn attacks_from(legal: Seq<Action>, slot: int) -> bool {
    exists|k: int| 0 <= k < legal.len() && (#[trigger] legal[k] matches Action::Attack { attacker, .. } && attacker.0 == slot)
}

/// Some legal action attacks the enemy leader with the follower in `slot`.
pub open spec fn attacks_leader_from(legal: Seq<Action>, slot: int) -> bool {
    exists|k: int|
        0 <= k < legal.len() && (#[trigger] legal[k] matches Action::Attack { attacker, target } && attacker.0 == slot
            && target == AttackTarget::Leader)
}

/// How the field instance `inst` in `slot` of `player` is shown, given the
/// legal actions of the acting seat: whether it may attack (a follower or
/// the leader) when `player` acts, whether only Rush lets it attack now, its
/// evolution, its gates and its printed attack lock.
pub open spec fn board_card_shown(
    db: CardDb,
    s: State,
    player: PlayerId,
    legal: Seq<Action>,
    slot: int,
    inst: CardInstance,
    b: BoardCardInfo,
) -> bool {
    let acting = player == spec_acting_player(s);
    &&& b.slot == slot
    &&& b.id@ == card_id_text(inst.card)
    &&& b.can_attack == (acting && attacks_from(legal, slot))
    &&& b.can_attack_leader == (acting && attacks_leader_from(legal, slot))
    &&& b.rush_only == (inst.flags.summoning_sick && inst.traits.rush == Some(true) && inst.traits.storm != Some(true))
    &&& b.evolved == inst.evolved
    &&& b.super_evolved == inst.super_evolved
    &&& gates_view(b.gates@) == board_gates(db, s, player, inst)
    &&& opt_text(b.cannot_attack_reason) == spec_cannot_attack_reason(inst.traits)
}

/// Positions of the occupied slots among the first `n`, in order.
pub open spec fn occupied_upto(field: Seq<Option<CardInstance>>, n: int) -> Seq<int>
    decreases n,
{
    if n <= 0 {
        Seq::empty()
    } else if field[n - 1] is Some {
        occupied_upto(field, n - 1).push(n - 1)
    } else {
        occupied_upto(field, n - 1)
    }
}

fn attack_flags(legal: &[Action], slot: u8) -> (r: (bool, bool))
    ensures
        r.0 == attacks_from(legal@, slot as int),
        r.1 == attacks_leader_from(legal@, slot as int),
{
    let mut any = false;
    let mut leader = false;
    let mut k: usize = 0;
    while k < legal.len()
        invariant
            0 <= k <= legal.len(),
            any == exists|j: int|
                0 <= j < k && (#[trigger] legal@[j] matches Action::Attack { attacker, .. } && attacker.0 == slot),
            leader == exists|j: int|
                0 <= j < k && (#[trigger] legal@[j] matches Action::Attack { attacker, target } && attacker.0 == slot
                    && target == AttackTarget::Leader),
        decreases legal.len() - k,
    {
        if let Action::Attack { attacker, target } = &legal[k] {
            if attacker.0 == slot {
                any = true;
                if *target == AttackTarget::Leader {
                    leader = true;
                }
            }
        }
        k = k + 1;
    }
    (any, leader)
}

/// The board presentation of `player`'s field given the legal actions of
/// the acting seat: one entry per occupied slot, left to right.
pub fn board_info_for_legal(db: &CardDb, state: &State, player: PlayerId, legal: &[Action]) -> (r: Vec<BoardCardInfo>)
    requires
        slots_fit(*state),
        state.seat(player).field@.len() <= 256,
        forall|k: int|
            0 <= k < state.seat(player).field@.len() ==> (#[trigger] state.seat(player).field@[k] matches Some(c)
                ==> board_gates_fit(*db, *state, player, c)),
    ensures
        r@.len() == occupied_upto(state.seat(player).field@, state.seat(player).field@.len() as int).len(),
        forall|j: int|
            0 <= j < r@.len() ==> board_card_shown(
                *db,
                *state,
                player,
                legal@,
                occupied_upto(state.seat(player).field@, state.seat(player).field@.len() as int)[j],
                state.seat(player).field@[occupied_upto(
                    state.seat(player).field@,
                    state.seat(player).field@.len() as int,
                )[j]]->0,
                #[trigger] r@[j],
            ),
{
    let actor = acting_player(state);
    let field = &state.player(player).field;
    let mut out: Vec<BoardCardInfo> = Vec::new();
    let mut i: usize = 0;
    while i < field.len()
        invariant
            field@ == state.seat(player).field@,
            field@.len() <= 256,
            slots_fit(*state),
            forall|k: int|
                0 <= k < field@.len() ==> (#[trigger] field@[k] matches Some(c) ==> board_gates_fit(
                    *db,
                    *state,
                    player,
                    c,
                )),
            actor == spec_acting_player(*state),
            0 <= i <= field.len(),
            out@.len() == occupied_upto(field@, i as int).len(),
            forall|j: int|
                0 <= j < out@.len() ==> board_card_shown(
                    *db,
                    *state,
                    player,
                    legal@,
                    occupied_upto(field@, i as int)[j],
                    field@[occupied_upto(field@, i as int)[j]]->0,
                    #[trigger] out@[j],
                ),
        decreases field.len() - i,
    {
        if let Some(inst) = &field[i] {
            let acting = player == actor;
            let (any, leader) = attack_flags(legal, i as u8);
            let info = BoardCardInfo {
                slot: i as u8,
                id: inst.card.as_str(),
                can_attack: acting && any,
                can_attack_leader: acting && leader,
                rush_only: inst.flags.summoning_sick && inst.is_rush() && !inst.is_storm(),
                evolved: inst.evolved,
                super_evolved: inst.super_evolved,
                gates: collect_board_gates(db, state, player, inst),
                cannot_attack_reason: cannot_attack_reason(inst),
            };
            out.push(info);
        }
        i = i + 1;
    }
    out
}


/// The board presentation of `player`'s field for the state's legal
/// actions (see `board_info_for_legal`).
pub fn board_info(db: &CardDb, state: &State, player: PlayerId) -> (r: Vec<BoardCardInfo>)
    requires
        (state.phase is Main || state.phase is Combat) ==> legal_fits(*db, *state),
        slots_fit(*state),
        state.seat(player).field@.len() <= 256,
        forall|k: int|
            0 <= k < state.seat(player).field@.len() ==> (#[trigger] state.seat(player).field@[k] matches Some(c)
                ==> board_gates_fit(*db, *state, player, c)),
    ensures
        r@.len() == occupied_upto(state.seat(player).field@, state.seat(player).field@.len() as int).len(),
        forall|j: int|
            0 <= j < r@.len() ==> board_card_shown(
                *db,
                *state,
                player,
                spec_legal_actions(*db, *state),
                occupied_upto(state.seat(player).field@, state.seat(player).field@.len() as int)[j],
                state.seat(player).field@[occupied_upto(
                    state.seat(player).field@,
                    state.seat(player).field@.len() as int,
                )[j]]->0,
                #[trigger] r@[j],
            ),
{
    let legal = legal_actions(db, state);
    board_info_for_legal(db, state, player, legal.as_slice())
}


/// Why a hand card that is not playable cannot be played now.
pub open spec fn spec_blocked_reason(
    db: CardDb,
    s: State,
    player: PlayerId,
    actor: PlayerId,
    inst: CardInstance,
    form: Option<(i32, PlayForm)>,
) -> Seq<char> {
    let k = card_pos(db.cards@, inst.card, 0);
    if player != actor {
        "Not your turn."@
    } else if !(s.phase is Main) {
        "Wrong phase."@
    } else if inst.traits.cant_be_played == Some(true) {
        "Cannot be played."@
    } else if form is None {
        "Not enough PP."@
    } else if k >= 0 && !(form matches Some((_, PlayForm::Accelerate { .. })) || card_kind(db.cards@[k])
        == CardKind::Spell) && occupied_count(s.seat(player).field@) >= FIELD_SLOTS {
        "Board is full."@
    } else {
        "No legal target."@
    }
}

fn blocked_reason(
    db: &CardDb,
    state: &State,
    player: PlayerId,
    actor: PlayerId,
    inst: &CardInstance,
    form: Option<(i32, PlayForm)>,
) -> (r: String)
    ensures
        r@ == spec_blocked_reason(*db, *state, player, actor, *inst, form),
{
    proof {
        reveal_strlit("Not your turn.");
        reveal_strlit("Wrong phase.");
        reveal_strlit("Cannot be played.");
        reveal_strlit("Not enough PP.");
        reveal_strlit("Board is full.");
        reveal_strlit("No legal target.");
    }
    if player != actor {
        return String::from_str("Not your turn.");
    }
    if !matches!(state.phase, Phase::Main) {
        return String::from_str("Wrong phase.");
    }
    if inst.cant_be_played() {
        return String::from_str("Cannot be played.");
    }
    if form.is_none() {
        return String::from_str("Not enough PP.");
    }
    if let Ok(card) = db.card(inst.card) {
        let as_spell = matches!(form, Some((_, PlayForm::Accelerate { .. }))) || card.kind() == CardKind::Spell;
        if !as_spell && state.player(player).field_free() == 0 {
            return String::from_str("Board is full.");
        }
    }
    String::from_str("No legal target.")
}

/// Some legal action plays the hand card at `pos`.
pub open spec fn plays_from(legal: Seq<Action>, pos: int) -> bool {
    exists|k: int| 0 <= k < legal.len() && (#[trigger] legal[k] matches Action::Play { hand } && hand == pos)
}

/// How the hand card `inst` at `pos` of `player` is shown, given the legal
/// actions of the acting seat: its id and costs, the form the usable PP
/// plays it in, whether `player` may play it now, its gates, and why not.
pub open spec fn hand_card_shown(
    db: CardDb,
    s: State,
    player: PlayerId,
    legal: Seq<Action>,
    pos: int,
    inst: CardInstance,
    h: HandCardInfo,
) -> bool {
    let actor = spec_acting_player(s);
    let form = spec_resolve_play_form(db, inst, s.seat(player).spec_usable_pp() as i32);
    let playable = player == actor && plays_from(legal, pos);
    &&& h.pos == pos
    &&& h.id@ == card_id_text(inst.card)
    &&& h.base_cost == inst.base_cost
    &&& h.cost == match form {
        Some((paid, _)) => Some(paid),
        None => None,
    }
    &&& opt_text(h.form) == match form {
        Some((_, kind)) => Some(spec_form_label(kind)),
        None => None,
    }
    &&& h.playable == playable
    &&& gates_view(h.gates@) == hand_gates(db, s, player, inst)
    &&& opt_text(h.blocked_reason) == if playable {
        None
    } else {
        Some(spec_blocked_reason(db, s, player, actor, inst, form))
    }
}

fn plays_flag(legal: &[Action], pos: u8) -> (r: bool)
    ensures
        r == plays_from(legal@, pos as int),
{
    let mut k: usize = 0;
    while k < legal.len()
        invariant
            0 <= k <= legal@.len(),
            forall|j: int| 0 <= j < k ==> !(#[trigger] legal@[j] matches Action::Play { hand } && hand == pos),
        decreases legal.len() - k,
    {
        if let Action::Play { hand } = &legal[k] {
            if *hand == pos {
                return true;
            }
        }
        k = k + 1;
    }
    false
}

/// Per-card presentation of `player`'s hand, in hand order, for the
/// state's legal actions.
pub fn hand_info(db: &CardDb, state: &State, player: PlayerId) -> (r: Vec<HandCardInfo>)
    requires
        (state.phase is Main || state.phase is Combat) ==> legal_fits(*db, *state),
        slots_fit(*state),
        state.seat(player).pp < i32::MAX,
        state.seat(player).hand@.len() <= 256,
        forall|k: int|
            0 <= k < state.seat(player).hand@.len() ==> hand_gates_fit(
                *db,
                *state,
                player,
                #[trigger] state.seat(player).hand@[k],
            ),
    ensures
        r@.len() == state.seat(player).hand@.len(),
        forall|j: int|
            0 <= j < r@.len() ==> hand_card_shown(
                *db,
                *state,
                player,
                spec_legal_actions(*db, *state),
                j,
                state.seat(player).hand@[j],
                #[trigger] r@[j],
            ),
{
    let actor = acting_player(state);
    let legal = legal_actions(db, state);
    let p = state.player(player);
    let pp = p.usable_pp();
    let mut out: Vec<HandCardInfo> = Vec::new();
    let mut i: usize = 0;
    while i < p.hand.len()
        invariant
            *p == state.seat(player),
            p.hand@.len() <= 256,
            slots_fit(*state),
            pp == p.spec_usable_pp(),
            actor == spec_acting_player(*state),
            legal@ == spec_legal_actions(*db, *state),
            forall|k: int| 0 <= k < p.hand@.len() ==> hand_gates_fit(*db, *state, player, #[trigger] p.hand@[k]),
            0 <= i <= p.hand@.len(),
            out@.len() == i,
            forall|j: int|
                0 <= j < i ==> hand_card_shown(*db, *state, player, legal@, j, p.hand@[j], #[trigger] out@[j]),
        decreases p.hand.len() - i,
    {
        let inst = &p.hand[i];
        let playable = player == actor && plays_flag(legal.as_slice(), i as u8);
        let form = resolve_play_form(db, inst, pp);
        let (cost, label) = match form {
            Some((paid, kind)) => (Some(paid), Some(String::from_str(form_label(kind)))),
            None => (None, None),
        };
        let reason = if playable {
            None
        } else {
            Some(blocked_reason(db, state, player, actor, inst, form))
        };
        let info = HandCardInfo {
            pos: i as u8,
            id: inst.card.as_str(),
            base_cost: inst.base_cost,
            cost,
            form: label,
            playable,
            gates: collect_hand_gates(db, state, player, inst, pp),
            blocked_reason: reason,
        };
        out.push(info);
        i = i + 1;
    }
    out
}

} // verus!
