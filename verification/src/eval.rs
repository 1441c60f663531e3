//! Evaluation of card amounts and conditions against a match.

use vstd::prelude::*;
use crate::card::{
    Amount, CardId, CardKind, Condition, CounterKey, FieldHas, FieldHasKind, Filter, NamedCounter, Side,
    StatWhich, TurnOwner, WasFused,
};
use crate::db::{card_pos, CardDb};
use crate::ids::PlayerId;
use crate::info::printed_inst;
use crate::ids::spec_opponent;
use crate::select::{
    bound_refs, field_inst_by_id, field_instance, filter_holds, hand_or_field, hand_or_field_inst,
    inst_matches_filter, inst_stat, lemma_filter_view, resolve_select, skybound_of, slots_fit,
    source_instance_cost, spec_inst_stat, spec_resolve_select, spec_skybound_of, spec_source_instance_cost,
    spec_target_matches_count_filter, spec_vars_of, target_matches_count_filter, vars_of,
};
use crate::state::{fresh_from_card, BoundRef, CardInstance, SourceRef, State, TargetOpt};

verus! {

/// A value fits an `i32`.
pub open spec fn in_i32(v: int) -> bool {
    i32::MIN <= v <= i32::MAX
}

/// An enter-count entry counts for a filter: its card is known and a fresh
/// instance of it passes.
pub open spec fn entered_ok(db: CardDb, s: State, f: Filter, e: (CardId, i32)) -> bool {
    let k = card_pos(db.cards@, e.0, 0);
    k >= 0 && filter_holds(s, printed_inst(db.cards@[k]), f)
}

/// Entries among the first `n` of an enter-count list that count for a filter.
pub open spec fn entered_matching(db: CardDb, s: State, f: Filter, es: Seq<(CardId, i32)>, n: int) -> Seq<
    (CardId, i32),
>
    decreases n,
{
    if n <= 0 {
        Seq::empty()
    } else {
        let prev = entered_matching(db, s, f, es, n - 1);
        if entered_ok(db, s, f, es[n - 1]) {
            prev.push(es[n - 1])
        } else {
            prev
        }
    }
}

/// The entries of `who`'s enter counts that count for a filter.
pub open spec fn entered_for(db: CardDb, s: State, who: PlayerId, f: Filter) -> Seq<(CardId, i32)> {
    let es = s.seat(who).enter_counts@;
    entered_matching(db, s, f, es, es.len() as int)
}

/// Sum of the first `n` counts.
pub open spec fn count_sum(es: Seq<(CardId, i32)>, n: int) -> int
    decreases n,
{
    if n <= 0 {
        0
    } else {
        count_sum(es, n - 1) + es[n - 1].1
    }
}

/// Every partial sum of the counts fits an `i32`.
pub open spec fn count_sums_fit(es: Seq<(CardId, i32)>) -> bool {
    forall|k: int| 0 <= k <= es.len() ==> in_i32(#[trigger] count_sum(es, k))
}

/// Base costs of the first `n` targets that name an instance (or a leader).
pub open spec fn base_costs(s: State, ts: Seq<TargetOpt>, n: int) -> Seq<i32>
    decreases n,
{
    if n <= 0 {
        Seq::empty()
    } else {
        let prev = base_costs(s, ts, n - 1);
        match spec_inst_stat(s, ts[n - 1], StatWhich::BaseCost) {
            Some(v) => prev.push(v),
            None => prev,
        }
    }
}

/// First position from `k` holding a value below `x` (or the end).
pub open spec fn first_below(xs: Seq<i32>, x: i32, k: int) -> int
    decreases xs.len() - k,
{
    if k < 0 || k >= xs.len() {
        xs.len() as int
    } else if xs[k] < x {
        k
    } else {
        first_below(xs, x, k + 1)
    }
}

/// Descending order of the first `n` values, equal values in arrival order.
pub open spec fn sort_desc(xs: Seq<i32>, n: int) -> Seq<i32>
    decreases n,
{
    if n <= 0 {
        Seq::empty()
    } else {
        let prev = sort_desc(xs, n - 1);
        prev.insert(first_below(prev, xs[n - 1], 0), xs[n - 1])
    }
}

proof fn lemma_sort_desc_len(xs: Seq<i32>, n: int)
    requires
        0 <= n <= xs.len(),
    ensures
        sort_desc(xs, n).len() == n,
    decreases n,
{
    if n > 0 {
        lemma_sort_desc_len(xs, n - 1);
        lemma_first_below_range(sort_desc(xs, n - 1), xs[n - 1], 0);
    }
}

proof fn lemma_first_below_range(xs: Seq<i32>, x: i32, k: int)
    requires
        0 <= k,
    ensures
        k <= first_below(xs, x, k) <= xs.len() || (k > xs.len() && first_below(xs, x, k) == xs.len()),
    decreases xs.len() - k,
{
    if k < xs.len() && !(xs[k] < x) {
        lemma_first_below_range(xs, x, k + 1);
    }
}

/// Sum of the first `k` values.
pub open spec fn seq_sum(xs: Seq<i32>, k: int) -> int
    decreases k,
{
    if k <= 0 {
        0
    } else {
        seq_sum(xs, k - 1) + xs[k - 1]
    }
}

/// The sum of the `n` largest base costs among the targets.
pub open spec fn top_sum(s: State, ts: Seq<TargetOpt>, n: i32) -> int {
    let costs = base_costs(s, ts, ts.len() as int);
    let sorted = sort_desc(costs, costs.len() as int);
    let k = if n < 0 {
        0
    } else if n as int > sorted.len() {
        sorted.len() as int
    } else {
        n as int
    };
    seq_sum(sorted, k)
}

/// Every partial sum of the `n` largest base costs fits an `i32`.
pub open spec fn top_sum_fits(s: State, ts: Seq<TargetOpt>, n: i32) -> bool {
    let costs = base_costs(s, ts, ts.len() as int);
    let sorted = sort_desc(costs, costs.len() as int);
    forall|j: int| 0 <= j <= sorted.len() ==> in_i32(#[trigger] seq_sum(sorted, j))
}

/// The value of an amount for `who`'s effect from `src`: literals, counts of
/// what a selector resolves to, the seat's counters (0 for others), sums,
/// differences, extremes and negations, enter counts of matching cards
/// (or how many such cards), the source's card variables, a stat of the
/// first selected target, or the sum of the largest base costs selected.
pub open spec fn amount_value(db: CardDb, s: State, who: PlayerId, src: Option<SourceRef>, a: Amount) -> int
    decreases a,
{
    match a {
        Amount::Int(n) => n as int,
        Amount::Count { count } => match src {
            Some(x) => (spec_resolve_select(db, s, who, x, *count).len() as i32) as int,
            None => 0,
        },
        Amount::Counter { counter } => match counter {
            CounterKey::Named(NamedCounter::Combo) => s.seat(who).combo as int,
            CounterKey::Named(NamedCounter::Earth) => s.seat(who).earth as int,
            CounterKey::Named(NamedCounter::Shadows) => s.seat(who).shadows as int,
            CounterKey::Named(NamedCounter::Faith) => s.seat(who).faith as int,
            _ => 0,
        },
        Amount::Add { add } => amount_value(db, s, who, src, *add.0) + amount_value(db, s, who, src, *add.1),
        Amount::Sub { sub } => amount_value(db, s, who, src, *sub.0) - amount_value(db, s, who, src, *sub.1),
        Amount::Max { max } => {
            let x = amount_value(db, s, who, src, *max.0);
            let y = amount_value(db, s, who, src, *max.1);
            if x >= y {
                x
            } else {
                y
            }
        },
        Amount::Min { min } => {
            let x = amount_value(db, s, who, src, *min.0);
            let y = amount_value(db, s, who, src, *min.1);
            if x <= y {
                x
            } else {
                y
            }
        },
        Amount::Neg { neg } => -amount_value(db, s, who, src, *neg),
        Amount::DistinctNames { distinct_names } => match *distinct_names {
            Amount::EnteredThisMatch { entered_this_match } => (entered_for(
                db,
                s,
                who,
                entered_this_match,
            ).len() as i32) as int,
            inner => amount_value(db, s, who, src, inner),
        },
        Amount::EnteredThisMatch { entered_this_match } => {
            let es = entered_for(db, s, who, entered_this_match);
            count_sum(es, es.len() as int)
        },
        Amount::Var { var } => spec_vars_of(s, src, var) as int,
        Amount::Stat { stat } => match src {
            Some(x) => {
                let ts = spec_resolve_select(db, s, who, x, *stat.of);
                if ts.len() == 0 {
                    0
                } else {
                    match spec_inst_stat(s, ts[0], stat.which) {
                        Some(v) => v as int,
                        None => 0,
                    }
                }
            },
            None => 0,
        },
        Amount::SumHighestBaseCosts { sum_highest_base_costs } => match src {
            Some(x) => top_sum(
                s,
                spec_resolve_select(db, s, who, x, *sum_highest_base_costs.select),
                sum_highest_base_costs.n,
            ),
            None => 0,
        },
    }
}

/// Evaluating the amount never leaves `i32`: every sum, difference,
/// negation and running total it computes fits.
pub open spec fn amount_fits(db: CardDb, s: State, who: PlayerId, src: Option<SourceRef>, a: Amount) -> bool
    decreases a,
{
    match a {
        Amount::Add { add } => amount_fits(db, s, who, src, *add.0) && amount_fits(db, s, who, src, *add.1)
            && in_i32(amount_value(db, s, who, src, *add.0) + amount_value(db, s, who, src, *add.1)),
        Amount::Sub { sub } => amount_fits(db, s, who, src, *sub.0) && amount_fits(db, s, who, src, *sub.1)
            && in_i32(amount_value(db, s, who, src, *sub.0) - amount_value(db, s, who, src, *sub.1)),
        Amount::Max { max } => amount_fits(db, s, who, src, *max.0) && amount_fits(db, s, who, src, *max.1),
        Amount::Min { min } => amount_fits(db, s, who, src, *min.0) && amount_fits(db, s, who, src, *min.1),
        Amount::Neg { neg } => amount_fits(db, s, who, src, *neg) && in_i32(-amount_value(db, s, who, src, *neg)),
        Amount::DistinctNames { distinct_names } => match *distinct_names {
            Amount::EnteredThisMatch { .. } => true,
            inner => amount_fits(db, s, who, src, inner),
        },
        Amount::EnteredThisMatch { entered_this_match } => count_sums_fit(
            entered_for(db, s, who, entered_this_match),
        ),
        Amount::SumHighestBaseCosts { sum_highest_base_costs } => match src {
            Some(x) => top_sum_fits(
                s,
                spec_resolve_select(db, s, who, x, *sum_highest_base_costs.select),
                sum_highest_base_costs.n,
            ),
            None => true,
        },
        _ => true,
    }
}

#[verifier::loop_isolation(false)]
fn entered_ids_matching(db: &CardDb, state: &State, who: PlayerId, filter: &Filter) -> (r: Vec<(CardId, i32)>)
    ensures
        r@ == entered_for(*db, *state, who, *filter),
{
    let es = &state.player(who).enter_counts;
    let mut out: Vec<(CardId, i32)> = Vec::new();
    let mut i: usize = 0;
    while i < es.len()
        invariant
            0 <= i <= es.len(),
            out@ == entered_matching(*db, *state, *filter, es@, i as int),
        decreases es.len() - i,
    {
        let e = es[i];
        let ok = match db.card(e.0) {
            Ok(card) => {
                let inst = CardInstance::from_card(card, 0);
                proof {
                    assert(fresh_from_card(inst, *card, 0));
                    let want = printed_inst(*card);
                    assert(inst.granted@ =~= want.granted@);
                    lemma_filter_view(*state, inst, want, *filter);
                }
                inst_matches_filter(state, who, &inst, filter)
            },
            Err(_) => false,
        };
        if ok {
            out.push(e);
        }
        i = i + 1;
    }
    out
}

fn sum_counts(es: &Vec<(CardId, i32)>) -> (r: i32)
    requires
        count_sums_fit(es@),
    ensures
        r == count_sum(es@, es@.len() as int),
{
    let mut total: i32 = 0;
    let mut i: usize = 0;
    while i < es.len()
        invariant
            0 <= i <= es.len(),
            count_sums_fit(es@),
            total == count_sum(es@, i as int),
        decreases es.len() - i,
    {
        assert(in_i32(count_sum(es@, i as int + 1)));
        total = total + es[i].1;
        i = i + 1;
    }
    total
}

fn insert_desc(sorted: &mut Vec<i32>, x: i32)
    ensures
        final(sorted)@ == old(sorted)@.insert(first_below(old(sorted)@, x, 0), x),
{
    let mut k: usize = 0;
    while k < sorted.len() && sorted[k] >= x
        invariant
            0 <= k <= sorted.len(),
            sorted@ == old(sorted)@,
            first_below(sorted@, x, 0) == first_below(sorted@, x, k as int),
        decreases sorted.len() - k,
    {
        k = k + 1;
    }
    sorted.insert(k, x);
}

#[verifier::loop_isolation(false)]
fn sum_highest_base_costs(state: &State, ts: &Vec<TargetOpt>, n: i32) -> (r: i32)
    requires
        top_sum_fits(*state, ts@, n),
    ensures
        r == top_sum(*state, ts@, n),
{
    let mut costs: Vec<i32> = Vec::new();
    let mut i: usize = 0;
    while i < ts.len()
        invariant
            0 <= i <= ts.len(),
            costs@ == base_costs(*state, ts@, i as int),
        decreases ts.len() - i,
    {
        if let Some(v) = inst_stat(state, &ts[i], StatWhich::BaseCost) {
            costs.push(v);
        }
        i = i + 1;
    }
    let mut sorted: Vec<i32> = Vec::new();
    let mut j: usize = 0;
    while j < costs.len()
        invariant
            0 <= j <= costs.len(),
            sorted@ == sort_desc(costs@, j as int),
        decreases costs.len() - j,
    {
        insert_desc(&mut sorted, costs[j]);
        j = j + 1;
    }
    proof {
        lemma_sort_desc_len(costs@, costs@.len() as int);
    }
    let take: usize = if n < 0 {
        0
    } else if n as usize > sorted.len() {
        sorted.len()
    } else {
        n as usize
    };
    let mut total: i32 = 0;
    let mut t: usize = 0;
    while t < take
        invariant
            0 <= t <= take <= sorted.len(),
            total == seq_sum(sorted@, t as int),
        decreases take - t,
    {
        assert(in_i32(seq_sum(sorted@, t as int + 1)));
        total = total + sorted[t];
        t = t + 1;
    }
    total
}

/// The value of an amount for `who`'s effect from `src`.
pub fn eval_amount(db: &CardDb, state: &State, who: PlayerId, source: Option<SourceRef>, a: &Amount) -> (r: i32)
    requires
        slots_fit(*state),
        amount_fits(*db, *state, who, source, *a),
    ensures
        r == amount_value(*db, *state, who, source, *a),
    decreases a,
{
    match a {
        Amount::Int(n) => *n,
        Amount::Count { count } => match source {
            Some(src) => resolve_select(db, state, who, src, &**count).len() as i32,
            None => 0,
        },
        Amount::Counter { counter } => match counter {
            CounterKey::Named(NamedCounter::Combo) => state.player(who).combo,
            CounterKey::Named(NamedCounter::Earth) => state.player(who).earth,
            CounterKey::Named(NamedCounter::Shadows) => state.player(who).shadows,
            CounterKey::Named(NamedCounter::Faith) => state.player(who).faith,
            _ => 0,
        },
        Amount::Add { add } => {
            let x = eval_amount(db, state, who, source, &*add.0);
            let y = eval_amount(db, state, who, source, &*add.1);
            x + y
        },
        Amount::Sub { sub } => {
            let x = eval_amount(db, state, who, source, &*sub.0);
            let y = eval_amount(db, state, who, source, &*sub.1);
            x - y
        },
        Amount::Max { max } => {
            let x = eval_amount(db, state, who, source, &*max.0);
            let y = eval_amount(db, state, who, source, &*max.1);
            if x >= y {
                x
            } else {
                y
            }
        },
        Amount::Min { min } => {
            let x = eval_amount(db, state, who, source, &*min.0);
            let y = eval_amount(db, state, who, source, &*min.1);
            if x <= y {
                x
            } else {
                y
            }
        },
        Amount::Neg { neg } => {
            let x = eval_amount(db, state, who, source, &**neg);
            -x
        },
        Amount::DistinctNames { distinct_names } => match &**distinct_names {
            Amount::EnteredThisMatch { entered_this_match } => entered_ids_matching(
                db,
                state,
                who,
                entered_this_match,
            ).len() as i32,
            inner => eval_amount(db, state, who, source, inner),
        },
        Amount::EnteredThisMatch { entered_this_match } => {
            let es = entered_ids_matching(db, state, who, entered_this_match);
            sum_counts(&es)
        },
        Amount::Var { var } => vars_of(state, source, *var),
        Amount::Stat { stat } => match source {
            Some(src) => {
                let ts = resolve_select(db, state, who, src, &*stat.of);
                if ts.len() == 0 {
                    0
                } else {
                    match inst_stat(state, &ts[0], stat.which) {
                        Some(v) => v,
                        None => 0,
                    }
                }
            },
            None => 0,
        },
        Amount::SumHighestBaseCosts { sum_highest_base_costs: top } => match source {
            Some(src) => {
                let ts = resolve_select(db, state, who, src, &*top.select);
                sum_highest_base_costs(state, &ts, top.n)
            },
            None => 0,
        },
    }
}

/// Targets among the first `n` that pass a count filter.
pub open spec fn count_matching(db: CardDb, s: State, ts: Seq<TargetOpt>, f: Filter, n: int) -> int
    decreases n,
{
    if n <= 0 {
        0
    } else {
        count_matching(db, s, ts, f, n - 1) + if spec_target_matches_count_filter(db, s, ts[n - 1], f) {
            1int
        } else {
            0int
        }
    }
}

/// Hand cards among the first `n` that pass a filter.
pub open spec fn hand_matching(s: State, hand: Seq<CardInstance>, f: Filter, n: int) -> int
    decreases n,
{
    if n <= 0 {
        0
    } else {
        hand_matching(s, hand, f, n - 1) + if filter_holds(s, hand[n - 1], f) {
            1int
        } else {
            0int
        }
    }
}

/// Field instances among the first `n` slots a field-has condition counts.
pub open spec fn field_matching(s: State, field: Seq<Option<CardInstance>>, fh: FieldHas, n: int) -> int
    decreases n,
{
    if n <= 0 {
        0
    } else {
        field_matching(s, field, fh, n - 1) + match field[n - 1] {
            Some(c) => if crate::info::field_has_kind_ok(c, fh.kind) && filter_holds(s, c, fh.filter) {
                1int
            } else {
                0int
            },
            None => 0int,
        }
    }
}

/// What a field-has condition counts: the enemy field, both fields, or the own field.
pub open spec fn field_has_total(s: State, who: PlayerId, fh: FieldHas) -> int {
    let own = field_matching(s, s.seat(who).field@, fh, s.seat(who).field@.len() as int);
    let opp = field_matching(s, s.seat(spec_opponent(who)).field@, fh, s.seat(spec_opponent(who)).field@.len() as int);
    match fh.side {
        Some(Side::Enemy) => opp,
        Some(Side::Any) => own + opp,
        None | Some(Side::Ally) => own,
    }
}

/// Hand cards among the first `n` whose cost is `cost`.
pub open spec fn cost_count(hand: Seq<CardInstance>, cost: i32, n: int) -> int
    decreases n,
{
    if n <= 0 {
        0
    } else {
        cost_count(hand, cost, n - 1) + if hand[n - 1].cost == cost {
            1int
        } else {
            0int
        }
    }
}

/// The enter count of `card` (the first entry for it), zero when none.
pub open spec fn enter_count(es: Seq<(CardId, i32)>, card: CardId, k: int) -> i32
    decreases es.len() - k,
{
    if k < 0 || k >= es.len() {
        0
    } else if es[k].0 == card {
        es[k].1
    } else {
        enter_count(es, card, k + 1)
    }
}

/// A bound ref satisfies a bound-has test: a field ref on the wanted side
/// whose card, taken with the bound kind, passes the filter, or a bound card
/// that passes it.
pub open spec fn bound_ref_has(db: CardDb, s: State, who: PlayerId, bh: crate::card::BoundHas, r: BoundRef) -> bool {
    match r {
        BoundRef::Field { player, card, kind, .. } => {
            let side_ok = match bh.side {
                Some(Side::Ally) => player == who,
                Some(Side::Enemy) => player == spec_opponent(who),
                Some(Side::Any) | None => true,
            };
            let k = card_pos(db.cards@, card, 0);
            side_ok && k >= 0 && filter_holds(s, CardInstance { kind, ..printed_inst(db.cards@[k]) }, bh.filter)
        },
        BoundRef::Card(id) => {
            let k = card_pos(db.cards@, id, 0);
            k >= 0 && filter_holds(s, printed_inst(db.cards@[k]), bh.filter)
        },
        _ => false,
    }
}

/// Whether a condition holds for `who`'s effect from `src`.
pub open spec fn cond_holds(db: CardDb, s: State, who: PlayerId, src: Option<SourceRef>, c: Condition) -> bool
    decreases c,
{
    let p = s.seat(who);
    match c {
        Condition::All { all } => conds_all(db, s, who, src, all@),
        Condition::Any { any } => conds_any(db, s, who, src, any@),
        Condition::Not { not } => !cond_holds(db, s, who, src, *not),
        Condition::Combo { combo } => p.combo >= amount_value(db, s, who, src, combo.n),
        Condition::Rally { rally } => p.rally >= amount_value(db, s, who, src, rally.n),
        Condition::Overflow { overflow } => (p.pp_max >= 7) == overflow,
        Condition::CostEq { cost_eq } => spec_source_instance_cost(s, src) matches Some(v) && v == amount_value(
            db,
            s,
            who,
            src,
            cost_eq,
        ),
        Condition::MaxPpAtLeast { max_pp_at_least } => p.pp_max >= amount_value(db, s, who, src, max_pp_at_least.n),
        Condition::Evolved { evolved } => match src {
            Some(SourceRef::Field { player, id }) => field_inst_by_id(s, player, id) matches Some(i) && i.evolved
                == evolved,
            _ => false,
        },
        Condition::WasFused { was_fused } => {
            let flag = match src {
                Some(SourceRef::Field { player, id }) | Some(SourceRef::Hand { player, id }) => hand_or_field_inst(
                    s,
                    player,
                    id,
                ) matches Some(i) && i.flags.was_fused,
                _ => false,
            };
            match was_fused {
                WasFused::Flag(b) => flag == b,
                WasFused::Both(_) => flag,
            }
        },
        Condition::AttackedLeaderLastTurn { attacked_leader_last_turn } => p.attacked_leader_last_turn
            == attacked_leader_last_turn,
        Condition::AttackingFollower { attacking_follower } => s.attacking_follower == attacking_follower,
        Condition::SuperEvolutionUnlocked { super_evolution_unlocked } => (p.turns_taken >= (if p.is_second {
            6u32
        } else {
            7u32
        })) == super_evolution_unlocked,
        Condition::CountAtLeast { count_at_least } => match src {
            Some(x) => {
                let ts = spec_resolve_select(db, s, who, x, count_at_least.select);
                let n = amount_value(db, s, who, src, count_at_least.n);
                match count_at_least.filter {
                    Some(f) => (count_matching(db, s, ts, f, ts.len() as int) as i32) >= n,
                    None => (ts.len() as i32) >= n,
                }
            },
            None => false,
        },
        Condition::Did { did } => bound_refs(s.bindings@, did@, 0) matches Some(refs) && refs.len() > 0,
        Condition::HandHas { hand_has } => (hand_matching(s, p.hand@, hand_has.filter, p.hand@.len() as int) as i32)
            >= amount_value(db, s, who, src, hand_has.n),
        Condition::CounterAtLeast { counter_at_least } => amount_value(
            db,
            s,
            who,
            src,
            Amount::Counter { counter: counter_at_least.key },
        ) >= amount_value(db, s, who, src, counter_at_least.n),
        Condition::LeaderDefenseLte { leader_defense_lte } => p.leader_defense <= amount_value(
            db,
            s,
            who,
            src,
            leader_defense_lte,
        ),
        Condition::SkyboundArt { skybound_art } => (s.turn as i32) as int + spec_skybound_of(s, src) >= amount_value(
            db,
            s,
            who,
            src,
            skybound_art.n,
        ),
        Condition::TurnOwner { turn_owner } => match turn_owner {
            TurnOwner::Self_ => s.active == who,
            TurnOwner::Opponent => s.active != who,
        },
        Condition::FieldHas { field_has } => {
            let n = match field_has.n {
                Some(a) => amount_value(db, s, who, src, a),
                None => 1,
            };
            field_has_total(s, who, field_has) >= n
        },
        Condition::AmountAtLeast { amount_at_least } => amount_value(db, s, who, src, amount_at_least.of)
            >= amount_value(db, s, who, src, amount_at_least.n),
        Condition::PlayedBaseCostsThisMatch { played_base_costs_this_match } => forall|i: int|
            0 <= i < played_base_costs_this_match@.len() ==> p.played_base_costs_this_match@.contains(
                #[trigger] played_base_costs_this_match@[i],
            ),
        Condition::BoundHas { bound_has } => bound_refs(s.bindings@, bound_has.ref_name@, 0) matches Some(refs)
            && exists|j: int| 0 <= j < refs.len() && bound_ref_has(db, s, who, bound_has, #[trigger] refs[j]),
        Condition::EvolvedCountAtLeast { evolved_count_at_least } => p.evolves_used >= amount_value(
            db,
            s,
            who,
            src,
            evolved_count_at_least.n,
        ),
        Condition::VarAtLeast { var_at_least } => spec_vars_of(s, src, var_at_least.key) >= amount_value(
            db,
            s,
            who,
            src,
            var_at_least.n,
        ),
        Condition::HandSameCostAtLeast { hand_same_cost_at_least } => exists|i: int|
            0 <= i < p.hand@.len() && cost_count(p.hand@, #[trigger] p.hand@[i].cost, p.hand@.len() as int)
                >= amount_value(db, s, who, src, hand_same_cost_at_least.n),
        Condition::DeckHasNoDuplicates { deck_has_no_duplicates } => (forall|i: int, j: int|
            0 <= i < j < p.deck@.len() ==> (#[trigger] p.deck@[i]).card != (#[trigger] p.deck@[j]).card)
            == deck_has_no_duplicates,
        Condition::AttackingLeader { attacking_leader } => s.attack_target_is_leader == attacking_leader,
        Condition::EnterCountAtLeast { enter_count_at_least } => {
            let side = match enter_count_at_least.side {
                Some(Side::Enemy) => spec_opponent(who),
                _ => who,
            };
            let raw = enter_count(s.seat(side).enter_counts@, enter_count_at_least.card, 0);
            let count = if enter_count_at_least.other == Some(true) {
                if raw > i32::MIN {
                    raw - 1
                } else {
                    raw as int
                }
            } else {
                raw as int
            };
            count >= amount_value(db, s, who, src, enter_count_at_least.n)
        },
    }
}

/// Every condition of the list holds.
pub open spec fn conds_all(db: CardDb, s: State, who: PlayerId, src: Option<SourceRef>, cs: Seq<Condition>) -> bool
    decreases cs,
{
    if cs.len() == 0 {
        true
    } else {
        conds_all(db, s, who, src, cs.subrange(0, cs.len() - 1)) && cond_holds(db, s, who, src, cs[cs.len() - 1])
    }
}

/// Some condition of the list holds.
pub open spec fn conds_any(db: CardDb, s: State, who: PlayerId, src: Option<SourceRef>, cs: Seq<Condition>) -> bool
    decreases cs,
{
    if cs.len() == 0 {
        false
    } else {
        conds_any(db, s, who, src, cs.subrange(0, cs.len() - 1)) || cond_holds(db, s, who, src, cs[cs.len() - 1])
    }
}

/// Evaluating the condition never leaves `i32`: every amount it evaluates
/// fits, where `all` stops at the first failure and `any` at the first success.
pub open spec fn cond_fits(db: CardDb, s: State, who: PlayerId, src: Option<SourceRef>, c: Condition) -> bool
    decreases c,
{
    match c {
        Condition::All { all } => all_fits(db, s, who, src, all@),
        Condition::Any { any } => any_fits(db, s, who, src, any@),
        Condition::Not { not } => cond_fits(db, s, who, src, *not),
        Condition::Combo { combo } => amount_fits(db, s, who, src, combo.n),
        Condition::Rally { rally } => amount_fits(db, s, who, src, rally.n),
        Condition::CostEq { cost_eq } => amount_fits(db, s, who, src, cost_eq),
        Condition::MaxPpAtLeast { max_pp_at_least } => amount_fits(db, s, who, src, max_pp_at_least.n),
        Condition::CountAtLeast { count_at_least } => src is Some ==> amount_fits(db, s, who, src, count_at_least.n),
        Condition::HandHas { hand_has } => amount_fits(db, s, who, src, hand_has.n),
        Condition::CounterAtLeast { counter_at_least } => amount_fits(db, s, who, src, counter_at_least.n),
        Condition::LeaderDefenseLte { leader_defense_lte } => amount_fits(db, s, who, src, leader_defense_lte),
        Condition::SkyboundArt { skybound_art } => amount_fits(db, s, who, src, skybound_art.n) && in_i32(
            (s.turn as i32) as int + spec_skybound_of(s, src),
        ),
        Condition::FieldHas { field_has } => match field_has.n {
            Some(a) => amount_fits(db, s, who, src, a),
            None => true,
        },
        Condition::AmountAtLeast { amount_at_least } => amount_fits(db, s, who, src, amount_at_least.of)
            && amount_fits(db, s, who, src, amount_at_least.n),
        Condition::EvolvedCountAtLeast { evolved_count_at_least } => amount_fits(
            db,
            s,
            who,
            src,
            evolved_count_at_least.n,
        ),
        Condition::VarAtLeast { var_at_least } => amount_fits(db, s, who, src, var_at_least.n),
        Condition::HandSameCostAtLeast { hand_same_cost_at_least } => amount_fits(
            db,
            s,
            who,
            src,
            hand_same_cost_at_least.n,
        ),
        Condition::EnterCountAtLeast { enter_count_at_least } => amount_fits(db, s, who, src, enter_count_at_least.n),
        _ => true,
    }
}

/// The conditions an `all` evaluates fit: each one reached while all before it held.
pub open spec fn all_fits(db: CardDb, s: State, who: PlayerId, src: Option<SourceRef>, cs: Seq<Condition>) -> bool
    decreases cs,
{
    if cs.len() == 0 {
        true
    } else {
        let pre = cs.subrange(0, cs.len() - 1);
        all_fits(db, s, who, src, pre) && (conds_all(db, s, who, src, pre) ==> cond_fits(
            db,
            s,
            who,
            src,
            cs[cs.len() - 1],
        ))
    }
}

/// The conditions an `any` evaluates fit: each one reached while none before it held.
pub open spec fn any_fits(db: CardDb, s: State, who: PlayerId, src: Option<SourceRef>, cs: Seq<Condition>) -> bool
    decreases cs,
{
    if cs.len() == 0 {
        true
    } else {
        let pre = cs.subrange(0, cs.len() - 1);
        any_fits(db, s, who, src, pre) && (!conds_any(db, s, who, src, pre) ==> cond_fits(
            db,
            s,
            who,
            src,
            cs[cs.len() - 1],
        ))
    }
}

proof fn lemma_conds_all_prefix(
    db: CardDb,
    s: State,
    who: PlayerId,
    src: Option<SourceRef>,
    cs: Seq<Condition>,
    k: int,
)
    requires
        0 <= k <= cs.len(),
        conds_all(db, s, who, src, cs),
    ensures
        conds_all(db, s, who, src, cs.subrange(0, k)),
    decreases cs.len(),
{
    if k < cs.len() {
        let p = cs.subrange(0, cs.len() - 1);
        lemma_conds_all_prefix(db, s, who, src, p, k);
        assert(p.subrange(0, k) =~= cs.subrange(0, k));
    } else {
        assert(cs.subrange(0, k) =~= cs);
    }
}

proof fn lemma_conds_any_prefix(
    db: CardDb,
    s: State,
    who: PlayerId,
    src: Option<SourceRef>,
    cs: Seq<Condition>,
    k: int,
)
    requires
        0 <= k <= cs.len(),
        conds_any(db, s, who, src, cs.subrange(0, k)),
    ensures
        conds_any(db, s, who, src, cs),
    decreases cs.len(),
{
    if k < cs.len() {
        let p = cs.subrange(0, cs.len() - 1);
        assert(p.subrange(0, k) =~= cs.subrange(0, k));
        lemma_conds_any_prefix(db, s, who, src, p, k);
    } else {
        assert(cs.subrange(0, k) =~= cs);
    }
}

proof fn lemma_all_fits_prefix(db: CardDb, s: State, who: PlayerId, src: Option<SourceRef>, cs: Seq<Condition>, k: int)
    requires
        0 <= k <= cs.len(),
        all_fits(db, s, who, src, cs),
    ensures
        all_fits(db, s, who, src, cs.subrange(0, k)),
    decreases cs.len(),
{
    if k < cs.len() {
        let p = cs.subrange(0, cs.len() - 1);
        lemma_all_fits_prefix(db, s, who, src, p, k);
        assert(p.subrange(0, k) =~= cs.subrange(0, k));
    } else {
        assert(cs.subrange(0, k) =~= cs);
    }
}

proof fn lemma_any_fits_prefix(db: CardDb, s: State, who: PlayerId, src: Option<SourceRef>, cs: Seq<Condition>, k: int)
    requires
        0 <= k <= cs.len(),
        any_fits(db, s, who, src, cs),
    ensures
        any_fits(db, s, who, src, cs.subrange(0, k)),
    decreases cs.len(),
{
    if k < cs.len() {
        let p = cs.subrange(0, cs.len() - 1);
        lemma_any_fits_prefix(db, s, who, src, p, k);
        assert(p.subrange(0, k) =~= cs.subrange(0, k));
    } else {
        assert(cs.subrange(0, k) =~= cs);
    }
}

fn all_hold(db: &CardDb, state: &State, who: PlayerId, source: Option<SourceRef>, all: &Vec<Condition>) -> (r: bool)
    requires
        slots_fit(*state),
        all_fits(*db, *state, who, source, all@),
    ensures
        r == conds_all(*db, *state, who, source, all@),
    decreases all,
{
    let mut i: usize = 0;
    while i < all.len()
        invariant
            0 <= i <= all.len(),
            slots_fit(*state),
            all_fits(*db, *state, who, source, all@),
            conds_all(*db, *state, who, source, all@.subrange(0, i as int)),
        decreases all.len() - i,
    {
        let ghost s1 = all@.subrange(0, i as int + 1);
        proof {
            lemma_all_fits_prefix(*db, *state, who, source, all@, i as int + 1);
            assert(s1.subrange(0, s1.len() - 1) =~= all@.subrange(0, i as int));
            assert(s1[s1.len() - 1] == all@[i as int]);
        }
        let ok = eval_cond(db, state, who, source, &all[i]);
        if !ok {
            proof {
                if conds_all(*db, *state, who, source, all@) {
                    lemma_conds_all_prefix(*db, *state, who, source, all@, i as int + 1);
                }
            }
            return false;
        }
        i = i + 1;
    }
    assert(all@.subrange(0, all.len() as int) =~= all@);
    true
}

fn any_holds(db: &CardDb, state: &State, who: PlayerId, source: Option<SourceRef>, any: &Vec<Condition>) -> (r: bool)
    requires
        slots_fit(*state),
        any_fits(*db, *state, who, source, any@),
    ensures
        r == conds_any(*db, *state, who, source, any@),
    decreases any,
{
    let mut i: usize = 0;
    while i < any.len()
        invariant
            0 <= i <= any.len(),
            slots_fit(*state),
            any_fits(*db, *state, who, source, any@),
            !conds_any(*db, *state, who, source, any@.subrange(0, i as int)),
        decreases any.len() - i,
    {
        let ghost s1 = any@.subrange(0, i as int + 1);
        proof {
            lemma_any_fits_prefix(*db, *state, who, source, any@, i as int + 1);
            assert(s1.subrange(0, s1.len() - 1) =~= any@.subrange(0, i as int));
            assert(s1[s1.len() - 1] == any@[i as int]);
        }
        let ok = eval_cond(db, state, who, source, &any[i]);
        if ok {
            proof {
                lemma_conds_any_prefix(*db, *state, who, source, any@, i as int + 1);
            }
            return true;
        }
        i = i + 1;
    }
    assert(any@.subrange(0, any.len() as int) =~= any@);
    false
}

fn count_targets_matching(db: &CardDb, state: &State, who: PlayerId, ts: &Vec<TargetOpt>, f: &Filter) -> (r: usize)
    ensures
        r == count_matching(*db, *state, ts@, *f, ts@.len() as int),
{
    let mut n: usize = 0;
    let mut i: usize = 0;
    while i < ts.len()
        invariant
            0 <= i <= ts.len(),
            n <= i,
            n == count_matching(*db, *state, ts@, *f, i as int),
        decreases ts.len() - i,
    {
        if target_matches_count_filter(db, state, who, &ts[i], f) {
            n = n + 1;
        }
        i = i + 1;
    }
    n
}

#[verifier::loop_isolation(false)]
fn count_hand_matching(state: &State, who: PlayerId, f: &Filter) -> (r: usize)
    ensures
        r == hand_matching(*state, state.seat(who).hand@, *f, state.seat(who).hand@.len() as int),
{
    let hand = &state.player(who).hand;
    let mut n: usize = 0;
    let mut i: usize = 0;
    while i < hand.len()
        invariant
            0 <= i <= hand.len(),
            n <= i,
            n == hand_matching(*state, hand@, *f, i as int),
        decreases hand.len() - i,
    {
        if inst_matches_filter(state, who, &hand[i], f) {
            n = n + 1;
        }
        i = i + 1;
    }
    n
}

#[verifier::loop_isolation(false)]
fn count_field_matching(state: &State, who: PlayerId, side: PlayerId, fh: &FieldHas) -> (r: i32)
    requires
        slots_fit(*state),
    ensures
        r == field_matching(*state, state.seat(side).field@, *fh, state.seat(side).field@.len() as int),
        0 <= r <= 256,
{
    let field = &state.player(side).field;
    assert(field@.len() <= 256) by {
        if side == PlayerId::A {
        } else {
        }
    }
    let mut n: i32 = 0;
    let mut i: usize = 0;
    while i < field.len()
        invariant
            0 <= i <= field.len() <= 256,
            0 <= n <= i,
            n == field_matching(*state, field@, *fh, i as int),
        decreases field.len() - i,
    {
        if let Some(c) = &field[i] {
            let kind_fits = match fh.kind {
                Some(FieldHasKind::Follower) => c.kind == CardKind::Follower,
                Some(FieldHasKind::Amulet) => c.kind == CardKind::Amulet,
                Some(FieldHasKind::Card) | Some(FieldHasKind::Character) | None => true,
            };
            if kind_fits && inst_matches_filter(state, who, c, &fh.filter) {
                n = n + 1;
            }
        }
        i = i + 1;
    }
    n
}

#[verifier::loop_isolation(false)]
fn same_cost_at_least(state: &State, who: PlayerId, n: i32) -> (r: bool)
    ensures
        r == exists|i: int|
            0 <= i < state.seat(who).hand@.len() && cost_count(
                state.seat(who).hand@,
                #[trigger] state.seat(who).hand@[i].cost,
                state.seat(who).hand@.len() as int,
            ) >= n,
{
    let hand = &state.player(who).hand;
    let mut i: usize = 0;
    while i < hand.len()
        invariant
            0 <= i <= hand.len(),
            forall|k: int| 0 <= k < i ==> cost_count(hand@, #[trigger] hand@[k].cost, hand@.len() as int) < n,
        decreases hand.len() - i,
    {
        let cost = hand[i].cost;
        let mut cnt: usize = 0;
        let mut j: usize = 0;
        while j < hand.len()
            invariant
                0 <= j <= hand.len(),
                cnt <= j,
                cnt == cost_count(hand@, cost, j as int),
            decreases hand.len() - j,
        {
            if hand[j].cost == cost {
                cnt = cnt + 1;
            }
            j = j + 1;
        }
        let enough = if n <= 0 {
            true
        } else {
            cnt >= n as usize
        };
        if enough {
            assert(cost_count(hand@, hand@[i as int].cost, hand@.len() as int) >= n);
            return true;
        }
        i = i + 1;
    }
    false
}

#[verifier::loop_isolation(false)]
fn deck_unique(state: &State, who: PlayerId) -> (r: bool)
    ensures
        r == forall|i: int, j: int|
            0 <= i < j < state.seat(who).deck@.len() ==> (#[trigger] state.seat(who).deck@[i]).card != (
            #[trigger] state.seat(who).deck@[j]).card,
{
    let deck = &state.player(who).deck;
    let mut j: usize = 0;
    while j < deck.len()
        invariant
            0 <= j <= deck.len(),
            forall|a: int, b: int| 0 <= a < b < j ==> (#[trigger] deck@[a]).card != (#[trigger] deck@[b]).card,
        decreases deck.len() - j,
    {
        let mut i: usize = 0;
        while i < j
            invariant
                0 <= i <= j < deck.len(),
                forall|a: int| 0 <= a < i ==> (#[trigger] deck@[a]).card != deck@[j as int].card,
            decreases j - i,
        {
            if deck[i].card == deck[j].card {
                assert(deck@[i as int].card == deck@[j as int].card);
                return false;
            }
            i = i + 1;
        }
        j = j + 1;
    }
    true
}

fn costs_contain(v: &Vec<i32>, x: i32) -> (r: bool)
    ensures
        r == v@.contains(x),
{
    let mut i: usize = 0;
    while i < v.len()
        invariant
            0 <= i <= v.len(),
            forall|j: int| 0 <= j < i ==> v@[j] != x,
        decreases v.len() - i,
    {
        if v[i] == x {
            assert(v@[i as int] == x);
            return true;
        }
        i = i + 1;
    }
    false
}

#[verifier::loop_isolation(false)]
fn played_all(state: &State, who: PlayerId, want: &Vec<i32>) -> (r: bool)
    ensures
        r == forall|i: int|
            0 <= i < want@.len() ==> state.seat(who).played_base_costs_this_match@.contains(#[trigger] want@[i]),
{
    let have = &state.player(who).played_base_costs_this_match;
    let mut i: usize = 0;
    while i < want.len()
        invariant
            0 <= i <= want.len(),
            forall|k: int| 0 <= k < i ==> have@.contains(#[trigger] want@[k]),
        decreases want.len() - i,
    {
        if !costs_contain(have, want[i]) {
            return false;
        }
        i = i + 1;
    }
    true
}

#[verifier::loop_isolation(false)]
pub(crate) fn enter_count_of(state: &State, side: PlayerId, card: CardId) -> (r: i32)
    ensures
        r == enter_count(state.seat(side).enter_counts@, card, 0),
{
    let es = &state.player(side).enter_counts;
    let mut i: usize = 0;
    while i < es.len()
        invariant
            0 <= i <= es.len(),
            enter_count(es@, card, 0) == enter_count(es@, card, i as int),
        decreases es.len() - i,
    {
        if es[i].0 == card {
            return es[i].1;
        }
        i = i + 1;
    }
    0
}

fn ref_has(db: &CardDb, state: &State, who: PlayerId, bh: &crate::card::BoundHas, r: BoundRef) -> (b: bool)
    ensures
        b == bound_ref_has(*db, *state, who, *bh, r),
{
    match r {
        BoundRef::Field { player, card, kind, .. } => {
            if let Some(side) = bh.side {
                let want = match side {
                    Side::Ally => who,
                    Side::Enemy => who.opponent(),
                    Side::Any => player,
                };
                if player != want && side != Side::Any {
                    return false;
                }
            }
            match db.card(card) {
                Ok(def) => {
                    let base = CardInstance::from_card(def, 0);
                    proof {
                        assert(fresh_from_card(base, *def, 0));
                    }
                    let mut inst = base;
                    inst.kind = kind;
                    proof {
                        let want = CardInstance { kind, ..printed_inst(*def) };
                        assert(inst.granted@ =~= want.granted@);
                        lemma_filter_view(*state, inst, want, bh.filter);
                    }
                    inst_matches_filter(state, player, &inst, &bh.filter)
                },
                Err(_) => false,
            }
        },
        BoundRef::Card(id) => match db.card(id) {
            Ok(def) => {
                let inst = CardInstance::from_card(def, 0);
                proof {
                    assert(fresh_from_card(inst, *def, 0));
                    let want = printed_inst(*def);
                    assert(inst.granted@ =~= want.granted@);
                    lemma_filter_view(*state, inst, want, bh.filter);
                }
                inst_matches_filter(state, who, &inst, &bh.filter)
            },
            Err(_) => false,
        },
        _ => false,
    }
}

#[verifier::loop_isolation(false)]
fn bound_has_any(db: &CardDb, state: &State, who: PlayerId, bh: &crate::card::BoundHas) -> (r: bool)
    ensures
        r == (bound_refs(state.bindings@, bh.ref_name@, 0) matches Some(refs) && exists|j: int|
            0 <= j < refs.len() && bound_ref_has(*db, *state, who, *bh, #[trigger] refs[j])),
{
    let b = &state.bindings;
    let mut k: usize = 0;
    while k < b.len()
        invariant
            0 <= k <= b.len(),
            bound_refs(b@, bh.ref_name@, 0) == bound_refs(b@, bh.ref_name@, k as int),
        decreases b.len() - k,
    {
        if b[k].0 == bh.ref_name {
            let refs = &b[k].1;
            let mut i: usize = 0;
            while i < refs.len()
                invariant
                    0 <= i <= refs.len(),
                    forall|j: int| 0 <= j < i ==> !bound_ref_has(*db, *state, who, *bh, #[trigger] refs@[j]),
                decreases refs.len() - i,
            {
                if ref_has(db, state, who, bh, refs[i]) {
                    return true;
                }
                i = i + 1;
            }
            return false;
        }
        k = k + 1;
    }
    false
}

#[verifier::loop_isolation(false)]
fn did_bind(state: &State, name: &String) -> (r: bool)
    ensures
        r == (bound_refs(state.bindings@, name@, 0) matches Some(refs) && refs.len() > 0),
{
    let b = &state.bindings;
    let mut k: usize = 0;
    while k < b.len()
        invariant
            0 <= k <= b.len(),
            bound_refs(b@, name@, 0) == bound_refs(b@, name@, k as int),
        decreases b.len() - k,
    {
        if b[k].0 == *name {
            return b[k].1.len() > 0;
        }
        k = k + 1;
    }
    false
}

/// Conditions that compare a counter or a count with an amount.
fn eval_counted(db: &CardDb, state: &State, who: PlayerId, source: Option<SourceRef>, c: &Condition) -> (r: bool)
    requires
        slots_fit(*state),
        cond_fits(*db, *state, who, source, *c),
        *c is Combo || *c is Rally || *c is CostEq || *c is MaxPpAtLeast || *c is CountAtLeast || *c is HandHas || *c is CounterAtLeast,
    ensures
        r == cond_holds(*db, *state, who, source, *c),
{
    let p = state.player(who);
    match c {
        Condition::Combo { combo } => p.combo >= eval_amount(db, state, who, source, &combo.n),
        Condition::Rally { rally } => p.rally >= eval_amount(db, state, who, source, &rally.n),
        Condition::CostEq { cost_eq } => {
            let have = source_instance_cost(state, source);
            let want = eval_amount(db, state, who, source, cost_eq);
            match have {
                Some(v) => v == want,
                None => false,
            }
        },
        Condition::MaxPpAtLeast { max_pp_at_least } => p.pp_max >= eval_amount(
            db,
            state,
            who,
            source,
            &max_pp_at_least.n,
        ),
        Condition::CountAtLeast { count_at_least } => match source {
            Some(src) => {
                let ts = resolve_select(db, state, who, src, &count_at_least.select);
                let n = eval_amount(db, state, who, source, &count_at_least.n);
                match &count_at_least.filter {
                    Some(f) => (count_targets_matching(db, state, who, &ts, f) as i32) >= n,
                    None => (ts.len() as i32) >= n,
                }
            },
            None => false,
        },
        Condition::HandHas { hand_has } => {
            let n = eval_amount(db, state, who, source, &hand_has.n);
            (count_hand_matching(state, who, &hand_has.filter) as i32) >= n
        },
        Condition::CounterAtLeast { counter_at_least } => {
            let have = match &counter_at_least.key {
                CounterKey::Named(NamedCounter::Combo) => p.combo,
                CounterKey::Named(NamedCounter::Earth) => p.earth,
                CounterKey::Named(NamedCounter::Shadows) => p.shadows,
                CounterKey::Named(NamedCounter::Faith) => p.faith,
                _ => 0,
            };
            have >= eval_amount(db, state, who, source, &counter_at_least.n)
        },
        _ => false,
    }
}

/// Conditions that compare a measure of the match with an amount.
fn eval_measured(db: &CardDb, state: &State, who: PlayerId, source: Option<SourceRef>, c: &Condition) -> (r: bool)
    requires
        slots_fit(*state),
        cond_fits(*db, *state, who, source, *c),
        *c is LeaderDefenseLte || *c is SkyboundArt || *c is FieldHas || *c is AmountAtLeast || *c is EvolvedCountAtLeast || *c is VarAtLeast || *c is HandSameCostAtLeast || *c is EnterCountAtLeast,
    ensures
        r == cond_holds(*db, *state, who, source, *c),
{
    let p = state.player(who);
    match c {
        Condition::LeaderDefenseLte { leader_defense_lte } => p.leader_defense <= eval_amount(
            db,
            state,
            who,
            source,
            leader_defense_lte,
        ),
        Condition::SkyboundArt { skybound_art } => {
            let n = eval_amount(db, state, who, source, &skybound_art.n);
            state.turn as i32 + skybound_of(state, source) >= n
        },
        Condition::FieldHas { field_has } => {
            let n = match &field_has.n {
                Some(a) => eval_amount(db, state, who, source, a),
                None => 1,
            };
            let count = match field_has.side {
                Some(Side::Enemy) => count_field_matching(state, who, who.opponent(), field_has),
                Some(Side::Any) => {
                    let a = count_field_matching(state, who, who, field_has);
                    let b = count_field_matching(state, who, who.opponent(), field_has);
                    a + b
                },
                None | Some(Side::Ally) => count_field_matching(state, who, who, field_has),
            };
            count >= n
        },
        Condition::AmountAtLeast { amount_at_least } => {
            let x = eval_amount(db, state, who, source, &amount_at_least.of);
            let y = eval_amount(db, state, who, source, &amount_at_least.n);
            x >= y
        },
        Condition::EvolvedCountAtLeast { evolved_count_at_least } => p.evolves_used >= eval_amount(
            db,
            state,
            who,
            source,
            &evolved_count_at_least.n,
        ),
        Condition::VarAtLeast { var_at_least } => {
            let n = eval_amount(db, state, who, source, &var_at_least.n);
            vars_of(state, source, var_at_least.key) >= n
        },
        Condition::HandSameCostAtLeast { hand_same_cost_at_least } => {
            let n = eval_amount(db, state, who, source, &hand_same_cost_at_least.n);
            same_cost_at_least(state, who, n)
        },
        Condition::EnterCountAtLeast { enter_count_at_least } => {
            let n = eval_amount(db, state, who, source, &enter_count_at_least.n);
            let side = match enter_count_at_least.side {
                Some(Side::Enemy) => who.opponent(),
                _ => who,
            };
            let mut count = enter_count_of(state, side, enter_count_at_least.card);
            if enter_count_at_least.other == Some(true) && count > i32::MIN {
                count = count - 1;
            }
            count >= n
        },

        _ => false,
    }
}

/// Conditions on flags, bindings and the turn.
fn eval_flags(db: &CardDb, state: &State, who: PlayerId, source: Option<SourceRef>, c: &Condition) -> (r: bool)
    requires
        slots_fit(*state),
        cond_fits(*db, *state, who, source, *c),
        *c is Overflow || *c is Evolved || *c is WasFused || *c is AttackedLeaderLastTurn || *c is AttackingFollower || *c is SuperEvolutionUnlocked || *c is Did || *c is TurnOwner || *c is PlayedBaseCostsThisMatch || *c is BoundHas || *c is DeckHasNoDuplicates || *c is AttackingLeader,
    ensures
        r == cond_holds(*db, *state, who, source, *c),
{
    let p = state.player(who);
    match c {
        Condition::Overflow { overflow } => (p.pp_max >= 7) == *overflow,
        Condition::Evolved { evolved } => match source {
            Some(SourceRef::Field { player, id }) => match field_instance(state, player, id) {
                Some(i) => i.evolved == *evolved,
                None => false,
            },
            _ => false,
        },
        Condition::WasFused { was_fused } => {
            let flag = match source {
                Some(SourceRef::Field { player, id }) | Some(SourceRef::Hand { player, id }) => match hand_or_field(
                    state,
                    player,
                    id,
                ) {
                    Some(i) => i.flags.was_fused,
                    None => false,
                },
                _ => false,
            };
            match was_fused {
                WasFused::Flag(b) => flag == *b,
                WasFused::Both(_) => flag,
            }
        },
        Condition::AttackedLeaderLastTurn { attacked_leader_last_turn } => p.attacked_leader_last_turn
            == *attacked_leader_last_turn,
        Condition::AttackingFollower { attacking_follower } => state.attacking_follower == *attacking_follower,
        Condition::SuperEvolutionUnlocked { super_evolution_unlocked } => {
            let unlock: u32 = if p.is_second {
                6
            } else {
                7
            };
            (p.turns_taken >= unlock) == *super_evolution_unlocked
        },
        Condition::Did { did } => did_bind(state, did),
        Condition::TurnOwner { turn_owner } => match turn_owner {
            TurnOwner::Self_ => state.active == who,
            TurnOwner::Opponent => state.active != who,
        },
        Condition::PlayedBaseCostsThisMatch { played_base_costs_this_match } => played_all(
            state,
            who,
            played_base_costs_this_match,
        ),
        Condition::BoundHas { bound_has } => bound_has_any(db, state, who, bound_has),
        Condition::DeckHasNoDuplicates { deck_has_no_duplicates } => deck_unique(state, who)
            == *deck_has_no_duplicates,
        Condition::AttackingLeader { attacking_leader } => state.attack_target_is_leader == *attacking_leader,
        _ => false,
    }
}

/// Whether a condition holds for `who`'s effect from `source`.
pub fn eval_cond(db: &CardDb, state: &State, who: PlayerId, source: Option<SourceRef>, c: &Condition) -> (r: bool)
    requires
        slots_fit(*state),
        cond_fits(*db, *state, who, source, *c),
    ensures
        r == cond_holds(*db, *state, who, source, *c),
    decreases c,
{
    match c {
        Condition::All { all } => all_hold(db, state, who, source, all),
        Condition::Any { any } => any_holds(db, state, who, source, any),
        Condition::Not { not } => !eval_cond(db, state, who, source, &**not),
        Condition::Combo { .. } | Condition::Rally { .. } | Condition::CostEq { .. } | Condition::MaxPpAtLeast { .. } | Condition::CountAtLeast { .. } | Condition::HandHas { .. } | Condition::CounterAtLeast { .. } => eval_counted(db, state, who, source, c),
        Condition::LeaderDefenseLte { .. } | Condition::SkyboundArt { .. } | Condition::FieldHas { .. } | Condition::AmountAtLeast { .. } | Condition::EvolvedCountAtLeast { .. } | Condition::VarAtLeast { .. } | Condition::HandSameCostAtLeast { .. } | Condition::EnterCountAtLeast { .. } => eval_measured(db, state, who, source, c),
        _ => eval_flags(db, state, who, source, c),
    }
}

/// A turn-boundary ability's own condition allows it: it has none, or it holds.
pub open spec fn spec_boundary_when_ok(db: CardDb, s: State, who: PlayerId, src: SourceRef, a: crate::card::Ability) -> bool {
    match crate::card::ability_when(a) {
        Some(c) => cond_holds(db, s, who, Some(src), c),
        None => true,
    }
}

pub fn boundary_when_ok(db: &CardDb, state: &State, who: PlayerId, source: SourceRef, a: &crate::card::Ability) -> (r:
    bool)
    requires
        slots_fit(*state),
        crate::card::ability_when(*a) matches Some(c) ==> cond_fits(*db, *state, who, Some(source), c),
    ensures
        r == spec_boundary_when_ok(*db, *state, who, source, *a),
{
    match a.when_cond() {
        Some(c) => eval_cond(db, state, who, Some(source), c),
        None => true,
    }
}

proof fn lemma_conds_lists(db: CardDb, s: State, who: PlayerId, src: Option<SourceRef>, cs: Seq<Condition>)
    ensures
        conds_all(db, s, who, src, cs) == (forall|i: int| 0 <= i < cs.len() ==> cond_holds(db, s, who, src, #[trigger] cs[i])),
        conds_any(db, s, who, src, cs) == (exists|i: int| 0 <= i < cs.len() && cond_holds(db, s, who, src, #[trigger] cs[i])),
    decreases cs.len(),
{
    if cs.len() > 0 {
        let pre = cs.subrange(0, cs.len() - 1);
        lemma_conds_lists(db, s, who, src, pre);
        assert forall|i: int| 0 <= i < pre.len() implies pre[i] == cs[i] by {}
        if exists|i: int| 0 <= i < cs.len() && cond_holds(db, s, who, src, #[trigger] cs[i]) {
            let i = choose|i: int| 0 <= i < cs.len() && cond_holds(db, s, who, src, #[trigger] cs[i]);
            if i < cs.len() - 1 {
                assert(cond_holds(db, s, who, src, pre[i]));
            }
        }
    }
}

/// A condition list holds as a whole when every condition holds (so an
/// empty `all` holds); `any` holds when some condition holds (so an empty
/// `any` fails); `not` holds exactly when its condition fails.
pub proof fn lemma_cond_combinators(db: CardDb, s: State, who: PlayerId, src: Option<SourceRef>, c: Condition)
    ensures
        c matches Condition::All { all } ==> (cond_holds(db, s, who, src, c) == (forall|i: int|
            0 <= i < all@.len() ==> cond_holds(db, s, who, src, #[trigger] all@[i]))),
        c matches Condition::Any { any } ==> (cond_holds(db, s, who, src, c) == (exists|i: int|
            0 <= i < any@.len() && cond_holds(db, s, who, src, #[trigger] any@[i]))),
        c matches Condition::Not { not } ==> (cond_holds(db, s, who, src, c) == !cond_holds(db, s, who, src, *not)),
{
    match c {
        Condition::All { all } => lemma_conds_lists(db, s, who, src, all@),
        Condition::Any { any } => lemma_conds_lists(db, s, who, src, any@),
        _ => {},
    }
}


/// A field-has condition counts matching instances on the field its side
/// names: with side Enemy the opponent's field, with Any both fields, and
/// otherwise the asking seat's own field; it holds when that count reaches
/// `n` (1 when unstated).
pub proof fn lemma_field_has_side(db: CardDb, s: State, who: PlayerId, src: Option<SourceRef>, fh: FieldHas)
    ensures
        ({
            let c = Condition::FieldHas { field_has: fh };
            let need = match fh.n {
                Some(a) => amount_value(db, s, who, src, a),
                None => 1,
            };
            let own = field_matching(s, s.seat(who).field@, fh, s.seat(who).field@.len() as int);
            let opp = field_matching(
                s,
                s.seat(spec_opponent(who)).field@,
                fh,
                s.seat(spec_opponent(who)).field@.len() as int,
            );
            &&& fh.side == Some(Side::Enemy) ==> (cond_holds(db, s, who, src, c) <==> opp >= need)
            &&& fh.side == Some(Side::Any) ==> (cond_holds(db, s, who, src, c) <==> own + opp >= need)
            &&& (fh.side == Some(Side::Ally) || fh.side is None) ==> (cond_holds(db, s, who, src, c) <==> own >= need)
        }),
{
}

/// Asking whether the enemy field has `k` matching instances is asking, for
/// the opponent, whether its own field has them.
pub proof fn lemma_field_has_enemy_is_opponents_own(
    db: CardDb,
    s: State,
    who: PlayerId,
    src: Option<SourceRef>,
    fh: FieldHas,
    k: i32,
)
    requires
        fh.side == Some(Side::Enemy),
        fh.n == Some(Amount::Int(k)),
    ensures
        cond_holds(db, s, who, src, Condition::FieldHas { field_has: fh }) == cond_holds(
            db,
            s,
            spec_opponent(who),
            src,
            Condition::FieldHas { field_has: FieldHas { side: Some(Side::Ally), ..fh } },
        ),
{
    let fa = FieldHas { side: Some(Side::Ally), ..fh };
    let other = spec_opponent(who);
    assert(field_matching(s, s.seat(other).field@, fh, s.seat(other).field@.len() as int) == field_matching(
        s,
        s.seat(other).field@,
        fa,
        s.seat(other).field@.len() as int,
    )) by {
        lemma_field_matching_ignores_side(s, s.seat(other).field@, fh, fa, s.seat(other).field@.len() as int);
    }
}

proof fn lemma_field_matching_ignores_side(s: State, field: Seq<Option<CardInstance>>, a: FieldHas, b: FieldHas, n: int)
    requires
        a.filter == b.filter,
        a.kind == b.kind,
    ensures
        field_matching(s, field, a, n) == field_matching(s, field, b, n),
    decreases n,
{
    if n > 0 {
        lemma_field_matching_ignores_side(s, field, a, b, n - 1);
    }
}

} // verus!
