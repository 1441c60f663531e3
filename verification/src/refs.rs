//! Bound references on a card: which `as` names its effects produce and
//! which `ref` names its selectors use. A card whose selectors use a name
//! that no effect on it produces is rejected at load.

use vstd::prelude::*;
use crate::card::{
    contains_string, insert_label, string_views, Traits,
    ability_effects, ability_when, card_ability_list, card_mode_list, crest_ability_list, effect_as_bind, effect_when, Ability,
    Amount, Card, CardSource, ChooseOption, Condition, Crest, Effect, Filter, MaxDefenseChange, Mode, Selector,
    SequenceStep,
};

verus! {

/// A set of reference names.
pub open spec fn no_names() -> Set<Seq<char>> {
    Set::empty()
}

/// The name an effect binds with `as`, if any.
pub open spec fn bind_name(e: Effect) -> Set<Seq<char>> {
    match effect_as_bind(e) {
        Some(n) => set![n@],
        None => no_names(),
    }
}

/// Names a selector uses.
pub open spec fn selector_refs(s: Selector) -> Set<Seq<char>>
    decreases s,
{
    match s {
        Selector::Bound(b) => set![b.ref_name@],
        Selector::Pool(p) => (match p.filter {
            Some(f) => filter_refs(f),
            None => no_names(),
        }).union(
            match p.count {
                Some(c) => amount_refs(c),
                None => no_names(),
            },
        ),
        Selector::Ref(_) => no_names(),
    }
}

/// Names a list of filters uses.
pub open spec fn filters_refs(fs: Seq<Filter>) -> Set<Seq<char>>
    decreases fs,
{
    if fs.len() == 0 {
        no_names()
    } else {
        filters_refs(fs.subrange(0, fs.len() - 1)).union(filter_refs(fs[fs.len() - 1]))
    }
}

/// Names an optional boxed amount uses.
pub open spec fn opt_amount_refs(a: Option<Box<Amount>>) -> Set<Seq<char>>
    decreases a,
{
    match a {
        Some(b) => amount_refs(*b),
        None => no_names(),
    }
}

/// Names a filter uses: its nested filters and every amount bound.
pub open spec fn filter_refs(f: Filter) -> Set<Seq<char>>
    decreases f,
{
    (match f.all {
        Some(xs) => filters_refs(xs@),
        None => no_names(),
    }).union(
        match f.any {
            Some(xs) => filters_refs(xs@),
            None => no_names(),
        },
    ).union(
        match f.not {
            Some(x) => filter_refs(*x),
            None => no_names(),
        },
    ).union(opt_amount_refs(f.cost_eq)).union(opt_amount_refs(f.cost_lte)).union(opt_amount_refs(f.cost_gte)).union(
        opt_amount_refs(f.base_cost_eq),
    ).union(opt_amount_refs(f.base_cost_lte)).union(opt_amount_refs(f.base_cost_gte)).union(
        opt_amount_refs(f.attack_lte),
    ).union(opt_amount_refs(f.attack_gte)).union(opt_amount_refs(f.defense_lte)).union(
        opt_amount_refs(f.defense_gte),
    )
}

/// Names an amount uses.
pub open spec fn amount_refs(a: Amount) -> Set<Seq<char>>
    decreases a,
{
    match a {
        Amount::Count { count } => selector_refs(*count),
        Amount::DistinctNames { distinct_names } => amount_refs(*distinct_names),
        Amount::Stat { stat } => selector_refs(*stat.of),
        Amount::Add { add } => amount_refs(*add.0).union(amount_refs(*add.1)),
        Amount::Sub { sub } => amount_refs(*sub.0).union(amount_refs(*sub.1)),
        Amount::Max { max } => amount_refs(*max.0).union(amount_refs(*max.1)),
        Amount::Min { min } => amount_refs(*min.0).union(amount_refs(*min.1)),
        Amount::Neg { neg } => amount_refs(*neg),
        Amount::EnteredThisMatch { entered_this_match } => filter_refs(entered_this_match),
        Amount::SumHighestBaseCosts { sum_highest_base_costs } => selector_refs(*sum_highest_base_costs.select),
        _ => no_names(),
    }
}


/// Names a list of conditions uses.
pub open spec fn conditions_refs(cs: Seq<Condition>) -> Set<Seq<char>>
    decreases cs,
{
    if cs.len() == 0 {
        no_names()
    } else {
        conditions_refs(cs.subrange(0, cs.len() - 1)).union(condition_refs(cs[cs.len() - 1]))
    }
}

/// Names a condition uses: every selector, amount and filter it carries,
/// and the name a `boundHas` test reads.
pub open spec fn condition_refs(c: Condition) -> Set<Seq<char>>
    decreases c,
{
    match c {
        Condition::All { all } => conditions_refs(all@),
        Condition::Any { any } => conditions_refs(any@),
        Condition::Not { not } => condition_refs(*not),
        Condition::CountAtLeast { count_at_least } => selector_refs(count_at_least.select).union(
            amount_refs(count_at_least.n),
        ).union(
            match count_at_least.filter {
                Some(f) => filter_refs(f),
                None => no_names(),
            },
        ),
        Condition::MaxPpAtLeast { max_pp_at_least } => amount_refs(max_pp_at_least.n),
        Condition::Combo { combo } => amount_refs(combo.n),
        Condition::AmountAtLeast { amount_at_least } => amount_refs(amount_at_least.of).union(
            amount_refs(amount_at_least.n),
        ),
        Condition::CounterAtLeast { counter_at_least } => amount_refs(counter_at_least.n),
        Condition::Rally { rally } => amount_refs(rally.n),
        Condition::CostEq { cost_eq } => amount_refs(cost_eq),
        Condition::SkyboundArt { skybound_art } => amount_refs(skybound_art.n),
        Condition::EvolvedCountAtLeast { evolved_count_at_least } => amount_refs(evolved_count_at_least.n),
        Condition::HandSameCostAtLeast { hand_same_cost_at_least } => amount_refs(hand_same_cost_at_least.n),
        Condition::HandHas { hand_has } => filter_refs(hand_has.filter).union(amount_refs(hand_has.n)),
        Condition::FieldHas { field_has } => filter_refs(field_has.filter).union(opt_refs(field_has.n)),
        Condition::LeaderDefenseLte { leader_defense_lte } => amount_refs(leader_defense_lte),
        Condition::VarAtLeast { var_at_least } => amount_refs(var_at_least.n),
        Condition::EnterCountAtLeast { enter_count_at_least } => amount_refs(enter_count_at_least.n),
        Condition::BoundHas { bound_has } => set![bound_has.ref_name@].union(filter_refs(bound_has.filter)),
        _ => no_names(),
    }
}

/// Names a card source uses.
pub open spec fn source_refs(src: CardSource) -> Set<Seq<char>> {
    match src {
        CardSource::Copy { copy_of, .. } => selector_refs(copy_of),
        CardSource::From { from } => selector_refs(from),
        CardSource::RandomFrom { random_from } => filter_refs(random_from),
        CardSource::Named { .. } => no_names(),
    }
}

/// Names an optional amount uses.
pub open spec fn opt_refs(a: Option<Amount>) -> Set<Seq<char>> {
    match a {
        Some(x) => amount_refs(x),
        None => no_names(),
    }
}

/// Names the walk collects from a list of effects: `.0` bound, `.1` used.
pub open spec fn effects_names(es: Seq<Effect>) -> (Set<Seq<char>>, Set<Seq<char>>)
    decreases es,
{
    if es.len() == 0 {
        (no_names(), no_names())
    } else {
        let a = effects_names(es.subrange(0, es.len() - 1));
        let b = effect_names(es[es.len() - 1]);
        (a.0.union(b.0), a.1.union(b.1))
    }
}

/// Names bound and used by a list of choose options.
pub open spec fn options_names(os: Seq<ChooseOption>) -> (Set<Seq<char>>, Set<Seq<char>>)
    decreases os,
{
    if os.len() == 0 {
        (no_names(), no_names())
    } else {
        let a = options_names(os.subrange(0, os.len() - 1));
        let b = effects_names(os[os.len() - 1].effects@);
        (a.0.union(b.0), a.1.union(b.1))
    }
}

/// Names bound and used by a list of sequence steps.
pub open spec fn steps_names(ss: Seq<SequenceStep>) -> (Set<Seq<char>>, Set<Seq<char>>)
    decreases ss,
{
    if ss.len() == 0 {
        (no_names(), no_names())
    } else {
        let a = steps_names(ss.subrange(0, ss.len() - 1));
        let b = effects_names(ss[ss.len() - 1].effects@);
        (a.0.union(b.0), a.1.union(b.1))
    }
}

/// Names the selectors, amounts and sources directly on an effect use
/// (not counting nested effects and its gating condition).
pub open spec fn effect_own_refs(e: Effect) -> Set<Seq<char>> {
    match e {
        Effect::Damage { select, amount, .. } => selector_refs(select).union(amount_refs(amount)),
        Effect::Restore { select, amount, .. } => selector_refs(select).union(amount_refs(amount)),
        Effect::Buff { select, attack, defense, .. } => selector_refs(select).union(opt_refs(attack)).union(
            opt_refs(defense),
        ),
        Effect::Destroy { select, .. } => selector_refs(select),
        Effect::Select { select, .. } => selector_refs(select),
        Effect::Banish { select, .. } => selector_refs(select),
        Effect::ReturnToHand { select, .. } => selector_refs(select),
        Effect::ReturnToDeck { select, .. } => selector_refs(select),
        Effect::Discard { select, .. } => selector_refs(select),
        Effect::Evolve { select, .. } => selector_refs(select),
        Effect::GrantTraits { select, .. } => selector_refs(select),
        Effect::RemoveTraits { select, .. } => selector_refs(select),
        Effect::RemoveAbilities { select, .. } => selector_refs(select),
        Effect::RemoveCrests { select, .. } => selector_refs(select),
        Effect::LeaderModifier { select, max_defense, damage_cap, damage_taken_bonus, .. } => selector_refs(select).union(
            match max_defense {
                Some(MaxDefenseChange::SetTo { set }) => amount_refs(set),
                Some(MaxDefenseChange::Delta { delta }) => amount_refs(delta),
                None => no_names(),
            },
        ).union(opt_refs(damage_cap)).union(opt_refs(damage_taken_bonus)),
        Effect::Countdown { select, delta, .. } => selector_refs(select).union(amount_refs(delta)),
        Effect::Summon { card, count, .. } => source_refs(card).union(amount_refs(count)),
        Effect::AddToHand { card, count, .. } => source_refs(card).union(amount_refs(count)),
        Effect::AddToDeck { card, count, .. } => source_refs(card).union(amount_refs(count)),
        Effect::Draw { count, filter, .. } => amount_refs(count).union(
            match filter {
                Some(f) => filter_refs(f),
                None => no_names(),
            },
        ),
        Effect::Pp { amount, .. } => amount_refs(amount),
        Effect::Ep { amount, .. } => amount_refs(amount),
        Effect::Reanimate { max_cost, .. } => amount_refs(max_cost),
        Effect::SpellboostHand { times, select, .. } => amount_refs(times).union(
            match select {
                Some(s) => selector_refs(s),
                None => no_names(),
            },
        ),
        Effect::Cost { select, delta, set, .. } => selector_refs(select).union(opt_refs(delta)).union(opt_refs(set)),
        Effect::Counter { amount, .. } => amount_refs(amount),
        Effect::Pay { amount, .. } => amount_refs(amount),
        Effect::Repeat { times, .. } => amount_refs(times),
        Effect::RandomSplit { times, .. } => amount_refs(times),
        Effect::GrantAbility { select, .. } => selector_refs(select),
        Effect::If { cond, .. } => condition_refs(cond),
        Effect::Transform { into, select, .. } => selector_refs(select).union(source_refs(into)),
        _ => no_names(),
    }
}

/// Names bound (`.0`) and used (`.1`) by an effect and everything nested
/// in it, its gating condition included.
pub open spec fn effect_names(e: Effect) -> (Set<Seq<char>>, Set<Seq<char>>)
    decreases e,
{
    let nested: (Set<Seq<char>>, Set<Seq<char>>) = match e {
        Effect::Pay { effects, .. } => effects_names(effects@),
        Effect::Repeat { effects, .. } => effects_names(effects@),
        Effect::Series { effects, .. } => effects_names(effects@),
        Effect::RandomSplit { effects, .. } => effects_names(effects@),
        Effect::GrantAbility { ability, .. } => ability_names(*ability),
        Effect::If { then, else_effects, .. } => {
            let a = effects_names(then@);
            let b = match else_effects {
                Some(els) => effects_names(els@),
                None => (no_names(), no_names()),
            };
            (a.0.union(b.0), a.1.union(b.1))
        },
        Effect::Choose { options, .. } => match options {
            Some(opts) => options_names(opts@),
            None => (no_names(), no_names()),
        },
        Effect::Sequence { steps, .. } => steps_names(steps@),
        _ => (no_names(), no_names()),
    };
    let when_refs = match effect_when(e) {
        Some(c) => condition_refs(c),
        None => no_names(),
    };
    (bind_name(e).union(nested.0), effect_own_refs(e).union(nested.1).union(when_refs))
}

/// Names bound and used by an ability: its effects, its gating condition,
/// the filter of a `when` trigger and the selector of a static modifier.
pub open spec fn ability_names(a: Ability) -> (Set<Seq<char>>, Set<Seq<char>>)
    decreases a,
{
    let es: (Set<Seq<char>>, Set<Seq<char>>) = match a {
        Ability::Static { .. } => (no_names(), no_names()),
        Ability::Fanfare { effects, .. } => effects_names(effects@),
        Ability::LastWords { effects, .. } => effects_names(effects@),
        Ability::Evolve { effects, .. } => effects_names(effects@),
        Ability::SuperEvolve { effects, .. } => effects_names(effects@),
        Ability::AnyEvolve { effects, .. } => effects_names(effects@),
        Ability::AnySuperEvolve { effects, .. } => effects_names(effects@),
        Ability::Strike { effects, .. } => effects_names(effects@),
        Ability::FollowerStrike { effects, .. } => effects_names(effects@),
        Ability::Clash { effects, .. } => effects_names(effects@),
        Ability::Enter { effects, .. } => effects_names(effects@),
        Ability::Leave { effects, .. } => effects_names(effects@),
        Ability::Discarded { effects, .. } => effects_names(effects@),
        Ability::Invoked { effects, .. } => effects_names(effects@),
        Ability::Fused { effects, .. } => effects_names(effects@),
        Ability::Spellboost { effects, .. } => effects_names(effects@),
        Ability::Engage { effects, .. } => effects_names(effects@),
        Ability::StartOfTurn { effects, .. } => effects_names(effects@),
        Ability::EndOfTurn { effects, .. } => effects_names(effects@),
        Ability::When { effects, .. } => effects_names(effects@),
    };
    let st = match a {
        Ability::Static { modifier, .. } => selector_refs(modifier.select),
        _ => no_names(),
    };
    let w = match ability_when(a) {
        Some(c) => condition_refs(c),
        None => no_names(),
    };
    let f = match a {
        Ability::When { filter: Some(f), .. } => filter_refs(f),
        _ => no_names(),
    };
    (es.0, es.1.union(st).union(w).union(f))
}

/// Names bound and used by a list of abilities.
pub open spec fn abilities_names(abs: Seq<Ability>) -> (Set<Seq<char>>, Set<Seq<char>>)
    decreases abs,
{
    if abs.len() == 0 {
        (no_names(), no_names())
    } else {
        let a = abilities_names(abs.subrange(0, abs.len() - 1));
        let b = ability_names(abs[abs.len() - 1]);
        (a.0.union(b.0), a.1.union(b.1))
    }
}

/// Names bound and used by a play mode.
pub open spec fn mode_names(m: Mode) -> (Set<Seq<char>>, Set<Seq<char>>) {
    match m {
        Mode::Enhance { effects, .. } => effects_names(effects@),
        Mode::Accelerate { effects, .. } => effects_names(effects@),
        Mode::Crystallize { abilities, .. } => match abilities {
            Some(abs) => abilities_names(abs@),
            None => (no_names(), no_names()),
        },
    }
}

/// Names bound and used by a list of modes.
pub open spec fn modes_names(ms: Seq<Mode>) -> (Set<Seq<char>>, Set<Seq<char>>)
    decreases ms.len(),
{
    if ms.len() == 0 {
        (no_names(), no_names())
    } else {
        let a = modes_names(ms.subrange(0, ms.len() - 1));
        let b = mode_names(ms[ms.len() - 1]);
        (a.0.union(b.0), a.1.union(b.1))
    }
}

/// Names a card uses that none of its effects binds.
pub open spec fn card_unbound(c: Card) -> Set<Seq<char>> {
    let a = abilities_names(card_ability_list(c));
    let m = modes_names(card_mode_list(c));
    a.1.union(m.1).difference(a.0.union(m.0))
}

/// Names a crest uses that none of its effects binds.
pub open spec fn crest_unbound(c: Crest) -> Set<Seq<char>> {
    let a = abilities_names(crest_ability_list(c));
    a.1.difference(a.0)
}


// -------------------------------------------------------------------------
// The walk
// -------------------------------------------------------------------------

/// The names a list of strings holds.
pub open spec fn names(v: Seq<String>) -> Set<Seq<char>> {
    string_views(v).to_set()
}

/// A list of strings without repeats.
pub open spec fn distinct_names(v: Seq<String>) -> bool {
    string_views(v).no_duplicates()
}

fn add_name(v: &mut Vec<String>, s: &String)
    requires
        distinct_names(old(v)@),
    ensures
        distinct_names(final(v)@),
        names(final(v)@) == names(old(v)@).insert(s@),
{
    insert_label(v, s.as_str());
}

fn walk_selector(s: &Selector, used: &mut Vec<String>)
    requires
        distinct_names(old(used)@),
    ensures
        distinct_names(final(used)@),
        names(final(used)@) == names(old(used)@).union(selector_refs(*s)),
    decreases s,
{
    match s {
        Selector::Bound(b) => {
            add_name(used, &b.ref_name);
            assert(names(used@) =~= names(old(used)@).union(selector_refs(*s)));
        },
        Selector::Pool(p) => {
            if let Some(f) = &p.filter {
                walk_filter(f, used);
            }
            let ghost mid = names(used@);
            if let Some(c) = &p.count {
                walk_amount(c, used);
            }
            assert(names(used@) =~= names(old(used)@).union(selector_refs(*s)));
        },
        Selector::Ref(_) => {
            assert(names(used@) =~= names(old(used)@).union(selector_refs(*s)));
        },
    }
}

fn walk_filters(fs: &Vec<Filter>, used: &mut Vec<String>)
    requires
        distinct_names(old(used)@),
    ensures
        distinct_names(final(used)@),
        names(final(used)@) == names(old(used)@).union(filters_refs(fs@)),
    decreases fs,
{
    let mut i: usize = 0;
    while i < fs.len()
        invariant
            0 <= i <= fs.len(),
            distinct_names(used@),
            names(used@) == names(old(used)@).union(filters_refs(fs@.subrange(0, i as int))),
        decreases fs.len() - i,
    {
        walk_filter(&fs[i], used);
        let ghost s1 = fs@.subrange(0, i as int + 1);
        assert(s1.subrange(0, s1.len() - 1) =~= fs@.subrange(0, i as int));
        assert(s1[s1.len() - 1] == fs@[i as int]);
        assert(names(used@) =~= names(old(used)@).union(filters_refs(s1)));
        i = i + 1;
    }
    assert(fs@.subrange(0, fs.len() as int) =~= fs@);
}

fn walk_opt_amount(a: &Option<Box<Amount>>, used: &mut Vec<String>)
    requires
        distinct_names(old(used)@),
    ensures
        distinct_names(final(used)@),
        names(final(used)@) == names(old(used)@).union(opt_amount_refs(*a)),
    decreases a,
{
    match a {
        Some(b) => walk_amount(&**b, used),
        None => {
            assert(names(used@) =~= names(old(used)@).union(opt_amount_refs(*a)));
        },
    }
}

fn walk_filter(f: &Filter, used: &mut Vec<String>)
    requires
        distinct_names(old(used)@),
    ensures
        distinct_names(final(used)@),
        names(final(used)@) == names(old(used)@).union(filter_refs(*f)),
    decreases f,
{
    if let Some(xs) = &f.all {
        walk_filters(xs, used);
    }
    if let Some(xs) = &f.any {
        walk_filters(xs, used);
    }
    if let Some(x) = &f.not {
        walk_filter(&**x, used);
    }
    walk_opt_amount(&f.cost_eq, used);
    walk_opt_amount(&f.cost_lte, used);
    walk_opt_amount(&f.cost_gte, used);
    walk_opt_amount(&f.base_cost_eq, used);
    walk_opt_amount(&f.base_cost_lte, used);
    walk_opt_amount(&f.base_cost_gte, used);
    walk_opt_amount(&f.attack_lte, used);
    walk_opt_amount(&f.attack_gte, used);
    walk_opt_amount(&f.defense_lte, used);
    walk_opt_amount(&f.defense_gte, used);
    assert(names(used@) =~= names(old(used)@).union(filter_refs(*f)));
}

fn walk_amount(a: &Amount, used: &mut Vec<String>)
    requires
        distinct_names(old(used)@),
    ensures
        distinct_names(final(used)@),
        names(final(used)@) == names(old(used)@).union(amount_refs(*a)),
    decreases a,
{
    match a {
        Amount::Count { count } => walk_selector(&**count, used),
        Amount::DistinctNames { distinct_names } => walk_amount(&**distinct_names, used),
        Amount::Stat { stat } => walk_selector(&*stat.of, used),
        Amount::Add { add: (x, y) } | Amount::Sub { sub: (x, y) } | Amount::Max { max: (x, y) } | Amount::Min {
            min: (x, y),
        } => {
            walk_amount(&**x, used);
            walk_amount(&**y, used);
            assert(names(used@) =~= names(old(used)@).union(amount_refs(*a)));
        },
        Amount::Neg { neg } => walk_amount(&**neg, used),
        Amount::EnteredThisMatch { entered_this_match } => walk_filter(entered_this_match, used),
        Amount::SumHighestBaseCosts { sum_highest_base_costs } => walk_selector(&*sum_highest_base_costs.select, used),
        _ => {
            assert(names(used@) =~= names(old(used)@).union(amount_refs(*a)));
        },
    }
}


fn walk_conditions(cs: &Vec<Condition>, used: &mut Vec<String>)
    requires
        distinct_names(old(used)@),
    ensures
        distinct_names(final(used)@),
        names(final(used)@) == names(old(used)@).union(conditions_refs(cs@)),
    decreases cs,
{
    let mut i: usize = 0;
    while i < cs.len()
        invariant
            0 <= i <= cs.len(),
            distinct_names(used@),
            names(used@) == names(old(used)@).union(conditions_refs(cs@.subrange(0, i as int))),
        decreases cs.len() - i,
    {
        walk_condition(&cs[i], used);
        let ghost s1 = cs@.subrange(0, i as int + 1);
        assert(s1.subrange(0, s1.len() - 1) =~= cs@.subrange(0, i as int));
        assert(s1[s1.len() - 1] == cs@[i as int]);
        assert(names(used@) =~= names(old(used)@).union(conditions_refs(s1)));
        i = i + 1;
    }
    assert(cs@.subrange(0, cs.len() as int) =~= cs@);
}

fn walk_condition(c: &Condition, used: &mut Vec<String>)
    requires
        distinct_names(old(used)@),
    ensures
        distinct_names(final(used)@),
        names(final(used)@) == names(old(used)@).union(condition_refs(*c)),
    decreases c,
{
    match c {
        Condition::All { all } => walk_conditions(all, used),
        Condition::Any { any } => walk_conditions(any, used),
        Condition::Not { not } => walk_condition(&**not, used),
        Condition::CountAtLeast { count_at_least } => {
            walk_selector(&count_at_least.select, used);
            walk_amount(&count_at_least.n, used);
            if let Some(f) = &count_at_least.filter {
                walk_filter(f, used);
            }
            assert(names(used@) =~= names(old(used)@).union(condition_refs(*c)));
        },
        Condition::MaxPpAtLeast { max_pp_at_least } => walk_amount(&max_pp_at_least.n, used),
        Condition::Combo { combo } => walk_amount(&combo.n, used),
        Condition::AmountAtLeast { amount_at_least } => {
            walk_amount(&amount_at_least.of, used);
            walk_amount(&amount_at_least.n, used);
            assert(names(used@) =~= names(old(used)@).union(condition_refs(*c)));
        },
        Condition::CounterAtLeast { counter_at_least } => walk_amount(&counter_at_least.n, used),
        Condition::Rally { rally } => walk_amount(&rally.n, used),
        Condition::CostEq { cost_eq } => walk_amount(cost_eq, used),
        Condition::SkyboundArt { skybound_art } => walk_amount(&skybound_art.n, used),
        Condition::EvolvedCountAtLeast { evolved_count_at_least } => walk_amount(&evolved_count_at_least.n, used),
        Condition::HandSameCostAtLeast { hand_same_cost_at_least } => walk_amount(&hand_same_cost_at_least.n, used),
        Condition::HandHas { hand_has } => {
            walk_filter(&hand_has.filter, used);
            walk_amount(&hand_has.n, used);
            assert(names(used@) =~= names(old(used)@).union(condition_refs(*c)));
        },
        Condition::FieldHas { field_has } => {
            walk_filter(&field_has.filter, used);
            walk_opt(&field_has.n, used);
            assert(names(used@) =~= names(old(used)@).union(condition_refs(*c)));
        },
        Condition::LeaderDefenseLte { leader_defense_lte } => walk_amount(leader_defense_lte, used),
        Condition::VarAtLeast { var_at_least } => walk_amount(&var_at_least.n, used),
        Condition::EnterCountAtLeast { enter_count_at_least } => walk_amount(&enter_count_at_least.n, used),
        Condition::BoundHas { bound_has } => {
            add_name(used, &bound_has.ref_name);
            walk_filter(&bound_has.filter, used);
            assert(names(used@) =~= names(old(used)@).union(condition_refs(*c)));
        },
        _ => {
            assert(names(used@) =~= names(old(used)@).union(condition_refs(*c)));
        },
    }
}

fn walk_source(src: &CardSource, used: &mut Vec<String>)
    requires
        distinct_names(old(used)@),
    ensures
        distinct_names(final(used)@),
        names(final(used)@) == names(old(used)@).union(source_refs(*src)),
{
    match src {
        CardSource::Copy { copy_of, .. } => walk_selector(copy_of, used),
        CardSource::From { from } => walk_selector(from, used),
        CardSource::RandomFrom { random_from } => walk_filter(random_from, used),
        CardSource::Named { .. } => {
            assert(names(used@) =~= names(old(used)@).union(source_refs(*src)));
        },
    }
}

fn walk_opt(a: &Option<Amount>, used: &mut Vec<String>)
    requires
        distinct_names(old(used)@),
    ensures
        distinct_names(final(used)@),
        names(final(used)@) == names(old(used)@).union(opt_refs(*a)),
{
    match a {
        Some(x) => walk_amount(x, used),
        None => {
            assert(names(used@) =~= names(old(used)@).union(opt_refs(*a)));
        },
    }
}

/// Both name lists grew by exactly the given pair of sets.
pub open spec fn grew_by(
    p0: Seq<String>,
    u0: Seq<String>,
    p1: Seq<String>,
    u1: Seq<String>,
    ns: (Set<Seq<char>>, Set<Seq<char>>),
) -> bool {
    &&& distinct_names(p1) && distinct_names(u1)
    &&& names(p1) == names(p0).union(ns.0)
    &&& names(u1) == names(u0).union(ns.1)
}

fn walk_effects(es: &Vec<Effect>, produced: &mut Vec<String>, used: &mut Vec<String>)
    requires
        distinct_names(old(produced)@),
        distinct_names(old(used)@),
    ensures
        grew_by(old(produced)@, old(used)@, final(produced)@, final(used)@, effects_names(es@)),
    decreases es,
{
    let mut i: usize = 0;
    assert(es@.subrange(0, 0) =~= Seq::<Effect>::empty());
    assert(names(produced@).union(no_names()) =~= names(produced@));
    assert(names(used@).union(no_names()) =~= names(used@));
    while i < es.len()
        invariant
            0 <= i <= es.len(),
            grew_by(old(produced)@, old(used)@, produced@, used@, effects_names(es@.subrange(0, i as int))),
        decreases es.len() - i,
    {
        walk_effect(&es[i], produced, used);
        let ghost s1 = es@.subrange(0, i as int + 1);
        assert(s1.subrange(0, s1.len() - 1) =~= es@.subrange(0, i as int));
        assert(s1[s1.len() - 1] == es@[i as int]);
        assert(names(produced@) =~= names(old(produced)@).union(effects_names(s1).0));
        assert(names(used@) =~= names(old(used)@).union(effects_names(s1).1));
        i = i + 1;
    }
    assert(es@.subrange(0, es.len() as int) =~= es@);
}

fn walk_options(os: &Vec<ChooseOption>, produced: &mut Vec<String>, used: &mut Vec<String>)
    requires
        distinct_names(old(produced)@),
        distinct_names(old(used)@),
    ensures
        grew_by(old(produced)@, old(used)@, final(produced)@, final(used)@, options_names(os@)),
    decreases os,
{
    let mut i: usize = 0;
    assert(os@.subrange(0, 0) =~= Seq::<ChooseOption>::empty());
    assert(names(produced@).union(no_names()) =~= names(produced@));
    assert(names(used@).union(no_names()) =~= names(used@));
    while i < os.len()
        invariant
            0 <= i <= os.len(),
            grew_by(old(produced)@, old(used)@, produced@, used@, options_names(os@.subrange(0, i as int))),
        decreases os.len() - i,
    {
        walk_effects(&os[i].effects, produced, used);
        let ghost s1 = os@.subrange(0, i as int + 1);
        assert(s1.subrange(0, s1.len() - 1) =~= os@.subrange(0, i as int));
        assert(s1[s1.len() - 1] == os@[i as int]);
        assert(names(produced@) =~= names(old(produced)@).union(options_names(s1).0));
        assert(names(used@) =~= names(old(used)@).union(options_names(s1).1));
        i = i + 1;
    }
    assert(os@.subrange(0, os.len() as int) =~= os@);
}

fn walk_steps(ss: &Vec<SequenceStep>, produced: &mut Vec<String>, used: &mut Vec<String>)
    requires
        distinct_names(old(produced)@),
        distinct_names(old(used)@),
    ensures
        grew_by(old(produced)@, old(used)@, final(produced)@, final(used)@, steps_names(ss@)),
    decreases ss,
{
    let mut i: usize = 0;
    assert(ss@.subrange(0, 0) =~= Seq::<SequenceStep>::empty());
    assert(names(produced@).union(no_names()) =~= names(produced@));
    assert(names(used@).union(no_names()) =~= names(used@));
    while i < ss.len()
        invariant
            0 <= i <= ss.len(),
            grew_by(old(produced)@, old(used)@, produced@, used@, steps_names(ss@.subrange(0, i as int))),
        decreases ss.len() - i,
    {
        walk_effects(&ss[i].effects, produced, used);
        let ghost s1 = ss@.subrange(0, i as int + 1);
        assert(s1.subrange(0, s1.len() - 1) =~= ss@.subrange(0, i as int));
        assert(s1[s1.len() - 1] == ss@[i as int]);
        assert(names(produced@) =~= names(old(produced)@).union(steps_names(s1).0));
        assert(names(used@) =~= names(old(used)@).union(steps_names(s1).1));
        i = i + 1;
    }
    assert(ss@.subrange(0, ss.len() as int) =~= ss@);
}

fn walk_own_refs(e: &Effect, used: &mut Vec<String>)
    requires
        distinct_names(old(used)@),
    ensures
        distinct_names(final(used)@),
        names(final(used)@) == names(old(used)@).union(effect_own_refs(*e)),
{
    match e {
        Effect::Damage { select, amount, .. } | Effect::Restore { select, amount, .. } => {
            walk_selector(select, used);
            walk_amount(amount, used);
        },
        Effect::Buff { select, attack, defense, .. } => {
            walk_selector(select, used);
            walk_opt(attack, used);
            walk_opt(defense, used);
        },
        Effect::Destroy { select, .. }
        | Effect::Select { select, .. }
        | Effect::Banish { select, .. }
        | Effect::ReturnToHand { select, .. }
        | Effect::ReturnToDeck { select, .. }
        | Effect::Discard { select, .. }
        | Effect::Evolve { select, .. }
        | Effect::GrantTraits { select, .. }
        | Effect::RemoveTraits { select, .. }
        | Effect::RemoveAbilities { select, .. }
        | Effect::RemoveCrests { select, .. }
        | Effect::GrantAbility { select, .. } => walk_selector(select, used),
        Effect::LeaderModifier { select, max_defense, damage_cap, damage_taken_bonus, .. } => {
            walk_selector(select, used);
            match max_defense {
                Some(MaxDefenseChange::SetTo { set }) => walk_amount(set, used),
                Some(MaxDefenseChange::Delta { delta }) => walk_amount(delta, used),
                None => {},
            }
            walk_opt(damage_cap, used);
            walk_opt(damage_taken_bonus, used);
        },
        Effect::Countdown { select, delta, .. } => {
            walk_selector(select, used);
            walk_amount(delta, used);
        },
        Effect::Summon { card, count, .. } | Effect::AddToHand { card, count, .. } | Effect::AddToDeck {
            card,
            count,
            ..
        } => {
            walk_source(card, used);
            walk_amount(count, used);
        },
        Effect::Draw { count, filter, .. } => {
            walk_amount(count, used);
            if let Some(f) = filter {
                walk_filter(f, used);
            }
        },
        Effect::Pp { amount: count, .. }
        | Effect::Ep { amount: count, .. }
        | Effect::Reanimate { max_cost: count, .. }
        | Effect::Counter { amount: count, .. }
        | Effect::Pay { amount: count, .. }
        | Effect::Repeat { times: count, .. }
        | Effect::RandomSplit { times: count, .. } => walk_amount(count, used),
        Effect::SpellboostHand { times, select, .. } => {
            walk_amount(times, used);
            if let Some(s) = select {
                walk_selector(s, used);
            }
        },
        Effect::Cost { select, delta, set, .. } => {
            walk_selector(select, used);
            walk_opt(delta, used);
            walk_opt(set, used);
        },
        Effect::If { cond, .. } => walk_condition(cond, used),
        Effect::Transform { into, select, .. } => {
            walk_selector(select, used);
            walk_source(into, used);
        },
        _ => {},
    }
    assert(names(used@) =~= names(old(used)@).union(effect_own_refs(*e)));
}

fn walk_effect(e: &Effect, produced: &mut Vec<String>, used: &mut Vec<String>)
    requires
        distinct_names(old(produced)@),
        distinct_names(old(used)@),
    ensures
        grew_by(old(produced)@, old(used)@, final(produced)@, final(used)@, effect_names(*e)),
    decreases e,
{
    if let Some(name) = e.as_bind() {
        insert_label(produced, name);
    }
    assert(names(produced@) =~= names(old(produced)@).union(bind_name(*e)));
    walk_own_refs(e, used);
    let ghost p1 = produced@;
    let ghost u1 = used@;
    match e {
        Effect::Pay { effects, .. }
        | Effect::Repeat { effects, .. }
        | Effect::Series { effects, .. }
        | Effect::RandomSplit { effects, .. } => {
            walk_effects(effects, produced, used);
        },
        Effect::GrantAbility { ability, .. } => {
            walk_ability(&**ability, produced, used);
        },
        Effect::If { then, else_effects, .. } => {
            walk_effects(then, produced, used);
            if let Some(els) = else_effects {
                walk_effects(els, produced, used);
            }
        },
        Effect::Choose { options, .. } => {
            if let Some(opts) = options {
                walk_options(opts, produced, used);
            }
        },
        Effect::Sequence { steps, .. } => {
            walk_steps(steps, produced, used);
        },
        _ => {},
    }
    if let Some(c) = e.when_cond() {
        walk_condition(c, used);
    }
    assert(names(produced@) =~= names(old(produced)@).union(effect_names(*e).0));
    assert(names(used@) =~= names(old(used)@).union(effect_names(*e).1));
}

fn walk_ability(a: &Ability, produced: &mut Vec<String>, used: &mut Vec<String>)
    requires
        distinct_names(old(produced)@),
        distinct_names(old(used)@),
    ensures
        grew_by(old(produced)@, old(used)@, final(produced)@, final(used)@, ability_names(*a)),
    decreases a,
{
    match a {
        Ability::Static { modifier, .. } => {
            walk_selector(&modifier.select, used);
        },
        Ability::Fanfare { effects, .. }
        | Ability::LastWords { effects, .. }
        | Ability::Evolve { effects, .. }
        | Ability::SuperEvolve { effects, .. }
        | Ability::AnyEvolve { effects, .. }
        | Ability::AnySuperEvolve { effects, .. }
        | Ability::Strike { effects, .. }
        | Ability::FollowerStrike { effects, .. }
        | Ability::Clash { effects, .. }
        | Ability::Enter { effects, .. }
        | Ability::Leave { effects, .. }
        | Ability::Discarded { effects, .. }
        | Ability::Invoked { effects, .. }
        | Ability::Fused { effects, .. }
        | Ability::Spellboost { effects, .. }
        | Ability::Engage { effects, .. }
        | Ability::StartOfTurn { effects, .. }
        | Ability::EndOfTurn { effects, .. }
        | Ability::When { effects, .. } => {
            walk_effects(effects, produced, used);
        },
    }
    if let Some(c) = a.when_cond() {
        walk_condition(c, used);
    }
    if let Ability::When { filter: Some(f), .. } = a {
        walk_filter(f, used);
    }
    assert(names(produced@) =~= names(old(produced)@).union(ability_names(*a).0));
    assert(names(used@) =~= names(old(used)@).union(ability_names(*a).1));
}

fn walk_abilities(abs: &[Ability], produced: &mut Vec<String>, used: &mut Vec<String>)
    requires
        distinct_names(old(produced)@),
        distinct_names(old(used)@),
    ensures
        grew_by(old(produced)@, old(used)@, final(produced)@, final(used)@, abilities_names(abs@)),
{
    let mut i: usize = 0;
    assert(abs@.subrange(0, 0) =~= Seq::<Ability>::empty());
    assert(names(produced@).union(no_names()) =~= names(produced@));
    assert(names(used@).union(no_names()) =~= names(used@));
    while i < abs.len()
        invariant
            0 <= i <= abs.len(),
            grew_by(old(produced)@, old(used)@, produced@, used@, abilities_names(abs@.subrange(0, i as int))),
        decreases abs.len() - i,
    {
        walk_ability(&abs[i], produced, used);
        let ghost s1 = abs@.subrange(0, i as int + 1);
        assert(s1.subrange(0, s1.len() - 1) =~= abs@.subrange(0, i as int));
        assert(s1[s1.len() - 1] == abs@[i as int]);
        assert(names(produced@) =~= names(old(produced)@).union(abilities_names(s1).0));
        assert(names(used@) =~= names(old(used)@).union(abilities_names(s1).1));
        i = i + 1;
    }
    assert(abs@.subrange(0, abs.len() as int) =~= abs@);
}

fn walk_mode(m: &Mode, produced: &mut Vec<String>, used: &mut Vec<String>)
    requires
        distinct_names(old(produced)@),
        distinct_names(old(used)@),
    ensures
        grew_by(old(produced)@, old(used)@, final(produced)@, final(used)@, mode_names(*m)),
{
    match m {
        Mode::Enhance { effects, .. } | Mode::Accelerate { effects, .. } => {
            walk_effects(effects, produced, used);
        },
        Mode::Crystallize { abilities, .. } => {
            if let Some(abs) = abilities {
                walk_abilities(abs.as_slice(), produced, used);
            } else {
                assert(names(produced@) =~= names(old(produced)@).union(mode_names(*m).0));
                assert(names(used@) =~= names(old(used)@).union(mode_names(*m).1));
            }
        },
    }
}

fn walk_modes(ms: &[Mode], produced: &mut Vec<String>, used: &mut Vec<String>)
    requires
        distinct_names(old(produced)@),
        distinct_names(old(used)@),
    ensures
        grew_by(old(produced)@, old(used)@, final(produced)@, final(used)@, modes_names(ms@)),
{
    let mut i: usize = 0;
    assert(ms@.subrange(0, 0) =~= Seq::<Mode>::empty());
    assert(names(produced@).union(no_names()) =~= names(produced@));
    assert(names(used@).union(no_names()) =~= names(used@));
    while i < ms.len()
        invariant
            0 <= i <= ms.len(),
            grew_by(old(produced)@, old(used)@, produced@, used@, modes_names(ms@.subrange(0, i as int))),
        decreases ms.len() - i,
    {
        walk_mode(&ms[i], produced, used);
        let ghost s1 = ms@.subrange(0, i as int + 1);
        assert(s1.subrange(0, s1.len() - 1) =~= ms@.subrange(0, i as int));
        assert(s1[s1.len() - 1] == ms@[i as int]);
        assert(names(produced@) =~= names(old(produced)@).union(modes_names(s1).0));
        assert(names(used@) =~= names(old(used)@).union(modes_names(s1).1));
        i = i + 1;
    }
    assert(ms@.subrange(0, ms.len() as int) =~= ms@);
}

/// `a` comes before `b` in code point order; a proper prefix comes first.
pub open spec fn text_lt(a: Seq<char>, b: Seq<char>) -> bool
    decreases a.len(),
{
    if a.len() == 0 {
        b.len() > 0
    } else if b.len() == 0 {
        false
    } else if a[0] != b[0] {
        a[0] < b[0]
    } else {
        text_lt(a.drop_first(), b.drop_first())
    }
}

/// `m` is the first text of `s` in code point order.
pub open spec fn least_text(s: Set<Seq<char>>, m: Seq<char>) -> bool {
    s.contains(m) && forall|x: Seq<char>| s.contains(x) && x != m ==> text_lt(m, x)
}

/// The first of an ascending list is the least of its texts.
pub proof fn lemma_ascending_least(v: Seq<Seq<char>>)
    requires
        ascending(v),
        v.len() > 0,
    ensures
        least_text(v.to_set(), v[0]),
{
    assert forall|x: Seq<char>| v.to_set().contains(x) && x != v[0] implies text_lt(v[0], x) by {
        let i = choose|i: int| 0 <= i < v.len() && v[i] == x;
        assert(i != 0);
        assert(text_lt(v[0], v[i]));
    }
    assert(v.to_set().contains(v[0])) by {
        assert(v[0] == v[0]);
    }
}

/// Texts in strictly ascending code point order.
pub open spec fn ascending(v: Seq<Seq<char>>) -> bool {
    forall|i: int, j: int| 0 <= i < j < v.len() ==> text_lt(#[trigger] v[i], #[trigger] v[j])
}

proof fn lemma_text_lt_irrefl(a: Seq<char>)
    ensures
        !text_lt(a, a),
    decreases a.len(),
{
    if a.len() > 0 {
        lemma_text_lt_irrefl(a.drop_first());
    }
}

proof fn lemma_text_lt_trans(a: Seq<char>, b: Seq<char>, c: Seq<char>)
    requires
        text_lt(a, b),
        text_lt(b, c),
    ensures
        text_lt(a, c),
    decreases a.len(),
{
    if a.len() > 0 && b.len() > 0 && c.len() > 0 && a[0] == b[0] && b[0] == c[0] {
        lemma_text_lt_trans(a.drop_first(), b.drop_first(), c.drop_first());
    }
}

proof fn lemma_text_lt_total(a: Seq<char>, b: Seq<char>)
    requires
        a != b,
    ensures
        text_lt(a, b) || text_lt(b, a),
    decreases a.len(),
{
    if a.len() == 0 && b.len() == 0 {
        assert(a =~= b);
    }
    if a.len() > 0 && b.len() > 0 && a[0] != b[0] {
        assert(a[0] < b[0] || b[0] < a[0]);
    }
    if a.len() > 0 && b.len() > 0 && a[0] == b[0] {
        if a.drop_first() == b.drop_first() {
            assert(a.drop_first().len() == a.len() - 1 && b.drop_first().len() == b.len() - 1);
            assert(a.len() == b.len());
            assert forall|i: int| 0 <= i < a.len() implies a[i] == b[i] by {
                if i > 0 {
                    assert(a[i] == a.drop_first()[i - 1]);
                    assert(b[i] == b.drop_first()[i - 1]);
                }
            }
            assert(a =~= b);
        }
        lemma_text_lt_total(a.drop_first(), b.drop_first());
    }
}

proof fn lemma_insert_ascending(v: Seq<Seq<char>>, p: int, x: Seq<char>)
    requires
        ascending(v),
        0 <= p <= v.len(),
        forall|j: int| 0 <= j < p ==> text_lt(#[trigger] v[j], x),
        p < v.len() ==> text_lt(x, v[p]),
    ensures
        ascending(v.insert(p, x)),
{
    let w = v.insert(p, x);
    assert forall|i: int, j: int| 0 <= i < j < w.len() implies text_lt(#[trigger] w[i], #[trigger] w[j]) by {
        if i < p && j < p {
            assert(w[i] == v[i] && w[j] == v[j]);
        } else if i < p && j == p {
            assert(w[i] == v[i]);
        } else if i < p {
            assert(w[i] == v[i] && w[j] == v[j - 1]);
            if i < j - 1 {
                assert(text_lt(v[i], v[j - 1]));
            }
        } else if i == p {
            assert(w[j] == v[j - 1]);
            if p < j - 1 {
                assert(text_lt(v[p], v[j - 1]));
                lemma_text_lt_trans(x, v[p], v[j - 1]);
            }
        } else {
            assert(w[i] == v[i - 1] && w[j] == v[j - 1]);
        }
    }
}

proof fn lemma_insert_to_set(v: Seq<Seq<char>>, p: int, x: Seq<char>)
    requires
        0 <= p <= v.len(),
    ensures
        v.insert(p, x).to_set() == v.to_set().insert(x),
{
    let w = v.insert(p, x);
    assert forall|e: Seq<char>| w.to_set().contains(e) <==> v.to_set().insert(x).contains(e) by {
        if w.contains(e) {
            let i = choose|i: int| 0 <= i < w.len() && w[i] == e;
            if i < p {
                assert(v[i] == e);
            } else if i > p {
                assert(v[i - 1] == e);
            }
        }
        if v.contains(e) {
            let i = choose|i: int| 0 <= i < v.len() && v[i] == e;
            if i < p {
                assert(w[i] == e);
            } else {
                assert(w[i + 1] == e);
            }
        }
        if e == x {
            assert(w[p] == x);
        }
    }
    assert(w.to_set() =~= v.to_set().insert(x));
}

proof fn lemma_ascending_distinct(v: Seq<Seq<char>>)
    requires
        ascending(v),
    ensures
        v.no_duplicates(),
{
    assert forall|i: int, j: int| 0 <= i < v.len() && 0 <= j < v.len() && i != j implies v[i] != v[j] by {
        if i < j {
            assert(text_lt(v[i], v[j]));
            lemma_text_lt_irrefl(v[i]);
        } else {
            assert(text_lt(v[j], v[i]));
            lemma_text_lt_irrefl(v[j]);
        }
    }
}

fn text_less(a: &str, b: &str) -> (r: bool)
    ensures
        r == text_lt(a@, b@),
{
    let la = a.unicode_len();
    let lb = b.unicode_len();
    let mut i: usize = 0;
    assert(a@.subrange(0, la as int) =~= a@ && b@.subrange(0, lb as int) =~= b@);
    while i < la && i < lb
        invariant
            la == a@.len(),
            lb == b@.len(),
            0 <= i <= la,
            i <= lb,
            text_lt(a@, b@) == text_lt(a@.subrange(i as int, la as int), b@.subrange(i as int, lb as int)),
        decreases la - i,
    {
        let ca = a.get_char(i);
        let cb = b.get_char(i);
        let ghost sa = a@.subrange(i as int, la as int);
        let ghost sb = b@.subrange(i as int, lb as int);
        assert(sa[0] == ca && sb[0] == cb);
        if ca != cb {
            return ca < cb;
        }
        assert(sa.drop_first() =~= a@.subrange(i + 1, la as int));
        assert(sb.drop_first() =~= b@.subrange(i + 1, lb as int));
        i = i + 1;
    }
    i == la && i < lb
}

/// The names of `v` in ascending code point order.
pub(crate) fn sort_names(v: Vec<String>) -> (r: Vec<String>)
    requires
        distinct_names(v@),
    ensures
        distinct_names(r@),
        names(r@) == names(v@),
        ascending(string_views(r@)),
{
    let ghost orig = v@;
    let mut rest = v;
    let mut out: Vec<String> = Vec::new();
    let ghost mut k: int = 0;
    assert(string_views(out@) =~= Seq::<Seq<char>>::empty()) by {
        reveal(string_views);
    }
    assert(names(orig.subrange(0, 0)) =~= Set::<Seq<char>>::empty()) by {
        reveal(string_views);
    }
    while rest.len() > 0
        invariant
            0 <= k <= orig.len(),
            rest@ == orig.subrange(k, orig.len() as int),
            distinct_names(orig),
            ascending(string_views(out@)),
            out@.len() == k,
            names(out@) == names(orig.subrange(0, k)),
        decreases rest.len(),
    {
        let x = rest.remove(0);
        assert(x == orig[k]);
        proof {
            reveal(string_views);
            assert(!names(out@).contains(x@)) by {
                if names(out@).contains(x@) {
                    let j = choose|j: int| 0 <= j < k && orig.subrange(0, k)[j]@ == x@;
                    assert(string_views(orig)[j] == string_views(orig)[k]);
                }
            }
        }
        let mut p: usize = 0;
        let mut found = false;
        while p < out.len() && !found
            invariant
                0 <= p <= out.len(),
                !found ==> forall|j: int| 0 <= j < p ==> !text_lt(x@, #[trigger] string_views(out@)[j]),
                found ==> p < out.len() && text_lt(x@, string_views(out@)[p as int]),
                found ==> forall|j: int| 0 <= j < p ==> !text_lt(x@, #[trigger] string_views(out@)[j]),
            decreases out.len() - p + if found {
                0int
            } else {
                1int
            },
        {
            proof {
                reveal(string_views);
            }
            if text_less(x.as_str(), out[p].as_str()) {
                found = true;
            } else {
                p = p + 1;
            }
        }
        let ghost sv = string_views(out@);
        proof {
            reveal(string_views);
            assert forall|j: int| 0 <= j < p implies text_lt(#[trigger] sv[j], x@) by {
                assert(sv[j] != x@) by {
                    assert(names(out@).contains(sv[j]));
                }
                lemma_text_lt_total(sv[j], x@);
            }
            lemma_insert_ascending(sv, p as int, x@);
        }
        out.insert(p, x);
        proof {
            reveal(string_views);
            assert(string_views(out@) =~= sv.insert(p as int, orig[k]@));
            lemma_insert_to_set(sv, p as int, orig[k]@);
            let pre = string_views(orig.subrange(0, k));
            assert(string_views(orig.subrange(0, k + 1)) =~= pre.insert(pre.len() as int, orig[k]@));
            lemma_insert_to_set(pre, pre.len() as int, orig[k]@);
            assert(names(out@) =~= names(orig.subrange(0, k + 1)));
            k = k + 1;
        }
        assert(rest@ =~= orig.subrange(k, orig.len() as int));
    }
    proof {
        assert(orig.subrange(0, k) =~= orig);
        lemma_ascending_distinct(string_views(out@));
    }
    out
}

/// The names in `used` that `produced` lacks, each once.
fn names_missing(produced: &Vec<String>, used: &Vec<String>) -> (r: Vec<String>)
    requires
        distinct_names(used@),
    ensures
        distinct_names(r@),
        names(r@) == names(used@).difference(names(produced@)),
{
    let mut out: Vec<String> = Vec::new();
    assert(names(out@) =~= Set::<Seq<char>>::empty() && distinct_names(out@)) by {
        reveal(string_views);
    }
    assert(names(used@.subrange(0, 0)) =~= Set::<Seq<char>>::empty()) by {
        reveal(string_views);
    }
    let mut i: usize = 0;
    while i < used.len()
        invariant
            0 <= i <= used.len(),
            distinct_names(out@),
            names(out@) == names(used@.subrange(0, i as int)).difference(names(produced@)),
        decreases used.len() - i,
    {
        let ghost before = names(out@);
        assert(names(used@.subrange(0, i as int + 1)) =~= names(used@.subrange(0, i as int)).insert(used@[i as int]@))
            by {
            reveal(string_views);
            assert(used@.subrange(0, i as int + 1) =~= used@.subrange(0, i as int).push(used@[i as int]));
            string_views(used@.subrange(0, i as int)).lemma_push_to_set_commute(used@[i as int]@);
            assert(string_views(used@.subrange(0, i as int + 1)) =~= string_views(used@.subrange(0, i as int)).push(
                used@[i as int]@,
            ));
        }
        if !contains_string(produced, &used[i]) {
            add_name(&mut out, &used[i]);
        }
        assert(names(out@) =~= names(used@.subrange(0, i as int + 1)).difference(names(produced@)));
        i = i + 1;
    }
    assert(used@.subrange(0, used.len() as int) =~= used@);
    out
}

impl Card {
    /// `ref` names on this card that no `as` on the same card produces,
    /// each once, in ascending code point order.
    pub fn unbound_refs(&self) -> (r: Vec<String>)
        ensures
            distinct_names(r@),
            names(r@) == card_unbound(*self),
            ascending(string_views(r@)),
    {
        let mut produced: Vec<String> = Vec::new();
        let mut used: Vec<String> = Vec::new();
        assert(names(produced@) =~= Set::<Seq<char>>::empty() && distinct_names(produced@)) by {
            reveal(string_views);
        }
        walk_abilities(self.abilities(), &mut produced, &mut used);
        walk_modes(self.modes(), &mut produced, &mut used);
        let r = sort_names(names_missing(&produced, &used));
        assert(names(r@) =~= card_unbound(*self));
        r
    }
}

impl Crest {
    /// `ref` names on this crest that no `as` on the same crest produces,
    /// each once, in ascending code point order.
    pub fn unbound_refs(&self) -> (r: Vec<String>)
        ensures
            distinct_names(r@),
            names(r@) == crest_unbound(*self),
            ascending(string_views(r@)),
    {
        let mut produced: Vec<String> = Vec::new();
        let mut used: Vec<String> = Vec::new();
        assert(names(produced@) =~= Set::<Seq<char>>::empty() && distinct_names(produced@)) by {
            reveal(string_views);
        }
        walk_abilities(self.abilities(), &mut produced, &mut used);
        let r = sort_names(names_missing(&produced, &used));
        assert(names(r@) =~= crest_unbound(*self));
        r
    }
}

/// Two ascending lists of the same texts are the same list.
pub proof fn lemma_ascending_unique(v: Seq<Seq<char>>, w: Seq<Seq<char>>)
    requires
        ascending(v),
        ascending(w),
        v.to_set() == w.to_set(),
    ensures
        v == w,
    decreases v.len(),
{
    if v.len() == 0 {
        if w.len() > 0 {
            assert(w.to_set().contains(w[0]));
        }
        assert(v =~= w);
    } else {
        if w.len() == 0 {
            assert(v.to_set().contains(v[0]));
        }
        lemma_ascending_least(v);
        lemma_ascending_least(w);
        if v[0] != w[0] {
            assert(text_lt(v[0], w[0]));
            assert(text_lt(w[0], v[0]));
            lemma_text_lt_trans(v[0], w[0], v[0]);
            lemma_text_lt_irrefl(v[0]);
        }
        let vt = v.drop_first();
        let wt = w.drop_first();
        assert(ascending(vt)) by {
            assert forall|i: int, j: int| 0 <= i < j < vt.len() implies text_lt(#[trigger] vt[i], #[trigger] vt[j]) by {
                assert(vt[i] == v[i + 1] && vt[j] == v[j + 1]);
            }
        }
        assert(ascending(wt)) by {
            assert forall|i: int, j: int| 0 <= i < j < wt.len() implies text_lt(#[trigger] wt[i], #[trigger] wt[j]) by {
                assert(wt[i] == w[i + 1] && wt[j] == w[j + 1]);
            }
        }
        assert(vt.to_set() =~= wt.to_set()) by {
            assert forall|x: Seq<char>| vt.to_set().contains(x) implies wt.to_set().contains(x) by {
                let i = choose|i: int| 0 <= i < vt.len() && vt[i] == x;
                assert(v[i + 1] == x);
                assert(text_lt(v[0], v[i + 1]));
                lemma_text_lt_irrefl(v[0]);
                assert(w.to_set().contains(x));
                let j = choose|j: int| 0 <= j < w.len() && w[j] == x;
                assert(j != 0);
                assert(wt[j - 1] == x);
            }
            assert forall|x: Seq<char>| wt.to_set().contains(x) implies vt.to_set().contains(x) by {
                let i = choose|i: int| 0 <= i < wt.len() && wt[i] == x;
                assert(w[i + 1] == x);
                assert(text_lt(w[0], w[i + 1]));
                lemma_text_lt_irrefl(w[0]);
                assert(v.to_set().contains(x));
                let j = choose|j: int| 0 <= j < v.len() && v[j] == x;
                assert(j != 0);
                assert(vt[j - 1] == x);
            }
        }
        lemma_ascending_unique(vt, wt);
        assert(v =~= w) by {
            assert forall|i: int| 0 <= i < v.len() implies v[i] == w[i] by {
                if i > 0 {
                    assert(v[i] == vt[i - 1] && w[i] == wt[i - 1]);
                }
            }
        }
    }
}

/// A crest and a card printing the same abilities, the card with no play
/// modes, leave the same names unbound, and their lists of unbound names
/// (ascending, as `unbound_refs` gives them) are the same list; a crest
/// without abilities leaves none.
pub proof fn lemma_crest_matches_card_unbound(card: Card, crest: Crest, rc: Seq<String>, rk: Seq<String>)
    requires
        card_ability_list(card) == crest_ability_list(crest),
        card_mode_list(card).len() == 0,
        names(rc) == card_unbound(card),
        ascending(string_views(rc)),
        names(rk) == crest_unbound(crest),
        ascending(string_views(rk)),
    ensures
        card_unbound(card) == crest_unbound(crest),
        string_views(rc) == string_views(rk),
        crest.abilities is None ==> crest_unbound(crest) == Set::<Seq<char>>::empty(),
{
    assert(modes_names(card_mode_list(card)) == (no_names(), no_names()));
    let a = abilities_names(card_ability_list(card));
    assert(a.1.union(no_names()).difference(a.0.union(no_names())) =~= a.1.difference(a.0));
    lemma_ascending_unique(string_views(rc), string_views(rk));
    if crest.abilities is None {
        assert(crest_ability_list(crest).len() == 0);
        assert(crest_unbound(crest) =~= Set::<Seq<char>>::empty());
    }
}

} // verus!
