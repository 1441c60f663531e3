//! Card filters and the candidate pools that target selectors draw from.

use vstd::prelude::*;
use crate::card::{
    card_tribes, contains_string, string_views, traits_is_set, Ability, Amount, Card, CardId, CardKind,
    Filter, FilterKind, OrderBy, PoolPick, StatWhich, VarKey, PoolSelector, RefPick, Selector, SelectorKind, Side, Tribe,
    TribeOrList, Zone, Effect, effect_as_bind,
};
use crate::db::{card_pos, CardDb};
use crate::ids::{spec_opponent, PlayerId};
use crate::state::{
    first_slot_with_id, fresh_from_card, inst_pos, BoundRef, CardInstance, DestroyedRecord, SourceRef, State,
    TargetOpt,
};

verus! {

/// The value an amount fixes without reading the match: its literal, else 0.
pub open spec fn amount_simple(a: Amount) -> i32 {
    match a {
        Amount::Int(n) => n,
        _ => 0,
    }
}

pub fn eval_amount_simple(a: &Amount) -> (r: i32)
    ensures
        r == amount_simple(*a),
{
    match a {
        Amount::Int(n) => *n,
        _ => 0,
    }
}

/// `v` equals the bound, when there is one.
pub open spec fn eq_bound(v: i32, b: Option<Box<Amount>>) -> bool {
    match b {
        Some(a) => v == amount_simple(*a),
        None => true,
    }
}

/// `v` is at most the bound, when there is one.
pub open spec fn le_bound(v: i32, b: Option<Box<Amount>>) -> bool {
    match b {
        Some(a) => v <= amount_simple(*a),
        None => true,
    }
}

/// `v` is at least the bound, when there is one.
pub open spec fn ge_bound(v: i32, b: Option<Box<Amount>>) -> bool {
    match b {
        Some(a) => v >= amount_simple(*a),
        None => true,
    }
}

/// `v` is listed, when there is a list.
pub open spec fn in_list(v: i32, l: Option<Vec<i32>>) -> bool {
    match l {
        Some(xs) => xs@.contains(v),
        None => true,
    }
}

/// `v` equals the flag, when there is one.
pub open spec fn flag_is(v: bool, o: Option<bool>) -> bool {
    match o {
        Some(b) => v == b,
        None => true,
    }
}

/// The instance carries one of the tribes.
pub open spec fn tribe_ok(c: CardInstance, t: TribeOrList) -> bool {
    match t {
        TribeOrList::One(tr) => c.tribes@.contains(tr),
        TribeOrList::Many(ts) => exists|i: int| 0 <= i < ts@.len() && c.tribes@.contains(#[trigger] ts@[i]),
    }
}

/// The instance is of the filtered card kind.
pub open spec fn filter_kind_ok(c: CardInstance, k: FilterKind) -> bool {
    match k {
        FilterKind::Follower => c.kind == CardKind::Follower,
        FilterKind::Spell => c.kind == CardKind::Spell,
        FilterKind::Amulet => c.kind == CardKind::Amulet,
        FilterKind::Card => true,
    }
}

/// Identity checks: tribe, card ids, kind and class.
pub open spec fn identity_ok(c: CardInstance, f: Filter) -> bool {
    &&& (match f.tribe {
        Some(t) => tribe_ok(c, t),
        None => true,
    })
    &&& (match f.card {
        Some(id) => c.card == id,
        None => true,
    })
    &&& (match f.cards {
        Some(ids) => ids@.contains(c.card),
        None => true,
    })
    &&& (match f.not_card {
        Some(id) => c.card != id,
        None => true,
    })
    &&& (match f.kind {
        Some(k) => filter_kind_ok(c, k),
        None => true,
    })
    &&& (match f.class {
        Some(cl) => c.class == cl,
        None => true,
    })
}

/// Stat checks: cost, base cost, attack and defense bounds.
pub open spec fn stats_ok(c: CardInstance, f: Filter) -> bool {
    &&& eq_bound(c.cost, f.cost_eq)
    &&& le_bound(c.cost, f.cost_lte)
    &&& ge_bound(c.cost, f.cost_gte)
    &&& in_list(c.cost, f.cost_in)
    &&& eq_bound(c.base_cost, f.base_cost_eq)
    &&& le_bound(c.base_cost, f.base_cost_lte)
    &&& ge_bound(c.base_cost, f.base_cost_gte)
    &&& in_list(c.base_cost, f.base_cost_in)
    &&& le_bound(c.attack, f.attack_lte)
    &&& ge_bound(c.attack, f.attack_gte)
    &&& le_bound(c.defense, f.defense_lte)
    &&& ge_bound(c.defense, f.defense_gte)
}

/// The instance has Last Words, printed or granted.
pub open spec fn has_last_words(c: CardInstance) -> bool {
    string_views(c.printed_tags@).contains("lastWords"@) || exists|i: int|
        0 <= i < c.granted@.len() && #[trigger] c.granted@[i] is LastWords
}

/// Some binding under `name` holds the field instance `id`.
pub open spec fn bound_on_field(b: Seq<(String, Vec<BoundRef>)>, name: Seq<char>, id: u32) -> bool {
    exists|i: int, j: int|
        0 <= i < b.len() && b[i].0@ == name && 0 <= j < b[i].1@.len() && #[trigger] b[i].1@[j]
            is Field && b[i].1@[j]->Field_id == id
}

/// Status checks: evolution, damage, traits, printed tags and the event context.
pub open spec fn status_ok(s: State, c: CardInstance, f: Filter) -> bool {
    &&& flag_is(c.evolved, f.evolved)
    &&& (match f.unevolved {
        Some(b) => c.evolved != b,
        None => true,
    })
    &&& flag_is(c.defense < c.max_defense, f.damaged)
    &&& (match f.has_trait {
        Some(k) => traits_is_set(c.traits, k),
        None => true,
    })
    &&& flag_is(has_last_words(c), f.has_last_words)
    &&& flag_is(string_views(c.printed_tags@).contains("spellboost"@), f.has_spellboost)
    &&& flag_is(c.flags.enhanced, f.enhanced)
    &&& (f.same_cost_group == Some(true) ==> (s.event_base_cost matches Some(base) && c.base_cost
        == base && s.event_inst_id != Some(c.id)))
    &&& (match f.did_not_attack_this_turn {
        Some(b) => c.flags.attacked_this_turn != b,
        None => true,
    })
    &&& flag_is(c.super_evolved, f.super_evolved)
    &&& (match f.not_bound {
        Some(name) => !bound_on_field(s.bindings@, name@, c.id),
        None => true,
    })
}

/// Whether an instance passes a filter. `all`, `any` and `not` combine
/// nested filters and then decide alone; otherwise every present check must hold.
pub open spec fn filter_holds(s: State, c: CardInstance, f: Filter) -> bool
    decreases f,
{
    match f.all {
        Some(xs) => filters_all(s, c, xs@),
        None => match f.any {
            Some(xs) => filters_any(s, c, xs@),
            None => match f.not {
                Some(x) => !filter_holds(s, c, *x),
                None => identity_ok(c, f) && stats_ok(c, f) && status_ok(s, c, f),
            },
        },
    }
}

/// Every filter of the list holds.
pub open spec fn filters_all(s: State, c: CardInstance, fs: Seq<Filter>) -> bool
    decreases fs,
{
    if fs.len() == 0 {
        true
    } else {
        filters_all(s, c, fs.subrange(0, fs.len() - 1)) && filter_holds(s, c, fs[fs.len() - 1])
    }
}

/// Some filter of the list holds.
pub open spec fn filters_any(s: State, c: CardInstance, fs: Seq<Filter>) -> bool
    decreases fs,
{
    if fs.len() == 0 {
        false
    } else {
        filters_any(s, c, fs.subrange(0, fs.len() - 1)) || filter_holds(s, c, fs[fs.len() - 1])
    }
}

proof fn lemma_filters_all_prefix(s: State, c: CardInstance, fs: Seq<Filter>, k: int)
    requires
        0 <= k <= fs.len(),
        filters_all(s, c, fs),
    ensures
        filters_all(s, c, fs.subrange(0, k)),
    decreases fs.len(),
{
    if k < fs.len() {
        let p = fs.subrange(0, fs.len() - 1);
        lemma_filters_all_prefix(s, c, p, k);
        assert(p.subrange(0, k) =~= fs.subrange(0, k));
    } else {
        assert(fs.subrange(0, k) =~= fs);
    }
}

proof fn lemma_filters_any_prefix(s: State, c: CardInstance, fs: Seq<Filter>, k: int)
    requires
        0 <= k <= fs.len(),
        filters_any(s, c, fs.subrange(0, k)),
    ensures
        filters_any(s, c, fs),
    decreases fs.len(),
{
    if k < fs.len() {
        let p = fs.subrange(0, fs.len() - 1);
        assert(p.subrange(0, k) =~= fs.subrange(0, k));
        lemma_filters_any_prefix(s, c, p, k);
    } else {
        assert(fs.subrange(0, k) =~= fs);
    }
}

fn tribes_contain(ts: &Vec<Tribe>, t: Tribe) -> (r: bool)
    ensures
        r == ts@.contains(t),
{
    let mut i: usize = 0;
    while i < ts.len()
        invariant
            0 <= i <= ts.len(),
            forall|j: int| 0 <= j < i ==> ts@[j] != t,
        decreases ts.len() - i,
    {
        if ts[i] == t {
            assert(ts@[i as int] == t);
            return true;
        }
        i = i + 1;
    }
    false
}

#[verifier::loop_isolation(false)]
fn tribe_matches(c: &CardInstance, t: &TribeOrList) -> (r: bool)
    ensures
        r == tribe_ok(*c, *t),
{
    match t {
        TribeOrList::One(tr) => tribes_contain(&c.tribes, *tr),
        TribeOrList::Many(ts) => {
            let mut i: usize = 0;
            while i < ts.len()
                invariant
                    0 <= i <= ts.len(),
                    forall|j: int| 0 <= j < i ==> !c.tribes@.contains(#[trigger] ts@[j]),
                decreases ts.len() - i,
            {
                if tribes_contain(&c.tribes, ts[i]) {
                    assert(c.tribes@.contains(ts@[i as int]));
                    return true;
                }
                i = i + 1;
            }
            false
        },
    }
}

fn i32_listed(xs: &Vec<i32>, v: i32) -> (r: bool)
    ensures
        r == xs@.contains(v),
{
    let mut i: usize = 0;
    while i < xs.len()
        invariant
            0 <= i <= xs.len(),
            forall|j: int| 0 <= j < i ==> xs@[j] != v,
        decreases xs.len() - i,
    {
        if xs[i] == v {
            assert(xs@[i as int] == v);
            return true;
        }
        i = i + 1;
    }
    false
}

fn card_listed(ids: &Vec<CardId>, id: CardId) -> (r: bool)
    ensures
        r == ids@.contains(id),
{
    let mut i: usize = 0;
    while i < ids.len()
        invariant
            0 <= i <= ids.len(),
            forall|j: int| 0 <= j < i ==> ids@[j] != id,
        decreases ids.len() - i,
    {
        if ids[i] == id {
            assert(ids@[i as int] == id);
            return true;
        }
        i = i + 1;
    }
    false
}

pub(crate) fn identity_matches(c: &CardInstance, f: &Filter) -> (r: bool)
    ensures
        r == identity_ok(*c, *f),
{
    if let Some(t) = &f.tribe {
        if !tribe_matches(c, t) {
            return false;
        }
    }
    if let Some(id) = f.card {
        if c.card != id {
            return false;
        }
    }
    if let Some(ids) = &f.cards {
        if !card_listed(ids, c.card) {
            return false;
        }
    }
    if let Some(id) = f.not_card {
        if c.card == id {
            return false;
        }
    }
    if let Some(k) = f.kind {
        let ok = match k {
            FilterKind::Follower => c.kind == CardKind::Follower,
            FilterKind::Spell => c.kind == CardKind::Spell,
            FilterKind::Amulet => c.kind == CardKind::Amulet,
            FilterKind::Card => true,
        };
        if !ok {
            return false;
        }
    }
    if let Some(cl) = f.class {
        if c.class != cl {
            return false;
        }
    }
    true
}

fn eq_bound_holds(v: i32, b: &Option<Box<Amount>>) -> (r: bool)
    ensures
        r == eq_bound(v, *b),
{
    match b {
        Some(a) => v == eval_amount_simple(&**a),
        None => true,
    }
}

fn le_bound_holds(v: i32, b: &Option<Box<Amount>>) -> (r: bool)
    ensures
        r == le_bound(v, *b),
{
    match b {
        Some(a) => v <= eval_amount_simple(&**a),
        None => true,
    }
}

fn ge_bound_holds(v: i32, b: &Option<Box<Amount>>) -> (r: bool)
    ensures
        r == ge_bound(v, *b),
{
    match b {
        Some(a) => v >= eval_amount_simple(&**a),
        None => true,
    }
}

fn in_list_holds(v: i32, l: &Option<Vec<i32>>) -> (r: bool)
    ensures
        r == in_list(v, *l),
{
    match l {
        Some(xs) => i32_listed(xs, v),
        None => true,
    }
}

fn stats_match(c: &CardInstance, f: &Filter) -> (r: bool)
    ensures
        r == stats_ok(*c, *f),
{
    eq_bound_holds(c.cost, &f.cost_eq) && le_bound_holds(c.cost, &f.cost_lte) && ge_bound_holds(
        c.cost,
        &f.cost_gte,
    ) && in_list_holds(c.cost, &f.cost_in) && eq_bound_holds(c.base_cost, &f.base_cost_eq)
        && le_bound_holds(c.base_cost, &f.base_cost_lte) && ge_bound_holds(
        c.base_cost,
        &f.base_cost_gte,
    ) && in_list_holds(c.base_cost, &f.base_cost_in) && le_bound_holds(c.attack, &f.attack_lte)
        && ge_bound_holds(c.attack, &f.attack_gte) && le_bound_holds(c.defense, &f.defense_lte)
        && ge_bound_holds(c.defense, &f.defense_gte)
}

fn last_words_present(c: &CardInstance) -> (r: bool)
    ensures
        r == has_last_words(*c),
{
    let tag = String::from_str("lastWords");
    proof {
        reveal_strlit("lastWords");
    }
    if contains_string(&c.printed_tags, &tag) {
        return true;
    }
    let mut i: usize = 0;
    while i < c.granted.len()
        invariant
            0 <= i <= c.granted.len(),
            !string_views(c.printed_tags@).contains("lastWords"@),
            forall|j: int| 0 <= j < i ==> !(#[trigger] c.granted@[j] is LastWords),
        decreases c.granted.len() - i,
    {
        if let Ability::LastWords { .. } = &c.granted[i] {
            assert(c.granted@[i as int] is LastWords);
            return true;
        }
        i = i + 1;
    }
    false
}

fn spellboost_printed(c: &CardInstance) -> (r: bool)
    ensures
        r == string_views(c.printed_tags@).contains("spellboost"@),
{
    let tag = String::from_str("spellboost");
    proof {
        reveal_strlit("spellboost");
    }
    contains_string(&c.printed_tags, &tag)
}

#[verifier::loop_isolation(false)]
fn field_bound(state: &State, name: &String, id: u32) -> (r: bool)
    ensures
        r == bound_on_field(state.bindings@, name@, id),
{
    let b = &state.bindings;
    let mut i: usize = 0;
    while i < b.len()
        invariant
            0 <= i <= b.len(),
            forall|x: int, y: int|
                0 <= x < i && b@[x].0@ == name@ && 0 <= y < b@[x].1@.len() ==> !(#[trigger] b@[x].1@[y]
                    is Field && b@[x].1@[y]->Field_id == id),
        decreases b.len() - i,
    {
        if b[i].0 == *name {
            let refs = &b[i].1;
            let mut j: usize = 0;
            while j < refs.len()
                invariant
                    0 <= i < b.len(),
                    refs@ == b@[i as int].1@,
                    b@[i as int].0@ == name@,
                    0 <= j <= refs.len(),
                    forall|y: int| 0 <= y < j ==> !(#[trigger] refs@[y] is Field && refs@[y]->Field_id == id),
                decreases refs.len() - j,
            {
                if let BoundRef::Field { id: rid, .. } = refs[j] {
                    if rid == id {
                        assert(b@[i as int].1@[j as int] is Field && b@[i as int].1@[j as int]->Field_id == id);
                        assert(bound_on_field(state.bindings@, name@, id));
                        return true;
                    }
                }
                j = j + 1;
            }
        }
        i = i + 1;
    }
    false
}

fn status_matches(state: &State, c: &CardInstance, f: &Filter) -> (r: bool)
    ensures
        r == status_ok(*state, *c, *f),
{
    if let Some(b) = f.evolved {
        if c.evolved != b {
            return false;
        }
    }
    if let Some(b) = f.unevolved {
        if c.evolved == b {
            return false;
        }
    }
    if let Some(b) = f.damaged {
        if c.damaged() != b {
            return false;
        }
    }
    if let Some(tk) = f.has_trait {
        if !c.traits.is_set(tk) {
            return false;
        }
    }
    if let Some(b) = f.has_last_words {
        if last_words_present(c) != b {
            return false;
        }
    }
    if let Some(b) = f.has_spellboost {
        if spellboost_printed(c) != b {
            return false;
        }
    }
    if let Some(b) = f.enhanced {
        if c.flags.enhanced != b {
            return false;
        }
    }
    if f.same_cost_group == Some(true) {
        match state.event_base_cost {
            None => {
                return false;
            },
            Some(base) => {
                if c.base_cost != base {
                    return false;
                }
            },
        }
        if state.event_inst_id == Some(c.id) {
            return false;
        }
    }
    if let Some(b) = f.did_not_attack_this_turn {
        if c.flags.attacked_this_turn == b {
            return false;
        }
    }
    if let Some(b) = f.super_evolved {
        if c.super_evolved != b {
            return false;
        }
    }
    if let Some(name) = &f.not_bound {
        if field_bound(state, name, c.id) {
            return false;
        }
    }
    true
}

fn all_match(state: &State, who: PlayerId, c: &CardInstance, all: &Vec<Filter>) -> (r: bool)
    ensures
        r == filters_all(*state, *c, all@),
    decreases all,
{
    let mut i: usize = 0;
    while i < all.len()
        invariant
            0 <= i <= all.len(),
            filters_all(*state, *c, all@.subrange(0, i as int)),
        decreases all.len() - i,
    {
        let ok = inst_matches_filter(state, who, c, &all[i]);
        let ghost s1 = all@.subrange(0, i as int + 1);
        assert(s1.subrange(0, s1.len() - 1) =~= all@.subrange(0, i as int));
        assert(s1[s1.len() - 1] == all@[i as int]);
        if !ok {
            proof {
                if filters_all(*state, *c, all@) {
                    lemma_filters_all_prefix(*state, *c, all@, i as int + 1);
                }
            }
            return false;
        }
        i = i + 1;
    }
    assert(all@.subrange(0, all.len() as int) =~= all@);
    true
}

fn any_match(state: &State, who: PlayerId, c: &CardInstance, any: &Vec<Filter>) -> (r: bool)
    ensures
        r == filters_any(*state, *c, any@),
    decreases any,
{
    let mut i: usize = 0;
    while i < any.len()
        invariant
            0 <= i <= any.len(),
            !filters_any(*state, *c, any@.subrange(0, i as int)),
        decreases any.len() - i,
    {
        let ok = inst_matches_filter(state, who, c, &any[i]);
        let ghost s1 = any@.subrange(0, i as int + 1);
        assert(s1.subrange(0, s1.len() - 1) =~= any@.subrange(0, i as int));
        assert(s1[s1.len() - 1] == any@[i as int]);
        if ok {
            proof {
                lemma_filters_any_prefix(*state, *c, any@, i as int + 1);
            }
            return true;
        }
        i = i + 1;
    }
    assert(any@.subrange(0, any.len() as int) =~= any@);
    false
}

/// Whether `c` passes `f` in `state`; `who` is the seat the instance belongs to.
pub fn inst_matches_filter(state: &State, who: PlayerId, c: &CardInstance, f: &Filter) -> (r: bool)
    ensures
        r == filter_holds(*state, *c, *f),
    decreases f,
{
    if let Some(all) = &f.all {
        return all_match(state, who, c, all);
    }
    if let Some(any) = &f.any {
        return any_match(state, who, c, any);
    }
    if let Some(n) = &f.not {
        return !inst_matches_filter(state, who, c, &**n);
    }
    identity_matches(c, f) && stats_match(c, f) && status_matches(state, c, f)
}

/// A fusion partner filter is an instance filter.
pub fn filter_matches_card(state: &State, who: PlayerId, inst: &CardInstance, f: &Filter) -> (r: bool)
    ensures
        r == filter_holds(*state, *inst, *f),
{
    inst_matches_filter(state, who, inst, f)
}

/// Two instances agree on everything a filter reads.
pub open spec fn same_filter_view(a: CardInstance, b: CardInstance) -> bool {
    &&& a.id == b.id
    &&& a.card == b.card
    &&& a.kind == b.kind
    &&& a.class == b.class
    &&& a.tribes@ == b.tribes@
    &&& a.base_cost == b.base_cost
    &&& a.cost == b.cost
    &&& a.attack == b.attack
    &&& a.defense == b.defense
    &&& a.max_defense == b.max_defense
    &&& a.evolved == b.evolved
    &&& a.super_evolved == b.super_evolved
    &&& a.traits == b.traits
    &&& string_views(a.printed_tags@).to_set() == string_views(b.printed_tags@).to_set()
    &&& a.granted@ == b.granted@
    &&& a.flags.enhanced == b.flags.enhanced
    &&& a.flags.attacked_this_turn == b.flags.attacked_this_turn
}

/// A filter reads only what `same_filter_view` compares: two instances that
/// agree there pass or fail every filter alike.
pub proof fn lemma_filter_view(s: State, a: CardInstance, b: CardInstance, f: Filter)
    requires
        same_filter_view(a, b),
    ensures
        filter_holds(s, a, f) == filter_holds(s, b, f),
    decreases f,
{
    let ta = string_views(a.printed_tags@);
    let tb = string_views(b.printed_tags@);
    assert(ta.contains("lastWords"@) == tb.contains("lastWords"@)) by {
        assert(ta.to_set().contains("lastWords"@) == tb.to_set().contains("lastWords"@));
    }
    assert(ta.contains("spellboost"@) == tb.contains("spellboost"@)) by {
        assert(ta.to_set().contains("spellboost"@) == tb.to_set().contains("spellboost"@));
    }
    match f.all {
        Some(xs) => lemma_filters_all_view(s, a, b, xs@),
        None => match f.any {
            Some(xs) => lemma_filters_any_view(s, a, b, xs@),
            None => match f.not {
                Some(x) => lemma_filter_view(s, a, b, *x),
                None => {
                    assert(has_last_words(a) == has_last_words(b));
                },
            },
        },
    }
}

proof fn lemma_filters_all_view(s: State, a: CardInstance, b: CardInstance, fs: Seq<Filter>)
    requires
        same_filter_view(a, b),
    ensures
        filters_all(s, a, fs) == filters_all(s, b, fs),
    decreases fs,
{
    if fs.len() > 0 {
        lemma_filters_all_view(s, a, b, fs.subrange(0, fs.len() - 1));
        lemma_filter_view(s, a, b, fs[fs.len() - 1]);
    }
}

proof fn lemma_filters_any_view(s: State, a: CardInstance, b: CardInstance, fs: Seq<Filter>)
    requires
        same_filter_view(a, b),
    ensures
        filters_any(s, a, fs) == filters_any(s, b, fs),
    decreases fs,
{
    if fs.len() > 0 {
        lemma_filters_any_view(s, a, b, fs.subrange(0, fs.len() - 1));
        lemma_filter_view(s, a, b, fs[fs.len() - 1]);
    }
}

/// Whether a selector kind admits an instance.
pub open spec fn spec_kind_ok(c: CardInstance, k: SelectorKind) -> bool {
    match k {
        SelectorKind::Follower => c.kind == CardKind::Follower,
        SelectorKind::Amulet => c.kind == CardKind::Amulet,
        SelectorKind::Card => true,
        SelectorKind::Character => c.kind == CardKind::Follower,
        SelectorKind::Leader | SelectorKind::Faith => false,
    }
}

pub fn kind_ok(c: &CardInstance, k: SelectorKind) -> (r: bool)
    ensures
        r == spec_kind_ok(*c, k),
{
    match k {
        SelectorKind::Follower => c.kind == CardKind::Follower,
        SelectorKind::Amulet => c.kind == CardKind::Amulet,
        SelectorKind::Card => true,
        SelectorKind::Character => c.kind == CardKind::Follower,
        SelectorKind::Leader | SelectorKind::Faith => false,
    }
}

/// A filter asks for cards destroyed this match, itself or through `all`.
pub open spec fn wants_destroyed(f: Filter) -> bool
    decreases f,
{
    if f.destroyed_this_match == Some(true) {
        true
    } else {
        match f.all {
            Some(xs) => any_wants_destroyed(xs@),
            None => false,
        }
    }
}

/// Some filter of the list asks for destroyed cards.
pub open spec fn any_wants_destroyed(fs: Seq<Filter>) -> bool
    decreases fs,
{
    if fs.len() == 0 {
        false
    } else {
        any_wants_destroyed(fs.subrange(0, fs.len() - 1)) || wants_destroyed(fs[fs.len() - 1])
    }
}

proof fn lemma_any_wants_prefix(fs: Seq<Filter>, k: int)
    requires
        0 <= k <= fs.len(),
        any_wants_destroyed(fs.subrange(0, k)),
    ensures
        any_wants_destroyed(fs),
    decreases fs.len(),
{
    if k < fs.len() {
        let p = fs.subrange(0, fs.len() - 1);
        assert(p.subrange(0, k) =~= fs.subrange(0, k));
        lemma_any_wants_prefix(p, k);
    } else {
        assert(fs.subrange(0, k) =~= fs);
    }
}

fn any_filter_wants_destroyed(fs: &Vec<Filter>) -> (r: bool)
    ensures
        r == any_wants_destroyed(fs@),
    decreases fs,
{
    let mut i: usize = 0;
    while i < fs.len()
        invariant
            0 <= i <= fs.len(),
            !any_wants_destroyed(fs@.subrange(0, i as int)),
        decreases fs.len() - i,
    {
        let w = filter_wants_destroyed(&fs[i]);
        let ghost s1 = fs@.subrange(0, i as int + 1);
        assert(s1.subrange(0, s1.len() - 1) =~= fs@.subrange(0, i as int));
        assert(s1[s1.len() - 1] == fs@[i as int]);
        if w {
            proof {
                lemma_any_wants_prefix(fs@, i as int + 1);
            }
            return true;
        }
        i = i + 1;
    }
    assert(fs@.subrange(0, fs.len() as int) =~= fs@);
    false
}

pub fn filter_wants_destroyed(f: &Filter) -> (r: bool)
    ensures
        r == wants_destroyed(*f),
    decreases f,
{
    if f.destroyed_this_match == Some(true) {
        return true;
    }
    if let Some(all) = &f.all {
        return any_filter_wants_destroyed(all);
    }
    false
}

/// A field instance a pool offers: not the excluded source, of the kind,
/// alive, passing the filter, and, for an enemy choice, neither Aura nor Ambush.
pub open spec fn field_pick_ok(
    s: State,
    controller: PlayerId,
    source: Option<SourceRef>,
    p: PoolSelector,
    who: PlayerId,
    c: CardInstance,
) -> bool {
    &&& !(p.other == Some(true) && (source matches Some(SourceRef::Field { id, .. }) && c.id == id))
    &&& spec_kind_ok(c, p.kind)
    &&& !(c.kind == CardKind::Follower && c.defense <= 0)
    &&& (match p.filter {
        Some(f) => filter_holds(s, c, f),
        None => true,
    })
    &&& !(who != controller && c.traits.aura == Some(true) && p.pick == PoolPick::Choose)
    &&& !(who != controller && c.traits.ambush == Some(true) && p.pick == PoolPick::Choose)
}

/// Field candidates among the first `n` slots, leftmost first.
pub open spec fn field_cands(
    s: State,
    controller: PlayerId,
    source: Option<SourceRef>,
    p: PoolSelector,
    who: PlayerId,
    field: Seq<Option<CardInstance>>,
    n: int,
) -> Seq<TargetOpt>
    decreases n,
{
    if n <= 0 {
        Seq::empty()
    } else {
        let prev = field_cands(s, controller, source, p, who, field, n - 1);
        match field[n - 1] {
            Some(c) => if field_pick_ok(s, controller, source, p, who, c) {
                prev.push(TargetOpt::Slot { player: who, slot: (n - 1) as u8 })
            } else {
                prev
            },
            None => prev,
        }
    }
}

/// Hand candidates among the first `n` cards.
pub open spec fn hand_cands(
    s: State,
    controller: PlayerId,
    p: PoolSelector,
    exclude_hand: Option<usize>,
    who: PlayerId,
    hand: Seq<CardInstance>,
    n: int,
) -> Seq<TargetOpt>
    decreases n,
{
    if n <= 0 {
        Seq::empty()
    } else {
        let prev = hand_cands(s, controller, p, exclude_hand, who, hand, n - 1);
        let excluded = exclude_hand == Some((n - 1) as usize) && who == controller;
        let passes = match p.filter {
            Some(f) => filter_holds(s, hand[n - 1], f),
            None => true,
        };
        if !excluded && passes {
            prev.push(TargetOpt::Hand { player: who, pos: (n - 1) as u8 })
        } else {
            prev
        }
    }
}

/// Deck candidates among the first `n` cards.
pub open spec fn deck_cands(s: State, p: PoolSelector, who: PlayerId, deck: Seq<CardInstance>, n: int) -> Seq<
    TargetOpt,
>
    decreases n,
{
    if n <= 0 {
        Seq::empty()
    } else {
        let prev = deck_cands(s, p, who, deck, n - 1);
        let c = deck[n - 1];
        let passes = match p.filter {
            Some(f) => filter_holds(s, c, f),
            None => true,
        };
        if spec_kind_ok(c, p.kind) && passes {
            prev.push(TargetOpt::Deck { player: who, id: c.id })
        } else {
            prev
        }
    }
}

/// The printed card carries one of the tribes.
pub open spec fn card_tribe_ok(card: Card, t: TribeOrList) -> bool {
    match t {
        TribeOrList::One(tr) => card_tribes(card)@.contains(tr),
        TribeOrList::Many(ts) => exists|i: int|
            0 <= i < ts@.len() && card_tribes(card)@.contains(#[trigger] ts@[i]),
    }
}

/// A destroyed record offered by a destroyed-this-match filter: from the
/// field, of the kind, and matching the filter's tribe and card id.
pub open spec fn history_pick_ok(db: CardDb, p: PoolSelector, r: DestroyedRecord) -> bool {
    &&& r.from_field
    &&& !(p.kind == SelectorKind::Follower && r.kind != CardKind::Follower)
    &&& (match p.filter {
        Some(f) => (match f.tribe {
            Some(t) => card_pos(db.cards@, r.card, 0) >= 0 && card_tribe_ok(
                db.cards@[card_pos(db.cards@, r.card, 0)],
                t,
            ),
            None => true,
        }) && (match f.card {
            Some(id) => r.card == id,
            None => true,
        }),
        None => true,
    })
}

/// Destroyed-this-match candidates among the first `n` records; a
/// random-distinct pick offers each card once.
pub open spec fn history_cands(db: CardDb, p: PoolSelector, recs: Seq<DestroyedRecord>, n: int) -> Seq<
    TargetOpt,
>
    decreases n,
{
    if n <= 0 {
        Seq::empty()
    } else {
        let prev = history_cands(db, p, recs, n - 1);
        let r = recs[n - 1];
        if history_pick_ok(db, p, r) && !(p.pick == PoolPick::RandomDistinct && prev.contains(
            TargetOpt::Card(r.card),
        )) {
            prev.push(TargetOpt::Card(r.card))
        } else {
            prev
        }
    }
}

/// What one seat offers a pool selector.
pub open spec fn seat_cands(
    db: CardDb,
    s: State,
    controller: PlayerId,
    source: Option<SourceRef>,
    p: PoolSelector,
    exclude_hand: Option<usize>,
    who: PlayerId,
) -> Seq<TargetOpt> {
    let seat = s.seat(who);
    if p.filter matches Some(f) && f.destroyed_this_match == Some(true) {
        history_cands(db, p, seat.destroyed_history@, seat.destroyed_history@.len() as int)
    } else {
        match p.zone {
            Zone::Leader => if p.kind == SelectorKind::Leader || p.kind == SelectorKind::Character || p.kind
                == SelectorKind::Card {
                seq![TargetOpt::Leader { player: who }]
            } else {
                Seq::empty()
            },
            Zone::Field => {
                let f = field_cands(s, controller, source, p, who, seat.field@, seat.field@.len() as int);
                if p.kind == SelectorKind::Character || p.include_leader == Some(true) {
                    f.push(TargetOpt::Leader { player: who })
                } else {
                    f
                }
            },
            Zone::Hand => hand_cands(s, controller, p, exclude_hand, who, seat.hand@, seat.hand@.len() as int),
            Zone::Deck => deck_cands(s, p, who, seat.deck@, seat.deck@.len() as int),
            Zone::Cemetery | Zone::Crests => Seq::empty(),
        }
    }
}

/// The seats a side covers from the controller's view, controller first.
pub open spec fn pool_sides(side: Side, controller: PlayerId) -> Seq<PlayerId> {
    match side {
        Side::Ally => seq![controller],
        Side::Enemy => seq![spec_opponent(controller)],
        Side::Any => seq![controller, spec_opponent(controller)],
    }
}

/// The instance a destroyed record stands for when a filter tests it: fresh
/// from its printed card, with the record's base cost and kind.
pub open spec fn record_inst(card: Card, r: DestroyedRecord) -> CardInstance {
    let c = choose|c: CardInstance| fresh_from_card(c, card, 0);
    CardInstance { base_cost: r.base_cost, kind: r.kind, ..c }
}

/// Whether a selector kind admits a destroyed record's card kind.
pub open spec fn record_kind_ok(k: SelectorKind, rk: CardKind) -> bool {
    match k {
        SelectorKind::Follower => rk == CardKind::Follower,
        SelectorKind::Amulet => rk == CardKind::Amulet,
        SelectorKind::Card | SelectorKind::Character => true,
        SelectorKind::Leader | SelectorKind::Faith => false,
    }
}

/// A record a destroyed-card filter offers: owned by the seat, of the kind,
/// its card known, and the filter passing on the card.
pub open spec fn destroyed_pick_ok(db: CardDb, s: State, p: PoolSelector, who: PlayerId, r: DestroyedRecord) -> bool {
    &&& r.owner == who
    &&& record_kind_ok(p.kind, r.kind)
    &&& card_pos(db.cards@, r.card, 0) >= 0
    &&& (match p.filter {
        Some(f) => filter_holds(s, record_inst(db.cards@[card_pos(db.cards@, r.card, 0)], r), f),
        None => true,
    })
}

/// Destroyed-card candidates among the first `n` records of a seat.
pub open spec fn destroyed_cands(
    db: CardDb,
    s: State,
    p: PoolSelector,
    who: PlayerId,
    recs: Seq<DestroyedRecord>,
    n: int,
) -> Seq<TargetOpt>
    decreases n,
{
    if n <= 0 {
        Seq::empty()
    } else {
        let prev = destroyed_cands(db, s, p, who, recs, n - 1);
        if destroyed_pick_ok(db, s, p, who, recs[n - 1]) {
            prev.push(TargetOpt::Card(recs[n - 1].card))
        } else {
            prev
        }
    }
}

/// Destroyed-card candidates over the given seats, in order.
pub open spec fn destroyed_over(db: CardDb, s: State, p: PoolSelector, sides: Seq<PlayerId>) -> Seq<TargetOpt>
    decreases sides.len(),
{
    if sides.len() == 0 {
        Seq::empty()
    } else {
        let who = sides[sides.len() - 1];
        let recs = s.seat(who).destroyed_history@;
        destroyed_over(db, s, p, sides.drop_last()) + destroyed_cands(db, s, p, who, recs, recs.len() as int)
    }
}

/// Seat candidates over the given seats, in order.
pub open spec fn seats_over(
    db: CardDb,
    s: State,
    controller: PlayerId,
    source: Option<SourceRef>,
    p: PoolSelector,
    exclude_hand: Option<usize>,
    sides: Seq<PlayerId>,
) -> Seq<TargetOpt>
    decreases sides.len(),
{
    if sides.len() == 0 {
        Seq::empty()
    } else {
        seats_over(db, s, controller, source, p, exclude_hand, sides.drop_last()) + seat_cands(
            db,
            s,
            controller,
            source,
            p,
            exclude_hand,
            sides[sides.len() - 1],
        )
    }
}

/// Everything a pool selector offers: destroyed cards when its filter asks
/// for them, otherwise each covered seat's candidates, controller first.
pub open spec fn pool_cands(
    db: CardDb,
    s: State,
    controller: PlayerId,
    source: Option<SourceRef>,
    p: PoolSelector,
    exclude_hand: Option<usize>,
) -> Seq<TargetOpt> {
    let sides = pool_sides(p.side, controller);
    if p.filter matches Some(f) && wants_destroyed(f) {
        destroyed_over(db, s, p, sides)
    } else {
        seats_over(db, s, controller, source, p, exclude_hand, sides)
    }
}

fn side_seats(side: Side, controller: PlayerId) -> (r: Vec<PlayerId>)
    ensures
        r@ == pool_sides(side, controller),
{
    match side {
        Side::Ally => vec![controller],
        Side::Enemy => vec![controller.opponent()],
        Side::Any => vec![controller, controller.opponent()],
    }
}

fn slice_has_tribe(ts: &[Tribe], t: Tribe) -> (r: bool)
    ensures
        r == ts@.contains(t),
{
    let mut i: usize = 0;
    while i < ts.len()
        invariant
            0 <= i <= ts.len(),
            forall|j: int| 0 <= j < i ==> ts@[j] != t,
        decreases ts.len() - i,
    {
        if ts[i] == t {
            assert(ts@[i as int] == t);
            return true;
        }
        i = i + 1;
    }
    false
}

#[verifier::loop_isolation(false)]
fn card_tribe_matches(card: &Card, t: &TribeOrList) -> (r: bool)
    ensures
        r == card_tribe_ok(*card, *t),
{
    let ts = card.tribes();
    match t {
        TribeOrList::One(tr) => slice_has_tribe(ts, *tr),
        TribeOrList::Many(want) => {
            let mut i: usize = 0;
            while i < want.len()
                invariant
                    0 <= i <= want.len(),
                    forall|j: int| 0 <= j < i ==> !card_tribes(*card)@.contains(#[trigger] want@[j]),
                decreases want.len() - i,
            {
                if slice_has_tribe(ts, want[i]) {
                    assert(card_tribes(*card)@.contains(want@[i as int]));
                    return true;
                }
                i = i + 1;
            }
            false
        },
    }
}

#[verifier::loop_isolation(false)]
fn push_history_cands(out: &mut Vec<TargetOpt>, db: &CardDb, state: &State, p: &PoolSelector, who: PlayerId)
    ensures
        final(out)@ == old(out)@ + history_cands(
            *db,
            *p,
            state.seat(who).destroyed_history@,
            state.seat(who).destroyed_history@.len() as int,
        ),
{
    let recs = &state.player(who).destroyed_history;
    let mut seen: Vec<CardId> = Vec::new();
    let mut i: usize = 0;
    while i < recs.len()
        invariant
            0 <= i <= recs.len(),
            out@ == old(out)@ + history_cands(*db, *p, recs@, i as int),
            seen@.len() == history_cands(*db, *p, recs@, i as int).len(),
            forall|k: int| 0 <= k < seen@.len() ==> history_cands(*db, *p, recs@, i as int)[k] == TargetOpt::Card(
                #[trigger] seen@[k],
            ),
        decreases recs.len() - i,
    {
        let r = recs[i];
        let ghost prev = history_cands(*db, *p, recs@, i as int);
        let mut ok = r.from_field;
        if p.kind == SelectorKind::Follower && r.kind != CardKind::Follower {
            ok = false;
        }
        if let Some(f) = &p.filter {
            if let Some(t) = &f.tribe {
                match db.card(r.card) {
                    Ok(card) => {
                        if !card_tribe_matches(card, t) {
                            ok = false;
                        }
                    },
                    Err(_) => {
                        ok = false;
                    },
                }
            }
            if let Some(id) = f.card {
                if r.card != id {
                    ok = false;
                }
            }
        }
        assert(ok == history_pick_ok(*db, *p, r));
        if ok {
            let dup = card_listed(&seen, r.card);
            assert(dup == prev.contains(TargetOpt::Card(r.card))) by {
                if dup {
                    let k = choose|k: int| 0 <= k < seen@.len() && seen@[k] == r.card;
                    assert(prev[k] == TargetOpt::Card(seen@[k]));
                }
                if prev.contains(TargetOpt::Card(r.card)) {
                    let k = choose|k: int| 0 <= k < prev.len() && prev[k] == TargetOpt::Card(r.card);
                    assert(prev[k] == TargetOpt::Card(seen@[k]));
                    assert(seen@[k] == r.card);
                }
            }
            if !(p.pick == PoolPick::RandomDistinct && dup) {
                out.push(TargetOpt::Card(r.card));
                seen.push(r.card);
            }
        }
        i = i + 1;
    }
}

#[verifier::loop_isolation(false)]
fn push_field_cands(
    out: &mut Vec<TargetOpt>,
    state: &State,
    controller: PlayerId,
    source: Option<SourceRef>,
    p: &PoolSelector,
    who: PlayerId,
)
    ensures
        final(out)@ == old(out)@ + field_cands(
            *state,
            controller,
            source,
            *p,
            who,
            state.seat(who).field@,
            state.seat(who).field@.len() as int,
        ),
{
    let field = &state.player(who).field;
    let mut i: usize = 0;
    while i < field.len()
        invariant
            0 <= i <= field.len(),
            out@ == old(out)@ + field_cands(*state, controller, source, *p, who, field@, i as int),
        decreases field.len() - i,
    {
        if let Some(c) = &field[i] {
            let mut ok = true;
            if p.other == Some(true) {
                if let Some(SourceRef::Field { id, .. }) = source {
                    if c.id == id {
                        ok = false;
                    }
                }
            }
            if !kind_ok(c, p.kind) {
                ok = false;
            }
            if c.kind == CardKind::Follower && c.defense <= 0 {
                ok = false;
            }
            if let Some(f) = &p.filter {
                if !inst_matches_filter(state, who, c, f) {
                    ok = false;
                }
            }
            if who != controller && c.is_aura() && p.pick == PoolPick::Choose {
                ok = false;
            }
            if who != controller && c.ambush_blocks() && p.pick == PoolPick::Choose {
                ok = false;
            }
            assert(ok == field_pick_ok(*state, controller, source, *p, who, *c));
            if ok {
                out.push(TargetOpt::Slot { player: who, slot: i as u8 });
            }
        }
        i = i + 1;
    }
}

#[verifier::loop_isolation(false)]
fn push_hand_cands(
    out: &mut Vec<TargetOpt>,
    state: &State,
    controller: PlayerId,
    p: &PoolSelector,
    exclude_hand: Option<usize>,
    who: PlayerId,
)
    ensures
        final(out)@ == old(out)@ + hand_cands(
            *state,
            controller,
            *p,
            exclude_hand,
            who,
            state.seat(who).hand@,
            state.seat(who).hand@.len() as int,
        ),
{
    let hand = &state.player(who).hand;
    let mut i: usize = 0;
    while i < hand.len()
        invariant
            0 <= i <= hand.len(),
            out@ == old(out)@ + hand_cands(*state, controller, *p, exclude_hand, who, hand@, i as int),
        decreases hand.len() - i,
    {
        let c = &hand[i];
        let excluded = exclude_hand == Some(i) && who == controller;
        let passes = match &p.filter {
            Some(f) => inst_matches_filter(state, who, c, f),
            None => true,
        };
        if !excluded && passes {
            out.push(TargetOpt::Hand { player: who, pos: i as u8 });
        }
        i = i + 1;
    }
}

#[verifier::loop_isolation(false)]
fn push_deck_cands(out: &mut Vec<TargetOpt>, state: &State, p: &PoolSelector, who: PlayerId)
    ensures
        final(out)@ == old(out)@ + deck_cands(
            *state,
            *p,
            who,
            state.seat(who).deck@,
            state.seat(who).deck@.len() as int,
        ),
{
    let deck = &state.player(who).deck;
    let mut i: usize = 0;
    while i < deck.len()
        invariant
            0 <= i <= deck.len(),
            out@ == old(out)@ + deck_cands(*state, *p, who, deck@, i as int),
        decreases deck.len() - i,
    {
        let c = &deck[i];
        let passes = match &p.filter {
            Some(f) => inst_matches_filter(state, who, c, f),
            None => true,
        };
        if kind_ok(c, p.kind) && passes {
            out.push(TargetOpt::Deck { player: who, id: c.id });
        }
        i = i + 1;
    }
}

fn push_seat_cands(
    out: &mut Vec<TargetOpt>,
    db: &CardDb,
    state: &State,
    controller: PlayerId,
    source: Option<SourceRef>,
    p: &PoolSelector,
    exclude_hand: Option<usize>,
    who: PlayerId,
)
    ensures
        final(out)@ == old(out)@ + seat_cands(*db, *state, controller, source, *p, exclude_hand, who),
{
    let destroyed = match &p.filter {
        Some(f) => f.destroyed_this_match == Some(true),
        None => false,
    };
    if destroyed {
        push_history_cands(out, db, state, p, who);
        return;
    }
    match p.zone {
        Zone::Leader => {
            if p.kind == SelectorKind::Leader || p.kind == SelectorKind::Character || p.kind
                == SelectorKind::Card {
                out.push(TargetOpt::Leader { player: who });
                assert(out@ =~= old(out)@ + seq![TargetOpt::Leader { player: who }]);
            } else {
                assert(out@ =~= old(out)@ + Seq::<TargetOpt>::empty());
            }
        },
        Zone::Field => {
            push_field_cands(out, state, controller, source, p, who);
            if p.kind == SelectorKind::Character || p.include_leader == Some(true) {
                out.push(TargetOpt::Leader { player: who });
            }
        },
        Zone::Hand => push_hand_cands(out, state, controller, p, exclude_hand, who),
        Zone::Deck => push_deck_cands(out, state, p, who),
        Zone::Cemetery | Zone::Crests => {
            assert(out@ =~= old(out)@ + Seq::<TargetOpt>::empty());
        },
    }
}

#[verifier::loop_isolation(false)]
fn push_destroyed_cands(out: &mut Vec<TargetOpt>, db: &CardDb, state: &State, p: &PoolSelector, who: PlayerId)
    ensures
        final(out)@ == old(out)@ + destroyed_cands(
            *db,
            *state,
            *p,
            who,
            state.seat(who).destroyed_history@,
            state.seat(who).destroyed_history@.len() as int,
        ),
{
    let recs = &state.player(who).destroyed_history;
    let mut i: usize = 0;
    while i < recs.len()
        invariant
            0 <= i <= recs.len(),
            out@ == old(out)@ + destroyed_cands(*db, *state, *p, who, recs@, i as int),
        decreases recs.len() - i,
    {
        let rec = recs[i];
        let mut ok = rec.owner == who;
        let kind_fits = match p.kind {
            SelectorKind::Follower => rec.kind == CardKind::Follower,
            SelectorKind::Amulet => rec.kind == CardKind::Amulet,
            SelectorKind::Card | SelectorKind::Character => true,
            SelectorKind::Leader | SelectorKind::Faith => false,
        };
        if !kind_fits {
            ok = false;
        }
        if ok {
            match db.card(rec.card) {
                Ok(card) => {
                    if let Some(f) = &p.filter {
                        let base = CardInstance::from_card(card, 0);
                        proof {
                            assert(fresh_from_card(base, *card, 0));
                        }
                        let mut inst = base;
                        inst.base_cost = rec.base_cost;
                        inst.kind = rec.kind;
                        let pass = inst_matches_filter(state, who, &inst, f);
                        proof {
                            let want = record_inst(*card, rec);
                            assert(inst.granted@ =~= want.granted@);
                            lemma_filter_view(*state, inst, want, *f);
                        }
                        if !pass {
                            ok = false;
                        }
                    }
                },
                Err(_) => {
                    ok = false;
                },
            }
        }
        assert(ok == destroyed_pick_ok(*db, *state, *p, who, rec));
        if ok {
            out.push(TargetOpt::Card(rec.card));
        }
        i = i + 1;
    }
}

/// Destroyed cards of the covered seats that a destroyed-card filter offers.
pub fn pool_destroyed_history(db: &CardDb, state: &State, controller: PlayerId, p: &PoolSelector) -> (r: Vec<
    TargetOpt,
>)
    ensures
        r@ == destroyed_over(*db, *state, *p, pool_sides(p.side, controller)),
{
    let sides = side_seats(p.side, controller);
    let mut out: Vec<TargetOpt> = Vec::new();
    let mut i: usize = 0;
    while i < sides.len()
        invariant
            sides@ == pool_sides(p.side, controller),
            0 <= i <= sides.len(),
            out@ == destroyed_over(*db, *state, *p, sides@.subrange(0, i as int)),
        decreases sides.len() - i,
    {
        let ghost pre = sides@.subrange(0, i as int + 1);
        assert(pre.drop_last() =~= sides@.subrange(0, i as int));
        push_destroyed_cands(&mut out, db, state, p, sides[i]);
        i = i + 1;
    }
    assert(sides@.subrange(0, sides.len() as int) =~= sides@);
    out
}

/// Targets a pool selector offers `controller`, in seat order, then slot,
/// hand or deck order. `source` is the effect's origin (for `other`);
/// `exclude_hand` leaves one of the controller's hand positions out.
pub fn pool_candidates(
    db: &CardDb,
    state: &State,
    controller: PlayerId,
    source: Option<SourceRef>,
    p: &PoolSelector,
    exclude_hand: Option<usize>,
) -> (r: Vec<TargetOpt>)
    ensures
        r@ == pool_cands(*db, *state, controller, source, *p, exclude_hand),
{
    let wants = match &p.filter {
        Some(f) => filter_wants_destroyed(f),
        None => false,
    };
    if wants {
        return pool_destroyed_history(db, state, controller, p);
    }
    let sides = side_seats(p.side, controller);
    let mut out: Vec<TargetOpt> = Vec::new();
    let mut i: usize = 0;
    while i < sides.len()
        invariant
            sides@ == pool_sides(p.side, controller),
            0 <= i <= sides.len(),
            out@ == seats_over(*db, *state, controller, source, *p, exclude_hand, sides@.subrange(0, i as int)),
        decreases sides.len() - i,
    {
        let ghost pre = sides@.subrange(0, i as int + 1);
        assert(pre.drop_last() =~= sides@.subrange(0, i as int));
        push_seat_cands(&mut out, db, state, controller, source, p, exclude_hand, sides[i]);
        i = i + 1;
    }
    assert(sides@.subrange(0, sides.len() as int) =~= sides@);
    out
}

/// Both seats' fields fit slot numbers.
pub open spec fn slots_fit(s: State) -> bool {
    s.seat(PlayerId::A).field@.len() <= 256 && s.seat(PlayerId::B).field@.len() <= 256
}

/// The field slot of instance `id` on `who`'s field, as a target.
pub open spec fn field_target(s: State, who: PlayerId, id: u32) -> Option<TargetOpt> {
    let k = first_slot_with_id(s.seat(who).field@, id, 0);
    if k >= 0 {
        Some(TargetOpt::Slot { player: who, slot: k as u8 })
    } else {
        None
    }
}

/// The hand position of instance `id` in `who`'s hand, as a target.
pub open spec fn hand_target(s: State, who: PlayerId, id: u32) -> Option<TargetOpt> {
    let k = inst_pos(s.seat(who).hand@, id, 0);
    if k >= 0 {
        Some(TargetOpt::Hand { player: who, pos: k as u8 })
    } else {
        None
    }
}

fn find_field_target(state: &State, who: PlayerId, id: u32) -> (r: Option<TargetOpt>)
    requires
        slots_fit(*state),
    ensures
        r == field_target(*state, who, id),
{
    match state.find_field(who, id) {
        Some(slot) => Some(TargetOpt::Slot { player: who, slot }),
        None => None,
    }
}

#[verifier::loop_isolation(false)]
fn find_hand_target(state: &State, who: PlayerId, id: u32) -> (r: Option<TargetOpt>)
    ensures
        r == hand_target(*state, who, id),
{
    let hand = &state.player(who).hand;
    let mut i: usize = 0;
    while i < hand.len()
        invariant
            0 <= i <= hand.len(),
            inst_pos(hand@, id, 0) == inst_pos(hand@, id, i as int),
        decreases hand.len() - i,
    {
        if hand[i].id == id {
            return Some(TargetOpt::Hand { player: who, pos: i as u8 });
        }
        i = i + 1;
    }
    None
}

/// Where an effect's source stands, as a target: its field slot or hand
/// position while it is still there, otherwise its controller's leader.
pub open spec fn spec_source_as_target(s: State, source: SourceRef) -> Option<TargetOpt> {
    match source {
        SourceRef::Field { player, id } => field_target(s, player, id),
        SourceRef::Hand { player, id } => hand_target(s, player, id),
        SourceRef::Leader { player } => Some(TargetOpt::Leader { player }),
        SourceRef::Spell { player, .. } => Some(TargetOpt::Leader { player }),
        SourceRef::Crest { player, .. } => Some(TargetOpt::Leader { player }),
    }
}

pub fn source_as_target(state: &State, source: SourceRef) -> (r: Option<TargetOpt>)
    requires
        slots_fit(*state),
    ensures
        r == spec_source_as_target(*state, source),
{
    match source {
        SourceRef::Field { player, id } => find_field_target(state, player, id),
        SourceRef::Hand { player, id } => find_hand_target(state, player, id),
        SourceRef::Leader { player } => Some(TargetOpt::Leader { player }),
        SourceRef::Spell { player, .. } => Some(TargetOpt::Leader { player }),
        SourceRef::Crest { player, .. } => Some(TargetOpt::Leader { player }),
    }
}

/// The event subject as it stands now: with an instance id, its field slot
/// (looked up first on the hinted seat, else A then B), none once it left
/// the field; without an id, the subject as recorded.
pub open spec fn spec_live_field_subject(s: State, subject: Option<TargetOpt>, subject_id: Option<u32>) -> Option<
    TargetOpt,
> {
    match subject_id {
        Some(id) => {
            let first = match subject {
                Some(TargetOpt::Slot { player, .. }) => player,
                _ => PlayerId::A,
            };
            match field_target(s, first, id) {
                Some(t) => Some(t),
                None => field_target(s, spec_opponent(first), id),
            }
        },
        None => subject,
    }
}

pub fn live_field_subject(state: &State, subject: Option<TargetOpt>, subject_id: Option<u32>) -> (r: Option<
    TargetOpt,
>)
    requires
        slots_fit(*state),
    ensures
        r == spec_live_field_subject(*state, subject, subject_id),
{
    if let Some(id) = subject_id {
        let hinted = match &subject {
            Some(TargetOpt::Slot { player, .. }) => Some(*player),
            _ => None,
        };
        let first = match hinted {
            Some(p) => p,
            None => PlayerId::A,
        };
        if let Some(t) = find_field_target(state, first, id) {
            return Some(t);
        }
        return find_field_target(state, first.opponent(), id);
    }
    subject
}

/// The refs bound under `name`: the first binding with that name.
pub open spec fn bound_refs(b: Seq<(String, Vec<BoundRef>)>, name: Seq<char>, k: int) -> Option<Seq<BoundRef>>
    decreases b.len() - k,
{
    if k < 0 || k >= b.len() {
        None
    } else if b[k].0@ == name {
        Some(b[k].1@)
    } else {
        bound_refs(b, name, k + 1)
    }
}

/// A bound ref as a live target: field and hand instances where they now
/// stand, deck instances while still in the deck, leaders and cards as they are.
pub open spec fn bound_target(s: State, r: BoundRef) -> Option<TargetOpt> {
    match r {
        BoundRef::Field { player, id, .. } => field_target(s, player, id),
        BoundRef::Leader { player } => Some(TargetOpt::Leader { player }),
        BoundRef::Hand { player, id } => hand_target(s, player, id),
        BoundRef::Deck { player, id } => if inst_pos(s.seat(player).deck@, id, 0) >= 0 {
            Some(TargetOpt::Deck { player, id })
        } else {
            None
        },
        BoundRef::Card(id) => Some(TargetOpt::Card(id)),
    }
}

/// Live targets of the first `n` refs, dropping those that are gone.
pub open spec fn bound_targets(s: State, refs: Seq<BoundRef>, n: int) -> Seq<TargetOpt>
    decreases n,
{
    if n <= 0 {
        Seq::empty()
    } else {
        let prev = bound_targets(s, refs, n - 1);
        match bound_target(s, refs[n - 1]) {
            Some(t) => prev.push(t),
            None => prev,
        }
    }
}

/// What `resolve_bound` gives: the live targets bound under `name`.
pub open spec fn spec_resolve_bound(s: State, name: Seq<char>) -> Seq<TargetOpt> {
    match bound_refs(s.bindings@, name, 0) {
        Some(refs) => bound_targets(s, refs, refs.len() as int),
        None => Seq::empty(),
    }
}

#[verifier::loop_isolation(false)]
fn deck_holds(state: &State, who: PlayerId, id: u32) -> (r: bool)
    ensures
        r == (inst_pos(state.seat(who).deck@, id, 0) >= 0),
{
    let deck = &state.player(who).deck;
    let mut i: usize = 0;
    while i < deck.len()
        invariant
            0 <= i <= deck.len(),
            inst_pos(deck@, id, 0) == inst_pos(deck@, id, i as int),
        decreases deck.len() - i,
    {
        if deck[i].id == id {
            return true;
        }
        i = i + 1;
    }
    false
}

fn live_bound_target(state: &State, r: BoundRef) -> (t: Option<TargetOpt>)
    requires
        slots_fit(*state),
    ensures
        t == bound_target(*state, r),
{
    match r {
        BoundRef::Field { player, id, .. } => find_field_target(state, player, id),
        BoundRef::Leader { player } => Some(TargetOpt::Leader { player }),
        BoundRef::Hand { player, id } => find_hand_target(state, player, id),
        BoundRef::Deck { player, id } => if deck_holds(state, player, id) {
            Some(TargetOpt::Deck { player, id })
        } else {
            None
        },
        BoundRef::Card(id) => Some(TargetOpt::Card(id)),
    }
}

/// Live targets bound under `name`.
#[verifier::loop_isolation(false)]
pub fn resolve_bound(state: &State, name: &str) -> (r: Vec<TargetOpt>)
    requires
        slots_fit(*state),
    ensures
        r@ == spec_resolve_bound(*state, name@),
{
    let b = &state.bindings;
    let key = String::from_str(name);
    let mut k: usize = 0;
    while k < b.len()
        invariant
            0 <= k <= b.len(),
            bound_refs(b@, name@, 0) == bound_refs(b@, name@, k as int),
        decreases b.len() - k,
    {
        if b[k].0 == key {
            let refs = &b[k].1;
            let mut out: Vec<TargetOpt> = Vec::new();
            let mut i: usize = 0;
            while i < refs.len()
                invariant
                    0 <= i <= refs.len(),
                    out@ == bound_targets(*state, refs@, i as int),
                decreases refs.len() - i,
            {
                if let Some(t) = live_bound_target(state, refs[i]) {
                    out.push(t);
                }
                i = i + 1;
            }
            return out;
        }
        k = k + 1;
    }
    Vec::new()
}

/// The key an extremum pick orders by: a leader's defense (or 0 for other
/// orders), a field or hand instance's stat, and 0 otherwise.
pub open spec fn spec_order_key(s: State, t: TargetOpt, order: Option<OrderBy>) -> i32 {
    match t {
        TargetOpt::Leader { player } => match order {
            Some(OrderBy::Defense) | None => s.seat(player).leader_defense,
            _ => 0,
        },
        _ => {
            let c = match t {
                TargetOpt::Slot { player, slot } => if slot < s.seat(player).field@.len() {
                    s.seat(player).field@[slot as int]
                } else {
                    None
                },
                TargetOpt::Hand { player, pos } => if pos < s.seat(player).hand@.len() {
                    Some(s.seat(player).hand@[pos as int])
                } else {
                    None
                },
                _ => None,
            };
            match c {
                Some(c) => match order {
                    Some(OrderBy::Attack) => c.attack,
                    Some(OrderBy::Defense) => c.defense,
                    Some(OrderBy::Cost) => c.cost,
                    Some(OrderBy::BaseCost) => c.base_cost,
                    None => 0,
                },
                None => 0,
            }
        },
    }
}

pub fn order_key(state: &State, t: &TargetOpt, order: Option<OrderBy>) -> (r: i32)
    ensures
        r == spec_order_key(*state, *t, order),
{
    if let TargetOpt::Leader { player } = t {
        return match order {
            Some(OrderBy::Defense) | None => state.player(*player).leader_defense,
            Some(OrderBy::Attack) => 0,
            Some(OrderBy::Cost) | Some(OrderBy::BaseCost) => 0,
        };
    }
    let c: Option<&CardInstance> = match t {
        TargetOpt::Slot { player, slot } => state.field_inst(*player, *slot),
        TargetOpt::Hand { player, pos } => {
            let hand = &state.player(*player).hand;
            if (*pos as usize) < hand.len() {
                Some(&hand[*pos as usize])
            } else {
                None
            }
        },
        _ => None,
    };
    match c {
        Some(c) => match order {
            Some(OrderBy::Attack) => c.attack,
            Some(OrderBy::Defense) => c.defense,
            Some(OrderBy::Cost) => c.cost,
            Some(OrderBy::BaseCost) => c.base_cost,
            None => 0,
        },
        None => 0,
    }
}

/// The best key among the first `n` candidates, from `init`.
pub open spec fn best_key(s: State, cands: Seq<TargetOpt>, order: Option<OrderBy>, high: bool, n: int) -> i32
    decreases n,
{
    if n <= 0 {
        if high {
            i32::MIN
        } else {
            i32::MAX
        }
    } else {
        let prev = best_key(s, cands, order, high, n - 1);
        let k = spec_order_key(s, cands[n - 1], order);
        if high {
            if k > prev {
                k
            } else {
                prev
            }
        } else {
            if k < prev {
                k
            } else {
                prev
            }
        }
    }
}

/// Candidates among the first `n` whose key equals `best`.
pub open spec fn tied_cands(s: State, cands: Seq<TargetOpt>, order: Option<OrderBy>, best: i32, n: int) -> Seq<
    TargetOpt,
>
    decreases n,
{
    if n <= 0 {
        Seq::empty()
    } else {
        let prev = tied_cands(s, cands, order, best, n - 1);
        if spec_order_key(s, cands[n - 1], order) == best {
            prev.push(cands[n - 1])
        } else {
            prev
        }
    }
}

/// A highest / lowest pick without a roll: every candidate tied for the
/// lowest key, or the first tied for the highest.
pub open spec fn spec_extremum(s: State, p: PoolSelector, cands: Seq<TargetOpt>) -> Seq<TargetOpt> {
    if cands.len() == 0 {
        cands
    } else {
        let high = p.pick == PoolPick::Highest;
        let best = best_key(s, cands, p.order_by, high, cands.len() as int);
        let tied = tied_cands(s, cands, p.order_by, best, cands.len() as int);
        if p.pick == PoolPick::Lowest {
            tied
        } else {
            tied.take(if tied.len() > 0 { 1int } else { 0int })
        }
    }
}

pub fn extremum_without_roll(state: &State, p: &PoolSelector, cands: Vec<TargetOpt>) -> (r: Vec<TargetOpt>)
    ensures
        r@ == spec_extremum(*state, *p, cands@),
{
    if cands.len() == 0 {
        return cands;
    }
    let high = p.pick == PoolPick::Highest;
    let mut best: i32 = if high {
        i32::MIN
    } else {
        i32::MAX
    };
    let mut i: usize = 0;
    while i < cands.len()
        invariant
            0 <= i <= cands.len(),
            high == (p.pick == PoolPick::Highest),
            best == best_key(*state, cands@, p.order_by, high, i as int),
        decreases cands.len() - i,
    {
        let k = order_key(state, &cands[i], p.order_by);
        if high {
            if k > best {
                best = k;
            }
        } else {
            if k < best {
                best = k;
            }
        }
        i = i + 1;
    }
    let mut tied: Vec<TargetOpt> = Vec::new();
    let mut j: usize = 0;
    while j < cands.len()
        invariant
            0 <= j <= cands.len(),
            tied@ == tied_cands(*state, cands@, p.order_by, best, j as int),
        decreases cands.len() - j,
    {
        if order_key(state, &cands[j], p.order_by) == best {
            tied.push(cands[j]);
        }
        j = j + 1;
    }
    if p.pick == PoolPick::Lowest {
        tied
    } else {
        let mut out: Vec<TargetOpt> = Vec::new();
        if tied.len() > 0 {
            out.push(tied[0]);
        }
        assert(out@ =~= tied@.take(if tied@.len() > 0 { 1int } else { 0int }));
        out
    }
}

/// A random pick resolved without a roll: the first candidate.
pub open spec fn spec_pick_first(cands: Seq<TargetOpt>) -> Seq<TargetOpt> {
    cands.take(if cands.len() > 0 { 1int } else { 0int })
}

pub fn pick_random_targets(state: &State, p: &PoolSelector, cands: &mut [TargetOpt]) -> (r: Vec<TargetOpt>)
    ensures
        r@ == spec_pick_first(old(cands)@),
        final(cands)@ == old(cands)@,
{
    let _ = (state, p);
    let mut out: Vec<TargetOpt> = Vec::new();
    if cands.len() > 0 {
        out.push(cands[0]);
    }
    assert(out@ =~= spec_pick_first(cands@));
    out
}

/// Candidates of a pool selector for an effect from `source`.
pub fn pool_target_opts(db: &CardDb, state: &State, controller: PlayerId, source: SourceRef, p: &PoolSelector) -> (r:
    Vec<TargetOpt>)
    ensures
        r@ == pool_cands(*db, *state, controller, Some(source), *p, None),
{
    pool_candidates(db, state, controller, Some(source), p, None)
}

/// How many a leftmost pick takes: its literal count, at least one.
pub open spec fn leftmost_count(count: Option<Amount>) -> int {
    match count {
        Some(Amount::Int(k)) => if k > 1 { k as int } else { 1 },
        _ => 1,
    }
}

/// What a selector resolves to without rolling: a reference's target, the
/// bound targets, or the pool's candidates cut down by its pick.
pub open spec fn spec_resolve_select(
    db: CardDb,
    s: State,
    controller: PlayerId,
    source: SourceRef,
    sel: Selector,
) -> Seq<TargetOpt> {
    match sel {
        Selector::Ref(r) => {
            let t = match r.pick {
                RefPick::Self_ => spec_source_as_target(s, source),
                RefPick::Entering => spec_live_field_subject(s, s.event_subject, s.event_inst_id),
                RefPick::Opposing => s.combat_opposing,
                RefPick::Selected | RefPick::Attacker | RefPick::Defender => None,
            };
            match t {
                Some(x) => seq![x],
                None => Seq::empty(),
            }
        },
        Selector::Bound(b) => spec_resolve_bound(s, b.ref_name@),
        Selector::Pool(p) => {
            let c = pool_cands(db, s, controller, Some(source), p, None);
            match p.pick {
                PoolPick::All | PoolPick::Choose => c,
                PoolPick::Leftmost => {
                    let n = leftmost_count(p.count);
                    c.take(if n < c.len() { n } else { c.len() as int })
                },
                PoolPick::Random | PoolPick::RandomDistinct => spec_pick_first(c),
                PoolPick::Highest | PoolPick::Lowest => spec_extremum(s, p, c),
            }
        },
    }
}

fn opt_to_vec(t: Option<TargetOpt>) -> (r: Vec<TargetOpt>)
    ensures
        r@ == match t {
            Some(x) => seq![x],
            None => Seq::<TargetOpt>::empty(),
        },
{
    let mut out: Vec<TargetOpt> = Vec::new();
    if let Some(x) = t {
        out.push(x);
        assert(out@ =~= seq![x]);
    }
    out
}

/// Targets a selector resolves to for `controller`'s effect from `source`,
/// without consuming randomness.
pub fn resolve_select(
    db: &CardDb,
    state: &State,
    controller: PlayerId,
    source: SourceRef,
    sel: &Selector,
) -> (r: Vec<TargetOpt>)
    requires
        slots_fit(*state),
    ensures
        r@ == spec_resolve_select(*db, *state, controller, source, *sel),
{
    match sel {
        Selector::Ref(r) => match r.pick {
            RefPick::Self_ => opt_to_vec(source_as_target(state, source)),
            RefPick::Entering => opt_to_vec(live_field_subject(state, state.event_subject, state.event_inst_id)),
            RefPick::Opposing => opt_to_vec(state.combat_opposing),
            RefPick::Selected | RefPick::Attacker | RefPick::Defender => Vec::new(),
        },
        Selector::Bound(b) => resolve_bound(state, b.ref_name.as_str()),
        Selector::Pool(p) => {
            let mut c = pool_target_opts(db, state, controller, source, p);
            match p.pick {
                PoolPick::All | PoolPick::Choose => c,
                PoolPick::Leftmost => {
                    let n: usize = match &p.count {
                        Some(Amount::Int(k)) => if *k > 1 {
                            *k as usize
                        } else {
                            1
                        },
                        _ => 1,
                    };
                    let mut out: Vec<TargetOpt> = Vec::new();
                    let mut i: usize = 0;
                    while i < c.len() && i < n
                        invariant
                            0 <= i <= c.len(),
                            i <= n,
                            out@ == c@.take(i as int),
                        decreases c.len() - i,
                    {
                        out.push(c[i]);
                        assert(c@.take(i as int + 1) =~= c@.take(i as int).push(c@[i as int]));
                        i = i + 1;
                    }
                    out
                },
                PoolPick::Random | PoolPick::RandomDistinct => pick_random_targets(state, p, c.as_mut_slice()),
                PoolPick::Highest | PoolPick::Lowest => extremum_without_roll(state, p, c),
            }
        },
    }
}

/// The instance a field, hand or deck option names, if it is there.
pub open spec fn target_inst(s: State, t: TargetOpt) -> Option<CardInstance> {
    match t {
        TargetOpt::Slot { player, slot } => if slot < s.seat(player).field@.len() {
            s.seat(player).field@[slot as int]
        } else {
            None
        },
        TargetOpt::Hand { player, pos } => if pos < s.seat(player).hand@.len() {
            Some(s.seat(player).hand@[pos as int])
        } else {
            None
        },
        TargetOpt::Deck { player, id } => {
            let k = inst_pos(s.seat(player).deck@, id, 0);
            if k >= 0 {
                Some(s.seat(player).deck@[k])
            } else {
                None
            }
        },
        _ => None,
    }
}

#[verifier::loop_isolation(false)]
fn deck_inst<'a>(state: &'a State, who: PlayerId, id: u32) -> (r: Option<&'a CardInstance>)
    ensures
        r is Some == (inst_pos(state.seat(who).deck@, id, 0) >= 0),
        r matches Some(c) ==> *c == state.seat(who).deck@[inst_pos(state.seat(who).deck@, id, 0)],
{
    let deck = &state.player(who).deck;
    let mut i: usize = 0;
    while i < deck.len()
        invariant
            0 <= i <= deck.len(),
            inst_pos(deck@, id, 0) == inst_pos(deck@, id, i as int),
        decreases deck.len() - i,
    {
        if deck[i].id == id {
            return Some(&deck[i]);
        }
        i = i + 1;
    }
    None
}

fn option_inst<'a>(state: &'a State, t: &TargetOpt) -> (r: Option<&'a CardInstance>)
    ensures
        r is Some == target_inst(*state, *t) is Some,
        r matches Some(c) ==> *c == target_inst(*state, *t)->0,
{
    match t {
        TargetOpt::Slot { player, slot } => state.field_inst(*player, *slot),
        TargetOpt::Hand { player, pos } => {
            let hand = &state.player(*player).hand;
            if (*pos as usize) < hand.len() {
                Some(&hand[*pos as usize])
            } else {
                None
            }
        },
        TargetOpt::Deck { player, id } => deck_inst(state, *player, *id),
        _ => None,
    }
}

/// A stat of a target: a leader's defense (0 for other stats), an
/// instance's stat, nothing for anything else.
pub open spec fn spec_inst_stat(s: State, t: TargetOpt, which: StatWhich) -> Option<i32> {
    match t {
        TargetOpt::Leader { player } => Some(
            match which {
                StatWhich::Defense => s.seat(player).leader_defense,
                _ => 0,
            },
        ),
        _ => match target_inst(s, t) {
            Some(c) => Some(
                match which {
                    StatWhich::Attack => c.attack,
                    StatWhich::Defense => c.defense,
                    StatWhich::Cost => c.cost,
                    StatWhich::BaseCost => c.base_cost,
                },
            ),
            None => None,
        },
    }
}

pub fn inst_stat(state: &State, t: &TargetOpt, which: StatWhich) -> (r: Option<i32>)
    ensures
        r == spec_inst_stat(*state, *t, which),
{
    if let TargetOpt::Leader { player } = t {
        return Some(
            match which {
                StatWhich::Defense => state.player(*player).leader_defense,
                StatWhich::Attack | StatWhich::Cost | StatWhich::BaseCost => 0,
            },
        );
    }
    match option_inst(state, t) {
        Some(c) => Some(
            match which {
                StatWhich::Attack => c.attack,
                StatWhich::Defense => c.defense,
                StatWhich::Cost => c.cost,
                StatWhich::BaseCost => c.base_cost,
            },
        ),
        None => None,
    }
}

/// Whether a target names an instance (or a printed card, as a fresh
/// instance) that passes the filter.
pub open spec fn spec_target_matches_count_filter(db: CardDb, s: State, t: TargetOpt, f: Filter) -> bool {
    match t {
        TargetOpt::Card(id) => {
            let k = card_pos(db.cards@, id, 0);
            k >= 0 && filter_holds(s, choose|c: CardInstance| fresh_from_card(c, db.cards@[k], 0), f)
        },
        _ => match target_inst(s, t) {
            Some(c) => filter_holds(s, c, f),
            None => false,
        },
    }
}

pub fn target_matches_count_filter(db: &CardDb, state: &State, who: PlayerId, t: &TargetOpt, f: &Filter) -> (r:
    bool)
    ensures
        r == spec_target_matches_count_filter(*db, *state, *t, *f),
{
    match t {
        TargetOpt::Card(id) => match db.card(*id) {
            Ok(c) => {
                let inst = CardInstance::from_card(c, 0);
                proof {
                    assert(fresh_from_card(inst, *c, 0));
                    let want = choose|x: CardInstance| fresh_from_card(x, *c, 0);
                    assert(inst.granted@ =~= want.granted@);
                    lemma_filter_view(*state, inst, want, *f);
                }
                inst_matches_filter(state, who, &inst, f)
            },
            Err(_) => false,
        },
        _ => match option_inst(state, t) {
            Some(c) => inst_matches_filter(state, who, c, f),
            None => false,
        },
    }
}

/// The card id a target names: the instance's card, or the card itself.
pub open spec fn spec_card_id_of(s: State, t: TargetOpt) -> Option<CardId> {
    match t {
        TargetOpt::Card(id) => Some(id),
        _ => match target_inst(s, t) {
            Some(c) => Some(c.card),
            None => None,
        },
    }
}

pub fn card_id_of(state: &State, t: &TargetOpt) -> (r: Option<CardId>)
    ensures
        r == spec_card_id_of(*state, *t),
{
    match t {
        TargetOpt::Card(id) => Some(*id),
        _ => match option_inst(state, t) {
            Some(c) => Some(c.card),
            None => None,
        },
    }
}

/// A target turned into the printed card it shows.
pub fn target_as_card(state: &State, t: &TargetOpt) -> (r: Option<TargetOpt>)
    ensures
        r == match spec_card_id_of(*state, *t) {
            Some(id) => Some(TargetOpt::Card(id)),
            None => None,
        },
{
    match t {
        TargetOpt::Card(id) => Some(TargetOpt::Card(*id)),
        _ => match option_inst(state, t) {
            Some(c) => Some(TargetOpt::Card(c.card)),
            None => None,
        },
    }
}

/// Position of the last instance of `card` among the first `n` of a zone; -1 if none.
pub open spec fn last_card_pos(zone: Seq<CardInstance>, card: CardId, n: int) -> int
    decreases n,
{
    if n <= 0 {
        -1
    } else if zone[n - 1].card == card {
        n - 1
    } else {
        last_card_pos(zone, card, n - 1)
    }
}

fn last_of_card<'a>(zone: &'a Vec<CardInstance>, card: CardId) -> (r: Option<&'a CardInstance>)
    ensures
        r is Some == (last_card_pos(zone@, card, zone@.len() as int) >= 0),
        r matches Some(c) ==> *c == zone@[last_card_pos(zone@, card, zone@.len() as int)],
{
    let mut i: usize = zone.len();
    while i > 0
        invariant
            0 <= i <= zone.len(),
            last_card_pos(zone@, card, zone@.len() as int) == last_card_pos(zone@, card, i as int),
        decreases i,
    {
        if zone[i - 1].card == card {
            return Some(&zone[i - 1]);
        }
        i = i - 1;
    }
    None
}

fn by_id<'a>(zone: &'a Vec<CardInstance>, id: u32) -> (r: Option<&'a CardInstance>)
    ensures
        r is Some == (inst_pos(zone@, id, 0) >= 0),
        r matches Some(c) ==> *c == zone@[inst_pos(zone@, id, 0)],
{
    let mut i: usize = 0;
    while i < zone.len()
        invariant
            0 <= i <= zone.len(),
            inst_pos(zone@, id, 0) == inst_pos(zone@, id, i as int),
        decreases zone.len() - i,
    {
        if zone[i].id == id {
            return Some(&zone[i]);
        }
        i = i + 1;
    }
    None
}

/// The field instance `id` of `who`, where it now stands.
pub open spec fn field_inst_by_id(s: State, who: PlayerId, id: u32) -> Option<CardInstance> {
    let k = first_slot_with_id(s.seat(who).field@, id, 0);
    if k >= 0 {
        s.seat(who).field@[k]
    } else {
        None
    }
}

/// The instance `id` in a zone, if there.
pub open spec fn zone_inst(zone: Seq<CardInstance>, id: u32) -> Option<CardInstance> {
    let k = inst_pos(zone, id, 0);
    if k >= 0 {
        Some(zone[k])
    } else {
        None
    }
}

/// The most recent instance of `card` in a zone, if any.
pub open spec fn last_inst(zone: Seq<CardInstance>, card: CardId) -> Option<CardInstance> {
    let k = last_card_pos(zone, card, zone.len() as int);
    if k >= 0 {
        Some(zone[k])
    } else {
        None
    }
}

fn field_by_id<'a>(state: &'a State, who: PlayerId, id: u32) -> (r: Option<&'a CardInstance>)
    requires
        slots_fit(*state),
    ensures
        r is Some == field_inst_by_id(*state, who, id) is Some,
        r matches Some(c) ==> *c == field_inst_by_id(*state, who, id)->0,
{
    proof {
        crate::state::lemma_first_slot_with_id(state.seat(who).field@, id, 0);
    }
    match state.find_field(who, id) {
        Some(slot) => state.field_inst(who, slot),
        None => None,
    }
}

/// The card an effect source shows: a field instance where it stands, a
/// hand instance (or, once moved, the same instance in the deck, else the
/// most recent in the cemetery), or the spell's card.
pub open spec fn spec_source_card_id(s: State, source: SourceRef) -> Option<CardId> {
    match source {
        SourceRef::Field { player, id } => match field_inst_by_id(s, player, id) {
            Some(c) => Some(c.card),
            None => None,
        },
        SourceRef::Hand { player, id } => match zone_inst(s.seat(player).hand@, id) {
            Some(c) => Some(c.card),
            None => match zone_inst(s.seat(player).deck@, id) {
                Some(c) => Some(c.card),
                None => match last_id_inst(s.seat(player).cemetery@, id) {
                    Some(c) => Some(c.card),
                    None => None,
                },
            },
        },
        SourceRef::Spell { card, .. } => Some(card),
        _ => None,
    }
}

/// Position of the last instance `id` among the first `n` of a zone; -1 if none.
pub open spec fn last_id_pos(zone: Seq<CardInstance>, id: u32, n: int) -> int
    decreases n,
{
    if n <= 0 {
        -1
    } else if zone[n - 1].id == id {
        n - 1
    } else {
        last_id_pos(zone, id, n - 1)
    }
}

/// The most recent instance `id` in a zone, if any.
pub open spec fn last_id_inst(zone: Seq<CardInstance>, id: u32) -> Option<CardInstance> {
    let k = last_id_pos(zone, id, zone.len() as int);
    if k >= 0 {
        Some(zone[k])
    } else {
        None
    }
}

fn last_by_id<'a>(zone: &'a Vec<CardInstance>, id: u32) -> (r: Option<&'a CardInstance>)
    ensures
        r is Some == last_id_inst(zone@, id) is Some,
        r matches Some(c) ==> *c == last_id_inst(zone@, id)->0,
{
    let mut i: usize = zone.len();
    while i > 0
        invariant
            0 <= i <= zone.len(),
            last_id_pos(zone@, id, zone@.len() as int) == last_id_pos(zone@, id, i as int),
        decreases i,
    {
        if zone[i - 1].id == id {
            return Some(&zone[i - 1]);
        }
        i = i - 1;
    }
    None
}

pub fn source_card_id(state: &State, source: SourceRef) -> (r: Option<CardId>)
    requires
        slots_fit(*state),
    ensures
        r == spec_source_card_id(*state, source),
{
    match source {
        SourceRef::Field { player, id } => match field_by_id(state, player, id) {
            Some(c) => Some(c.card),
            None => None,
        },
        SourceRef::Hand { player, id } => {
            let p = state.player(player);
            if let Some(c) = by_id(&p.hand, id) {
                return Some(c.card);
            }
            if let Some(c) = by_id(&p.deck, id) {
                return Some(c.card);
            }
            match last_by_id(&p.cemetery, id) {
                Some(c) => Some(c.card),
                None => None,
            }
        },
        SourceRef::Spell { card, .. } => Some(card),
        _ => None,
    }
}

/// Skybound Art progress of an effect's source: the field or hand
/// instance's, a spell's from its most recent cemetery copy, else 0.
pub open spec fn spec_skybound_of(s: State, source: Option<SourceRef>) -> i32 {
    let c = match source {
        Some(SourceRef::Field { player, id }) => field_inst_by_id(s, player, id),
        Some(SourceRef::Hand { player, id }) => zone_inst(s.seat(player).hand@, id),
        Some(SourceRef::Spell { player, card }) => last_inst(s.seat(player).cemetery@, card),
        _ => None,
    };
    match c {
        Some(c) => c.skybound,
        None => 0,
    }
}

pub fn skybound_of(state: &State, source: Option<SourceRef>) -> (r: i32)
    requires
        slots_fit(*state),
    ensures
        r == spec_skybound_of(*state, source),
{
    let c = match source {
        Some(SourceRef::Field { player, id }) => field_by_id(state, player, id),
        Some(SourceRef::Hand { player, id }) => by_id(&state.player(player).hand, id),
        Some(SourceRef::Spell { player, card }) => last_of_card(&state.player(player).cemetery, card),
        _ => None,
    };
    match c {
        Some(c) => c.skybound,
        None => 0,
    }
}

/// A card variable of an effect's source: looked up in hand first, then on
/// the field, for a spell on its most recent cemetery copy; 0 when unset.
pub open spec fn spec_vars_of(s: State, source: Option<SourceRef>, key: VarKey) -> i32 {
    let c = match source {
        Some(SourceRef::Field { player, id }) | Some(SourceRef::Hand { player, id }) => match zone_inst(
            s.seat(player).hand@,
            id,
        ) {
            Some(c) => Some(c),
            None => field_inst_by_id(s, player, id),
        },
        Some(SourceRef::Spell { player, card }) => last_inst(s.seat(player).cemetery@, card),
        _ => None,
    };
    match c {
        Some(c) => crate::info::var_value(c.vars@, key, 0),
        None => 0,
    }
}

pub fn vars_of(state: &State, source: Option<SourceRef>, key: VarKey) -> (r: i32)
    requires
        slots_fit(*state),
    ensures
        r == spec_vars_of(*state, source, key),
{
    let c = match source {
        Some(SourceRef::Field { player, id }) | Some(SourceRef::Hand { player, id }) => match by_id(
            &state.player(player).hand,
            id,
        ) {
            Some(c) => Some(c),
            None => field_by_id(state, player, id),
        },
        Some(SourceRef::Spell { player, card }) => last_of_card(&state.player(player).cemetery, card),
        _ => None,
    };
    match c {
        Some(c) => crate::info::var_lookup(&c.vars, key),
        None => 0,
    }
}

/// The current cost of an effect's source instance: on the field, in hand,
/// or, for a spell, its most recent cemetery copy.
pub open spec fn spec_source_instance_cost(s: State, source: Option<SourceRef>) -> Option<i32> {
    let c = match source {
        Some(SourceRef::Field { player, id }) => field_inst_by_id(s, player, id),
        Some(SourceRef::Hand { player, id }) => zone_inst(s.seat(player).hand@, id),
        Some(SourceRef::Spell { player, card }) => last_inst(s.seat(player).cemetery@, card),
        _ => None,
    };
    match c {
        Some(c) => Some(c.cost),
        None => None,
    }
}

pub fn source_instance_cost(state: &State, source: Option<SourceRef>) -> (r: Option<i32>)
    requires
        slots_fit(*state),
    ensures
        r == spec_source_instance_cost(*state, source),
{
    let c = match source {
        Some(SourceRef::Field { player, id }) => field_by_id(state, player, id),
        Some(SourceRef::Hand { player, id }) => by_id(&state.player(player).hand, id),
        Some(SourceRef::Spell { player, card }) => last_of_card(&state.player(player).cemetery, card),
        _ => None,
    };
    match c {
        Some(c) => Some(c.cost),
        None => None,
    }
}

/// The instance a field or hand source names, looked up in hand first.
pub open spec fn hand_or_field_inst(s: State, who: PlayerId, id: u32) -> Option<CardInstance> {
    match zone_inst(s.seat(who).hand@, id) {
        Some(c) => Some(c),
        None => field_inst_by_id(s, who, id),
    }
}

pub fn hand_or_field<'a>(state: &'a State, who: PlayerId, id: u32) -> (r: Option<&'a CardInstance>)
    requires
        slots_fit(*state),
    ensures
        r is Some == hand_or_field_inst(*state, who, id) is Some,
        r matches Some(c) ==> *c == hand_or_field_inst(*state, who, id)->0,
{
    match by_id(&state.player(who).hand, id) {
        Some(c) => Some(c),
        None => field_by_id(state, who, id),
    }
}

pub(crate) fn field_instance<'a>(state: &'a State, who: PlayerId, id: u32) -> (r: Option<&'a CardInstance>)
    requires
        slots_fit(*state),
    ensures
        r is Some == field_inst_by_id(*state, who, id) is Some,
        r matches Some(c) ==> *c == field_inst_by_id(*state, who, id)->0,
{
    field_by_id(state, who, id)
}

/// Where an instance of `owner` now stands as a target: its field slot,
/// else its hand position.
pub open spec fn spec_subject_target(s: State, owner: PlayerId, id: u32) -> Option<TargetOpt> {
    match field_target(s, owner, id) {
        Some(t) => Some(t),
        None => hand_target(s, owner, id),
    }
}

pub fn subject_target(state: &State, owner: PlayerId, inst: &CardInstance) -> (r: Option<TargetOpt>)
    requires
        slots_fit(*state),
    ensures
        r == spec_subject_target(*state, owner, inst.id),
{
    if let Some(t) = find_field_target(state, owner, inst.id) {
        return Some(t);
    }
    find_hand_target(state, owner, inst.id)
}

/// A trigger's source is still there: a field instance on the field, a
/// hand source in hand or deck, a crest at its index; spells and leaders always.
pub open spec fn spec_trigger_source_present(s: State, source: SourceRef) -> bool {
    match source {
        SourceRef::Field { player, id } => first_slot_with_id(s.seat(player).field@, id, 0) >= 0,
        SourceRef::Hand { player, id } => inst_pos(s.seat(player).hand@, id, 0) >= 0 || inst_pos(
            s.seat(player).deck@,
            id,
            0,
        ) >= 0,
        SourceRef::Crest { player, index } => index < s.seat(player).crests@.len(),
        SourceRef::Spell { .. } | SourceRef::Leader { .. } => true,
    }
}

pub fn trigger_source_still_present(state: &State, source: SourceRef) -> (r: bool)
    requires
        slots_fit(*state),
    ensures
        r == spec_trigger_source_present(*state, source),
{
    match source {
        SourceRef::Field { player, id } => state.find_field(player, id).is_some(),
        SourceRef::Hand { player, id } => {
            let p = state.player(player);
            by_id(&p.hand, id).is_some() || by_id(&p.deck, id).is_some()
        },
        SourceRef::Crest { player, index } => index < state.player(player).crests.len(),
        SourceRef::Spell { .. } | SourceRef::Leader { .. } => true,
    }
}

/// A target as a binding: the field instance (with its card and kind) or
/// hand instance it names, a leader, a deck instance or a card; nothing for a mode.
pub open spec fn spec_opt_to_bound(s: State, t: TargetOpt) -> Option<BoundRef> {
    match t {
        TargetOpt::Slot { player, slot } => match target_inst(s, t) {
            Some(c) => Some(BoundRef::Field { player, id: c.id, card: c.card, kind: c.kind }),
            None => None,
        },
        TargetOpt::Leader { player } => Some(BoundRef::Leader { player }),
        TargetOpt::Hand { player, pos } => match target_inst(s, t) {
            Some(c) => Some(BoundRef::Hand { player, id: c.id }),
            None => None,
        },
        TargetOpt::Deck { player, id } => Some(BoundRef::Deck { player, id }),
        TargetOpt::Card(id) => Some(BoundRef::Card(id)),
        TargetOpt::Mode(_) => None,
    }
}

pub fn opt_to_bound(state: &State, t: &TargetOpt) -> (r: Option<BoundRef>)
    ensures
        r == spec_opt_to_bound(*state, *t),
{
    match t {
        TargetOpt::Slot { player, .. } => match option_inst(state, t) {
            Some(c) => Some(BoundRef::Field { player: *player, id: c.id, card: c.card, kind: c.kind }),
            None => None,
        },
        TargetOpt::Leader { player } => Some(BoundRef::Leader { player: *player }),
        TargetOpt::Hand { player, .. } => match option_inst(state, t) {
            Some(c) => Some(BoundRef::Hand { player: *player, id: c.id }),
            None => None,
        },
        TargetOpt::Deck { player, id } => Some(BoundRef::Deck { player: *player, id: *id }),
        TargetOpt::Card(id) => Some(BoundRef::Card(*id)),
        TargetOpt::Mode(_) => None,
    }
}

/// A target captured across a resolution: a field or hand instance by id, or the target as it is.
#[derive(Debug, Clone, Copy, PartialEq, Eq, Structural)]
pub enum CapturedTarget {
    Field { player: PlayerId, id: u32 },
    Hand { player: PlayerId, id: u32 },
    Keep(TargetOpt),
}

/// What a target is captured as: an occupied slot by its instance, a hand
/// position by its instance (kept as is when the position is empty); an
/// empty slot is dropped.
pub open spec fn spec_capture(s: State, t: TargetOpt) -> Option<CapturedTarget> {
    match t {
        TargetOpt::Slot { player, .. } => match target_inst(s, t) {
            Some(c) => Some(CapturedTarget::Field { player, id: c.id }),
            None => None,
        },
        TargetOpt::Hand { player, .. } => match target_inst(s, t) {
            Some(c) => Some(CapturedTarget::Hand { player, id: c.id }),
            None => Some(CapturedTarget::Keep(t)),
        },
        _ => Some(CapturedTarget::Keep(t)),
    }
}

/// Captures of the first `n` targets.
pub open spec fn spec_captures(s: State, ts: Seq<TargetOpt>, n: int) -> Seq<CapturedTarget>
    decreases n,
{
    if n <= 0 {
        Seq::empty()
    } else {
        let prev = spec_captures(s, ts, n - 1);
        match spec_capture(s, ts[n - 1]) {
            Some(c) => prev.push(c),
            None => prev,
        }
    }
}

pub fn capture_targets(state: &State, ts: &[TargetOpt]) -> (r: Vec<CapturedTarget>)
    ensures
        r@ == spec_captures(*state, ts@, ts@.len() as int),
{
    let mut out: Vec<CapturedTarget> = Vec::new();
    let mut i: usize = 0;
    while i < ts.len()
        invariant
            0 <= i <= ts.len(),
            out@ == spec_captures(*state, ts@, i as int),
        decreases ts.len() - i,
    {
        let t = ts[i];
        let cap = match t {
            TargetOpt::Slot { player, .. } => match option_inst(state, &t) {
                Some(c) => Some(CapturedTarget::Field { player, id: c.id }),
                None => None,
            },
            TargetOpt::Hand { player, .. } => match option_inst(state, &t) {
                Some(c) => Some(CapturedTarget::Hand { player, id: c.id }),
                None => Some(CapturedTarget::Keep(t)),
            },
            _ => Some(CapturedTarget::Keep(t)),
        };
        if let Some(c) = cap {
            out.push(c);
        }
        i = i + 1;
    }
    out
}

/// A captured target where it now stands: the instance's field slot or hand
/// position (none once gone), or the kept target.
pub open spec fn spec_live_captured(s: State, cap: CapturedTarget) -> Option<TargetOpt> {
    match cap {
        CapturedTarget::Field { player, id } => field_target(s, player, id),
        CapturedTarget::Hand { player, id } => hand_target(s, player, id),
        CapturedTarget::Keep(t) => Some(t),
    }
}

pub fn live_captured(state: &State, cap: &CapturedTarget) -> (r: Option<TargetOpt>)
    requires
        slots_fit(*state),
    ensures
        r == spec_live_captured(*state, *cap),
{
    match cap {
        CapturedTarget::Field { player, id } => find_field_target(state, *player, *id),
        CapturedTarget::Hand { player, id } => find_hand_target(state, *player, *id),
        CapturedTarget::Keep(t) => Some(*t),
    }
}

/// A card on the board that survives the current wave: a follower with
/// defense left, an amulet whose countdown has not run out, any spell.
pub open spec fn spec_board_card_survives(c: CardInstance) -> bool {
    match c.kind {
        CardKind::Follower => c.defense > 0,
        CardKind::Amulet => match c.countdown {
            Some(n) => n > 0,
            None => true,
        },
        CardKind::Spell => true,
    }
}

pub fn board_card_survives(c: &CardInstance) -> (r: bool)
    ensures
        r == spec_board_card_survives(*c),
{
    match c.kind {
        CardKind::Follower => c.defense > 0,
        CardKind::Amulet => match c.countdown {
            Some(n) => n > 0,
            None => true,
        },
        CardKind::Spell => true,
    }
}

/// The slot is already chosen in this wave.
pub open spec fn slot_skipped(skip: Seq<(PlayerId, u8)>, player: PlayerId, slot: u8) -> bool {
    exists|k: int| 0 <= k < skip.len() && #[trigger] skip[k] == (player, slot)
}

/// The slot holds a surviving card not yet chosen in this wave.
pub open spec fn slot_survives(field: Seq<Option<CardInstance>>, player: PlayerId, skip: Seq<(PlayerId, u8)>, k: int) -> bool {
    0 <= k < field.len() && (field[k] matches Some(c) && !slot_skipped(skip, player, k as u8)
        && spec_board_card_survives(c))
}

/// Surviving, not-yet-chosen cards among the first `n` slots of a field.
pub open spec fn survivors_before(
    field: Seq<Option<CardInstance>>,
    player: PlayerId,
    skip: Seq<(PlayerId, u8)>,
    n: int,
) -> int
    decreases n,
{
    if n <= 0 {
        0
    } else {
        survivors_before(field, player, skip, n - 1) + if slot_survives(field, player, skip, n - 1) {
            1int
        } else {
            0int
        }
    }
}

/// A slot's position among the surviving, not-yet-chosen cards of its field,
/// if the card in it is one of them.
pub open spec fn spec_surviving_board_index(s: State, player: PlayerId, slot: u8, skip: Seq<(PlayerId, u8)>) -> Option<
    u8,
> {
    let field = s.seat(player).field@;
    if slot_survives(field, player, skip, slot as int) {
        let k = survivors_before(field, player, skip, slot as int);
        Some(if k > 255 { 255u8 } else { k as u8 })
    } else {
        None
    }
}

fn skipped(skip: &[(PlayerId, u8)], player: PlayerId, slot: u8) -> (r: bool)
    ensures
        r == slot_skipped(skip@, player, slot),
{
    let mut k: usize = 0;
    while k < skip.len()
        invariant
            0 <= k <= skip.len(),
            forall|j: int| 0 <= j < k ==> skip@[j] != (player, slot),
        decreases skip.len() - k,
    {
        if skip[k].0 == player && skip[k].1 == slot {
            assert(skip@[k as int] == (player, slot));
            return true;
        }
        k = k + 1;
    }
    false
}

#[verifier::loop_isolation(false)]
pub fn surviving_board_index(state: &State, player: PlayerId, slot: u8, skip: &[(PlayerId, u8)]) -> (r: Option<u8>)
    requires
        slots_fit(*state),
    ensures
        r == spec_surviving_board_index(*state, player, slot, skip@),
{
    let field = &state.player(player).field;
    let mut i: u8 = 0;
    let mut si: usize = 0;
    while si < field.len()
        invariant
            0 <= si <= field.len() <= 256,
            si <= slot ==> i == (if survivors_before(field@, player, skip@, si as int) > 255 {
                255int
            } else {
                survivors_before(field@, player, skip@, si as int)
            }),
            slot < si ==> !slot_survives(field@, player, skip@, slot as int),
        decreases field.len() - si,
    {
        proof {
            assert(field@.len() <= 256) by {
                if player == PlayerId::A {
                } else {
                }
            }
        }
        if let Some(c) = &field[si] {
            if !skipped(skip, player, si as u8) && board_card_survives(c) {
                if si == slot as usize {
                    return Some(i);
                }
                if i < 255 {
                    i = i + 1;
                }
            }
        }
        si = si + 1;
    }
    None
}

/// Puts back the subject of an event after nested resolution moved it:
/// the instance id when one was kept, and the subject found again on the
/// field; nothing happens when neither was kept.
pub fn restore_event_subject(state: &mut State, subject: Option<TargetOpt>, subject_id: Option<u32>)
    requires
        slots_fit(*old(state)),
    ensures
        (subject is None && subject_id is None) ==> *final(state) == *old(state),
        !(subject is None && subject_id is None) ==> *final(state) == (State {
            event_inst_id: if subject_id is Some {
                subject_id
            } else {
                old(state).event_inst_id
            },
            event_subject: spec_live_field_subject(*old(state), subject, subject_id),
            ..*old(state)
        }),
{
    if subject.is_none() && subject_id.is_none() {
        return;
    }
    if subject_id.is_some() {
        state.event_inst_id = subject_id;
    }
    let live = live_field_subject(state, subject, subject_id);
    state.event_subject = live;
}

/// The key a random pick over field slots records: `slot:` and the slot's
/// index among the surviving cards, or its raw index when it is not among them.
pub fn surviving_slot_key(state: &State, player: PlayerId, slot: u8, skip: &[(PlayerId, u8)]) -> (r: String)
    requires
        slots_fit(*state),
    ensures
        r@ == "slot:"@ + crate::oracle::dec(
            match spec_surviving_board_index(*state, player, slot, skip@) {
                Some(i) => i as nat,
                None => slot as nat,
            },
        ),
{
    let n = match surviving_board_index(state, player, slot, skip) {
        Some(i) => i,
        None => slot,
    };
    let mut out = String::from_str("slot:");
    proof {
        reveal_strlit("slot:");
    }
    out.append(crate::oracle::dec_text(n as u32).as_str());
    out
}

/// Position of the first binding named `name` from `k` on; -1 if none.
pub open spec fn binding_pos(b: Seq<(String, Vec<BoundRef>)>, name: Seq<char>, k: int) -> int
    decreases b.len() - k,
{
    if k < 0 || k >= b.len() {
        -1
    } else if b[k].0@ == name {
        k
    } else {
        binding_pos(b, name, k + 1)
    }
}

/// `nb` is `b` with `name` bound to `refs`: added to the refs the name
/// holds when `append`, else in place of them; a name not yet bound is
/// added last.
pub open spec fn bound_after(
    b: Seq<(String, Vec<BoundRef>)>,
    nb: Seq<(String, Vec<BoundRef>)>,
    name: Seq<char>,
    refs: Seq<BoundRef>,
    append: bool,
) -> bool {
    let k = binding_pos(b, name, 0);
    if k >= 0 {
        &&& nb.len() == b.len()
        &&& forall|j: int| 0 <= j < b.len() && j != k ==> #[trigger] nb[j] == b[j]
        &&& nb[k].0@ == name
        &&& nb[k].1@ == if append {
            b[k].1@ + refs
        } else {
            refs
        }
    } else {
        &&& nb.len() == b.len() + 1
        &&& nb.drop_last() == b
        &&& nb.last().0@ == name
        &&& nb.last().1@ == refs
    }
}

/// The refs of the targets that have one, in order.
pub open spec fn targets_bound(s: State, ts: Seq<TargetOpt>) -> Seq<BoundRef>
    decreases ts.len(),
{
    if ts.len() == 0 {
        Seq::empty()
    } else {
        match spec_opt_to_bound(s, ts.last()) {
            Some(r) => targets_bound(s, ts.drop_last()).push(r),
            None => targets_bound(s, ts.drop_last()),
        }
    }
}

/// How a discarded target is remembered: a hand card by its card id.
pub open spec fn discard_bound(s: State, t: TargetOpt) -> Option<BoundRef> {
    match t {
        TargetOpt::Hand { player, pos } => if pos < s.seat(player).hand@.len() {
            Some(BoundRef::Card(s.seat(player).hand@[pos as int].card))
        } else {
            None
        },
        TargetOpt::Card(id) => Some(BoundRef::Card(id)),
        _ => spec_opt_to_bound(s, t),
    }
}

/// The refs of the discarded targets that have one, in order.
pub open spec fn discards_bound(s: State, ts: Seq<TargetOpt>) -> Seq<BoundRef>
    decreases ts.len(),
{
    if ts.len() == 0 {
        Seq::empty()
    } else {
        match discard_bound(s, ts.last()) {
            Some(r) => discards_bound(s, ts.drop_last()).push(r),
            None => discards_bound(s, ts.drop_last()),
        }
    }
}

fn set_binding(state: &mut State, name: &str, refs: Vec<BoundRef>, append: bool)
    ensures
        bound_after(old(state).bindings@, final(state).bindings@, name@, refs@, append),
        *final(state) == (State { bindings: final(state).bindings, ..*old(state) }),
{
    let key = String::from_str(name);
    let mut i: usize = 0;
    while i < state.bindings.len()
        invariant
            0 <= i <= state.bindings.len(),
            state.bindings@ == old(state).bindings@,
            *state == *old(state),
            key@ == name@,
            binding_pos(old(state).bindings@, name@, 0) == binding_pos(old(state).bindings@, name@, i as int),
        decreases state.bindings.len() - i,
    {
        if state.bindings[i].0 == key {
            let ghost before = state.bindings@;
            let mut all: Vec<(String, Vec<BoundRef>)> = Vec::new();
            std::mem::swap(&mut all, &mut state.bindings);
            let (k, mut held) = all.remove(i);
            if append {
                let ghost h0 = held@;
                let mut extra = refs;
                held.append(&mut extra);
                assert(held@ =~= h0 + refs@);
            } else {
                held = refs;
            }
            all.insert(i, (k, held));
            std::mem::swap(&mut all, &mut state.bindings);
            proof {
                assert forall|j: int| 0 <= j < before.len() && j != i implies #[trigger] state.bindings@[j] == before[j] by {}
            }
            return;
        }
        i = i + 1;
    }
    state.bindings.push((key, refs));
    proof {
        assert(state.bindings@.drop_last() =~= old(state).bindings@);
    }
}

/// Binds the effect's `as` name, if it has one, to the refs of `targets`.
pub fn maybe_bind(state: &mut State, e: &Effect, targets: &[TargetOpt])
    ensures
        effect_as_bind(*e) is None ==> *final(state) == *old(state),
        effect_as_bind(*e) matches Some(name) ==> {
            &&& bound_after(
                old(state).bindings@,
                final(state).bindings@,
                name@,
                targets_bound(*old(state), targets@),
                old(state).bind_append,
            )
            &&& *final(state) == (State { bindings: final(state).bindings, ..*old(state) })
        },
{
    let name = match e.as_bind() {
        Some(n) => n,
        None => {
            return;
        },
    };
    let mut refs: Vec<BoundRef> = Vec::new();
    let mut i: usize = 0;
    while i < targets.len()
        invariant
            0 <= i <= targets.len(),
            refs@ == targets_bound(*state, targets@.subrange(0, i as int)),
        decreases targets.len() - i,
    {
        let ghost pre = targets@.subrange(0, i as int + 1);
        assert(pre.drop_last() =~= targets@.subrange(0, i as int));
        if let Some(r) = opt_to_bound(state, &targets[i]) {
            refs.push(r);
        }
        i = i + 1;
    }
    assert(targets@.subrange(0, targets.len() as int) =~= targets@);
    let append = state.bind_append;
    set_binding(state, name, refs, append);
}

/// Binds the effect's `as` name, if it has one, to what was discarded:
/// hand cards by their card id.
pub fn bind_discard_as_cards(state: &mut State, e: &Effect, targets: &[TargetOpt])
    ensures
        effect_as_bind(*e) is None ==> *final(state) == *old(state),
        effect_as_bind(*e) matches Some(name) ==> {
            &&& bound_after(
                old(state).bindings@,
                final(state).bindings@,
                name@,
                discards_bound(*old(state), targets@),
                false,
            )
            &&& *final(state) == (State { bindings: final(state).bindings, ..*old(state) })
        },
{
    let name = match e.as_bind() {
        Some(n) => n,
        None => {
            return;
        },
    };
    let mut refs: Vec<BoundRef> = Vec::new();
    let mut i: usize = 0;
    while i < targets.len()
        invariant
            0 <= i <= targets.len(),
            refs@ == discards_bound(*state, targets@.subrange(0, i as int)),
        decreases targets.len() - i,
    {
        let ghost pre = targets@.subrange(0, i as int + 1);
        assert(pre.drop_last() =~= targets@.subrange(0, i as int));
        let got = match &targets[i] {
            TargetOpt::Hand { player, pos } => {
                let hand = &state.player(*player).hand;
                if (*pos as usize) < hand.len() {
                    Some(BoundRef::Card(hand[*pos as usize].card))
                } else {
                    None
                }
            },
            TargetOpt::Card(id) => Some(BoundRef::Card(*id)),
            other => opt_to_bound(state, other),
        };
        if let Some(r) = got {
            refs.push(r);
        }
        i = i + 1;
    }
    assert(targets@.subrange(0, targets.len() as int) =~= targets@);
    set_binding(state, name, refs, false);
}


/// The instance a field or hand target points at, if any.
pub open spec fn target_instance(s: State, t: TargetOpt) -> Option<CardInstance> {
    match t {
        TargetOpt::Slot { player, slot } => if slot < s.seat(player).field@.len() {
            s.seat(player).field@[slot as int]
        } else {
            None
        },
        TargetOpt::Hand { player, pos } => if pos < s.seat(player).hand@.len() {
            Some(s.seat(player).hand@[pos as int])
        } else {
            None
        },
        _ => None,
    }
}

/// An extremum pick over a field or hand card orders by the stat it names:
/// attack, defense, current cost or base cost of that very instance.
pub proof fn lemma_order_key_reads_the_stat(s: State, player: PlayerId, slot: u8, pos: u8, c: CardInstance)
    ensures
        ({
            let t = TargetOpt::Slot { player, slot };
            slot < s.seat(player).field@.len() && s.seat(player).field@[slot as int] == Some(c) ==> {
                &&& spec_order_key(s, t, Some(OrderBy::Attack)) == c.attack
                &&& spec_order_key(s, t, Some(OrderBy::Defense)) == c.defense
                &&& spec_order_key(s, t, Some(OrderBy::Cost)) == c.cost
                &&& spec_order_key(s, t, Some(OrderBy::BaseCost)) == c.base_cost
            }
        }),
        ({
            let t = TargetOpt::Hand { player, pos };
            pos < s.seat(player).hand@.len() && s.seat(player).hand@[pos as int] == c ==> {
                &&& spec_order_key(s, t, Some(OrderBy::Attack)) == c.attack
                &&& spec_order_key(s, t, Some(OrderBy::Defense)) == c.defense
                &&& spec_order_key(s, t, Some(OrderBy::Cost)) == c.cost
                &&& spec_order_key(s, t, Some(OrderBy::BaseCost)) == c.base_cost
            }
        }),
{
}

proof fn lemma_best_key(s: State, cands: Seq<TargetOpt>, order: Option<OrderBy>, high: bool, n: int)
    requires
        0 < n <= cands.len(),
    ensures
        forall|k: int|
            0 <= k < n ==> (if high {
                spec_order_key(s, #[trigger] cands[k], order) <= best_key(s, cands, order, high, n)
            } else {
                spec_order_key(s, cands[k], order) >= best_key(s, cands, order, high, n)
            }),
        exists|k: int| 0 <= k < n && spec_order_key(s, #[trigger] cands[k], order) == best_key(s, cands, order, high, n),
    decreases n,
{
    if n > 1 {
        lemma_best_key(s, cands, order, high, n - 1);
        let prev = best_key(s, cands, order, high, n - 1);
        let key = spec_order_key(s, cands[n - 1], order);
        if (high && key > prev) || (!high && key < prev) {
            assert(spec_order_key(s, cands[n - 1], order) == best_key(s, cands, order, high, n));
        } else {
            let k = choose|k: int| 0 <= k < n - 1 && spec_order_key(s, #[trigger] cands[k], order) == prev;
            assert(spec_order_key(s, cands[k], order) == best_key(s, cands, order, high, n));
        }
    } else {
        let b0 = best_key(s, cands, order, high, 0);
        assert(b0 == if high { i32::MIN } else { i32::MAX });
        assert(spec_order_key(s, cands[0], order) == best_key(s, cands, order, high, 1));
    }
}

proof fn lemma_tied(s: State, cands: Seq<TargetOpt>, order: Option<OrderBy>, best: i32, n: int)
    requires
        0 <= n <= cands.len(),
    ensures
        forall|k: int|
            0 <= k < tied_cands(s, cands, order, best, n).len() ==> spec_order_key(
                s,
                #[trigger] tied_cands(s, cands, order, best, n)[k],
                order,
            ) == best && exists|j: int| 0 <= j < n && #[trigger] cands[j] == tied_cands(s, cands, order, best, n)[k],
        (exists|k: int| 0 <= k < n && spec_order_key(s, #[trigger] cands[k], order) == best) ==> tied_cands(
            s,
            cands,
            order,
            best,
            n,
        ).len() > 0,
    decreases n,
{
    if n > 0 {
        lemma_tied(s, cands, order, best, n - 1);
        let prev = tied_cands(s, cands, order, best, n - 1);
        let cur = tied_cands(s, cands, order, best, n);
        assert forall|k: int| 0 <= k < cur.len() implies spec_order_key(s, #[trigger] cur[k], order) == best
            && exists|j: int| 0 <= j < n && #[trigger] cands[j] == cur[k] by {
            if k < prev.len() {
                assert(cur[k] == prev[k]);
                let j = choose|j: int| 0 <= j < n - 1 && #[trigger] cands[j] == prev[k];
                assert(cands[j] == cur[k]);
            } else {
                assert(cur[k] == cands[n - 1]);
            }
        }
        if exists|k: int| 0 <= k < n && spec_order_key(s, #[trigger] cands[k], order) == best {
            if spec_order_key(s, cands[n - 1], order) != best {
                let k = choose|k: int| 0 <= k < n && spec_order_key(s, #[trigger] cands[k], order) == best;
                assert(k < n - 1);
            }
        }
    }
}

/// A highest pick without a roll takes exactly one candidate, one whose key
/// is at least every candidate's key; a lowest pick takes candidates whose
/// key is at most every candidate's key, at least one of them.
pub proof fn lemma_extremum_picks_extreme(s: State, p: PoolSelector, cands: Seq<TargetOpt>)
    requires
        cands.len() > 0,
        p.pick == PoolPick::Highest || p.pick == PoolPick::Lowest,
    ensures
        spec_extremum(s, p, cands).len() > 0,
        p.pick == PoolPick::Highest ==> spec_extremum(s, p, cands).len() == 1,
        forall|i: int, k: int|
            0 <= i < spec_extremum(s, p, cands).len() && 0 <= k < cands.len() ==> (if p.pick == PoolPick::Highest {
                spec_order_key(s, #[trigger] spec_extremum(s, p, cands)[i], p.order_by) >= spec_order_key(
                    s,
                    #[trigger] cands[k],
                    p.order_by,
                )
            } else {
                spec_order_key(s, spec_extremum(s, p, cands)[i], p.order_by) <= spec_order_key(
                    s,
                    cands[k],
                    p.order_by,
                )
            }),
        forall|i: int| 0 <= i < spec_extremum(s, p, cands).len() ==> cands.contains(#[trigger] spec_extremum(s, p, cands)[i]),
{
    let high = p.pick == PoolPick::Highest;
    let n = cands.len() as int;
    let best = best_key(s, cands, p.order_by, high, n);
    lemma_best_key(s, cands, p.order_by, high, n);
    lemma_tied(s, cands, p.order_by, best, n);
    let tied = tied_cands(s, cands, p.order_by, best, n);
    let r = spec_extremum(s, p, cands);
    assert forall|i: int| 0 <= i < r.len() implies #[trigger] r[i] == tied[i] by {}
    assert forall|i: int| 0 <= i < r.len() implies cands.contains(#[trigger] r[i]) by {
        assert(r[i] == tied[i]);
        let j = choose|j: int| 0 <= j < n && #[trigger] cands[j] == tied[i];
    }
}

} // verus!
