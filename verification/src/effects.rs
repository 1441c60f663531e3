//! Structural questions about printed effects and abilities: Skybound Art
//! tracking, self-banishing Leave effects, turn-boundary triggers.

use vstd::prelude::*;
use crate::card::{
    ability_effects, ability_zone, card_ability_list, card_id_text, card_mode_list, Ability, AbilityZone,
    Card, CardSource, ChooseOption, Condition, Effect, Filter, Mode, PoolPick, PoolSelector, RefPick,
    Selector, TriggerTag, Whose,
};
use crate::db::{card_pos, CardDb};
use crate::state::{CardInstance, CrestInstance};

verus! {

/// The condition tests Skybound Art, itself or inside `all` / `any` / `not`.
pub open spec fn cond_sky(c: Condition) -> bool
    decreases c,
{
    match c {
        Condition::SkyboundArt { .. } => true,
        Condition::All { all } => conds_sky(all@),
        Condition::Any { any } => conds_sky(any@),
        Condition::Not { not } => cond_sky(*not),
        _ => false,
    }
}

pub open spec fn conds_sky(cs: Seq<Condition>) -> bool
    decreases cs,
{
    if cs.len() == 0 {
        false
    } else {
        conds_sky(cs.subrange(0, cs.len() - 1)) || cond_sky(cs[cs.len() - 1])
    }
}

/// The effect tests Skybound Art: an `if` condition on it, or any nested
/// effect of a branch, payment, series, repeat or choice option.
pub open spec fn effect_sky(e: Effect) -> bool
    decreases e,
{
    match e {
        Effect::If { cond, then, else_effects, .. } => cond_sky(cond) || effects_sky(then@) || match else_effects {
            Some(els) => effects_sky(els@),
            None => false,
        },
        Effect::Pay { effects, .. } => effects_sky(effects@),
        Effect::Series { effects, .. } => effects_sky(effects@),
        Effect::Repeat { effects, .. } => effects_sky(effects@),
        Effect::Choose { options, .. } => match options {
            Some(opts) => options_sky(opts@),
            None => false,
        },
        _ => false,
    }
}

pub open spec fn effects_sky(es: Seq<Effect>) -> bool
    decreases es,
{
    if es.len() == 0 {
        false
    } else {
        effects_sky(es.subrange(0, es.len() - 1)) || effect_sky(es[es.len() - 1])
    }
}

pub open spec fn options_sky(os: Seq<ChooseOption>) -> bool
    decreases os,
{
    if os.len() == 0 {
        false
    } else {
        options_sky(os.subrange(0, os.len() - 1)) || effects_sky(os[os.len() - 1].effects@)
    }
}

fn conds_have_skybound(cs: &Vec<Condition>) -> (r: bool)
    ensures
        r == conds_sky(cs@),
    decreases cs,
{
    let mut acc = false;
    let mut i: usize = 0;
    while i < cs.len()
        invariant
            0 <= i <= cs.len(),
            acc == conds_sky(cs@.subrange(0, i as int)),
        decreases cs.len() - i,
    {
        let b = cond_has_skybound(&cs[i]);
        let ghost s1 = cs@.subrange(0, i as int + 1);
        assert(s1.subrange(0, s1.len() - 1) =~= cs@.subrange(0, i as int));
        acc = acc || b;
        i = i + 1;
    }
    assert(cs@.subrange(0, cs.len() as int) =~= cs@);
    acc
}

pub fn cond_has_skybound(c: &Condition) -> (r: bool)
    ensures
        r == cond_sky(*c),
    decreases c,
{
    match c {
        Condition::SkyboundArt { .. } => true,
        Condition::All { all } => conds_have_skybound(all),
        Condition::Any { any } => conds_have_skybound(any),
        Condition::Not { not } => cond_has_skybound(&**not),
        _ => false,
    }
}

fn effects_have_skybound(es: &Vec<Effect>) -> (r: bool)
    ensures
        r == effects_sky(es@),
    decreases es,
{
    let mut acc = false;
    let mut i: usize = 0;
    while i < es.len()
        invariant
            0 <= i <= es.len(),
            acc == effects_sky(es@.subrange(0, i as int)),
        decreases es.len() - i,
    {
        let b = effect_has_skybound(&es[i]);
        let ghost s1 = es@.subrange(0, i as int + 1);
        assert(s1.subrange(0, s1.len() - 1) =~= es@.subrange(0, i as int));
        acc = acc || b;
        i = i + 1;
    }
    assert(es@.subrange(0, es.len() as int) =~= es@);
    acc
}

fn options_have_skybound(os: &Vec<ChooseOption>) -> (r: bool)
    ensures
        r == options_sky(os@),
    decreases os,
{
    let mut acc = false;
    let mut i: usize = 0;
    while i < os.len()
        invariant
            0 <= i <= os.len(),
            acc == options_sky(os@.subrange(0, i as int)),
        decreases os.len() - i,
    {
        let b = effects_have_skybound(&os[i].effects);
        let ghost s1 = os@.subrange(0, i as int + 1);
        assert(s1.subrange(0, s1.len() - 1) =~= os@.subrange(0, i as int));
        acc = acc || b;
        i = i + 1;
    }
    assert(os@.subrange(0, os.len() as int) =~= os@);
    acc
}

pub fn effect_has_skybound(e: &Effect) -> (r: bool)
    ensures
        r == effect_sky(*e),
    decreases e,
{
    match e {
        Effect::If { cond, then, else_effects, .. } => {
            let a = cond_has_skybound(cond);
            let b = effects_have_skybound(then);
            let c = match else_effects {
                Some(els) => effects_have_skybound(els),
                None => false,
            };
            a || b || c
        },
        Effect::Pay { effects, .. } => effects_have_skybound(effects),
        Effect::Series { effects, .. } => effects_have_skybound(effects),
        Effect::Repeat { effects, .. } => effects_have_skybound(effects),
        Effect::Choose { options, .. } => match options {
            Some(opts) => options_have_skybound(opts),
            None => false,
        },
        _ => false,
    }
}

/// Some ability of the list has an effect that tests Skybound Art.
pub open spec fn abilities_sky(abs: Seq<Ability>) -> bool {
    exists|i: int| 0 <= i < abs.len() && effects_sky(ability_effects(#[trigger] abs[i]))
}

/// Some mode of the list carries an effect (or a crystallized ability) that tests Skybound Art.
pub open spec fn modes_sky(ms: Seq<Mode>) -> bool {
    exists|i: int|
        0 <= i < ms.len() && match #[trigger] ms[i] {
            Mode::Enhance { effects, .. } => effects_sky(effects@),
            Mode::Accelerate { effects, .. } => effects_sky(effects@),
            Mode::Crystallize { abilities, .. } => match abilities {
                Some(abs) => abilities_sky(abs@),
                None => false,
            },
        }
}

/// The card's printed text reads Skybound Art somewhere.
pub open spec fn spec_card_tracks_skybound(db: CardDb, id: crate::card::CardId) -> bool {
    let k = card_pos(db.cards@, id, 0);
    k >= 0 && (abilities_sky(card_ability_list(db.cards@[k])) || modes_sky(card_mode_list(db.cards@[k])))
}

fn slice_effects_have_skybound(es: &[Effect]) -> (r: bool)
    ensures
        r == effects_sky(es@),
{
    let mut acc = false;
    let mut i: usize = 0;
    while i < es.len()
        invariant
            0 <= i <= es.len(),
            acc == effects_sky(es@.subrange(0, i as int)),
        decreases es.len() - i,
    {
        let b = effect_has_skybound(&es[i]);
        let ghost s1 = es@.subrange(0, i as int + 1);
        assert(s1.subrange(0, s1.len() - 1) =~= es@.subrange(0, i as int));
        acc = acc || b;
        i = i + 1;
    }
    assert(es@.subrange(0, es.len() as int) =~= es@);
    acc
}

fn abilities_have_skybound(abs: &[Ability]) -> (r: bool)
    ensures
        r == abilities_sky(abs@),
{
    let mut i: usize = 0;
    while i < abs.len()
        invariant
            0 <= i <= abs.len(),
            forall|j: int| 0 <= j < i ==> !effects_sky(ability_effects(#[trigger] abs@[j])),
        decreases abs.len() - i,
    {
        if slice_effects_have_skybound(abs[i].effects()) {
            assert(effects_sky(ability_effects(abs@[i as int])));
            return true;
        }
        i = i + 1;
    }
    false
}

fn modes_have_skybound(ms: &[Mode]) -> (r: bool)
    ensures
        r == modes_sky(ms@),
{
    let mut i: usize = 0;
    while i < ms.len()
        invariant
            0 <= i <= ms.len(),
            forall|j: int|
                0 <= j < i ==> !match #[trigger] ms@[j] {
                    Mode::Enhance { effects, .. } => effects_sky(effects@),
                    Mode::Accelerate { effects, .. } => effects_sky(effects@),
                    Mode::Crystallize { abilities, .. } => match abilities {
                        Some(abs) => abilities_sky(abs@),
                        None => false,
                    },
                },
        decreases ms.len() - i,
    {
        let hit = match &ms[i] {
            Mode::Enhance { effects, .. } => effects_have_skybound(effects),
            Mode::Accelerate { effects, .. } => effects_have_skybound(effects),
            Mode::Crystallize { abilities, .. } => match abilities {
                Some(abs) => abilities_have_skybound(abs.as_slice()),
                None => false,
            },
        };
        if hit {
            return true;
        }
        i = i + 1;
    }
    false
}

/// Whether a card's instances need their Skybound Art progress tracked.
pub fn card_tracks_skybound(db: &CardDb, id: crate::card::CardId) -> (r: bool)
    ensures
        r == spec_card_tracks_skybound(*db, id),
{
    let card = match db.card(id) {
        Ok(c) => c,
        Err(_) => {
            return false;
        },
    };
    abilities_have_skybound(card.abilities()) || modes_have_skybound(card.modes())
}

/// The effect banishes its own source, itself or inside a series or payment.
pub open spec fn banish_self(e: Effect) -> bool
    decreases e,
{
    match e {
        Effect::Banish { select, .. } => select matches Selector::Ref(r) && r.pick == RefPick::Self_,
        Effect::Series { effects, .. } => effects_banish_self(effects@),
        Effect::Pay { effects, .. } => effects_banish_self(effects@),
        _ => false,
    }
}

pub open spec fn effects_banish_self(es: Seq<Effect>) -> bool
    decreases es,
{
    if es.len() == 0 {
        false
    } else {
        effects_banish_self(es.subrange(0, es.len() - 1)) || banish_self(es[es.len() - 1])
    }
}

fn effects_banish(es: &Vec<Effect>) -> (r: bool)
    ensures
        r == effects_banish_self(es@),
    decreases es,
{
    let mut acc = false;
    let mut i: usize = 0;
    while i < es.len()
        invariant
            0 <= i <= es.len(),
            acc == effects_banish_self(es@.subrange(0, i as int)),
        decreases es.len() - i,
    {
        let b = effect_is_banish_self(&es[i]);
        let ghost s1 = es@.subrange(0, i as int + 1);
        assert(s1.subrange(0, s1.len() - 1) =~= es@.subrange(0, i as int));
        acc = acc || b;
        i = i + 1;
    }
    assert(es@.subrange(0, es.len() as int) =~= es@);
    acc
}

pub fn effect_is_banish_self(e: &Effect) -> (r: bool)
    ensures
        r == banish_self(*e),
    decreases e,
{
    match e {
        Effect::Banish { select: Selector::Ref(r), .. } => r.pick == RefPick::Self_,
        Effect::Series { effects, .. } => effects_banish(effects),
        Effect::Pay { effects, .. } => effects_banish(effects),
        _ => false,
    }
}

/// A Leave ability of the list banishes its own source.
pub open spec fn leaves_to_banish(abs: Seq<Ability>) -> bool {
    exists|i: int|
        0 <= i < abs.len() && (#[trigger] abs[i] is Leave) && effects_banish_self(ability_effects(abs[i]))
}

fn slice_effects_banish(es: &[Effect]) -> (r: bool)
    ensures
        r == effects_banish_self(es@),
{
    let mut acc = false;
    let mut i: usize = 0;
    while i < es.len()
        invariant
            0 <= i <= es.len(),
            acc == effects_banish_self(es@.subrange(0, i as int)),
        decreases es.len() - i,
    {
        let b = effect_is_banish_self(&es[i]);
        let ghost s1 = es@.subrange(0, i as int + 1);
        assert(s1.subrange(0, s1.len() - 1) =~= es@.subrange(0, i as int));
        acc = acc || b;
        i = i + 1;
    }
    assert(es@.subrange(0, es.len() as int) =~= es@);
    acc
}

fn abilities_leave_to_banish(abs: &[Ability]) -> (r: bool)
    ensures
        r == leaves_to_banish(abs@),
{
    let mut i: usize = 0;
    while i < abs.len()
        invariant
            0 <= i <= abs.len(),
            forall|j: int|
                0 <= j < i ==> !((#[trigger] abs@[j] is Leave) && effects_banish_self(ability_effects(abs@[j]))),
        decreases abs.len() - i,
    {
        if let Ability::Leave { .. } = &abs[i] {
            if slice_effects_banish(abs[i].effects()) {
                assert(abs@[i as int] is Leave);
                return true;
            }
        }
        i = i + 1;
    }
    false
}

/// Whether leaving the field sends the instance to banishment: one of its
/// printed (when the card is known) or granted Leave abilities banishes itself.
pub open spec fn spec_leave_redirects_to_banish(db: CardDb, inst: CardInstance) -> bool {
    let k = card_pos(db.cards@, inst.card, 0);
    (k >= 0 && leaves_to_banish(card_ability_list(db.cards@[k]))) || leaves_to_banish(inst.granted@)
}

pub fn leave_redirects_to_banish(db: &CardDb, inst: &CardInstance) -> (r: bool)
    ensures
        r == spec_leave_redirects_to_banish(*db, *inst),
{
    let printed = match db.card(inst.card) {
        Ok(card) => abilities_leave_to_banish(card.abilities()),
        Err(_) => false,
    };
    printed || abilities_leave_to_banish(inst.granted.as_slice())
}

/// The ability is a start-of-turn (or end-of-turn) trigger of `whose` turn in `zone`.
pub open spec fn spec_ability_boundary(a: Ability, whose: Whose, start: bool, zone: AbilityZone) -> bool {
    ability_zone(a) == zone && match a {
        Ability::StartOfTurn { whose: w, .. } => start && w == whose,
        Ability::EndOfTurn { whose: w, .. } => !start && w == whose,
        _ => false,
    }
}

pub fn ability_boundary(a: &Ability, whose: Whose, start: bool, zone: AbilityZone) -> (r: bool)
    ensures
        r == spec_ability_boundary(*a, whose, start, zone),
{
    if a.zone() != zone {
        return false;
    }
    match a {
        Ability::StartOfTurn { whose: w, .. } => start && *w == whose,
        Ability::EndOfTurn { whose: w, .. } => !start && *w == whose,
        _ => false,
    }
}

/// Triggers that a leaving card still resolves regardless of where it went:
/// every tag but Last Words, Leave, Strike, Follower Strike and Clash.
pub open spec fn spec_e40_applies(tag: TriggerTag) -> bool {
    !(tag == TriggerTag::LastWords || tag == TriggerTag::Leave || tag == TriggerTag::Strike || tag
        == TriggerTag::FollowerStrike || tag == TriggerTag::Clash)
}

pub fn e40_applies(tag: TriggerTag) -> (r: bool)
    ensures
        r == spec_e40_applies(tag),
{
    !matches!(tag, TriggerTag::LastWords | TriggerTag::Leave | TriggerTag::Strike | TriggerTag::FollowerStrike | TriggerTag::Clash)
}

/// The chosen pool a copy or a summon-from source asks its controller to pick from.
pub open spec fn spec_card_source_choose_pool(src: CardSource) -> Option<PoolSelector> {
    match src {
        CardSource::Copy { copy_of: Selector::Pool(p), .. } => if p.pick == PoolPick::Choose {
            Some(p)
        } else {
            None
        },
        CardSource::From { from: Selector::Pool(p) } => if p.pick == PoolPick::Choose {
            Some(p)
        } else {
            None
        },
        _ => None,
    }
}

pub fn card_source_choose_pool(src: &CardSource) -> (r: Option<&PoolSelector>)
    ensures
        match spec_card_source_choose_pool(*src) {
            Some(p) => r is Some && *r->0 == p,
            None => r is None,
        },
{
    match src {
        CardSource::Copy { copy_of: Selector::Pool(p), .. } => if p.pick == PoolPick::Choose {
            Some(p)
        } else {
            None
        },
        CardSource::From { from: Selector::Pool(p) } => if p.pick == PoolPick::Choose {
            Some(p)
        } else {
            None
        },
        _ => None,
    }
}

/// A crest matches an optional filter: without one, any crest but a faith;
/// with a card id, the crest named "crest:<id>" or "<id>"; otherwise any.
pub open spec fn spec_crest_matches_filter(c: CrestInstance, filter: Option<Filter>) -> bool {
    match filter {
        None => !c.faith,
        Some(f) => match f.card {
            Some(id) => c.id@ == "crest:"@ + card_id_text(id) || c.id@ == card_id_text(id),
            None => true,
        },
    }
}

pub fn crest_matches_filter(c: &CrestInstance, filter: Option<&Filter>) -> (r: bool)
    ensures
        r == spec_crest_matches_filter(
            *c,
            match filter {
                Some(f) => Some(*f),
                None => None,
            },
        ),
{
    let f = match filter {
        Some(f) => f,
        None => {
            return !c.faith;
        },
    };
    if let Some(id) = f.card {
        let text = id.as_str();
        let mut want = String::from_str("crest:");
        want.append(text.as_str());
        proof {
            reveal_strlit("crest:");
        }
        return c.id == want || c.id == text;
    }
    true
}

/// The option list of the first choice that prints its options, searching
/// the effects in order and descending into branches (then before else),
/// payments, series and repeats.
pub open spec fn first_choose(es: Seq<Effect>) -> Option<Seq<ChooseOption>>
    decreases es,
{
    if es.len() == 0 {
        None
    } else {
        match first_choose(es.subrange(0, es.len() - 1)) {
            Some(o) => Some(o),
            None => effect_first_choose(es[es.len() - 1]),
        }
    }
}

pub open spec fn effect_first_choose(e: Effect) -> Option<Seq<ChooseOption>>
    decreases e,
{
    match e {
        Effect::Choose { options, .. } => match options {
            Some(opts) => Some(opts@),
            None => None,
        },
        Effect::If { then, else_effects, .. } => match first_choose(then@) {
            Some(o) => Some(o),
            None => match else_effects {
                Some(els) => first_choose(els@),
                None => None,
            },
        },
        Effect::Series { effects, .. } => first_choose(effects@),
        Effect::Pay { effects, .. } => first_choose(effects@),
        Effect::Repeat { effects, .. } => first_choose(effects@),
        _ => None,
    }
}

fn list_first_choose(es: &Vec<Effect>) -> (r: Option<&Vec<ChooseOption>>)
    ensures
        match r {
            Some(v) => first_choose(es@) == Some(v@),
            None => first_choose(es@) is None,
        },
    decreases es,
{
    let mut i: usize = 0;
    while i < es.len()
        invariant
            0 <= i <= es.len(),
            first_choose(es@.subrange(0, i as int)) is None,
        decreases es.len() - i,
    {
        let ghost s1 = es@.subrange(0, i as int + 1);
        assert(s1.subrange(0, s1.len() - 1) =~= es@.subrange(0, i as int));
        let hit = effect_first_choose_options(&es[i]);
        if let Some(v) = hit {
            proof {
                lemma_first_choose_extends(es@, i as int + 1);
            }
            return Some(v);
        }
        i = i + 1;
    }
    assert(es@.subrange(0, es.len() as int) =~= es@);
    None
}

/// A hit in a prefix is the hit of the whole list.
proof fn lemma_first_choose_extends(es: Seq<Effect>, k: int)
    requires
        0 <= k <= es.len(),
        first_choose(es.subrange(0, k)) is Some,
    ensures
        first_choose(es) == first_choose(es.subrange(0, k)),
    decreases es.len() - k,
{
    if k < es.len() {
        let s1 = es.subrange(0, k + 1);
        assert(s1.subrange(0, s1.len() - 1) =~= es.subrange(0, k));
        lemma_first_choose_extends(es, k + 1);
    } else {
        assert(es.subrange(0, k) =~= es);
    }
}

fn effect_first_choose_options(e: &Effect) -> (r: Option<&Vec<ChooseOption>>)
    ensures
        match r {
            Some(v) => effect_first_choose(*e) == Some(v@),
            None => effect_first_choose(*e) is None,
        },
    decreases e,
{
    match e {
        Effect::Choose { options, .. } => match options {
            Some(opts) => Some(opts),
            None => None,
        },
        Effect::If { then, else_effects, .. } => {
            if let Some(o) = list_first_choose(then) {
                return Some(o);
            }
            match else_effects {
                Some(els) => list_first_choose(els),
                None => None,
            }
        },
        Effect::Series { effects, .. } => list_first_choose(effects),
        Effect::Pay { effects, .. } => list_first_choose(effects),
        Effect::Repeat { effects, .. } => list_first_choose(effects),
        _ => None,
    }
}

/// The options of the first printed choice among `effects` (see
/// `first_choose`), or `None` when no such choice is reachable.
pub fn first_choose_options(effects: &[Effect]) -> (r: Option<&Vec<ChooseOption>>)
    ensures
        match r {
            Some(v) => first_choose(effects@) == Some(v@),
            None => first_choose(effects@) is None,
        },
{
    let mut i: usize = 0;
    while i < effects.len()
        invariant
            0 <= i <= effects.len(),
            first_choose(effects@.subrange(0, i as int)) is None,
        decreases effects.len() - i,
    {
        let ghost s1 = effects@.subrange(0, i as int + 1);
        assert(s1.subrange(0, s1.len() - 1) =~= effects@.subrange(0, i as int));
        if let Some(v) = effect_first_choose_options(&effects[i]) {
            proof {
                lemma_first_choose_extends(effects@, i as int + 1);
            }
            return Some(v);
        }
        i = i + 1;
    }
    assert(effects@.subrange(0, effects.len() as int) =~= effects@);
    None
}

} // verus!
