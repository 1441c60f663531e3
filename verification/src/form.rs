//! The form a hand card is played in (normal, Enhance, Accelerate,
//! Crystallize), the effects that form resolves, and the instance a
//! Crystallize play becomes.

use vstd::prelude::*;
use crate::card::{
    ability_effects, ability_label, card_ability_list, card_kind, card_mode_list, spec_default_traits,
    string_views, mode_cost, Ability, Card, CardKind, Effect, Mode, Traits,
};
use crate::info::{crystal_cost, enhance_cost_max, enhance_max, first_accel, first_crystal, spec_play_form_for};
use crate::state::PlayForm;
use crate::state::CardInstance;

verus! {

/// The effects a list of references points at, in order.
pub open spec fn derefs(v: Seq<&Effect>) -> Seq<Effect> {
    v.map_values(|e: &Effect| *e)
}

/// The effects of the Fanfare abilities among `abs`, in printed order.
pub open spec fn fanfare_fx(abs: Seq<Ability>) -> Seq<Effect>
    decreases abs.len(),
{
    if abs.len() == 0 {
        Seq::empty()
    } else {
        let last = abs[abs.len() - 1];
        fanfare_fx(abs.drop_last()) + if last is Fanfare {
            ability_effects(last)
        } else {
            Seq::empty()
        }
    }
}

fn push_refs<'a>(out: &mut Vec<&'a Effect>, es: &'a [Effect])
    ensures
        derefs(final(out)@) == derefs(old(out)@) + es@,
{
    let ghost start = derefs(out@);
    let mut j: usize = 0;
    while j < es.len()
        invariant
            0 <= j <= es.len(),
            derefs(out@) == start + es@.subrange(0, j as int),
        decreases es.len() - j,
    {
        let ghost before = out@;
        out.push(&es[j]);
        assert(derefs(out@) =~= derefs(before).push(es@[j as int]));
        assert(es@.subrange(0, j as int + 1) =~= es@.subrange(0, j as int).push(es@[j as int]));
        j = j + 1;
    }
    assert(es@.subrange(0, es.len() as int) =~= es@);
}

/// The effects of the card's Fanfare abilities, in printed order.
pub fn fanfare_effects(card: &Card) -> (r: Vec<&Effect>)
    ensures
        derefs(r@) == fanfare_fx(card_ability_list(*card)),
{
    let abs = card.abilities();
    let mut out: Vec<&Effect> = Vec::new();
    let mut i: usize = 0;
    assert(derefs(out@) =~= Seq::<Effect>::empty());
    while i < abs.len()
        invariant
            0 <= i <= abs.len(),
            abs@ == card_ability_list(*card),
            derefs(out@) == fanfare_fx(abs@.subrange(0, i as int)),
        decreases abs.len() - i,
    {
        let ghost s1 = abs@.subrange(0, i as int + 1);
        assert(s1.drop_last() =~= abs@.subrange(0, i as int));
        if let Ability::Fanfare { .. } = &abs[i] {
            push_refs(&mut out, abs[i].effects());
        } else {
            assert(derefs(out@) =~= fanfare_fx(s1));
        }
        i = i + 1;
    }
    assert(abs@.subrange(0, abs.len() as int) =~= abs@);
    out
}

/// The first Crystallize mode from `k` on.
pub open spec fn first_crystallize_mode(ms: Seq<Mode>, k: int) -> Option<Mode>
    decreases ms.len() - k,
{
    if k < 0 || k >= ms.len() {
        None
    } else if ms[k] is Crystallize {
        Some(ms[k])
    } else {
        first_crystallize_mode(ms, k + 1)
    }
}

/// The trigger labels of a list of abilities, one per ability.
pub open spec fn ability_labels(abs: Seq<Ability>) -> Seq<Seq<char>> {
    abs.map_values(|a: Ability| ability_label(a))
}

/// A Crystallize play: the instance is a statless amulet of the paid cost
/// with no keywords; the card's first Crystallize mode gives its countdown
/// and trigger labels.
pub open spec fn crystallized(old_i: CardInstance, new_i: CardInstance, card: Card, paid: i32) -> bool {
    let m = first_crystallize_mode(card_mode_list(card), 0);
    &&& CardInstance { printed_tags: old_i.printed_tags, ..new_i } == CardInstance {
        kind: CardKind::Amulet,
        base_cost: paid,
        cost: paid,
        attack: 0,
        defense: 0,
        max_defense: 0,
        traits: spec_default_traits(),
        countdown: match m {
            Some(Mode::Crystallize { countdown, .. }) => countdown,
            _ => old_i.countdown,
        },
        ..old_i
    }
    &&& string_views(new_i.printed_tags@) == match m {
        Some(Mode::Crystallize { abilities, .. }) => match abilities {
            Some(abs) => ability_labels(abs@),
            None => Seq::empty(),
        },
        _ => string_views(old_i.printed_tags@),
    }
}

fn ability_tags(abs: &Vec<Ability>) -> (r: Vec<String>)
    ensures
        string_views(r@) == ability_labels(abs@),
{
    proof {
        reveal(string_views);
    }
    let mut out: Vec<String> = Vec::new();
    let mut i: usize = 0;
    while i < abs.len()
        invariant
            0 <= i <= abs.len(),
            string_views(out@) == ability_labels(abs@.subrange(0, i as int)),
        decreases abs.len() - i,
    {
        let tag = abs[i].snapshot_tag();
        let ghost before = out@;
        let text = String::from_str(tag);
        assert(text@ == tag@);
        out.push(text);
        assert(string_views(out@) =~= string_views(before).push(tag@)) by {
            reveal(string_views);
        }
        assert(ability_labels(abs@.subrange(0, i as int + 1)) =~= ability_labels(abs@.subrange(0, i as int)).push(
            ability_label(abs@[i as int]),
        ));
        i = i + 1;
    }
    assert(abs@.subrange(0, abs.len() as int) =~= abs@);
    out
}

fn find_crystallize(ms: &[Mode]) -> (r: Option<&Mode>)
    ensures
        match r {
            Some(m) => first_crystallize_mode(ms@, 0) == Some(*m),
            None => first_crystallize_mode(ms@, 0) is None,
        },
{
    let mut i: usize = 0;
    while i < ms.len()
        invariant
            0 <= i <= ms.len(),
            first_crystallize_mode(ms@, 0) == first_crystallize_mode(ms@, i as int),
        decreases ms.len() - i,
    {
        if let Mode::Crystallize { .. } = &ms[i] {
            return Some(&ms[i]);
        }
        i = i + 1;
    }
    None
}

/// Turns a hand instance into its Crystallize form for `paid`.
pub fn apply_crystallize_form(card: &Card, inst: &mut CardInstance, paid: i32)
    ensures
        crystallized(*old(inst), *final(inst), *card, paid),
{
    inst.kind = CardKind::Amulet;
    inst.base_cost = paid;
    inst.cost = paid;
    inst.attack = 0;
    inst.defense = 0;
    inst.max_defense = 0;
    inst.traits = Traits::default();
    if let Some(Mode::Crystallize { countdown, abilities, .. }) = find_crystallize(card.modes()) {
        inst.countdown = *countdown;
        inst.printed_tags = match abilities {
            Some(abs) => ability_tags(abs),
            None => {
                let v: Vec<String> = Vec::new();
                assert(string_views(v@) =~= Seq::<Seq<char>>::empty()) by {
                    reveal(string_views);
                }
                v
            },
        };
    }
}

/// The base effects after the Enhance modes among the first `n` that `pp`
/// affords, in order: a mode that replaces the base takes the place of all
/// effects before it, the others add theirs.
pub open spec fn enhanced_fx(ms: Seq<Mode>, pp: i32, base: Seq<Effect>, n: int) -> Seq<Effect>
    decreases n,
{
    if n <= 0 {
        base
    } else {
        let acc = enhanced_fx(ms, pp, base, n - 1);
        match ms[n - 1] {
            Mode::Enhance { cost, effects, replaces_base, .. } => if pp >= cost {
                if replaces_base == Some(true) {
                    effects@
                } else {
                    acc + effects@
                }
            } else {
                acc
            },
            _ => acc,
        }
    }
}

/// Position of the first Accelerate mode from `k` on that `pp` affords
/// while the card itself is not affordable; -1 if none.
pub open spec fn accel_at(ms: Seq<Mode>, pp: i32, effective: i32, k: int) -> int
    decreases ms.len() - k,
{
    if k < 0 || k >= ms.len() {
        -1
    } else {
        match ms[k] {
            Mode::Accelerate { cost, .. } => if pp < effective && pp >= cost {
                k
            } else {
                accel_at(ms, pp, effective, k + 1)
            },
            _ => accel_at(ms, pp, effective, k + 1),
        }
    }
}

/// Effects of an Accelerate or Enhance mode.
pub open spec fn mode_fx(m: Mode) -> Seq<Effect> {
    match m {
        Mode::Enhance { effects, .. } => effects@,
        Mode::Accelerate { effects, .. } => effects@,
        Mode::Crystallize { .. } => Seq::empty(),
    }
}

/// The cost paid, the kind played and the effects resolved when the hand
/// instance `inst` of `card` is played with `pp`: enhanced at the largest
/// affordable Enhance cost (at least the card's cost) when the card is
/// affordable and some Enhance is; else the first affordable Accelerate,
/// played as a spell with its effects; else the first affordable
/// Crystallize, played as an amulet with no effects; else normally with
/// its Fanfare effects when affordable; else not at all.
pub open spec fn spec_play_form(card: Card, inst: CardInstance, pp: i32) -> Option<(i32, CardKind, Seq<Effect>)> {
    let ms = card_mode_list(card);
    let effective = inst.cost;
    let enh = enhance_max(ms, pp, ms.len() as int);
    let base = fanfare_fx(card_ability_list(card));
    let a = accel_at(ms, pp, effective, 0);
    if enh is Some && pp >= effective {
        let paid = if enh->0 > effective {
            enh->0
        } else {
            effective
        };
        if pp < paid {
            None
        } else {
            Some((paid, card_kind(card), enhanced_fx(ms, pp, base, ms.len() as int)))
        }
    } else if a >= 0 {
        Some((mode_cost(ms[a]), CardKind::Spell, mode_fx(ms[a])))
    } else if first_crystal(ms, pp, effective, 0) is Some {
        Some((first_crystal(ms, pp, effective, 0)->0, CardKind::Amulet, Seq::empty()))
    } else if pp >= effective {
        Some((effective, card_kind(card), base))
    } else {
        None
    }
}

fn accel_index(ms: &[Mode], pp: i32, effective: i32) -> (r: Option<usize>)
    ensures
        match r {
            Some(k) => accel_at(ms@, pp, effective, 0) == k as int && k < ms@.len() && ms@[k as int] is Accelerate,
            None => accel_at(ms@, pp, effective, 0) == -1,
        },
{
    let mut i: usize = 0;
    while i < ms.len()
        invariant
            0 <= i <= ms.len(),
            accel_at(ms@, pp, effective, 0) == accel_at(ms@, pp, effective, i as int),
        decreases ms.len() - i,
    {
        if let Mode::Accelerate { cost, .. } = &ms[i] {
            if pp < effective && pp >= *cost {
                return Some(i);
            }
        }
        i = i + 1;
    }
    None
}

fn enhanced_effects<'a>(ms: &'a [Mode], pp: i32, fx: &mut Vec<&'a Effect>)
    ensures
        derefs(final(fx)@) == enhanced_fx(ms@, pp, derefs(old(fx)@), ms@.len() as int),
{
    let ghost base = derefs(fx@);
    let mut i: usize = 0;
    while i < ms.len()
        invariant
            0 <= i <= ms.len(),
            derefs(fx@) == enhanced_fx(ms@, pp, base, i as int),
        decreases ms.len() - i,
    {
        if let Mode::Enhance { cost, effects, replaces_base, .. } = &ms[i] {
            if pp >= *cost {
                if *replaces_base == Some(true) {
                    *fx = Vec::new();
                    assert(derefs(fx@) =~= Seq::<Effect>::empty());
                    push_refs(fx, effects.as_slice());
                    assert(derefs(fx@) =~= effects@);
                } else {
                    push_refs(fx, effects.as_slice());
                }
            }
        }
        i = i + 1;
    }
}

/// The form `inst` of `card` is played in with `pp` (see `spec_play_form`),
/// as the cost paid, the kind played and the effects to resolve.
pub fn play_form<'a>(card: &'a Card, inst: &CardInstance, pp: i32, _free: usize) -> (r: Option<
    (i32, CardKind, Vec<&'a Effect>),
>)
    ensures
        match r {
            Some((paid, kind, fx)) => spec_play_form(*card, *inst, pp) == Some((paid, kind, derefs(fx@))),
            None => spec_play_form(*card, *inst, pp) is None,
        },
{
    let effective = inst.cost;
    let modes = card.modes();
    let enh = enhance_cost_max(modes, pp);
    if enh.is_some() && pp >= effective {
        let top = match enh {
            Some(m) => m,
            None => effective,
        };
        let paid = if top > effective {
            top
        } else {
            effective
        };
        if pp < paid {
            return None;
        }
        let mut fx = fanfare_effects(card);
        enhanced_effects(modes, pp, &mut fx);
        return Some((paid, card.kind(), fx));
    }
    if let Some(k) = accel_index(modes, pp, effective) {
        if let Mode::Accelerate { cost, effects, .. } = &modes[k] {
            let mut fx: Vec<&Effect> = Vec::new();
            assert(derefs(fx@) =~= Seq::<Effect>::empty());
            push_refs(&mut fx, effects.as_slice());
            assert(derefs(fx@) =~= effects@);
            return Some((*cost, CardKind::Spell, fx));
        }
        return None;
    }
    if let Some(c) = crystal_cost(modes, pp, effective) {
        let fx: Vec<&Effect> = Vec::new();
        assert(derefs(fx@) =~= Seq::<Effect>::empty());
        return Some((c, CardKind::Amulet, fx));
    }
    if pp >= effective {
        return Some((effective, card.kind(), fanfare_effects(card)));
    }
    None
}

proof fn lemma_enhance_max_affordable(ms: Seq<Mode>, pp: i32, n: int)
    ensures
        enhance_max(ms, pp, n) matches Some(m) ==> m <= pp,
    decreases n,
{
    if n > 0 {
        lemma_enhance_max_affordable(ms, pp, n - 1);
    }
}

proof fn lemma_accel_at_first(ms: Seq<Mode>, pp: i32, effective: i32, k: int)
    requires
        0 <= k,
    ensures
        accel_at(ms, pp, effective, k) >= 0 <==> first_accel(ms, pp, effective, k) is Some,
        accel_at(ms, pp, effective, k) >= 0 ==> k <= accel_at(ms, pp, effective, k) < ms.len() && first_accel(
            ms,
            pp,
            effective,
            k,
        ) == Some(mode_cost(ms[accel_at(ms, pp, effective, k)])) && ms[accel_at(ms, pp, effective, k)] is Accelerate,
    decreases ms.len() - k,
{
    if k < ms.len() {
        lemma_accel_at_first(ms, pp, effective, k + 1);
    }
}

/// The form a hand card's report shows follows the selection rules of
/// playing it: both find a form for the same PP, at the same cost; an
/// Accelerate form is played as a spell and a Crystallize form as an
/// amulet. This holds whenever the instance carries its Enhance tag or
/// no Enhance mode is affordable.
pub proof fn lemma_play_form_matches_info(card: Card, inst: CardInstance, pp: i32)
    requires
        string_views(inst.printed_tags@).contains("enhance"@) || enhance_max(
            card_mode_list(card),
            pp,
            card_mode_list(card).len() as int,
        ) is None,
    ensures
        spec_play_form(card, inst, pp) is Some <==> spec_play_form_for(card_mode_list(card), inst, pp) is Some,
        spec_play_form(card, inst, pp) matches Some((c, _, _)) ==> spec_play_form_for(card_mode_list(card), inst, pp)
            matches Some((d, _)) && c == d,
        spec_play_form_for(card_mode_list(card), inst, pp) matches Some((_, PlayForm::Accelerate { .. }))
            ==> spec_play_form(card, inst, pp) matches Some((_, k, _)) && k == CardKind::Spell,
        spec_play_form_for(card_mode_list(card), inst, pp) matches Some((_, PlayForm::Crystallize { .. }))
            ==> spec_play_form(card, inst, pp) matches Some((_, k, _)) && k == CardKind::Amulet,
{
    let ms = card_mode_list(card);
    lemma_enhance_max_affordable(ms, pp, ms.len() as int);
    lemma_accel_at_first(ms, pp, inst.cost, 0);
}

} // verus!
