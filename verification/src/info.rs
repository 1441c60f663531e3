//! Read-only views of a seat for display: evolve unlocks, play forms,
//! attack restrictions and threshold labels.

use vstd::prelude::*;
use crate::apply::spec_can_evolve;
use crate::card::{
    card_mode_list, string_views, Amount, Card, CardKind, Class, CounterKey, FieldHas, FieldHasKind, Filter,
    FilterKind, Mode, NamedCounter, PoolSelector, Selector, SelectorKind, Side, Traits, Tribe, TribeOrList, VarKey,
    Zone,
};
use crate::db::{card_pos, CardDb};
use crate::ids::{spec_opponent, PlayerId};
use crate::select::{filter_holds, filters_all, filters_any, identity_ok};
use crate::state::{fresh_from_card, inst_pos, mods_cap, CardInstance, PlayForm, PlayerState, State, TargetOpt, FIELD_SLOTS};

verus! {

/// One threshold a card shows: what it needs, what the seat has, and whether it is met.
#[derive(Debug, Clone, PartialEq, Eq)]
pub struct GateInfo {
    pub kind: String,
    pub label: String,
    pub need: i32,
    pub have: i32,
    pub met: bool,
}

/// A hand card as a client shows it.
#[derive(Debug, Clone, PartialEq, Eq)]
pub struct HandCardInfo {
    pub pos: u8,
    pub id: String,
    pub base_cost: i32,
    pub cost: Option<i32>,
    pub form: Option<String>,
    pub playable: bool,
    pub gates: Vec<GateInfo>,
    /// Why this card cannot be played right now; `None` when `playable`.
    pub blocked_reason: Option<String>,
}

/// A field card as a client shows it.
#[derive(Debug, Clone, PartialEq, Eq)]
pub struct BoardCardInfo {
    pub slot: u8,
    pub id: String,
    pub can_attack: bool,
    pub can_attack_leader: bool,
    pub rush_only: bool,
    pub evolved: bool,
    pub super_evolved: bool,
    pub gates: Vec<GateInfo>,
    /// Printed cannot-attack lock (not summoning sickness).
    pub cannot_attack_reason: Option<String>,
}

/// Evolve and super-evolve unlocks of a seat. The thresholds are those of
/// evolving: second player 4 / 6 own turns, first player 5 / 7.
#[derive(Debug, Clone, Copy, PartialEq, Eq, Structural)]
pub struct PlayerInfo {
    pub evolve_unlocked: bool,
    pub super_evolve_unlocked: bool,
    /// Own turns still to start before the unlock; `0` once unlocked.
    pub evolve_unlock_in: u32,
    pub super_evolve_unlock_in: u32,
    /// Leader Barrier / damage cap is live.
    pub has_leader_barrier: bool,
}

/// Own turns after which evolving unlocks.
pub open spec fn spec_evolve_unlock_at(is_second: bool) -> u32 {
    if is_second {
        4
    } else {
        5
    }
}

/// Own turns after which super-evolving unlocks.
pub open spec fn spec_super_evolve_unlock_at(is_second: bool) -> u32 {
    if is_second {
        6
    } else {
        7
    }
}

/// Turns still to take before `at`, zero once reached.
pub open spec fn spec_unlock_in(turns_taken: u32, at: u32) -> u32 {
    if turns_taken >= at {
        0
    } else {
        (at - turns_taken) as u32
    }
}

fn evolve_unlock_at(is_second: bool) -> (r: u32)
    ensures
        r == spec_evolve_unlock_at(is_second),
{
    if is_second {
        4
    } else {
        5
    }
}

fn super_evolve_unlock_at(is_second: bool) -> (r: u32)
    ensures
        r == spec_super_evolve_unlock_at(is_second),
{
    if is_second {
        6
    } else {
        7
    }
}

fn unlock_in(turns_taken: u32, at: u32) -> (r: u32)
    ensures
        r == spec_unlock_in(turns_taken, at),
{
    at.saturating_sub(turns_taken)
}

/// What `player_info` reports for a seat.
pub open spec fn spec_player_info(p: PlayerState) -> PlayerInfo {
    let evo_at = spec_evolve_unlock_at(p.is_second);
    let super_at = spec_super_evolve_unlock_at(p.is_second);
    PlayerInfo {
        evolve_unlocked: p.turns_taken >= evo_at,
        super_evolve_unlocked: p.turns_taken >= super_at,
        evolve_unlock_in: spec_unlock_in(p.turns_taken, evo_at),
        super_evolve_unlock_in: spec_unlock_in(p.turns_taken, super_at),
        has_leader_barrier: mods_cap(p.leader_mods@) is Some,
    }
}

/// Unlock flags and remaining-turn countdowns for `player`.
pub fn player_info(_db: &CardDb, state: &State, player: PlayerId) -> (r: PlayerInfo)
    ensures
        r == spec_player_info(state.seat(player)),
{
    let p = state.player(player);
    let evo_at = evolve_unlock_at(p.is_second);
    let super_at = super_evolve_unlock_at(p.is_second);
    let evolve_unlocked = p.turns_taken >= evo_at;
    let super_evolve_unlocked = p.turns_taken >= super_at;
    PlayerInfo {
        evolve_unlocked,
        super_evolve_unlocked,
        evolve_unlock_in: unlock_in(p.turns_taken, evo_at),
        super_evolve_unlock_in: unlock_in(p.turns_taken, super_at),
        has_leader_barrier: p.damage_cap().is_some(),
    }
}

/// An unlock is reported exactly when no turns remain before it, and the
/// super-evolve unlock never comes before the evolve unlock.
pub proof fn lemma_unlock_countdown(p: PlayerState)
    ensures
        spec_player_info(p).evolve_unlocked <==> spec_player_info(p).evolve_unlock_in == 0,
        spec_player_info(p).super_evolve_unlocked <==> spec_player_info(p).super_evolve_unlock_in == 0,
        spec_player_info(p).super_evolve_unlocked ==> spec_player_info(p).evolve_unlocked,
        spec_player_info(p).evolve_unlock_in <= spec_player_info(p).super_evolve_unlock_in,
{
}

/// Each own turn taken brings a pending unlock one turn closer.
pub proof fn lemma_unlock_counts_down(p: PlayerState, q: PlayerState)
    requires
        q.is_second == p.is_second,
        q.turns_taken == p.turns_taken + 1,
    ensures
        !spec_player_info(p).evolve_unlocked ==> spec_player_info(q).evolve_unlock_in
            == spec_player_info(p).evolve_unlock_in - 1,
        !spec_player_info(p).super_evolve_unlocked ==> spec_player_info(q).super_evolve_unlock_in
            == spec_player_info(p).super_evolve_unlock_in - 1,
        spec_player_info(p).evolve_unlocked ==> spec_player_info(q).evolve_unlocked,
{
}

/// The reported unlocks are the turn gates of evolving: for an unevolved
/// follower of a seat that has not evolved this turn and holds the point,
/// evolving is allowed exactly when the matching unlock is reported.
pub proof fn lemma_unlock_matches_evolve(p: PlayerState, inst: CardInstance)
    requires
        inst.kind == CardKind::Follower,
        !inst.evolved,
        !p.evolved_this_turn,
    ensures
        p.ep > 0 ==> (spec_can_evolve(p, inst, false) == spec_player_info(p).evolve_unlocked),
        p.sep > 0 ==> (spec_can_evolve(p, inst, true) == spec_player_info(p).super_evolve_unlocked),
{
}

/// The printed attack lock of a trait set, if any.
pub open spec fn spec_cannot_attack_reason(t: Traits) -> Option<Seq<char>> {
    let no_fol = t.cant_attack_followers == Some(true);
    let no_lead = t.cant_attack_leader == Some(true);
    if no_fol && no_lead {
        Some("Cannot attack."@)
    } else if no_fol {
        Some("Cannot attack followers."@)
    } else if no_lead {
        Some("Cannot attack the leader."@)
    } else {
        None
    }
}

/// An optional string, by its text.
pub open spec fn opt_text(o: Option<String>) -> Option<Seq<char>> {
    match o {
        Some(s) => Some(s@),
        None => None,
    }
}

/// Why a field instance can never attack some target: its printed locks.
pub fn cannot_attack_reason(inst: &CardInstance) -> (r: Option<String>)
    ensures
        opt_text(r) == spec_cannot_attack_reason(inst.traits),
{
    let no_fol = inst.traits.cant_attack_followers == Some(true);
    let no_lead = inst.traits.cant_attack_leader == Some(true);
    if no_fol && no_lead {
        Some(String::from_str("Cannot attack."))
    } else if no_fol {
        Some(String::from_str("Cannot attack followers."))
    } else if no_lead {
        Some(String::from_str("Cannot attack the leader."))
    } else {
        None
    }
}

/// Client label of a play form.
pub open spec fn spec_form_label(form: PlayForm) -> Seq<char> {
    match form {
        PlayForm::Normal => "normal"@,
        PlayForm::Enhance { .. } => "enhance"@,
        PlayForm::Accelerate { .. } => "accelerate"@,
        PlayForm::Crystallize { .. } => "crystallize"@,
    }
}

pub fn form_label(form: PlayForm) -> (r: &'static str)
    ensures
        r@ == spec_form_label(form),
{
    match form {
        PlayForm::Normal => "normal",
        PlayForm::Enhance { .. } => "enhance",
        PlayForm::Accelerate { .. } => "accelerate",
        PlayForm::Crystallize { .. } => "crystallize",
    }
}

/// The largest Enhance cost within `pp` among the first `n` modes.
pub open spec fn enhance_max(modes: Seq<Mode>, pp: i32, n: int) -> Option<i32>
    decreases n,
{
    if n <= 0 {
        None
    } else {
        let prev = enhance_max(modes, pp, n - 1);
        match modes[n - 1] {
            Mode::Enhance { cost, .. } => if pp >= cost {
                match prev {
                    Some(m) => Some(if cost > m { cost } else { m }),
                    None => Some(cost),
                }
            } else {
                prev
            },
            _ => prev,
        }
    }
}

/// The first Accelerate mode from `k` on that `pp` affords while the card itself is not affordable.
pub open spec fn first_accel(modes: Seq<Mode>, pp: i32, effective: i32, k: int) -> Option<i32>
    decreases modes.len() - k,
{
    if k < 0 || k >= modes.len() {
        None
    } else {
        match modes[k] {
            Mode::Accelerate { cost, .. } => if pp < effective && pp >= cost {
                Some(cost)
            } else {
                first_accel(modes, pp, effective, k + 1)
            },
            _ => first_accel(modes, pp, effective, k + 1),
        }
    }
}

/// The first Crystallize mode from `k` on that `pp` affords while the card itself is not affordable.
pub open spec fn first_crystal(modes: Seq<Mode>, pp: i32, effective: i32, k: int) -> Option<i32>
    decreases modes.len() - k,
{
    if k < 0 || k >= modes.len() {
        None
    } else {
        match modes[k] {
            Mode::Crystallize { cost, .. } => if pp < effective && pp >= cost {
                Some(cost)
            } else {
                first_crystal(modes, pp, effective, k + 1)
            },
            _ => first_crystal(modes, pp, effective, k + 1),
        }
    }
}

/// The cost and form a hand instance would be played in with `pp`:
/// Enhance at the largest affordable Enhance cost when the card is
/// affordable and carries the Enhance tag, else the first affordable
/// Accelerate, else the first affordable Crystallize, else normally when affordable.
pub open spec fn spec_play_form_for(modes: Seq<Mode>, inst: CardInstance, pp: i32) -> Option<(i32, PlayForm)> {
    let effective = inst.cost;
    let enh = if string_views(inst.printed_tags@).contains("enhance"@) {
        enhance_max(modes, pp, modes.len() as int)
    } else {
        None
    };
    if enh is Some && pp >= effective {
        let paid = if enh->0 > effective { enh->0 } else { effective };
        Some((paid, PlayForm::Enhance { paid }))
    } else if first_accel(modes, pp, effective, 0) is Some {
        let c = first_accel(modes, pp, effective, 0)->0;
        Some((c, PlayForm::Accelerate { paid: c }))
    } else if first_crystal(modes, pp, effective, 0) is Some {
        let c = first_crystal(modes, pp, effective, 0)->0;
        Some((c, PlayForm::Crystallize { paid: c }))
    } else if pp >= effective {
        Some((effective, PlayForm::Normal))
    } else {
        None
    }
}

/// What `resolve_play_form` gives: nothing for an unknown card.
pub open spec fn spec_resolve_play_form(db: CardDb, inst: CardInstance, pp: i32) -> Option<(i32, PlayForm)> {
    let k = card_pos(db.cards@, inst.card, 0);
    if k < 0 {
        None
    } else {
        spec_play_form_for(card_mode_list(db.cards@[k]), inst, pp)
    }
}

#[verifier::loop_isolation(false)]
pub(crate) fn enhance_cost_max(modes: &[Mode], pp: i32) -> (r: Option<i32>)
    ensures
        r == enhance_max(modes@, pp, modes@.len() as int),
{
    let mut best: Option<i32> = None;
    let mut i: usize = 0;
    while i < modes.len()
        invariant
            0 <= i <= modes.len(),
            best == enhance_max(modes@, pp, i as int),
        decreases modes.len() - i,
    {
        if let Mode::Enhance { cost, .. } = &modes[i] {
            if pp >= *cost {
                best = Some(
                    match best {
                        Some(m) => if *cost > m {
                            *cost
                        } else {
                            m
                        },
                        None => *cost,
                    },
                );
            }
        }
        i = i + 1;
    }
    best
}

#[verifier::loop_isolation(false)]
fn accel_cost(modes: &[Mode], pp: i32, effective: i32) -> (r: Option<i32>)
    ensures
        r == first_accel(modes@, pp, effective, 0),
{
    let mut i: usize = 0;
    while i < modes.len()
        invariant
            0 <= i <= modes.len(),
            first_accel(modes@, pp, effective, 0) == first_accel(modes@, pp, effective, i as int),
        decreases modes.len() - i,
    {
        if let Mode::Accelerate { cost, .. } = &modes[i] {
            if pp < effective && pp >= *cost {
                return Some(*cost);
            }
        }
        i = i + 1;
    }
    None
}

#[verifier::loop_isolation(false)]
pub(crate) fn crystal_cost(modes: &[Mode], pp: i32, effective: i32) -> (r: Option<i32>)
    ensures
        r == first_crystal(modes@, pp, effective, 0),
{
    let mut i: usize = 0;
    while i < modes.len()
        invariant
            0 <= i <= modes.len(),
            first_crystal(modes@, pp, effective, 0) == first_crystal(modes@, pp, effective, i as int),
        decreases modes.len() - i,
    {
        if let Mode::Crystallize { cost, .. } = &modes[i] {
            if pp < effective && pp >= *cost {
                return Some(*cost);
            }
        }
        i = i + 1;
    }
    None
}

/// Cost and form a hand card would be played in with `pp`, by the same
/// selection rules as playing it (cost and mode only; no target scan).
pub fn resolve_play_form(db: &CardDb, inst: &CardInstance, pp: i32) -> (r: Option<(i32, PlayForm)>)
    ensures
        r == spec_resolve_play_form(*db, *inst, pp),
{
    let card = match db.card(inst.card) {
        Ok(c) => c,
        Err(_) => {
            return None;
        },
    };
    let modes = card.modes();
    let effective = inst.cost;
    let tag = String::from_str("enhance");
    proof {
        reveal_strlit("enhance");
    }
    let enhance = if !crate::card::contains_string(&inst.printed_tags, &tag) {
        None
    } else {
        enhance_cost_max(modes, pp)
    };
    let accel = accel_cost(modes, pp, effective);
    if enhance.is_some() && pp >= effective {
        let top = match enhance {
            Some(m) => m,
            None => effective,
        };
        let paid = if top > effective {
            top
        } else {
            effective
        };
        return Some((paid, PlayForm::Enhance { paid }));
    }
    if let Some(cost) = accel {
        return Some((cost, PlayForm::Accelerate { paid: cost }));
    }
    let crystal = crystal_cost(modes, pp, effective);
    if let Some(cost) = crystal {
        return Some((cost, PlayForm::Crystallize { paid: cost }));
    }
    if pp >= effective {
        Some((effective, PlayForm::Normal))
    } else {
        None
    }
}

/// A resolved form never costs more than the PP it was resolved for.
pub proof fn lemma_play_form_affordable(modes: Seq<Mode>, inst: CardInstance, pp: i32)
    ensures
        spec_play_form_for(modes, inst, pp) matches Some((paid, _)) ==> paid <= pp,
{
    lemma_enhance_max_within(modes, pp, modes.len() as int);
    lemma_first_accel_within(modes, pp, inst.cost, 0);
    lemma_first_crystal_within(modes, pp, inst.cost, 0);
}

proof fn lemma_enhance_max_within(modes: Seq<Mode>, pp: i32, n: int)
    ensures
        enhance_max(modes, pp, n) matches Some(m) ==> m <= pp,
    decreases n,
{
    if n > 0 {
        lemma_enhance_max_within(modes, pp, n - 1);
    }
}

proof fn lemma_first_accel_within(modes: Seq<Mode>, pp: i32, effective: i32, k: int)
    ensures
        first_accel(modes, pp, effective, k) matches Some(c) ==> c <= pp,
    decreases modes.len() - k,
{
    if 0 <= k < modes.len() {
        lemma_first_accel_within(modes, pp, effective, k + 1);
    }
}

proof fn lemma_first_crystal_within(modes: Seq<Mode>, pp: i32, effective: i32, k: int)
    ensures
        first_crystal(modes, pp, effective, k) matches Some(c) ==> c <= pp,
    decreases modes.len() - k,
{
    if 0 <= k < modes.len() {
        lemma_first_crystal_within(modes, pp, effective, k + 1);
    }
}

/// The literal of an amount, if it is one.
pub open spec fn spec_amount_int(a: Amount) -> Option<i32> {
    match a {
        Amount::Int(n) => Some(n),
        _ => None,
    }
}

pub fn amount_int(amount: &Amount) -> (r: Option<i32>)
    ensures
        r == spec_amount_int(*amount),
{
    match amount {
        Amount::Int(n) => Some(*n),
        _ => None,
    }
}

/// A gate by its text and numbers.
pub struct GateView {
    pub kind: Seq<char>,
    pub label: Seq<char>,
    pub need: i32,
    pub have: i32,
    pub met: bool,
}

impl View for GateInfo {
    type V = GateView;

    open spec fn view(&self) -> GateView {
        GateView { kind: self.kind@, label: self.label@, need: self.need, have: self.have, met: self.met }
    }
}

/// A list of gates by their views.
pub open spec fn gates_view(gs: Seq<GateInfo>) -> Seq<GateView> {
    gs.map_values(|g: GateInfo| g@)
}

/// A gate with this kind, label and need is already listed.
pub open spec fn gate_listed(gs: Seq<GateView>, kind: Seq<char>, label: Seq<char>, need: i32) -> bool {
    exists|i: int| 0 <= i < gs.len() && (#[trigger] gs[i]).kind == kind && gs[i].label == label && gs[i].need == need
}

/// Adding a gate: kept out when one with the same kind, label and need is listed.
pub open spec fn gate_push(gs: Seq<GateView>, g: GateView) -> Seq<GateView> {
    if gate_listed(gs, g.kind, g.label, g.need) {
        gs
    } else {
        gs.push(g)
    }
}

/// No two gates share kind, label and need.
pub open spec fn gates_unique(gs: Seq<GateView>) -> bool {
    forall|i: int, j: int|
        0 <= i < j < gs.len() ==> !((#[trigger] gs[i]).kind == (#[trigger] gs[j]).kind && gs[i].label
            == gs[j].label && gs[i].need == gs[j].need)
}

/// Adding a gate keeps a list of gates free of repeats.
pub proof fn lemma_gate_push_unique(gs: Seq<GateView>, g: GateView)
    requires
        gates_unique(gs),
    ensures
        gates_unique(gate_push(gs, g)),
{
}

/// Adds a gate unless one with the same kind, label and need is listed.
pub fn push_gate(gates: &mut Vec<GateInfo>, kind: &str, label: &str, need: i32, have: i32, met: bool)
    ensures
        gates_view(final(gates)@) == gate_push(
            gates_view(old(gates)@),
            GateView { kind: kind@, label: label@, need, have, met },
        ),
{
    let kind_s = String::from_str(kind);
    let label_s = String::from_str(label);
    let mut i: usize = 0;
    while i < gates.len()
        invariant
            0 <= i <= gates.len(),
            gates@ == old(gates)@,
            kind_s@ == kind@,
            label_s@ == label@,
            forall|j: int|
                0 <= j < i ==> !((#[trigger] gates@[j]).kind@ == kind@ && gates@[j].label@ == label@
                    && gates@[j].need == need),
        decreases gates.len() - i,
    {
        if gates[i].kind == kind_s && gates[i].label == label_s && gates[i].need == need {
            assert(gates_view(gates@)[i as int] == gates@[i as int]@);
            assert(gate_listed(gates_view(gates@), kind@, label@, need));
            return;
        }
        i = i + 1;
    }
    let ghost before = gates@;
    assert(!gate_listed(gates_view(before), kind@, label@, need)) by {
        if gate_listed(gates_view(before), kind@, label@, need) {
            let k = choose|k: int|
                0 <= k < gates_view(before).len() && (#[trigger] gates_view(before)[k]).kind == kind@
                    && gates_view(before)[k].label == label@ && gates_view(before)[k].need == need;
            assert(gates_view(before)[k] == before[k]@);
        }
    }
    gates.push(GateInfo { kind: kind_s, label: label_s, need, have, met });
    assert(gates_view(gates@) =~= gates_view(before).push(GateView { kind: kind@, label: label@, need, have, met }));
}

/// Client name of a tribe.
pub open spec fn spec_tribe_name(t: Tribe) -> Seq<char> {
    match t {
        Tribe::Anathema => "anathema"@,
        Tribe::Artifact => "artifact"@,
        Tribe::Departed => "departed"@,
        Tribe::EarthSigil => "earth sigil"@,
        Tribe::Encroacher => "encroacher"@,
        Tribe::Golem => "golem"@,
        Tribe::Loot => "loot"@,
        Tribe::Marine => "marine"@,
        Tribe::Mysteria => "mysteria"@,
        Tribe::Officer => "officer"@,
        Tribe::Pixie => "pixie"@,
        Tribe::Puppetry => "puppetry"@,
    }
}

pub fn tribe_name(t: Tribe) -> (r: &'static str)
    ensures
        r@ == spec_tribe_name(t),
{
    match t {
        Tribe::Anathema => "anathema",
        Tribe::Artifact => "artifact",
        Tribe::Departed => "departed",
        Tribe::EarthSigil => "earth sigil",
        Tribe::Encroacher => "encroacher",
        Tribe::Golem => "golem",
        Tribe::Loot => "loot",
        Tribe::Marine => "marine",
        Tribe::Mysteria => "mysteria",
        Tribe::Officer => "officer",
        Tribe::Pixie => "pixie",
        Tribe::Puppetry => "puppetry",
    }
}

/// Client name of a class.
pub open spec fn spec_class_name(c: Class) -> Seq<char> {
    match c {
        Class::Neutral => "neutral"@,
        Class::Forestcraft => "forestcraft"@,
        Class::Swordcraft => "swordcraft"@,
        Class::Runecraft => "runecraft"@,
        Class::Dragoncraft => "dragoncraft"@,
        Class::Abysscraft => "abysscraft"@,
        Class::Havencraft => "havencraft"@,
        Class::Portalcraft => "portalcraft"@,
    }
}

pub fn class_name(c: Class) -> (r: &'static str)
    ensures
        r@ == spec_class_name(c),
{
    match c {
        Class::Neutral => "neutral",
        Class::Forestcraft => "forestcraft",
        Class::Swordcraft => "swordcraft",
        Class::Runecraft => "runecraft",
        Class::Dragoncraft => "dragoncraft",
        Class::Abysscraft => "abysscraft",
        Class::Havencraft => "havencraft",
        Class::Portalcraft => "portalcraft",
    }
}

/// The identity part of filtering: `all`, `any` and `not` combine nested
/// filters; otherwise tribe, card ids, kind and class must match.
pub open spec fn simple_holds(c: CardInstance, f: Filter) -> bool
    decreases f,
{
    match f.all {
        Some(xs) => simple_all(c, xs@),
        None => match f.any {
            Some(xs) => simple_any(c, xs@),
            None => match f.not {
                Some(x) => !simple_holds(c, *x),
                None => identity_ok(c, f),
            },
        },
    }
}

pub open spec fn simple_all(c: CardInstance, fs: Seq<Filter>) -> bool
    decreases fs,
{
    if fs.len() == 0 {
        true
    } else {
        simple_all(c, fs.subrange(0, fs.len() - 1)) && simple_holds(c, fs[fs.len() - 1])
    }
}

pub open spec fn simple_any(c: CardInstance, fs: Seq<Filter>) -> bool
    decreases fs,
{
    if fs.len() == 0 {
        false
    } else {
        simple_any(c, fs.subrange(0, fs.len() - 1)) || simple_holds(c, fs[fs.len() - 1])
    }
}

proof fn lemma_simple_all_prefix(c: CardInstance, fs: Seq<Filter>, k: int)
    requires
        0 <= k <= fs.len(),
        simple_all(c, fs),
    ensures
        simple_all(c, fs.subrange(0, k)),
    decreases fs.len(),
{
    if k < fs.len() {
        let p = fs.subrange(0, fs.len() - 1);
        lemma_simple_all_prefix(c, p, k);
        assert(p.subrange(0, k) =~= fs.subrange(0, k));
    } else {
        assert(fs.subrange(0, k) =~= fs);
    }
}

proof fn lemma_simple_any_prefix(c: CardInstance, fs: Seq<Filter>, k: int)
    requires
        0 <= k <= fs.len(),
        simple_any(c, fs.subrange(0, k)),
    ensures
        simple_any(c, fs),
    decreases fs.len(),
{
    if k < fs.len() {
        let p = fs.subrange(0, fs.len() - 1);
        assert(p.subrange(0, k) =~= fs.subrange(0, k));
        lemma_simple_any_prefix(c, p, k);
    } else {
        assert(fs.subrange(0, k) =~= fs);
    }
}

fn simple_all_match(c: &CardInstance, all: &Vec<Filter>) -> (r: bool)
    ensures
        r == simple_all(*c, all@),
    decreases all,
{
    let mut i: usize = 0;
    while i < all.len()
        invariant
            0 <= i <= all.len(),
            simple_all(*c, all@.subrange(0, i as int)),
        decreases all.len() - i,
    {
        let ok = inst_matches_simple(c, &all[i]);
        let ghost s1 = all@.subrange(0, i as int + 1);
        assert(s1.subrange(0, s1.len() - 1) =~= all@.subrange(0, i as int));
        assert(s1[s1.len() - 1] == all@[i as int]);
        if !ok {
            proof {
                if simple_all(*c, all@) {
                    lemma_simple_all_prefix(*c, all@, i as int + 1);
                }
            }
            return false;
        }
        i = i + 1;
    }
    assert(all@.subrange(0, all.len() as int) =~= all@);
    true
}

fn simple_any_match(c: &CardInstance, any: &Vec<Filter>) -> (r: bool)
    ensures
        r == simple_any(*c, any@),
    decreases any,
{
    let mut i: usize = 0;
    while i < any.len()
        invariant
            0 <= i <= any.len(),
            !simple_any(*c, any@.subrange(0, i as int)),
        decreases any.len() - i,
    {
        let ok = inst_matches_simple(c, &any[i]);
        let ghost s1 = any@.subrange(0, i as int + 1);
        assert(s1.subrange(0, s1.len() - 1) =~= any@.subrange(0, i as int));
        assert(s1[s1.len() - 1] == any@[i as int]);
        if ok {
            proof {
                lemma_simple_any_prefix(*c, any@, i as int + 1);
            }
            return true;
        }
        i = i + 1;
    }
    assert(any@.subrange(0, any.len() as int) =~= any@);
    false
}

/// A filter whose every node tests only tribe, card ids, kind and class.
pub open spec fn identity_only(f: Filter) -> bool
    decreases f,
{
    &&& f.cost_eq is None && f.cost_lte is None && f.cost_gte is None && f.cost_in is None
    &&& f.base_cost_eq is None && f.base_cost_lte is None && f.base_cost_gte is None && f.base_cost_in is None
    &&& f.attack_lte is None && f.attack_gte is None && f.defense_lte is None && f.defense_gte is None
    &&& f.evolved is None && f.unevolved is None && f.damaged is None && f.has_trait is None
    &&& f.enhanced is None && f.same_cost_group is None && f.has_last_words is None && f.has_spellboost is None
    &&& f.did_not_attack_this_turn is None && f.super_evolved is None && f.not_bound is None
    &&& (match f.all {
        Some(xs) => identity_only_all(xs@),
        None => true,
    })
    &&& (match f.any {
        Some(xs) => identity_only_all(xs@),
        None => true,
    })
    &&& (match f.not {
        Some(x) => identity_only(*x),
        None => true,
    })
}

pub open spec fn identity_only_all(fs: Seq<Filter>) -> bool
    decreases fs,
{
    if fs.len() == 0 {
        true
    } else {
        identity_only_all(fs.subrange(0, fs.len() - 1)) && identity_only(fs[fs.len() - 1])
    }
}

/// On a filter that tests only tribe, card ids, kind and class, the
/// presentation filter and the engine's filter agree, in every state.
pub proof fn lemma_simple_filter_agrees(s: State, c: CardInstance, f: Filter)
    requires
        identity_only(f),
    ensures
        simple_holds(c, f) == filter_holds(s, c, f),
    decreases f,
{
    match f.all {
        Some(xs) => lemma_simple_all_agrees(s, c, xs@),
        None => match f.any {
            Some(xs) => lemma_simple_any_agrees(s, c, xs@),
            None => match f.not {
                Some(x) => lemma_simple_filter_agrees(s, c, *x),
                None => {},
            },
        },
    }
}

proof fn lemma_simple_all_agrees(s: State, c: CardInstance, fs: Seq<Filter>)
    requires
        identity_only_all(fs),
    ensures
        simple_all(c, fs) == filters_all(s, c, fs),
    decreases fs,
{
    if fs.len() > 0 {
        lemma_simple_all_agrees(s, c, fs.subrange(0, fs.len() - 1));
        lemma_simple_filter_agrees(s, c, fs[fs.len() - 1]);
    }
}

proof fn lemma_simple_any_agrees(s: State, c: CardInstance, fs: Seq<Filter>)
    requires
        identity_only_all(fs),
    ensures
        simple_any(c, fs) == filters_any(s, c, fs),
    decreases fs,
{
    if fs.len() > 0 {
        lemma_simple_any_agrees(s, c, fs.subrange(0, fs.len() - 1));
        lemma_simple_filter_agrees(s, c, fs[fs.len() - 1]);
    }
}

/// Whether `c` passes the identity checks of `f` (tribe, card ids, kind, class).
pub fn inst_matches_simple(c: &CardInstance, f: &Filter) -> (r: bool)
    ensures
        r == simple_holds(*c, *f),
    decreases f,
{
    if let Some(all) = &f.all {
        return simple_all_match(c, all);
    }
    if let Some(any) = &f.any {
        return simple_any_match(c, any);
    }
    if let Some(n) = &f.not {
        return !inst_matches_simple(c, &**n);
    }
    crate::select::identity_matches(c, f)
}

/// Whether a field-has kind admits an instance.
pub open spec fn field_has_kind_ok(c: CardInstance, k: Option<FieldHasKind>) -> bool {
    match k {
        Some(FieldHasKind::Follower) => c.kind == CardKind::Follower,
        Some(FieldHasKind::Amulet) => c.kind == CardKind::Amulet,
        Some(FieldHasKind::Card) | Some(FieldHasKind::Character) | None => true,
    }
}

/// Matching instances among the first `n` slots of a field.
pub open spec fn count_field_has(field: Seq<Option<CardInstance>>, fh: FieldHas, n: int) -> int
    decreases n,
{
    if n <= 0 {
        0
    } else {
        count_field_has(field, fh, n - 1) + match field[n - 1] {
            Some(c) => if field_has_kind_ok(c, fh.kind) && simple_holds(c, fh.filter) {
                1int
            } else {
                0int
            },
            None => 0int,
        }
    }
}

proof fn lemma_count_field_has_bound(field: Seq<Option<CardInstance>>, fh: FieldHas, n: int)
    requires
        0 <= n,
    ensures
        0 <= count_field_has(field, fh, n) <= n,
    decreases n,
{
    if n > 0 {
        lemma_count_field_has_bound(field, fh, n - 1);
    }
}

/// Matching instances on one seat's field.
pub open spec fn seat_field_has(s: State, who: PlayerId, fh: FieldHas) -> int {
    count_field_has(s.seat(who).field@, fh, s.seat(who).field@.len() as int)
}

/// What `field_has_count` counts: the enemy field, both fields, or the own field.
pub open spec fn spec_field_has_count(s: State, who: PlayerId, fh: FieldHas) -> int {
    match fh.side {
        Some(Side::Enemy) => seat_field_has(s, spec_opponent(who), fh),
        Some(Side::Any) => seat_field_has(s, who, fh) + seat_field_has(s, spec_opponent(who), fh),
        None | Some(Side::Ally) => seat_field_has(s, who, fh),
    }
}

#[verifier::loop_isolation(false)]
fn count_seat_field_has(state: &State, who: PlayerId, fh: &FieldHas) -> (r: i32)
    requires
        state.seat(who).field@.len() <= 256,
    ensures
        r == seat_field_has(*state, who, *fh),
{
    let field = &state.player(who).field;
    let mut count: i32 = 0;
    let mut i: usize = 0;
    while i < field.len()
        invariant
            0 <= i <= field.len(),
            count == count_field_has(field@, *fh, i as int),
        decreases field.len() - i,
    {
        proof {
            lemma_count_field_has_bound(field@, *fh, i as int);
        }
        if let Some(c) = &field[i] {
            let kind_fits = match fh.kind {
                Some(FieldHasKind::Follower) => c.kind == CardKind::Follower,
                Some(FieldHasKind::Amulet) => c.kind == CardKind::Amulet,
                Some(FieldHasKind::Card) | Some(FieldHasKind::Character) | None => true,
            };
            if kind_fits && inst_matches_simple(c, &fh.filter) {
                count = count + 1;
            }
        }
        i = i + 1;
    }
    count
}

/// Instances a field-has condition counts for `who`.
pub fn field_has_count(state: &State, who: PlayerId, field_has: &FieldHas) -> (r: i32)
    requires
        state.seat(who).field@.len() <= 256,
        state.seat(spec_opponent(who)).field@.len() <= 256,
    ensures
        r == spec_field_has_count(*state, who, *field_has),
{
    proof {
        lemma_count_field_has_bound(state.seat(who).field@, *field_has, state.seat(who).field@.len() as int);
        lemma_count_field_has_bound(
            state.seat(spec_opponent(who)).field@,
            *field_has,
            state.seat(spec_opponent(who)).field@.len() as int,
        );
    }
    match field_has.side {
        Some(Side::Enemy) => count_seat_field_has(state, who.opponent(), field_has),
        Some(Side::Any) => {
            let a = count_seat_field_has(state, who, field_has);
            let b = count_seat_field_has(state, who.opponent(), field_has);
            a + b
        },
        None | Some(Side::Ally) => count_seat_field_has(state, who, field_has),
    }
}

/// The noun a filter names, or `fallback`: "<tribe> <fallback>" for one
/// tribe, "<class> <fallback>", "copies of <id>", or the filtered kind.
pub open spec fn spec_filter_noun(f: Filter, fallback: Seq<char>) -> Seq<char> {
    match f.tribe {
        Some(TribeOrList::One(tr)) => spec_tribe_name(tr) + " "@ + fallback,
        Some(TribeOrList::Many(ts)) => if ts@.len() == 1 {
            spec_tribe_name(ts@[0]) + " "@ + fallback
        } else {
            fallback
        },
        None => match f.class {
            Some(cl) => spec_class_name(cl) + " "@ + fallback,
            None => match f.card {
                Some(id) => "copies of "@ + crate::card::card_id_text(id),
                None => match f.kind {
                    Some(FilterKind::Follower) => "followers"@,
                    Some(FilterKind::Spell) => "spells"@,
                    Some(FilterKind::Amulet) => "amulets"@,
                    Some(FilterKind::Card) | None => fallback,
                },
            },
        },
    }
}

/// The noun of an optional filter.
pub open spec fn spec_opt_filter_noun(f: Option<Filter>, fallback: Seq<char>) -> Seq<char> {
    match f {
        Some(x) => spec_filter_noun(x, fallback),
        None => fallback,
    }
}

fn words(a: &str, b: &str) -> (r: String)
    ensures
        r@ == a@ + " "@ + b@,
{
    let mut s = String::from_str(a);
    s.append(" ");
    s.append(b);
    proof {
        reveal_strlit(" ");
    }
    s
}

pub fn filter_noun(filter: Option<&Filter>, fallback: &str) -> (r: String)
    ensures
        r@ == match filter {
            Some(f) => spec_filter_noun(*f, fallback@),
            None => fallback@,
        },
{
    let f = match filter {
        Some(f) => f,
        None => {
            return String::from_str(fallback);
        },
    };
    if let Some(t) = &f.tribe {
        match t {
            TribeOrList::One(tr) => {
                return words(tribe_name(*tr), fallback);
            },
            TribeOrList::Many(ts) => {
                if ts.len() == 1 {
                    return words(tribe_name(ts[0]), fallback);
                } else {
                    return String::from_str(fallback);
                }
            },
        }
    }
    if let Some(cl) = f.class {
        return words(class_name(cl), fallback);
    }
    if let Some(id) = f.card {
        let mut s = String::from_str("copies of ");
        let text = id.as_str();
        s.append(text.as_str());
        proof {
            reveal_strlit("copies of ");
        }
        return s;
    }
    if let Some(k) = f.kind {
        return match k {
            FilterKind::Follower => String::from_str("followers"),
            FilterKind::Spell => String::from_str("spells"),
            FilterKind::Amulet => String::from_str("amulets"),
            FilterKind::Card => String::from_str(fallback),
        };
    }
    String::from_str(fallback)
}

/// Side word of a field-has label.
pub open spec fn field_has_side_word(side: Option<Side>) -> Seq<char> {
    match side {
        Some(Side::Enemy) => "enemy"@,
        Some(Side::Any) => ""@,
        None | Some(Side::Ally) => "allied"@,
    }
}

/// Kind word of a field-has label.
pub open spec fn field_has_kind_word(kind: Option<FieldHasKind>) -> Seq<char> {
    match kind {
        Some(FieldHasKind::Follower) => "followers"@,
        Some(FieldHasKind::Amulet) => "amulets"@,
        Some(FieldHasKind::Card) | Some(FieldHasKind::Character) | None => "cards"@,
    }
}

/// "<side> <noun> on the field", the side word left out when empty.
pub open spec fn spec_field_has_label(fh: FieldHas) -> Seq<char> {
    let side = field_has_side_word(fh.side);
    let noun = spec_filter_noun(fh.filter, field_has_kind_word(fh.kind));
    (if side.len() > 0 {
        side + " "@
    } else {
        Seq::empty()
    }) + noun + " on the field"@
}

pub fn field_has_label(field_has: &FieldHas) -> (r: String)
    ensures
        r@ == spec_field_has_label(*field_has),
{
    let side = match field_has.side {
        Some(Side::Enemy) => "enemy",
        Some(Side::Any) => "",
        None | Some(Side::Ally) => "allied",
    };
    let kind = match field_has.kind {
        Some(FieldHasKind::Follower) => "followers",
        Some(FieldHasKind::Amulet) => "amulets",
        Some(FieldHasKind::Card) | Some(FieldHasKind::Character) | None => "cards",
    };
    let noun = filter_noun(Some(&field_has.filter), kind);
    proof {
        reveal_strlit("enemy");
        reveal_strlit("");
        reveal_strlit("allied");
        reveal_strlit(" ");
        reveal_strlit(" on the field");
    }
    let mut out = String::new();
    if side.unicode_len() > 0 {
        out.append(side);
        out.append(" ");
    }
    out.append(noun.as_str());
    out.append(" on the field");
    out
}

/// Side word of a pool label.
pub open spec fn pool_side_word(side: Side) -> Seq<char> {
    match side {
        Side::Ally => "allied"@,
        Side::Enemy => "enemy"@,
        Side::Any => ""@,
    }
}

/// Zone words of a pool label.
pub open spec fn pool_zone_word(zone: Zone, side: Side) -> Seq<char> {
    match zone {
        Zone::Field => "on the field"@,
        Zone::Hand => if side == Side::Ally {
            "in your hand"@
        } else {
            "in hand"@
        },
        Zone::Deck => "in the deck"@,
        Zone::Cemetery => "in the cemetery"@,
        Zone::Leader => "leaders"@,
        Zone::Crests => "crests"@,
    }
}

/// Kind word of a pool label.
pub open spec fn pool_kind_word(kind: SelectorKind) -> Seq<char> {
    match kind {
        SelectorKind::Follower => "followers"@,
        SelectorKind::Amulet => "amulets"@,
        SelectorKind::Card => "cards"@,
        SelectorKind::Leader => "leaders"@,
        SelectorKind::Character => "characters"@,
        SelectorKind::Faith => "faith"@,
    }
}

/// Label of a count-at-least gate over a pool: "cards in your hand" for the
/// own unfiltered hand, otherwise side (not for hands), noun, then zone
/// (not for leaders), separated by spaces.
pub open spec fn spec_pool_label(p: PoolSelector, filter: Option<Filter>) -> Seq<char> {
    let filt = match filter {
        Some(f) => Some(f),
        None => p.filter,
    };
    let noun = spec_opt_filter_noun(filt, pool_kind_word(p.kind));
    let side = pool_side_word(p.side);
    if p.zone == Zone::Hand && p.side == Side::Ally && filt is None {
        "cards in your hand"@
    } else {
        let head = if side.len() > 0 && p.zone != Zone::Hand {
            side + " "@ + noun
        } else {
            noun
        };
        if p.zone != Zone::Leader {
            head + " "@ + pool_zone_word(p.zone, p.side)
        } else {
            head
        }
    }
}

/// What `count_at_least_label` gives: "cards" for a non-pool selector.
pub open spec fn spec_count_at_least_label(sel: Selector, filter: Option<Filter>) -> Seq<char> {
    match sel {
        Selector::Pool(p) => spec_pool_label(p, filter),
        _ => "cards"@,
    }
}

pub fn count_at_least_label(sel: &Selector, filter: Option<&Filter>) -> (r: String)
    ensures
        r@ == spec_count_at_least_label(
            *sel,
            match filter {
                Some(f) => Some(*f),
                None => None,
            },
        ),
{
    let p = match sel {
        Selector::Pool(p) => p,
        _ => {
            return String::from_str("cards");
        },
    };
    let side = match p.side {
        Side::Ally => "allied",
        Side::Enemy => "enemy",
        Side::Any => "",
    };
    let zone = match p.zone {
        Zone::Field => "on the field",
        Zone::Hand => if p.side == Side::Ally {
            "in your hand"
        } else {
            "in hand"
        },
        Zone::Deck => "in the deck",
        Zone::Cemetery => "in the cemetery",
        Zone::Leader => "leaders",
        Zone::Crests => "crests",
    };
    let kind = match p.kind {
        SelectorKind::Follower => "followers",
        SelectorKind::Amulet => "amulets",
        SelectorKind::Card => "cards",
        SelectorKind::Leader => "leaders",
        SelectorKind::Character => "characters",
        SelectorKind::Faith => "faith",
    };
    let filt: Option<&Filter> = match filter {
        Some(f) => Some(f),
        None => match &p.filter {
            Some(f) => Some(f),
            None => None,
        },
    };
    let noun = filter_noun(filt, kind);
    proof {
        reveal_strlit("allied");
        reveal_strlit("enemy");
        reveal_strlit("");
        reveal_strlit(" ");
    }
    if p.zone == Zone::Hand && p.side == Side::Ally && filt.is_none() {
        return String::from_str("cards in your hand");
    }
    let mut out = String::new();
    if side.unicode_len() > 0 && p.zone != Zone::Hand {
        out.append(side);
        out.append(" ");
    }
    out.append(noun.as_str());
    if p.zone != Zone::Leader {
        out.append(" ");
        out.append(zone);
    }
    out
}

/// The value of a card variable, zero when unset (first entry wins).
pub open spec fn var_value(vars: Seq<(VarKey, i32)>, key: VarKey, k: int) -> i32
    decreases vars.len() - k,
{
    if k < 0 || k >= vars.len() {
        0
    } else if vars[k].0 == key {
        vars[k].1
    } else {
        var_value(vars, key, k + 1)
    }
}

pub fn var_lookup(vars: &Vec<(VarKey, i32)>, key: VarKey) -> (r: i32)
    ensures
        r == var_value(vars@, key, 0),
{
    let mut i: usize = 0;
    while i < vars.len()
        invariant
            0 <= i <= vars.len(),
            var_value(vars@, key, 0) == var_value(vars@, key, i as int),
        decreases vars.len() - i,
    {
        if vars[i].0 == key {
            return vars[i].1;
        }
        i = i + 1;
    }
    0
}

/// Label and current value of a counter a condition reads.
pub open spec fn spec_counter_have(p: PlayerState, inst: CardInstance, key: CounterKey) -> (Seq<char>, i32) {
    match key {
        CounterKey::Named(NamedCounter::Combo) => ("combo"@, p.combo),
        CounterKey::Named(NamedCounter::Earth) => ("earth rite"@, p.earth),
        CounterKey::Named(NamedCounter::Faith) => ("faith"@, p.faith),
        CounterKey::Named(NamedCounter::Shadows) => ("shadows"@, p.shadows),
        CounterKey::Named(NamedCounter::SkyboundHand) => ("skybound art"@, inst.skybound),
        CounterKey::Var { var } => ("variable"@, var_value(inst.vars@, var, 0)),
    }
}

pub fn counter_have(p: &PlayerState, inst: &CardInstance, key: &CounterKey) -> (r: (String, i32))
    ensures
        (r.0@, r.1) == spec_counter_have(*p, *inst, *key),
{
    match key {
        CounterKey::Named(NamedCounter::Combo) => (String::from_str("combo"), p.combo),
        CounterKey::Named(NamedCounter::Earth) => (String::from_str("earth rite"), p.earth),
        CounterKey::Named(NamedCounter::Faith) => (String::from_str("faith"), p.faith),
        CounterKey::Named(NamedCounter::Shadows) => (String::from_str("shadows"), p.shadows),
        CounterKey::Named(NamedCounter::SkyboundHand) => (String::from_str("skybound art"), inst.skybound),
        CounterKey::Var { var } => (String::from_str("variable"), var_lookup(&inst.vars, *var)),
    }
}

/// Two instances agree on what the identity checks read.
pub open spec fn same_identity(a: CardInstance, b: CardInstance) -> bool {
    a.card == b.card && a.kind == b.kind && a.class == b.class && a.tribes@ == b.tribes@
}

proof fn lemma_simple_view(a: CardInstance, b: CardInstance, f: Filter)
    requires
        same_identity(a, b),
    ensures
        simple_holds(a, f) == simple_holds(b, f),
    decreases f,
{
    match f.all {
        Some(xs) => lemma_simple_all_view(a, b, xs@),
        None => match f.any {
            Some(xs) => lemma_simple_any_view(a, b, xs@),
            None => match f.not {
                Some(x) => lemma_simple_view(a, b, *x),
                None => {},
            },
        },
    }
}

proof fn lemma_simple_all_view(a: CardInstance, b: CardInstance, fs: Seq<Filter>)
    requires
        same_identity(a, b),
    ensures
        simple_all(a, fs) == simple_all(b, fs),
    decreases fs,
{
    if fs.len() > 0 {
        lemma_simple_all_view(a, b, fs.subrange(0, fs.len() - 1));
        lemma_simple_view(a, b, fs[fs.len() - 1]);
    }
}

proof fn lemma_simple_any_view(a: CardInstance, b: CardInstance, fs: Seq<Filter>)
    requires
        same_identity(a, b),
    ensures
        simple_any(a, fs) == simple_any(b, fs),
    decreases fs,
{
    if fs.len() > 0 {
        lemma_simple_any_view(a, b, fs.subrange(0, fs.len() - 1));
        lemma_simple_view(a, b, fs[fs.len() - 1]);
    }
}

/// A printed card as a fresh instance, for filtering.
pub open spec fn printed_inst(card: Card) -> CardInstance {
    choose|c: CardInstance| fresh_from_card(c, card, 0)
}

/// Whether a target option names an instance (field, hand, deck or printed
/// card) that passes the identity checks of `f`; other options never do.
pub open spec fn spec_target_matches_simple(db: CardDb, s: State, t: TargetOpt, f: Filter) -> bool {
    match t {
        TargetOpt::Slot { player, slot } => {
            let field = s.seat(player).field@;
            slot < field.len() && (field[slot as int] matches Some(c) && simple_holds(c, f))
        },
        TargetOpt::Hand { player, pos } => {
            let hand = s.seat(player).hand@;
            pos < hand.len() && simple_holds(hand[pos as int], f)
        },
        TargetOpt::Deck { player, id } => {
            let k = inst_pos(s.seat(player).deck@, id, 0);
            k >= 0 && simple_holds(s.seat(player).deck@[k], f)
        },
        TargetOpt::Card(id) => {
            let k = card_pos(db.cards@, id, 0);
            k >= 0 && simple_holds(printed_inst(db.cards@[k]), f)
        },
        _ => false,
    }
}

#[verifier::loop_isolation(false)]
pub fn target_matches_simple(db: &CardDb, state: &State, t: &TargetOpt, f: &Filter) -> (r: bool)
    ensures
        r == spec_target_matches_simple(*db, *state, *t, *f),
{
    match t {
        TargetOpt::Slot { player, slot } => match state.field_inst(*player, *slot) {
            Some(c) => inst_matches_simple(c, f),
            None => false,
        },
        TargetOpt::Hand { player, pos } => {
            let hand = &state.player(*player).hand;
            if (*pos as usize) < hand.len() {
                inst_matches_simple(&hand[*pos as usize], f)
            } else {
                false
            }
        },
        TargetOpt::Deck { player, id } => {
            let deck = &state.player(*player).deck;
            let mut i: usize = 0;
            while i < deck.len()
                invariant
                    deck@ == state.seat(*player).deck@,
                    0 <= i <= deck.len(),
                    inst_pos(deck@, *id, 0) == inst_pos(deck@, *id, i as int),
                decreases deck.len() - i,
            {
                if deck[i].id == *id {
                    return inst_matches_simple(&deck[i], f);
                }
                i = i + 1;
            }
            false
        },
        TargetOpt::Card(id) => match db.card(*id) {
            Ok(c) => {
                let inst = CardInstance::from_card(c, 0);
                proof {
                    assert(fresh_from_card(inst, *c, 0));
                    lemma_simple_view(inst, printed_inst(*c), *f);
                }
                inst_matches_simple(&inst, f)
            },
            Err(_) => false,
        },
        _ => false,
    }
}

} // verus!
