//! The rules that act on a match: hand limit, Bonus PP, evolution gates,
//! attack targets, turn start, leader and follower damage, choice listing.

use vstd::prelude::*;
use crate::action::{
    choose_option_json, first_option_from, is_neutral_of, lemma_neutral_roundtrip, option_count, option_entry,
    spec_choose_option, spec_from_neutral, Action,
};
use crate::trace::NeutralAction;
use crate::card::{card_ability_list, CardId, CardKind, Tribe};
use crate::form::{play_form, spec_play_form};
use crate::fusion::{can_fuse, engage_cost, first_engage_cost, spec_can_fuse};
use crate::playable::{chooses_fit, chooses_ok, chooses_ok_refs};
use crate::select::slots_fit;
use crate::error::Illegal;
use crate::event::{Event, EventTarget};
use crate::ids::{spec_opponent, spec_player_idx, AttackTarget, PlayerId, Slot};
use crate::db::{card_pos, CardDb};
use crate::state::{
    fresh_from_card, CrestInstance, InstanceFlags, occupied_count, spec_zone_count, BonusPp, CardInstance, ChoiceNode, Phase, PlayerState, State,
    TargetOpt, HAND_LIMIT, PP_CAP, FIELD_SLOTS, state_wf, mods_bonus, mods_bonus_fits, mods_cap,
};

verus! {

// =========================================================================
// Draw / overflow
// =========================================================================

/// A Rally play that resolved counts once for its seat.
pub fn commit_play_rally(state: &mut State)
    requires
        old(state).pending_play_rally matches Some(who) ==> old(state).seat(who).rally < i32::MAX,
    ensures
        final(state).pending_play_rally is None,
        final(state).turn == old(state).turn && final(state).active == old(state).active
            && final(state).phase == old(state).phase && final(state).winner == old(state).winner,
        forall|p: PlayerId| final(state).seat(p) == match old(state).pending_play_rally {
            Some(who) => if p == who {
                PlayerState { rally: (old(state).seat(p).rally + 1) as i32, ..old(state).seat(p) }
            } else {
                old(state).seat(p)
            },
            None => old(state).seat(p),
        },
{
    if let Some(who) = state.pending_play_rally {
        state.pending_play_rally = None;
        let p = state.player_mut(who);
        p.rally = p.rally + 1;
    }
}

/// A card that would exceed the hand limit is destroyed: it goes to the
/// cemetery without Last Words and counts as a shadow.
pub open spec fn added_to_hand(old_p: PlayerState, new_p: PlayerState, inst: CardInstance) -> bool {
    if old_p.hand.len() >= HAND_LIMIT {
        &&& new_p.hand@ == old_p.hand@
        &&& new_p.cemetery@ == old_p.cemetery@.push(inst)
        &&& new_p.shadows == old_p.shadows + 1
    } else {
        &&& new_p.hand@ == old_p.hand@.push(inst)
        &&& new_p.cemetery@ == old_p.cemetery@
        &&& new_p.shadows == old_p.shadows
    }
}

/// Fields of a seat other than hand, cemetery and shadows are equal.
pub open spec fn same_but_hand_zone(a: PlayerState, b: PlayerState) -> bool {
    b == (PlayerState { hand: b.hand, cemetery: b.cemetery, shadows: b.shadows, ..a })
}

/// Everything but one seat is unchanged.
pub open spec fn others_unchanged(a: State, b: State, who: PlayerId) -> bool {
    &&& b.players@ == a.players@.update(spec_player_idx(who) as int, b.seat(who))
    &&& b == (State { players: b.players, ..a })
}

pub fn overflow_destroy(state: &mut State, who: PlayerId, inst: CardInstance)
    requires
        old(state).seat(who).shadows < i32::MAX,
    ensures
        others_unchanged(*old(state), *final(state), who),
        final(state).seat(who).shadows == old(state).seat(who).shadows + 1,
        final(state).seat(who).cemetery@ == old(state).seat(who).cemetery@.push(inst),
        final(state).seat(who).hand@ == old(state).seat(who).hand@,
        same_but_hand_zone(old(state).seat(who), final(state).seat(who)),
{
    // no Last Words on a hand overflow
    let p = state.player_mut(who);
    p.shadows = p.shadows + 1;
    p.cemetery.push(inst);
}

pub fn add_to_hand(state: &mut State, who: PlayerId, inst: CardInstance)
    requires
        old(state).seat(who).shadows < i32::MAX,
    ensures
        others_unchanged(*old(state), *final(state), who),
        added_to_hand(old(state).seat(who), final(state).seat(who), inst),
        same_but_hand_zone(old(state).seat(who), final(state).seat(who)),
{
    if state.player(who).hand.len() >= HAND_LIMIT {
        overflow_destroy(state, who, inst);
    } else {
        state.player_mut(who).hand.push(inst);
    }
}

/// Adding a card never takes a hand past the hand limit, and the card is
/// kept either in hand or in the cemetery: the seat owns one more card.
pub proof fn lemma_add_to_hand_keeps_limit(old_p: PlayerState, new_p: PlayerState, inst: CardInstance)
    requires
        old_p.hand.len() <= HAND_LIMIT,
        added_to_hand(old_p, new_p, inst),
        same_but_hand_zone(old_p, new_p),
    ensures
        new_p.hand.len() <= HAND_LIMIT,
        spec_zone_count(new_p) == spec_zone_count(old_p) + 1,
{
}

// =========================================================================
// Bonus PP
// =========================================================================

/// The current tier's Bonus PP charge is unused: the early charge on own
/// turns before the sixth, the late charge from then on.
pub open spec fn spec_has_bonus_charge(p: PlayerState) -> bool {
    if p.turns_taken < 6 {
        p.bonus_pp.early_charge
    } else {
        p.bonus_pp.late_charge
    }
}

/// The second player may toggle Bonus PP after their first turn began,
/// unless the bonus orb was spent this turn; an active toggle can always be
/// cancelled, an inactive one needs an unused charge.
pub open spec fn spec_can_toggle_bonus_pp(p: PlayerState) -> bool {
    if !p.is_second || p.turns_taken == 0 {
        false
    } else if p.bonus_pp.locked {
        false
    } else if p.bonus_pp.active {
        true
    } else {
        spec_has_bonus_charge(p)
    }
}

/// Adds a card to a hand and names its new position, unless the hand was
/// full and the card was destroyed.
pub fn push_hand_target(state: &mut State, who: PlayerId, inst: CardInstance) -> (r: Option<TargetOpt>)
    requires
        old(state).seat(who).shadows < i32::MAX,
    ensures
        others_unchanged(*old(state), *final(state), who),
        added_to_hand(old(state).seat(who), final(state).seat(who), inst),
        old(state).seat(who).hand.len() < HAND_LIMIT ==> r == Some(
            TargetOpt::Hand { player: who, pos: old(state).seat(who).hand.len() as u8 },
        ),
        old(state).seat(who).hand.len() >= HAND_LIMIT ==> r is None,
{
    let before = state.player(who).hand.len();
    add_to_hand(state, who, inst);
    if state.player(who).hand.len() > before {
        Some(TargetOpt::Hand { player: who, pos: before as u8 })
    } else {
        None
    }
}

pub fn has_bonus_charge(p: &PlayerState) -> (r: bool)
    ensures
        r == spec_has_bonus_charge(*p),
{
    if p.turns_taken < 6 {
        p.bonus_pp.early_charge
    } else {
        p.bonus_pp.late_charge
    }
}

pub fn can_toggle_bonus_pp(p: &PlayerState) -> (r: bool)
    ensures
        r == spec_can_toggle_bonus_pp(*p),
{
    if !p.is_second || p.turns_taken == 0 {
        return false;
    }
    if p.bonus_pp.locked {
        return false;
    }
    if p.bonus_pp.active {
        return true;
    }
    has_bonus_charge(p)
}

pub fn apply_bonus(state: &mut State, _events: &mut [Event]) -> (r: Result<(), Illegal>)
    ensures
        r is Err <==> !spec_can_toggle_bonus_pp(old(state).seat(old(state).active)),
        r is Err ==> *final(state) == *old(state),
        r is Ok ==> {
            let me = old(state).active;
            &&& others_unchanged(*old(state), *final(state), me)
            &&& final(state).seat(me) == PlayerState {
                bonus_pp: BonusPp { active: !old(state).seat(me).bonus_pp.active, ..old(state).seat(me).bonus_pp },
                ..old(state).seat(me)
            }
        },
{
    let me = state.active;
    if !can_toggle_bonus_pp(state.player(me)) {
        return Err(Illegal::NotLegal);
    }
    let p = state.player_mut(me);
    if p.bonus_pp.active {
        // cancel while unspent: the charge stays available
        p.bonus_pp.active = false;
    } else {
        p.bonus_pp.active = true;
    }
    Ok(())
}

/// End of turn commits an activated (or spent) Bonus PP charge.
pub open spec fn spec_commit_bonus_pp(p: PlayerState) -> PlayerState {
    let b = p.bonus_pp;
    let used = b.active || b.locked;
    PlayerState {
        bonus_pp: BonusPp {
            early_charge: if used && p.turns_taken < 6 { false } else { b.early_charge },
            late_charge: if used && p.turns_taken >= 6 { false } else { b.late_charge },
            active: false,
            locked: false,
        },
        ..p
    }
}

pub fn commit_bonus_pp(p: &mut PlayerState)
    ensures
        *final(p) == spec_commit_bonus_pp(*old(p)),
{
    if p.bonus_pp.active || p.bonus_pp.locked {
        if p.turns_taken < 6 {
            p.bonus_pp.early_charge = false;
        } else {
            p.bonus_pp.late_charge = false;
        }
    }
    p.bonus_pp.active = false;
    p.bonus_pp.locked = false;
}

/// Activating Bonus PP and cancelling it again restores the seat; and an
/// activated charge, once committed at end of turn, is gone for its tier.
pub proof fn lemma_bonus_toggle_involution(p: PlayerState)
    requires
        spec_can_toggle_bonus_pp(p),
        !p.bonus_pp.active,
    ensures
        ({
            let q = PlayerState { bonus_pp: BonusPp { active: !p.bonus_pp.active, ..p.bonus_pp }, ..p };
            &&& spec_can_toggle_bonus_pp(q)
            &&& PlayerState { bonus_pp: BonusPp { active: !q.bonus_pp.active, ..q.bonus_pp }, ..q } == p
        }),
        !spec_has_bonus_charge(spec_commit_bonus_pp(PlayerState { bonus_pp: BonusPp { active: true, ..p.bonus_pp }, ..p })),
{
    let q = PlayerState { bonus_pp: BonusPp { active: !p.bonus_pp.active, ..p.bonus_pp }, ..p };
    let r = PlayerState { bonus_pp: BonusPp { active: !q.bonus_pp.active, ..q.bonus_pp }, ..q };
    assert(r.bonus_pp == p.bonus_pp);
    assert(r == p);
}

// =========================================================================
// Evolution gates
// =========================================================================

/// Evolve unlocks on own turn 5 (4 for the second player), super-evolve
/// on turn 7 (6); one manual evolution per turn; a point must remain.
pub open spec fn spec_can_evolve(p: PlayerState, inst: CardInstance, supered: bool) -> bool {
    if inst.kind != CardKind::Follower || inst.evolved {
        false
    } else if p.evolved_this_turn {
        false
    } else if supered {
        p.turns_taken >= (if p.is_second { 6u32 } else { 7u32 }) && p.sep > 0
    } else {
        p.turns_taken >= (if p.is_second { 4u32 } else { 5u32 }) && p.ep > 0
    }
}

pub fn can_evolve(state: &State, me: PlayerId, inst: &CardInstance, supered: bool) -> (r: bool)
    ensures
        r == spec_can_evolve(state.seat(me), *inst, supered),
{
    if inst.kind != CardKind::Follower || inst.evolved {
        return false;
    }
    let p = state.player(me);
    if p.evolved_this_turn {
        return false;
    }
    let t = p.turns_taken;
    if supered {
        let unlock: u32 = if p.is_second { 6 } else { 7 };
        t >= unlock && p.sep > 0
    } else {
        let unlock: u32 = if p.is_second { 4 } else { 5 };
        t >= unlock && p.ep > 0
    }
}

pub fn already_fused_kind(host: &CardInstance, partner: &CardInstance) -> (r: bool)
    ensures
        r == host.flags.fused_kinds@.contains(partner.card),
{
    let kinds = &host.flags.fused_kinds;
    let mut i: usize = 0;
    while i < kinds.len()
        invariant
            kinds@ == host.flags.fused_kinds@,
            0 <= i <= kinds.len(),
            forall|j: int| 0 <= j < i ==> kinds@[j] != partner.card,
        decreases kinds.len() - i,
    {
        if kinds[i] == partner.card {
            assert(kinds@[i as int] == partner.card);
            return true;
        }
        i = i + 1;
    }
    false
}

/// Accounting: cards a seat owns in deck, hand, field, cemetery and
/// banishment.
pub fn zone_count(p: &PlayerState) -> (r: usize)
    requires
        p.deck.len() + p.hand.len() + p.field.len() + p.cemetery.len() + p.banished.len() <= usize::MAX,
    ensures
        r == spec_zone_count(*p),
{
    let f = p.field_count();
    proof {
        crate::state::lemma_occupied_count_bound(p.field@);
    }
    p.deck.len() + p.hand.len() + f + p.cemetery.len() + p.banished.len()
}


// =========================================================================
// Attack targets
// =========================================================================

/// An enemy field slot an attacker may target at all: a live follower that
/// is neither in Ambush nor Intimidate, against an attacker that may attack
/// followers.
pub open spec fn targetable(inst: CardInstance, slot: Option<CardInstance>) -> bool {
    match slot {
        Some(f) => f.kind == CardKind::Follower && f.defense > 0 && f.traits.ambush != Some(true)
            && f.traits.intimidate != Some(true) && inst.traits.cant_attack_followers != Some(true),
        None => false,
    }
}

/// A targetable slot whose Ward binds this attacker.
pub open spec fn ward_binds(inst: CardInstance, slot: Option<CardInstance>) -> bool {
    targetable(inst, slot) && slot->0.traits.ward == Some(true) && inst.traits.ignores_ward != Some(true)
}

/// Slots `0..n` of the enemy field that satisfy `ward == want_ward`, in
/// slot order.
pub open spec fn slot_targets(inst: CardInstance, field: Seq<Option<CardInstance>>, n: int, want_ward: bool) -> Seq<
    AttackTarget,
>
    decreases n,
{
    if n <= 0 || n > field.len() {
        Seq::empty()
    } else {
        let prev = slot_targets(inst, field, n - 1, want_ward);
        if targetable(inst, field[n - 1]) && ward_binds(inst, field[n - 1]) == want_ward {
            prev.push(AttackTarget::Slot(Slot((n - 1) as u8)))
        } else {
            prev
        }
    }
}

/// Targets of a follower on `me`'s field. Nothing for a follower that
/// cannot attack (no attacks left, dead, summoning sick without Storm,
/// Rush or evolution, or locked out of both kinds of target). Ward
/// followers must be attacked first unless the attacker ignores Ward; the
/// leader is a target only without a binding Ward, for a Storm or
/// non-sick attacker that may attack leaders.
pub open spec fn spec_attack_targets(s: State, me: PlayerId, inst: CardInstance) -> Seq<AttackTarget> {
    let storm = inst.traits.storm == Some(true);
    let rush = inst.traits.rush == Some(true);
    let sick = inst.flags.summoning_sick && !storm && !rush && !inst.evolved;
    if inst.kind != CardKind::Follower || inst.flags.attacks_left <= 0 || inst.defense <= 0 {
        Seq::empty()
    } else if sick {
        Seq::empty()
    } else if inst.traits.cant_attack_leader == Some(true) && inst.traits.cant_attack_followers == Some(true) {
        Seq::empty()
    } else {
        let field = s.seat(spec_opponent(me)).field@;
        let wards = slot_targets(inst, field, field.len() as int, true);
        let others = slot_targets(inst, field, field.len() as int, false);
        let ward_gate = wards.len() > 0;
        let can_leader = storm || !inst.flags.summoning_sick;
        let out = if ward_gate { wards } else { others };
        if can_leader && inst.traits.cant_attack_leader != Some(true) && !ward_gate {
            out.push(AttackTarget::Leader)
        } else {
            out
        }
    }
}

pub fn attack_targets(state: &State, me: PlayerId, _slot: u8, inst: &CardInstance) -> (r: Vec<AttackTarget>)
    ensures
        r@ == spec_attack_targets(*state, me, *inst),
{
    if inst.kind != CardKind::Follower || inst.flags.attacks_left <= 0 || inst.defense <= 0 {
        return Vec::new();
    }
    let sick = inst.flags.summoning_sick && !inst.is_storm() && !inst.is_rush() && !inst.evolved;
    if sick {
        return Vec::new();
    }
    // evolved this turn: follower attacks only (like Rush), not leader unless Storm
    let can_leader = inst.is_storm() || !inst.flags.summoning_sick;
    if inst.traits.cant_attack_leader == Some(true) && inst.traits.cant_attack_followers == Some(true) {
        return Vec::new();
    }
    let opp = me.opponent();
    let enemy = state.player(opp);
    let mut wards: Vec<AttackTarget> = Vec::new();
    let mut others: Vec<AttackTarget> = Vec::new();
    let mut i: usize = 0;
    while i < enemy.field.len()
        invariant
            enemy == state.seat(spec_opponent(me)),
            0 <= i <= enemy.field.len(),
            wards@ == slot_targets(*inst, enemy.field@, i as int, true),
            others@ == slot_targets(*inst, enemy.field@, i as int, false),
        decreases enemy.field.len() - i,
    {
        match &enemy.field[i] {
            Some(f) => {
                if f.kind == CardKind::Follower && f.defense > 0 && !f.ambush_blocks() && !f.is_intimidate()
                    && !(inst.traits.cant_attack_followers == Some(true)) {
                    if f.is_ward() && !inst.ignores_ward() {
                        wards.push(AttackTarget::Slot(Slot(i as u8)));
                    } else {
                        others.push(AttackTarget::Slot(Slot(i as u8)));
                    }
                }
            },
            None => {},
        }
        i = i + 1;
    }
    let ward_gate = wards.len() > 0 && !inst.ignores_ward();
    proof {
        // a binding Ward already excludes attackers that ignore Ward
        if inst.traits.ignores_ward == Some(true) {
            lemma_wards_need_binding(*inst, enemy.field@, enemy.field@.len() as int);
        }
    }
    let mut out = if ward_gate {
        wards
    } else {
        others
    };
    if can_leader && inst.traits.cant_attack_leader != Some(true) && !ward_gate {
        out.push(AttackTarget::Leader);
    }
    out
}

proof fn lemma_wards_need_binding(inst: CardInstance, field: Seq<Option<CardInstance>>, n: int)
    requires
        inst.traits.ignores_ward == Some(true),
    ensures
        slot_targets(inst, field, n, true).len() == 0,
    decreases n,
{
    if n > 0 && n <= field.len() {
        lemma_wards_need_binding(inst, field, n - 1);
    }
}

/// While an enemy Ward follower binds the attacker, every target offered
/// is a Ward follower slot: never the leader, never an unwarded follower.
pub proof fn lemma_ward_gate(s: State, me: PlayerId, inst: CardInstance)
    requires
        state_wf(s),
    ensures
        ({
            let field = s.seat(spec_opponent(me)).field@;
            let ts = spec_attack_targets(s, me, inst);
            slot_targets(inst, field, field.len() as int, true).len() > 0 ==> forall|k: int|
                0 <= k < ts.len() ==> (#[trigger] ts[k] matches AttackTarget::Slot(sl) && sl.0 < field.len()
                    && ward_binds(inst, field[sl.0 as int]))
        }),
{
    let field = s.seat(spec_opponent(me)).field@;
    assert(field.len() == FIELD_SLOTS) by {
        assert(s.seat(spec_opponent(me)) == s.players[spec_player_idx(spec_opponent(me)) as int]);
    }
    lemma_slot_targets_sound(inst, field, field.len() as int, true);
}

proof fn lemma_slot_targets_sound(inst: CardInstance, field: Seq<Option<CardInstance>>, n: int, want_ward: bool)
    requires
        field.len() <= 256,
    ensures
        forall|k: int|
            0 <= k < slot_targets(inst, field, n, want_ward).len() ==> (#[trigger] slot_targets(
                inst,
                field,
                n,
                want_ward,
            )[k] matches AttackTarget::Slot(sl) && sl.0 < field.len() && sl.0 < n && targetable(
                inst,
                field[sl.0 as int],
            ) && ward_binds(inst, field[sl.0 as int]) == want_ward),
    decreases n,
{
    if n > 0 && n <= field.len() {
        lemma_slot_targets_sound(inst, field, n - 1, want_ward);
    }
}


// =========================================================================
// Choices: copies of one card collapse to the lowest position
// =========================================================================

/// Card id at a hand position of a seat, if the position exists.
pub open spec fn hand_card_at(s: State, who: PlayerId, pos: int) -> Option<CardId> {
    let h = s.seat(who).hand@;
    if 0 <= pos < h.len() {
        Some(h[pos].card)
    } else {
        None
    }
}

/// Option `k` is a hand card of `player` with card id `card`.
pub open spec fn option_is_hand_copy(s: State, o: TargetOpt, player: PlayerId, card: CardId) -> bool {
    o matches TargetOpt::Hand { player: p, pos } && p == player && hand_card_at(s, player, pos as int)
        == Some(card)
}

/// First option, from `k` on, that is a hand copy of `card`; -1 if none.
pub open spec fn first_hand_copy(s: State, options: Seq<TargetOpt>, player: PlayerId, card: CardId, k: int) -> int
    decreases options.len() - k,
{
    if k < 0 || k >= options.len() {
        -1
    } else if option_is_hand_copy(s, options[k], player, card) {
        k
    } else {
        first_hand_copy(s, options, player, card, k + 1)
    }
}

/// Option index a choice of `i` resolves to: when `i` is a hand card, the
/// first option that is a hand copy of the same card; otherwise `i`.
pub open spec fn spec_lowest_hand_copy_index(s: State, options: Seq<TargetOpt>, i: int) -> int {
    if 0 <= i < options.len() && options[i] is Hand {
        let player = options[i]->Hand_player;
        let pos = options[i]->Hand_pos;
        match hand_card_at(s, player, pos as int) {
            Some(card) => {
                let f = first_hand_copy(s, options, player, card, 0);
                if f >= 0 { f } else { i }
            },
            None => i,
        }
    } else {
        i
    }
}

#[verifier::loop_isolation(false)]
pub fn lowest_hand_copy_index(state: &State, options: &[TargetOpt], i: usize) -> (r: usize)
    ensures
        r == spec_lowest_hand_copy_index(*state, options@, i as int),
{
    if i >= options.len() {
        return i;
    }
    let (player, pos) = match options[i] {
        TargetOpt::Hand { player, pos } => (player, pos),
        _ => return i,
    };
    let h = &state.player(player).hand;
    if (pos as usize) >= h.len() {
        return i;
    }
    let card = h[pos as usize].card;
    let mut k: usize = 0;
    while k < options.len()
        invariant
            0 <= k <= options.len(),
            h@ == state.seat(player).hand@,
            first_hand_copy(*state, options@, player, card, 0) == first_hand_copy(
                *state,
                options@,
                player,
                card,
                k as int,
            ),
        decreases options.len() - k,
    {
        match options[k] {
            TargetOpt::Hand { player: p2, pos: pos2 } => {
                if p2 == player && (pos2 as usize) < h.len() && h[pos2 as usize].card == card {
                    return k;
                }
            },
            _ => {},
        }
        k = k + 1;
    }
    i
}

/// First fuse option, from `k` on, that is unpicked and a hand copy of
/// `card`; -1 if none.
pub open spec fn first_unpicked_copy(
    s: State,
    player: PlayerId,
    options: Seq<u8>,
    picked: Seq<u8>,
    card: CardId,
    k: int,
) -> int
    decreases options.len() - k,
{
    if k < 0 || k >= options.len() {
        -1
    } else if !picked.contains(options[k]) && hand_card_at(s, player, options[k] as int) == Some(card) {
        k
    } else {
        first_unpicked_copy(s, player, options, picked, card, k + 1)
    }
}

/// A second choice of the same card among fuse partners takes the next
/// unpicked copy.
pub open spec fn spec_lowest_unpicked_fuse_index(
    s: State,
    player: PlayerId,
    options: Seq<u8>,
    picked: Seq<u8>,
    i: int,
) -> int {
    if 0 <= i < options.len() {
        match hand_card_at(s, player, options[i] as int) {
            Some(card) => {
                let f = first_unpicked_copy(s, player, options, picked, card, 0);
                if f >= 0 { f } else { i }
            },
            None => i,
        }
    } else {
        i
    }
}

fn u8_contains(v: &[u8], x: u8) -> (r: bool)
    ensures
        r == v@.contains(x),
{
    let mut i: usize = 0;
    while i < v.len()
        invariant
            0 <= i <= v.len(),
            forall|j: int| 0 <= j < i ==> v@[j] != x,
        decreases v.len() - i,
    {
        if v[i] == x {
            assert(v@[i as int] == x);
            return true;
        }
        i = i + 1;
    }
    false
}

#[verifier::loop_isolation(false)]
pub fn lowest_unpicked_fuse_index(state: &State, player: PlayerId, options: &[u8], picked: &[u8], i: usize) -> (r: usize)
    ensures
        r == spec_lowest_unpicked_fuse_index(*state, player, options@, picked@, i as int),
{
    if i >= options.len() {
        return i;
    }
    let pos = options[i];
    let h = &state.player(player).hand;
    if (pos as usize) >= h.len() {
        return i;
    }
    let card = h[pos as usize].card;
    let mut k: usize = 0;
    while k < options.len()
        invariant
            0 <= k <= options.len(),
            h@ == state.seat(player).hand@,
            first_unpicked_copy(*state, player, options@, picked@, card, 0) == first_unpicked_copy(
                *state,
                player,
                options@,
                picked@,
                card,
                k as int,
            ),
        decreases options.len() - k,
    {
        let p = options[k];
        if !u8_contains(picked, p) && (p as usize) < h.len() && h[p as usize].card == card {
            return k;
        }
        k = k + 1;
    }
    i
}

/// A resolved hand-copy choice names the same card as the choice it came
/// from, at a position no later than it.
pub proof fn lemma_lowest_hand_copy(s: State, options: Seq<TargetOpt>, i: int)
    requires
        0 <= i < options.len(),
        options[i] matches TargetOpt::Hand { player, pos } && hand_card_at(s, player, pos as int) is Some,
    ensures
        ({
            let j = spec_lowest_hand_copy_index(s, options, i);
            let player = options[i]->Hand_player;
            let card = hand_card_at(s, player, options[i]->Hand_pos as int)->0;
            0 <= j <= i && option_is_hand_copy(s, options[j], player, card)
        }),
{
    let player = options[i]->Hand_player;
    let card = hand_card_at(s, player, options[i]->Hand_pos as int)->0;
    lemma_first_hand_copy(s, options, player, card, 0, i);
}

proof fn lemma_first_hand_copy(s: State, options: Seq<TargetOpt>, player: PlayerId, card: CardId, k: int, i: int)
    requires
        0 <= k <= i < options.len(),
        option_is_hand_copy(s, options[i], player, card),
    ensures
        k <= first_hand_copy(s, options, player, card, k) <= i,
        option_is_hand_copy(s, options[first_hand_copy(s, options, player, card, k)], player, card),
    decreases i - k,
{
    if !option_is_hand_copy(s, options[k], player, card) {
        lemma_first_hand_copy(s, options, player, card, k + 1, i);
    }
}

// =========================================================================
// Deck lookups, Bane protection, leader lethal
// =========================================================================

/// First deck position holding card `id`; -1 if none.
pub open spec fn first_deck_copy(deck: Seq<CardInstance>, id: CardId, k: int) -> int
    decreases deck.len() - k,
{
    if k < 0 || k >= deck.len() {
        -1
    } else if deck[k].card == id {
        k
    } else {
        first_deck_copy(deck, id, k + 1)
    }
}

/// Remove one copy of `id` from `who`'s deck: the first in deck order.
#[verifier::loop_isolation(false)]
pub fn remove_from_deck_by_id(state: &mut State, who: PlayerId, id: CardId) -> (r: Option<CardInstance>)
    ensures
        others_unchanged(*old(state), *final(state), who),
        ({
            let deck = old(state).seat(who).deck@;
            let k = first_deck_copy(deck, id, 0);
            &&& r is Some == (k >= 0)
            &&& k >= 0 ==> r->0 == deck[k] && final(state).seat(who).deck@ == deck.remove(k)
            &&& k < 0 ==> final(state).seat(who) == old(state).seat(who)
            &&& final(state).seat(who).hand@ == old(state).seat(who).hand@
        }),
{
    let ghost deck = old(state).seat(who).deck@;
    let mut pos: usize = 0;
    let n = state.player(who).deck.len();
    while pos < n
        invariant
            n == deck.len(),
            deck == state.seat(who).deck@,
            0 <= pos <= n,
            first_deck_copy(deck, id, 0) == first_deck_copy(deck, id, pos as int),
        decreases n - pos,
    {
        if state.player(who).deck[pos].card == id {
            break;
        }
        pos = pos + 1;
    }
    if pos == n {
        assert(state.players@ =~= old(state).players@.update(spec_player_idx(who) as int, state.seat(who)));
        return None;
    }
    let p = state.player_mut(who);
    Some(p.deck.remove(pos))
}

/// Bane (and destroy effects) cannot destroy a card that cannot be
/// destroyed by abilities, an Earth Sigil, or a super-evolved follower on
/// its owner's turn.
pub open spec fn spec_bane_blocked(s: State, owner: PlayerId, inst: CardInstance) -> bool {
    inst.traits.cant_be_destroyed_by_abilities == Some(true) || inst.tribes@.contains(Tribe::EarthSigil) || (
    inst.super_evolved && s.active == owner)
}

pub fn bane_blocked(state: &State, owner: PlayerId, inst: &CardInstance) -> (r: bool)
    ensures
        r == spec_bane_blocked(*state, owner, *inst),
{
    inst.traits.cant_be_destroyed_by_abilities == Some(true) || inst.is_earth_sigil() || (inst.super_evolved
        && state.active == owner)
}

/// Winner after a leader-damage check: when both leaders are at 0 or
/// below, the active player loses; otherwise the seat whose leader
/// survives wins.
pub open spec fn spec_lethal_winner(s: State) -> Option<PlayerId> {
    let a_dead = s.players[0].leader_defense <= 0;
    let b_dead = s.players[1].leader_defense <= 0;
    if a_dead && b_dead {
        Some(spec_opponent(s.active))
    } else if a_dead {
        Some(PlayerId::B)
    } else if b_dead {
        Some(PlayerId::A)
    } else {
        None
    }
}

pub fn check_leader_lethal(state: &mut State)
    ensures
        *final(state) == (State { winner: final(state).winner, phase: final(state).phase, ..*old(state) }),
        match spec_lethal_winner(*old(state)) {
            Some(w) => final(state).winner == Some(w) && final(state).phase is Terminal,
            None => *final(state) == *old(state),
        },
{
    let a_dead = state.player(PlayerId::A).leader_defense <= 0;
    let b_dead = state.player(PlayerId::B).leader_defense <= 0;
    if a_dead && b_dead {
        state.winner = Some(state.active.opponent());
        state.phase = Phase::Terminal;
    } else if a_dead {
        state.winner = Some(PlayerId::B);
        state.phase = Phase::Terminal;
    } else if b_dead {
        state.winner = Some(PlayerId::A);
        state.phase = Phase::Terminal;
    }
}

/// A seat whose leader is at 0 or below never wins; when exactly one
/// leader is down the other seat wins.
pub proof fn lemma_lethal_winner(s: State)
    ensures
        spec_lethal_winner(s) matches Some(w) ==> s.players[spec_player_idx(w) as int].leader_defense > 0 || (
        s.players[0].leader_defense <= 0 && s.players[1].leader_defense <= 0 && w != s.active),
        (s.players[0].leader_defense <= 0 || s.players[1].leader_defense <= 0) ==> spec_lethal_winner(s) is Some,
{
}


// =========================================================================
// Legal choices
// =========================================================================

/// `Choose(0)`, ..., `Choose(n - 1)`.
pub open spec fn choose_range(n: int) -> Seq<Action> {
    Seq::new(n as nat, |k: int| Action::Choose(k as u8))
}

/// `Choose(i)` for each fuse option `i` (below `n`) not already picked.
pub open spec fn fuse_choices(options: Seq<u8>, picked: Seq<u8>, n: int) -> Seq<Action>
    decreases n,
{
    if n <= 0 || n > options.len() {
        Seq::empty()
    } else {
        let prev = fuse_choices(options, picked, n - 1);
        if picked.contains(options[n - 1]) {
            prev
        } else {
            prev.push(Action::Choose((n - 1) as u8))
        }
    }
}

/// Every answer to the pending choice, before copies are collapsed:
/// each option, plus Confirm for a multi-pick and for fuse partners once
/// one is picked. Option counts are taken modulo 256.
pub open spec fn raw_choice_actions(s: State) -> Seq<Action> {
    match s.phase {
        Phase::Choice { node, .. } => match node {
            ChoiceNode::Targets { options } => choose_range((options.len() as u8) as int),
            ChoiceNode::MultiPick { options, .. } => choose_range((options.len() as u8) as int).push(
                Action::Confirm,
            ),
            ChoiceNode::Modes { options, .. } => choose_range((options.len() as u8) as int),
            ChoiceNode::Cards { options } => choose_range((options.len() as u8) as int),
            ChoiceNode::FusePartners { options, picked, .. } => {
                let cs = fuse_choices(options@, picked@, options.len() as int);
                if picked.len() > 0 {
                    cs.push(Action::Confirm)
                } else {
                    cs
                }
            },
        },
        _ => Seq::empty(),
    }
}

/// Two answers that are recorded the same way.
pub open spec fn same_form(s: State, a: Action, b: Action) -> bool {
    match (a, b) {
        (Action::Choose(i), Action::Choose(j)) => spec_choose_option(s, i) == spec_choose_option(s, j),
        (Action::Confirm, Action::Confirm) => true,
        _ => false,
    }
}

/// `raw[0..n]` keeping only the first answer of each recorded form.
pub open spec fn dedup_forms(s: State, raw: Seq<Action>, n: int) -> Seq<Action>
    decreases n,
{
    if n <= 0 || n > raw.len() {
        Seq::empty()
    } else {
        let prev = dedup_forms(s, raw, n - 1);
        if exists|k: int| 0 <= k < prev.len() && same_form(s, #[trigger] prev[k], raw[n - 1]) {
            prev
        } else {
            prev.push(raw[n - 1])
        }
    }
}

/// Legal answers to the pending choice: each recorded form once, at its
/// first position.
pub open spec fn spec_legal_choice(s: State) -> Seq<Action> {
    let raw = raw_choice_actions(s);
    dedup_forms(s, raw, raw.len() as int)
}

fn choose_all(n: u8, out: &mut Vec<Action>)
    ensures
        final(out)@ == old(out)@ + choose_range(n as int),
{
    let mut k: u8 = 0;
    while k < n
        invariant
            0 <= k <= n,
            out@ == old(out)@ + choose_range(k as int),
        decreases n - k,
    {
        out.push(Action::Choose(k));
        assert(out@ =~= old(out)@ + choose_range(k as int + 1));
        k = k + 1;
    }
}

fn raw_choice(state: &State) -> (r: Vec<Action>)
    ensures
        r@ == raw_choice_actions(*state),
{
    let mut v: Vec<Action> = Vec::new();
    match &state.phase {
        Phase::Choice { node, .. } => match node {
            ChoiceNode::Targets { options } => {
                choose_all(#[verifier::truncate] (options.len() as u8), &mut v);
            },
            ChoiceNode::MultiPick { options, .. } => {
                choose_all(#[verifier::truncate] (options.len() as u8), &mut v);
                v.push(Action::Confirm);
            },
            ChoiceNode::Modes { options, .. } => {
                choose_all(#[verifier::truncate] (options.len() as u8), &mut v);
            },
            ChoiceNode::Cards { options } => {
                choose_all(#[verifier::truncate] (options.len() as u8), &mut v);
            },
            ChoiceNode::FusePartners { options, picked, .. } => {
                // unpicked partners only; Confirm commits once one is picked
                let mut i: usize = 0;
                while i < options.len()
                    invariant
                        0 <= i <= options.len(),
                        v@ == fuse_choices(options@, picked@, i as int),
                    decreases options.len() - i,
                {
                    if !u8_contains(picked.as_slice(), options[i]) {
                        v.push(Action::Choose(#[verifier::truncate] (i as u8)));
                    }
                    i = i + 1;
                }
                if picked.len() > 0 {
                    v.push(Action::Confirm);
                }
            },
        },
        _ => {},
    }
    assert(v@ =~= raw_choice_actions(*state));
    v
}

fn same_form_exec(state: &State, a: &Action, b: &Action) -> (r: bool)
    ensures
        r == same_form(*state, *a, *b),
{
    match (a, b) {
        (Action::Choose(i), Action::Choose(j)) => {
            let x = choose_option_json(state, *i);
            let y = choose_option_json(state, *j);
            crate::trace::same_option(&x, &y)
        },
        (Action::Confirm, Action::Confirm) => true,
        _ => false,
    }
}

fn has_form(state: &State, seen: &Vec<Action>, a: &Action) -> (r: bool)
    ensures
        r == exists|k: int| 0 <= k < seen@.len() && same_form(*state, #[trigger] seen@[k], *a),
{
    let mut k: usize = 0;
    while k < seen.len()
        invariant
            0 <= k <= seen.len(),
            forall|j: int| 0 <= j < k ==> !same_form(*state, #[trigger] seen@[j], *a),
        decreases seen.len() - k,
    {
        if same_form_exec(state, &seen[k], a) {
            assert(same_form(*state, seen@[k as int], *a));
            return true;
        }
        k = k + 1;
    }
    false
}

/// Choice answers. `legal` is a set: copies of one card collapse to the
/// lowest position, so a recorded `{card}` always replays to the same copy.
pub fn legal_choice(state: &State) -> (r: Vec<Action>)
    ensures
        r@ == spec_legal_choice(*state),
{
    let raw = raw_choice(state);
    let mut out: Vec<Action> = Vec::new();
    let mut i: usize = 0;
    while i < raw.len()
        invariant
            raw@ == raw_choice_actions(*state),
            0 <= i <= raw.len(),
            out@ == dedup_forms(*state, raw@, i as int),
        decreases raw.len() - i,
    {
        let a = raw[i];
        if !has_form(state, &out, &a) {
            out.push(a);
        }
        i = i + 1;
    }
    out
}

/// No two legal choice answers are recorded the same way.
pub proof fn lemma_legal_choice_distinct(s: State)
    ensures
        forall|j: int, k: int|
            0 <= j < k < spec_legal_choice(s).len() ==> !same_form(s, #[trigger] spec_legal_choice(s)[j], #[trigger] spec_legal_choice(s)[k]),
{
    let raw = raw_choice_actions(s);
    lemma_dedup_distinct(s, raw, raw.len() as int);
}

proof fn lemma_dedup_distinct(s: State, raw: Seq<Action>, n: int)
    ensures
        forall|j: int, k: int|
            0 <= j < k < dedup_forms(s, raw, n).len() ==> !same_form(s, #[trigger] dedup_forms(s, raw, n)[j], #[trigger] dedup_forms(s, raw, n)[k]),
    decreases n,
{
    if n > 0 && n <= raw.len() {
        lemma_dedup_distinct(s, raw, n - 1);
        let prev = dedup_forms(s, raw, n - 1);
        let cur = dedup_forms(s, raw, n);
        if !(exists|k: int| 0 <= k < prev.len() && same_form(s, #[trigger] prev[k], raw[n - 1])) {
            assert forall|j: int, k: int| 0 <= j < k < cur.len() implies !same_form(s, #[trigger] cur[j], #[trigger] cur[k]) by {
                if k == cur.len() - 1 {
                    assert(cur[k] == raw[n - 1]);
                    assert(cur[j] == prev[j]);
                } else {
                    assert(cur[j] == prev[j] && cur[k] == prev[k]);
                }
            }
        }
    }
}


// =========================================================================
// Turn start
// =========================================================================

/// A field instance at the start of its owner's turn: it may engage and
/// attack again (as many times as its trait allows, once when unstated),
/// is no longer summoning sick, and its once-per-turn abilities reset.
pub open spec fn refreshed_slot(o: Option<CardInstance>, n: Option<CardInstance>) -> bool {
    match (o, n) {
        (Some(c), Some(d)) => {
            &&& d == CardInstance {
                flags: InstanceFlags {
                    engaged_this_turn: false,
                    attacked_this_turn: false,
                    attacks_left: match c.traits.attacks_per_turn {
                        Some(k) => k,
                        None => 1,
                    },
                    summoning_sick: false,
                    ..c.flags
                },
                once_used: d.once_used,
                ..c
            }
            &&& d.once_used@.len() == 0
        },
        (None, None) => true,
        _ => false,
    }
}

/// A hand card at turn start may be fused again.
pub open spec fn refreshed_hand_card(c: CardInstance, d: CardInstance) -> bool {
    d == CardInstance { flags: InstanceFlags { fused_this_turn: false, ..c.flags }, ..c }
}

/// A crest at turn start: its once-per-turn abilities reset.
pub open spec fn refreshed_crest(c: CrestInstance, d: CrestInstance) -> bool {
    d == CrestInstance { once_used: d.once_used, ..c } && d.once_used@.len() == 0
}

fn refresh_field(v: Vec<Option<CardInstance>>) -> (r: Vec<Option<CardInstance>>)
    ensures
        r@.len() == v@.len(),
        forall|k: int| 0 <= k < v@.len() ==> refreshed_slot(v@[k], #[trigger] r@[k]),
{
    let ghost orig = v@;
    let mut rest = v;
    let mut out: Vec<Option<CardInstance>> = Vec::new();
    while rest.len() > 0
        invariant
            out@.len() + rest@.len() == orig.len(),
            rest@ == orig.subrange(out@.len() as int, orig.len() as int),
            forall|k: int| 0 <= k < out@.len() ==> refreshed_slot(orig[k], #[trigger] out@[k]),
        decreases rest.len(),
    {
        let x = rest.remove(0);
        let ghost before = out@.len();
        match x {
            Some(mut c) => {
                c.flags.engaged_this_turn = false;
                c.flags.attacked_this_turn = false;
                c.flags.attacks_left = match c.traits.attacks_per_turn {
                    Some(k) => k,
                    None => 1,
                };
                c.flags.summoning_sick = false;
                c.once_used = Vec::new();
                out.push(Some(c));
            },
            None => {
                out.push(None);
            },
        }
        assert(rest@ =~= orig.subrange(out@.len() as int, orig.len() as int));
    }
    out
}

fn refresh_hand(v: Vec<CardInstance>) -> (r: Vec<CardInstance>)
    ensures
        r@.len() == v@.len(),
        forall|k: int| 0 <= k < v@.len() ==> refreshed_hand_card(v@[k], #[trigger] r@[k]),
{
    let ghost orig = v@;
    let mut rest = v;
    let mut out: Vec<CardInstance> = Vec::new();
    while rest.len() > 0
        invariant
            out@.len() + rest@.len() == orig.len(),
            rest@ == orig.subrange(out@.len() as int, orig.len() as int),
            forall|k: int| 0 <= k < out@.len() ==> refreshed_hand_card(orig[k], #[trigger] out@[k]),
        decreases rest.len(),
    {
        let mut c = rest.remove(0);
        c.flags.fused_this_turn = false;
        out.push(c);
        assert(rest@ =~= orig.subrange(out@.len() as int, orig.len() as int));
    }
    out
}

fn refresh_crests(v: Vec<CrestInstance>) -> (r: Vec<CrestInstance>)
    ensures
        r@.len() == v@.len(),
        forall|k: int| 0 <= k < v@.len() ==> refreshed_crest(v@[k], #[trigger] r@[k]),
{
    let ghost orig = v@;
    let mut rest = v;
    let mut out: Vec<CrestInstance> = Vec::new();
    while rest.len() > 0
        invariant
            out@.len() + rest@.len() == orig.len(),
            rest@ == orig.subrange(out@.len() as int, orig.len() as int),
            forall|k: int| 0 <= k < out@.len() ==> refreshed_crest(orig[k], #[trigger] out@[k]),
        decreases rest.len(),
    {
        let mut c = rest.remove(0);
        c.once_used = Vec::new();
        out.push(c);
        assert(rest@ =~= orig.subrange(out@.len() as int, orig.len() as int));
    }
    out
}

/// A seat at the start of its turn: one more turn taken, PP maximum up by
/// one (capped) and PP refilled, Bonus PP toggle cleared, combo and
/// evolution reset, nothing played yet, last turn's leader attack
/// remembered, and every field, hand and crest instance refreshed.
pub open spec fn turn_started(p: PlayerState, q: PlayerState) -> bool {
    let pp_max = if p.pp_max < PP_CAP { p.pp_max + 1 } else { p.pp_max as int };
    &&& q == PlayerState {
        turns_taken: (p.turns_taken + 1) as u32,
        pp_max: pp_max as i32,
        pp: pp_max as i32,
        bonus_pp: BonusPp { active: false, locked: false, ..p.bonus_pp },
        combo: 0,
        evolved_this_turn: false,
        played_this_turn: q.played_this_turn,
        attacked_leader_last_turn: p.attacked_leader_this_turn,
        attacked_leader_this_turn: false,
        field: q.field,
        hand: q.hand,
        crests: q.crests,
        ..p
    }
    &&& q.played_this_turn@.len() == 0
    &&& q.field@.len() == p.field@.len()
    &&& forall|k: int| 0 <= k < p.field@.len() ==> refreshed_slot(p.field@[k], #[trigger] q.field@[k])
    &&& q.hand@.len() == p.hand@.len()
    &&& forall|k: int| 0 <= k < p.hand@.len() ==> refreshed_hand_card(p.hand@[k], #[trigger] q.hand@[k])
    &&& q.crests@.len() == p.crests@.len()
    &&& forall|k: int| 0 <= k < p.crests@.len() ==> refreshed_crest(p.crests@[k], #[trigger] q.crests@[k])
}

pub fn begin_turn(state: &mut State, who: PlayerId, events: &mut Vec<Event>) -> (r: Result<(), Illegal>)
    requires
        old(state).seat(who).turns_taken < u32::MAX,
    ensures
        r is Ok,
        final(state).active == who,
        final(state).phase is Main,
        final(state).turn == final(state).seat(who).turns_taken,
        turn_started(old(state).seat(who), final(state).seat(who)),
        forall|k: int|
            0 <= k < final(state).seat(who).field@.len() ==> (#[trigger] final(state).seat(who).field@[k] matches Some(
                c,
            ) ==> !c.flags.summoning_sick),
        final(state).seat(spec_opponent(who)) == old(state).seat(spec_opponent(who)),
        final(state).winner == old(state).winner && final(state).first == old(state).first,
        final(state).next_instance == old(state).next_instance,
        final(state).pending_play_rally == old(state).pending_play_rally,
        final(events)@ == old(events)@.push(
            Event::TurnStart { player: who, turn: (old(state).seat(who).turns_taken + 1) as u32 },
        ),
{
    state.active = who;
    state.phase = Phase::Main;
    let turn = {
        let p = state.player_mut(who);
        p.turns_taken = p.turns_taken + 1;
        if p.pp_max < PP_CAP {
            p.pp_max = p.pp_max + 1;
        }
        p.pp = p.pp_max;
        p.bonus_pp.active = false;
        p.bonus_pp.locked = false;
        p.combo = 0;
        p.evolved_this_turn = false;
        p.played_this_turn = Vec::new();
        p.attacked_leader_last_turn = p.attacked_leader_this_turn;
        p.attacked_leader_this_turn = false;
        let mut field = Vec::new();
        std::mem::swap(&mut field, &mut p.field);
        p.field = refresh_field(field);
        let mut crests = Vec::new();
        std::mem::swap(&mut crests, &mut p.crests);
        p.crests = refresh_crests(crests);
        let mut hand = Vec::new();
        std::mem::swap(&mut hand, &mut p.hand);
        p.hand = refresh_hand(hand);
        p.turns_taken
    };
    state.turn = turn;
    events.push(Event::TurnStart { player: who, turn });
    proof {
        lemma_turn_start_wakes_field(old(state).seat(who), state.seat(who));
    }
    Ok(())
}

/// A turn start never takes PP past the cap, leaves PP full, and keeps the
/// maximum growing by one until the cap.
pub proof fn lemma_turn_start_pp(p: PlayerState, q: PlayerState)
    requires
        turn_started(p, q),
        p.pp_max <= PP_CAP,
    ensures
        q.pp_max <= PP_CAP,
        q.pp == q.pp_max,
        p.pp_max < PP_CAP ==> q.pp_max == p.pp_max + 1,
        p.pp_max == PP_CAP ==> q.pp_max == PP_CAP,
{
}


// =========================================================================
// Damage
// =========================================================================

/// Damage a leader takes from a hit of `raw`: plus the modifiers' bonus,
/// limited by the tightest cap, never negative.
pub open spec fn leader_damage(p: PlayerState, raw: i32) -> int {
    let amt0 = raw + mods_bonus(p.leader_mods@);
    let amt1 = match mods_cap(p.leader_mods@) {
        Some(c) => if amt0 < c { amt0 } else { c as int },
        None => amt0,
    };
    if amt1 > 0 {
        amt1
    } else {
        0
    }
}

/// Leader defense after taking `amt`: never below zero.
pub open spec fn defense_after(def: i32, amt: int) -> int {
    if def - amt > 0 {
        def - amt
    } else {
        0
    }
}

/// Dealing `raw` to `who`'s leader cannot overflow.
pub open spec fn leader_damage_fits(s: State, who: PlayerId, raw: i32) -> bool {
    &&& mods_bonus_fits(s.seat(who).leader_mods@)
    &&& i32::MIN <= raw + mods_bonus(s.seat(who).leader_mods@) <= i32::MAX
    &&& s.seat(who).leader_defense - leader_damage(s.seat(who), raw) >= i32::MIN
}

/// `n` is `o` after `raw` damage to `who`'s leader: its defense drops by
/// the damage dealt (never below zero), one damage event is logged, and a
/// leader at zero ends the match.
pub open spec fn leader_dealt(o: State, n: State, who: PlayerId, raw: i32, eo: Seq<Event>, en: Seq<Event>) -> bool {
    let r = leader_damage(o.seat(who), raw);
    &&& n.seat(who) == (PlayerState { leader_defense: defense_after(o.seat(who).leader_defense, r) as i32, ..o.seat(who) })
    &&& n.seat(spec_opponent(who)) == o.seat(spec_opponent(who))
    &&& n.turn == o.turn && n.active == o.active
    &&& n.first == o.first && n.next_instance == o.next_instance
    &&& n.pending_play_rally == o.pending_play_rally
    &&& en == eo.push(
        (Event::Damage { target: EventTarget::Leader(who), amount: r as i32, lethal: n.seat(who).leader_defense <= 0 }),
    )
    &&& n.seat(who).leader_defense <= 0 ==> (n.winner == spec_lethal_winner(n) && (n.phase is Terminal))
    &&& n.seat(who).leader_defense > 0 ==> n.winner == o.winner && n.phase == o.phase
}

pub fn deal_leader(state: &mut State, who: PlayerId, raw: i32, events: &mut Vec<Event>) -> (r: i32)
    requires
        leader_damage_fits(*old(state), who, raw),
    ensures
        r == leader_damage(old(state).seat(who), raw),
        leader_dealt(*old(state), *final(state), who, raw, old(events)@, final(events)@),
{
    let bonus = state.player(who).damage_taken_bonus();
    let mut amt = raw + bonus;
    if let Some(cap) = state.player(who).damage_cap() {
        if cap < amt {
            amt = cap;
        }
    }
    if amt < 0 {
        amt = 0;
    }
    let p = state.player_mut(who);
    let left = p.leader_defense - amt;
    p.leader_defense = if left > 0 {
        left
    } else {
        0
    };
    let lethal = p.leader_defense <= 0;
    events.push(Event::Damage { target: EventTarget::Leader(who), amount: amt, lethal });
    if lethal {
        let ghost mid = *state;
        check_leader_lethal(state);
        proof {
            assert(mid.players == state.players);
            assert(spec_lethal_winner(mid) == spec_lethal_winner(*state));
            assert(mid.seat(who).leader_defense <= 0);
            if who == PlayerId::A {
                assert(mid.players[0].leader_defense <= 0);
            } else {
                assert(mid.players[1].leader_defense <= 0);
            }
        }
    }
    amt
}

/// Damage a follower takes from a hit of `raw`: none from a non-positive
/// hit, none while its Barrier absorbs the hit, none on its owner's turn
/// once super-evolved; then limited by its damage cap, never negative.
pub open spec fn follower_damage(f: CardInstance, raw: i32, active_is_owner: bool) -> int {
    let amt0: int = if raw <= 0 {
        0
    } else if f.traits.barrier == Some(true) {
        0
    } else if f.super_evolved && active_is_owner {
        0
    } else {
        raw as int
    };
    let amt1 = match f.traits.damage_cap {
        Some(c) => if c < amt0 { c as int } else { amt0 },
        None => amt0,
    };
    if amt1 > 0 {
        amt1
    } else {
        0
    }
}

/// The follower after the hit: defense down by the damage, and a Barrier
/// that met a positive hit is gone.
pub open spec fn follower_hit(f: CardInstance, raw: i32, amt: int) -> CardInstance {
    let barrier_used = raw > 0 && f.traits.barrier == Some(true);
    CardInstance {
        defense: (f.defense - amt) as i32,
        traits: if barrier_used {
            crate::card::Traits { barrier: None, ..f.traits }
        } else {
            f.traits
        },
        ..f
    }
}

/// Dealing `raw` to the follower in `slot` cannot overflow.
pub open spec fn follower_damage_fits(s: State, who: PlayerId, slot: u8, raw: i32) -> bool {
    (slot < s.seat(who).field@.len() && s.seat(who).field@[slot as int] is Some) ==> s.seat(who).field@[slot as int]->0.defense
        - raw >= i32::MIN
}

/// `n` is `o` after `raw` damage to the follower in `who`'s `slot`: the
/// follower takes the damage its keywords let through and one damage
/// event is logged; an empty or missing slot changes nothing.
pub open spec fn follower_dealt(o: State, n: State, who: PlayerId, slot: u8, raw: i32, eo: Seq<Event>, en: Seq<Event>) -> bool {
    let field = o.seat(who).field@;
    &&& n.seat(spec_opponent(who)) == o.seat(spec_opponent(who))
    &&& n.turn == o.turn && n.active == o.active
    &&& n.phase == o.phase && n.winner == o.winner
    &&& n.first == o.first && n.next_instance == o.next_instance
    &&& n.pending_play_rally == o.pending_play_rally
    &&& if slot < field.len() && field[slot as int] is Some {
        let f = field[slot as int]->0;
        let r = follower_damage(f, raw, o.active == who);
        &&& n.seat(who) == (PlayerState { field: n.seat(who).field, ..o.seat(who) })
        &&& n.seat(who).field@ == field.update(slot as int, Some(follower_hit(f, raw, r)))
        &&& en == eo.push(
            (Event::Damage {
                target: EventTarget::Slot(who, Slot(slot)),
                amount: r as i32,
                lethal: follower_hit(f, raw, r).defense <= 0,
            }),
        )
    } else {
        &&& n.seat(who) == o.seat(who)
        &&& en == eo
    }
}

/// One follower taking `raw` damage: the damage its keywords let through,
/// and the follower after it.
fn hit_follower(f: CardInstance, raw: i32, own_turn: bool) -> (r: (CardInstance, i32))
    requires
        f.defense - raw >= i32::MIN,
    ensures
        r.1 == follower_damage(f, raw, own_turn),
        r.0 == follower_hit(f, raw, r.1 as int),
{
    let mut f = f;
    let mut amt = raw;
    if raw <= 0 {
        // No damage to prevent: Barrier stays.
        amt = 0;
    } else if f.is_barrier() {
        f.traits.barrier = None;
        amt = 0;
    } else if f.super_evolved && own_turn {
        // A super-evolved follower takes no damage on its owner's turn.
        amt = 0;
    }
    if let Some(cap) = f.traits.damage_cap {
        if cap < amt {
            amt = cap;
        }
    }
    if amt < 0 {
        amt = 0;
    }
    f.defense = f.defense - amt;
    (f, amt)
}

pub fn deal_follower(state: &mut State, who: PlayerId, slot: u8, raw: i32, _src_player: PlayerId, events: &mut Vec<Event>) -> (r: i32)
    requires
        follower_damage_fits(*old(state), who, slot, raw),
    ensures
        r == (if slot < old(state).seat(who).field@.len() && old(state).seat(who).field@[slot as int] is Some {
            follower_damage(old(state).seat(who).field@[slot as int]->0, raw, old(state).active == who)
        } else {
            0
        }),
        follower_dealt(*old(state), *final(state), who, slot, raw, old(events)@, final(events)@),
{
    let active = state.active;
    if (slot as usize) >= state.player(who).field.len() || state.player(who).field[slot as usize].is_none() {
        return 0;
    }
    let p = state.player_mut(who);
    let i = slot as usize;
    let ghost orig = p.field@;
    let taken = p.field.remove(i);
    let (amt, lethal) = match taken {
        Some(f) => {
            let (g, amt) = hit_follower(f, raw, active == who);
            let lethal = g.defense <= 0;
            p.field.insert(i, Some(g));
            assert(p.field@ =~= orig.update(i as int, Some(follower_hit(orig[i as int]->0, raw, amt as int))));
            (amt, lethal)
        },
        None => {
            p.field.insert(i, None);
            assert(false);
            (0, false)
        },
    };
    events.push(Event::Damage { target: EventTarget::Slot(who, Slot(slot)), amount: amt, lethal });
    amt
}

/// Damage to a leader is never negative and never more than its cap, and
/// its defense never goes below zero.
pub proof fn lemma_leader_damage_bounds(p: PlayerState, raw: i32)
    ensures
        leader_damage(p, raw) >= 0,
        mods_cap(p.leader_mods@) matches Some(c) ==> leader_damage(p, raw) <= (if c > 0 { c as int } else { 0 }),
        defense_after(p.leader_defense, leader_damage(p, raw)) >= 0,
{
}

/// A Barrier absorbs one positive hit completely and is then gone.
pub proof fn lemma_barrier_absorbs(f: CardInstance, raw: i32, owner_active: bool)
    requires
        f.traits.barrier == Some(true),
        raw > 0,
    ensures
        follower_damage(f, raw, owner_active) == 0,
        follower_hit(f, raw, 0).traits.barrier is None,
        follower_hit(f, raw, 0).defense == f.defense,
{
}

/// An instance leaving the field starts over as a fresh print of its card
/// (same instance id), remembering only whether it was fused; an instance
/// of an unknown card is kept as it is.
pub fn reset_off_field(db: &CardDb, inst: CardInstance) -> (r: CardInstance)
    ensures
        card_pos(db.cards@, inst.card, 0) < 0 ==> r == inst,
        card_pos(db.cards@, inst.card, 0) >= 0 ==> {
            &&& fresh_from_card(
                CardInstance { flags: InstanceFlags { was_fused: false, ..r.flags }, ..r },
                db.cards@[card_pos(db.cards@, inst.card, 0)],
                inst.id,
            )
            &&& r.flags.was_fused == inst.flags.was_fused
        },
{
    let card = match db.card(inst.card) {
        Ok(c) => c,
        Err(_) => {
            return inst;
        },
    };
    let mut neu = CardInstance::from_card(card, inst.id);
    neu.flags.was_fused = inst.flags.was_fused;
    neu
}

/// Damage to a leader or follower target; other targets take none.
pub fn deal_to_opt(_db: &CardDb, state: &mut State, _ctrl: PlayerId, t: &TargetOpt, n: i32, events: &mut Vec<Event>) -> (r:
    Result<(), Illegal>)
    requires
        *t matches TargetOpt::Leader { player } ==> leader_damage_fits(*old(state), player, n),
        *t matches TargetOpt::Slot { player, slot } ==> follower_damage_fits(*old(state), player, slot, n),
    ensures
        r is Ok,
        match *t {
            TargetOpt::Leader { player } => leader_dealt(*old(state), *final(state), player, n, old(events)@, final(events)@),
            TargetOpt::Slot { player, slot } => follower_dealt(
                *old(state),
                *final(state),
                player,
                slot,
                n,
                old(events)@,
                final(events)@,
            ),
            _ => *final(state) == *old(state) && final(events)@ == old(events)@,
        },
{
    match t {
        TargetOpt::Leader { player } => {
            let _ = deal_leader(state, *player, n, events);
        },
        TargetOpt::Slot { player, slot } => {
            let _ = deal_follower(state, *player, *slot, n, *player, events);
        },
        _ => {},
    }
    Ok(())
}


// =========================================================================
// Legal actions
// =========================================================================

/// The card at `hand_i` of `me`'s hand can be played: it is not barred from
/// play, its card is known, the usable PP pays for one of its forms, and a
/// follower or amulet finds a free slot while a spell (or an accelerated
/// card) can make its reachable choices. Whether the card uses constructs
/// the engine does not run is settled when it enters the match, not here.
pub open spec fn spec_playable(db: CardDb, s: State, me: PlayerId, hand_i: int, inst: CardInstance) -> bool {
    let k = card_pos(db.cards@, inst.card, 0);
    let p = s.seat(me);
    &&& inst.traits.cant_be_played != Some(true)
    &&& k >= 0
    &&& match spec_play_form(db.cards@[k], inst, p.spec_usable_pp() as i32) {
        Some((_, kind, fx)) => if kind == CardKind::Follower || kind == CardKind::Amulet {
            occupied_count(p.field@) < FIELD_SLOTS
        } else {
            chooses_ok(db, s, me, hand_i as usize, fx)
        },
        None => false,
    }
}

/// Testing the choices of the form the card at `hand_i` would be played in
/// stays within `i32`.
pub open spec fn play_fits(db: CardDb, s: State, me: PlayerId, hand_i: int, inst: CardInstance) -> bool {
    let k = card_pos(db.cards@, inst.card, 0);
    k >= 0 ==> match spec_play_form(db.cards@[k], inst, s.seat(me).spec_usable_pp() as i32) {
        Some((_, kind, fx)) => (kind != CardKind::Follower && kind != CardKind::Amulet) ==> chooses_fit(
            db,
            s,
            me,
            hand_i as usize,
            fx,
        ),
        None => true,
    }
}

fn playable(db: &CardDb, state: &State, me: PlayerId, hand_i: usize, inst: &CardInstance) -> (r: bool)
    requires
        slots_fit(*state),
        state.seat(me).pp < i32::MAX,
        play_fits(*db, *state, me, hand_i as int, *inst),
    ensures
        r == spec_playable(*db, *state, me, hand_i as int, *inst),
{
    if inst.cant_be_played() {
        return false;
    }
    let card = match db.card(inst.card) {
        Ok(c) => c,
        Err(_) => {
            return false;
        },
    };
    let p = state.player(me);
    let pp = p.usable_pp();
    let free = p.field_free();
    match play_form(card, inst, pp, free) {
        None => false,
        Some((_, kind, effects)) => {
            if kind == CardKind::Follower || kind == CardKind::Amulet {
                free != 0
            } else {
                chooses_ok_refs(db, state, me, hand_i, &effects)
            }
        },
    }
}

/// The follower at a field slot can pay for its Engage: it has not engaged
/// this turn, its card is known and the usable PP covers the cost of its
/// first Engage ability.
pub open spec fn spec_can_engage(db: CardDb, s: State, me: PlayerId, inst: CardInstance) -> bool {
    let k = card_pos(db.cards@, inst.card, 0);
    &&& !inst.flags.engaged_this_turn
    &&& k >= 0
    &&& first_engage_cost(card_ability_list(db.cards@[k])) matches Some(c) && c <= s.seat(me).spec_usable_pp()
}

fn can_engage(db: &CardDb, state: &State, me: PlayerId, inst: &CardInstance) -> (r: bool)
    requires
        state.seat(me).pp < i32::MAX,
    ensures
        r == spec_can_engage(*db, *state, me, *inst),
{
    if inst.flags.engaged_this_turn {
        return false;
    }
    let card = match db.card(inst.card) {
        Ok(c) => c,
        Err(_) => {
            return false;
        },
    };
    match engage_cost(card) {
        Some(c) => state.player(me).usable_pp() >= c,
        None => false,
    }
}

/// One action when `b` holds, else none.
pub open spec fn when(b: bool, a: Action) -> Seq<Action> {
    if b {
        seq![a]
    } else {
        Seq::empty()
    }
}

/// Plays of the first `n` hand cards, in hand order.
pub open spec fn play_actions(db: CardDb, s: State, me: PlayerId, n: int) -> Seq<Action>
    decreases n,
{
    if n <= 0 {
        Seq::empty()
    } else {
        play_actions(db, s, me, n - 1) + when(
            spec_playable(db, s, me, n - 1, s.seat(me).hand@[n - 1]),
            Action::Play { hand: (n - 1) as u8 },
        )
    }
}

/// Fusions started by the first `n` hand cards, in hand order.
pub open spec fn fuse_actions(db: CardDb, s: State, me: PlayerId, n: int) -> Seq<Action>
    decreases n,
{
    if n <= 0 {
        Seq::empty()
    } else {
        fuse_actions(db, s, me, n - 1) + when(
            spec_can_fuse(db, s, me, n - 1, s.seat(me).hand@[n - 1]),
            Action::Fuse { host: (n - 1) as u8 },
        )
    }
}

/// The attacks of the follower at `slot`, one per target.
pub open spec fn attack_actions(slot: int, ts: Seq<AttackTarget>) -> Seq<Action> {
    ts.map_values(|t: AttackTarget| Action::Attack { attacker: Slot(slot as u8), target: t })
}

/// The actions of the card at field `slot`: a follower's attacks, then its
/// evolution and super evolution; then Engage for any card that can pay it.
pub open spec fn slot_actions(db: CardDb, s: State, me: PlayerId, slot: int) -> Seq<Action> {
    match s.seat(me).field@[slot] {
        None => Seq::empty(),
        Some(inst) => (if inst.kind == CardKind::Follower {
            attack_actions(slot, spec_attack_targets(s, me, inst)) + when(
                spec_can_evolve(s.seat(me), inst, false),
                Action::Evolve { slot: Slot(slot as u8), super_evolve: false },
            ) + when(
                spec_can_evolve(s.seat(me), inst, true),
                Action::Evolve { slot: Slot(slot as u8), super_evolve: true },
            )
        } else {
            Seq::empty()
        }) + when(spec_can_engage(db, s, me, inst), Action::Engage { slot: Slot(slot as u8) }),
    }
}

/// The actions of the first `n` field slots, left to right.
pub open spec fn field_actions(db: CardDb, s: State, me: PlayerId, n: int) -> Seq<Action>
    decreases n,
{
    if n <= 0 {
        Seq::empty()
    } else {
        field_actions(db, s, me, n - 1) + slot_actions(db, s, me, n - 1)
    }
}

/// The turn holder's options in the main phase: plays, fusions, the Bonus
/// PP toggle, each field card's actions, and ending the turn, in that order.
pub open spec fn spec_legal_main(db: CardDb, s: State) -> Seq<Action> {
    let me = s.active;
    let p = s.seat(me);
    play_actions(db, s, me, p.hand@.len() as int) + fuse_actions(db, s, me, p.hand@.len() as int) + when(
        spec_can_toggle_bonus_pp(p),
        Action::BonusPp,
    ) + field_actions(db, s, me, p.field@.len() as int) + seq![Action::EndTurn]
}

/// Testing the main-phase options of the turn holder stays within machine
/// limits: slot and hand positions fit a byte, PP stays below `i32::MAX`,
/// and each hand card's reachable choices can be tested.
pub open spec fn legal_fits(db: CardDb, s: State) -> bool {
    let p = s.seat(s.active);
    &&& slots_fit(s)
    &&& p.pp < i32::MAX
    &&& p.hand@.len() <= 256
    &&& forall|i: int| 0 <= i < p.hand@.len() ==> play_fits(db, s, s.active, i, #[trigger] p.hand@[i])
}

fn legal_main(db: &CardDb, state: &State) -> (r: Vec<Action>)
    requires
        legal_fits(*db, *state),
    ensures
        r@ == spec_legal_main(*db, *state),
{
    let me = state.active;
    let p = state.player(me);
    let mut out: Vec<Action> = Vec::new();
    let mut i: usize = 0;
    while i < p.hand.len()
        invariant
            0 <= i <= p.hand@.len(),
            *p == state.seat(me),
            me == state.active,
            legal_fits(*db, *state),
            out@ == play_actions(*db, *state, me, i as int),
        decreases p.hand.len() - i,
    {
        if playable(db, state, me, i, &p.hand[i]) {
            out.push(Action::Play { hand: i as u8 });
        }
        i = i + 1;
    }
    let ghost plays = out@;
    let mut i: usize = 0;
    while i < p.hand.len()
        invariant
            0 <= i <= p.hand@.len(),
            *p == state.seat(me),
            me == state.active,
            legal_fits(*db, *state),
            out@ == plays + fuse_actions(*db, *state, me, i as int),
        decreases p.hand.len() - i,
    {
        if can_fuse(db, state, me, i, &p.hand[i]) {
            out.push(Action::Fuse { host: i as u8 });
        }
        proof {
            assert(out@ =~= plays + fuse_actions(*db, *state, me, i as int + 1));
        }
        i = i + 1;
    }
    if can_toggle_bonus_pp(p) {
        out.push(Action::BonusPp);
    }
    let ghost head = out@;
    assert(head =~= plays + fuse_actions(*db, *state, me, p.hand@.len() as int) + when(
        spec_can_toggle_bonus_pp(*p),
        Action::BonusPp,
    ));
    let mut slot: usize = 0;
    while slot < p.field.len()
        invariant
            0 <= slot <= p.field@.len(),
            *p == state.seat(me),
            me == state.active,
            legal_fits(*db, *state),
            out@ == head + field_actions(*db, *state, me, slot as int),
        decreases p.field.len() - slot,
    {
        let ghost before = out@;
        match &p.field[slot] {
            None => {},
            Some(inst) => {
                if inst.kind == CardKind::Follower {
                    let ts = attack_targets(state, me, slot as u8, inst);
                    let mut j: usize = 0;
                    while j < ts.len()
                        invariant
                            0 <= j <= ts@.len(),
                            slot < 256,
                            out@ == before + attack_actions(slot as int, ts@.subrange(0, j as int)),
                        decreases ts.len() - j,
                    {
                        out.push(Action::Attack { attacker: Slot(slot as u8), target: ts[j] });
                        proof {
                            assert(attack_actions(slot as int, ts@.subrange(0, j as int + 1)) =~= attack_actions(
                                slot as int,
                                ts@.subrange(0, j as int),
                            ).push(Action::Attack { attacker: Slot(slot as u8), target: ts@[j as int] }));
                        }
                        j = j + 1;
                    }
                    assert(ts@.subrange(0, ts@.len() as int) =~= ts@);
                    if can_evolve(state, me, inst, false) {
                        out.push(Action::Evolve { slot: Slot(slot as u8), super_evolve: false });
                    }
                    if can_evolve(state, me, inst, true) {
                        out.push(Action::Evolve { slot: Slot(slot as u8), super_evolve: true });
                    }
                }
                if can_engage(db, state, me, inst) {
                    out.push(Action::Engage { slot: Slot(slot as u8) });
                }
            },
        }
        proof {
            assert(out@ =~= before + slot_actions(*db, *state, me, slot as int));
            assert(out@ =~= head + field_actions(*db, *state, me, slot as int + 1));
        }
        slot = slot + 1;
    }
    out.push(Action::EndTurn);
    out
}

/// Which cards a mulligan swaps for mask `m`: card `i` when bit `i` is set.
pub open spec fn mulligan_swap(m: int) -> [bool; 4] {
    [m % 2 == 1, (m / 2) % 2 == 1, (m / 4) % 2 == 1, (m / 8) % 2 == 1]
}

/// The sixteen mulligan answers, by mask 0 to 15.
pub open spec fn mulligan_actions() -> Seq<Action> {
    Seq::new(16, |m: int| Action::MulliganConfirm { swap: mulligan_swap(m) })
}

/// The options of the seat the state waits for: none once the match is
/// decided; every mulligan answer; the open choice's options; or the main
/// phase's options.
pub open spec fn spec_legal_actions(db: CardDb, s: State) -> Seq<Action> {
    if s.winner is Some || s.phase is Terminal {
        Seq::empty()
    } else {
        match s.phase {
            Phase::Mulligan { .. } => mulligan_actions(),
            Phase::Choice { .. } => spec_legal_choice(s),
            Phase::Main | Phase::Combat => spec_legal_main(db, s),
            _ => Seq::empty(),
        }
    }
}

/// The legal actions of the state, in a fixed order; the state is only read.
pub fn legal_actions(db: &CardDb, state: &State) -> (r: Vec<Action>)
    requires
        (state.phase is Main || state.phase is Combat) ==> legal_fits(*db, *state),
    ensures
        r@ == spec_legal_actions(*db, *state),
        r@.no_duplicates(),
        (state.winner is Some || state.phase is Terminal) ==> r@.len() == 0,
        state.winner is None && (state.phase is Main || state.phase is Combat) ==> r@.len() > 0 && r@.last()
            == Action::EndTurn,
        state.winner is None && state.phase is Mulligan ==> r@ == mulligan_actions(),
{
    proof {
        lemma_legal_distinct(*db, *state);
    }
    if state.winner.is_some() || matches!(state.phase, Phase::Terminal) {
        return Vec::new();
    }
    match &state.phase {
        Phase::Mulligan { .. } => {
            let mut out: Vec<Action> = Vec::new();
            let mut mask: u8 = 0;
            while mask < 16
                invariant
                    0 <= mask <= 16,
                    out@ == mulligan_actions().subrange(0, mask as int),
                decreases 16 - mask,
            {
                let swap: [bool; 4] = [mask % 2 == 1, (mask / 2) % 2 == 1, (mask / 4) % 2 == 1, (mask / 8) % 2 == 1];
                out.push(Action::MulliganConfirm { swap });
                proof {
                    assert(swap == mulligan_swap(mask as int));
                    assert(out@ =~= mulligan_actions().subrange(0, mask as int + 1));
                }
                mask = mask + 1;
            }
            assert(mulligan_actions().subrange(0, 16) =~= mulligan_actions());
            out
        },
        Phase::Choice { .. } => legal_choice(state),
        Phase::Main | Phase::Combat => legal_main(db, state),
        _ => Vec::new(),
    }
}


proof fn lemma_plays_no_choose(db: CardDb, s: State, me: PlayerId, n: int)
    ensures
        forall|k: int| 0 <= k < play_actions(db, s, me, n).len() ==> #[trigger] play_actions(db, s, me, n)[k] is Play,
    decreases n,
{
    if n > 0 {
        lemma_plays_no_choose(db, s, me, n - 1);
    }
}

proof fn lemma_fuses_no_choose(db: CardDb, s: State, me: PlayerId, n: int)
    ensures
        forall|k: int| 0 <= k < fuse_actions(db, s, me, n).len() ==> #[trigger] fuse_actions(db, s, me, n)[k] is Fuse,
    decreases n,
{
    if n > 0 {
        lemma_fuses_no_choose(db, s, me, n - 1);
    }
}

proof fn lemma_field_no_choose(db: CardDb, s: State, me: PlayerId, n: int)
    ensures
        forall|k: int|
            0 <= k < field_actions(db, s, me, n).len() ==> !(#[trigger] field_actions(db, s, me, n)[k] is Choose),
    decreases n,
{
    if n > 0 {
        lemma_field_no_choose(db, s, me, n - 1);
        let sa = slot_actions(db, s, me, n - 1);
        assert forall|k: int| 0 <= k < sa.len() implies !(#[trigger] sa[k] is Choose) by {
            if let Some(inst) = s.seat(me).field@[n - 1] {
                if inst.kind == CardKind::Follower {
                    let ts = spec_attack_targets(s, me, inst);
                    let at = attack_actions(n - 1, ts);
                    if k < at.len() {
                        assert(at[k] is Attack);
                    }
                }
            }
        }
    }
}

/// The main phase never offers a choice answer.
proof fn lemma_main_no_choose(db: CardDb, s: State)
    ensures
        forall|k: int| 0 <= k < spec_legal_main(db, s).len() ==> !(#[trigger] spec_legal_main(db, s)[k] is Choose),
{
    let me = s.active;
    let n = s.seat(me).hand@.len() as int;
    lemma_plays_no_choose(db, s, me, n);
    lemma_fuses_no_choose(db, s, me, n);
    lemma_field_no_choose(db, s, me, s.seat(me).field@.len() as int);
}

/// Answers to a pending choice are options or Confirm.
pub open spec fn choice_like(raw: Seq<Action>) -> bool {
    forall|k: int| 0 <= k < raw.len() ==> (#[trigger] raw[k] is Choose || raw[k] is Confirm)
}

/// Some answer of `d` is recorded like `x`.
pub open spec fn covered(s: State, d: Seq<Action>, x: Action) -> bool {
    exists|k: int| 0 <= k < d.len() && same_form(s, #[trigger] d[k], x)
}

/// `raw[r]` is the first answer of its recorded form.
pub open spec fn first_of_form(s: State, raw: Seq<Action>, r: int) -> bool {
    forall|q: int| 0 <= q < r ==> !same_form(s, #[trigger] raw[q], raw[r])
}

/// `y` is some answer among `raw[0..n]` that is the first of its form.
pub open spec fn kept_from(s: State, raw: Seq<Action>, n: int, y: Action) -> bool {
    exists|r: int| 0 <= r < n && y == #[trigger] raw[r] && first_of_form(s, raw, r)
}

proof fn lemma_same_form_trans(s: State, a: Action, b: Action, c: Action)
    requires
        same_form(s, a, b),
    ensures
        same_form(s, b, c) == same_form(s, a, c),
{
}

/// Every answer in `raw[0..n]` is recorded like some kept answer, and each
/// kept answer is the first of its recorded form.
#[verifier::rlimit(40)]
proof fn lemma_dedup_first(s: State, raw: Seq<Action>, n: int)
    requires
        0 <= n <= raw.len(),
        choice_like(raw),
    ensures
        forall|r: int| 0 <= r < n ==> covered(s, dedup_forms(s, raw, n), #[trigger] raw[r]),
        forall|k: int|
            0 <= k < dedup_forms(s, raw, n).len() ==> kept_from(s, raw, n, #[trigger] dedup_forms(s, raw, n)[k]),
    decreases n,
{
    if n > 0 {
        lemma_dedup_first(s, raw, n - 1);
        let prev = dedup_forms(s, raw, n - 1);
        let cur = dedup_forms(s, raw, n);
        let x = raw[n - 1];
        if covered(s, prev, x) {
            assert(cur == prev);
            assert forall|k: int| 0 <= k < cur.len() implies kept_from(s, raw, n, #[trigger] cur[k]) by {
                let r = choose|r: int| 0 <= r < n - 1 && prev[k] == #[trigger] raw[r] && first_of_form(s, raw, r);
            }
        } else {
            assert(cur == prev.push(x));
            assert forall|r: int| 0 <= r < n implies covered(s, cur, #[trigger] raw[r]) by {
                if r < n - 1 {
                    let k = choose|k: int| 0 <= k < prev.len() && same_form(s, #[trigger] prev[k], raw[r]);
                    assert(cur[k] == prev[k]);
                } else {
                    assert(raw[r] is Choose || raw[r] is Confirm);
                    assert(same_form(s, cur[prev.len() as int], raw[r]));
                }
            }
            assert(first_of_form(s, raw, n - 1)) by {
                assert forall|q: int| 0 <= q < n - 1 implies !same_form(s, #[trigger] raw[q], raw[n - 1]) by {
                    assert(covered(s, prev, raw[q]));
                    let j = choose|j: int| 0 <= j < prev.len() && same_form(s, #[trigger] prev[j], raw[q]);
                    lemma_same_form_trans(s, prev[j], raw[q], x);
                }
            }
            assert forall|k: int| 0 <= k < cur.len() implies kept_from(s, raw, n, #[trigger] cur[k]) by {
                if k < prev.len() {
                    assert(cur[k] == prev[k]);
                    assert(kept_from(s, raw, n - 1, prev[k]));
                    let r = choose|r: int| 0 <= r < n - 1 && prev[k] == #[trigger] raw[r] && first_of_form(s, raw, r);
                } else {
                    assert(cur[k] == raw[n - 1]);
                }
            }
        }
    }
}

proof fn lemma_fuse_choices_range(options: Seq<u8>, picked: Seq<u8>, n: int)
    ensures
        forall|k: int|
            0 <= k < fuse_choices(options, picked, n).len() ==> (#[trigger] fuse_choices(options, picked, n)[k]
                matches Action::Choose(i) && (i as int) < n && n <= options.len()),
    decreases n,
{
    if n > 0 && n <= options.len() {
        lemma_fuse_choices_range(options, picked, n - 1);
    }
}

proof fn lemma_first_option_at(s: State, opt: crate::trace::ChooseOptionView, k: int, i: int)
    requires
        0 <= k <= i < option_count(s),
        option_entry(s, i) == opt,
        forall|j: int| k <= j < i ==> option_entry(s, j) != opt,
    ensures
        first_option_from(s, opt, k) == i,
    decreases i - k,
{
    if k < i {
        lemma_first_option_at(s, opt, k + 1, i);
    }
}

/// Options other than fuse partners: a listed answer `Choose(i)` is the first
/// option recorded its way.
#[verifier::rlimit(40)]
proof fn lemma_listed_choice_first(s: State, i: u8)
    requires
        s.phase is Choice,
        !(s.phase matches Phase::Choice { node: ChoiceNode::FusePartners { .. }, .. }),
        option_count(s) < 256,
        spec_legal_choice(s).contains(Action::Choose(i)),
    ensures
        first_option_from(s, spec_choose_option(s, i), 0) == i as int,
{
    let raw = raw_choice_actions(s);
    let m = option_count(s);
    let cr = choose_range(m);
    assert(raw.len() >= cr.len());
    assert(forall|k: int| 0 <= k < cr.len() ==> #[trigger] raw[k] == cr[k]);
    assert(forall|k: int| cr.len() <= k < raw.len() ==> #[trigger] raw[k] == Action::Confirm);
    assert(choice_like(raw));
    lemma_dedup_first(s, raw, raw.len() as int);
    let legal = spec_legal_choice(s);
    let p = choose|p: int| 0 <= p < legal.len() && legal[p] == Action::Choose(i);
    assert(kept_from(s, raw, raw.len() as int, legal[p]));
    let r = choose|r: int| 0 <= r < raw.len() && legal[p] == #[trigger] raw[r] && first_of_form(s, raw, r);
    assert(r < cr.len());
    assert(i as int == r);
    let opt = spec_choose_option(s, i);
    reveal(option_entry);
    assert forall|j: int| 0 <= j < i implies option_entry(s, j) != opt by {
        assert(raw[j] == Action::Choose(j as u8));
        assert(!same_form(s, raw[j], raw[r]));
    }
    lemma_first_option_at(s, opt, 0, i as int);
}

/// Fuse partners at distinct hand positions: a listed answer `Choose(i)` is
/// the first option recorded its way.
#[verifier::rlimit(40)]
proof fn lemma_fuse_choice_first(s: State, i: u8)
    requires
        s.phase matches Phase::Choice { node: ChoiceNode::FusePartners { options, .. }, .. } && options@.no_duplicates(),
        spec_legal_choice(s).contains(Action::Choose(i)),
    ensures
        first_option_from(s, spec_choose_option(s, i), 0) == i as int,
{
    if let Phase::Choice { node: ChoiceNode::FusePartners { options, picked, .. }, .. } = s.phase {
        let raw = raw_choice_actions(s);
        let cs = fuse_choices(options@, picked@, options.len() as int);
        lemma_fuse_choices_range(options@, picked@, options.len() as int);
        assert(forall|k: int| 0 <= k < cs.len() ==> #[trigger] raw[k] == cs[k]);
        assert(forall|k: int| cs.len() <= k < raw.len() ==> #[trigger] raw[k] == Action::Confirm);
        assert(choice_like(raw));
        lemma_dedup_first(s, raw, raw.len() as int);
        let legal = spec_legal_choice(s);
        let p = choose|p: int| 0 <= p < legal.len() && legal[p] == Action::Choose(i);
        assert(kept_from(s, raw, raw.len() as int, legal[p]));
        let r = choose|r: int| 0 <= r < raw.len() && legal[p] == #[trigger] raw[r] && first_of_form(s, raw, r);
        assert(r < cs.len());
        assert((i as int) < options.len());
        let opt = spec_choose_option(s, i);
        reveal(option_entry);
        assert forall|j: int| 0 <= j < i implies option_entry(s, j) != opt by {
            assert(options@[j] != options@[i as int]);
        }
        lemma_first_option_at(s, opt, 0, i as int);
    }
}

/// Recording a legal action and reading the record back in the same state
/// gives the action back. For a choice this rests on the option list fitting
/// a byte, and, for fuse partners, on the listed hand positions being
/// distinct.
pub proof fn lemma_legal_neutral_roundtrip(db: CardDb, s: State, a: Action, n: NeutralAction)
    requires
        spec_legal_actions(db, s).contains(a),
        is_neutral_of(s, a, n),
        option_count(s) < 256,
        s.phase matches Phase::Choice { node: ChoiceNode::FusePartners { options, .. }, .. } ==> options@.no_duplicates(),
    ensures
        spec_from_neutral(s, n) == a,
{
    if let Action::Choose(i) = a {
        let legal = spec_legal_actions(db, s);
        if s.phase is Main || s.phase is Combat {
            lemma_main_no_choose(db, s);
            let p = choose|p: int| 0 <= p < legal.len() && legal[p] == a;
            assert(!(spec_legal_main(db, s)[p] is Choose));
        } else if s.phase is Mulligan {
            let p = choose|p: int| 0 <= p < legal.len() && legal[p] == a;
            assert(legal[p] is MulliganConfirm);
        }
        assert(s.phase is Choice);
        assert(legal == spec_legal_choice(s));
        if s.phase matches Phase::Choice { node: ChoiceNode::FusePartners { .. }, .. } {
            lemma_fuse_choice_first(s, i);
        } else {
            lemma_listed_choice_first(s, i);
        }
    } else {
        lemma_neutral_roundtrip(s, a, n);
    }
}


proof fn lemma_slot_targets_distinct(inst: CardInstance, field: Seq<Option<CardInstance>>, n: int, w: bool)
    requires
        field.len() <= 256,
    ensures
        slot_targets(inst, field, n, w).no_duplicates(),
        forall|k: int|
            0 <= k < slot_targets(inst, field, n, w).len() ==> (#[trigger] slot_targets(inst, field, n, w)[k]
                matches AttackTarget::Slot(sl) && (sl.0 as int) < n),
    decreases n,
{
    if n > 0 && n <= field.len() {
        lemma_slot_targets_distinct(inst, field, n - 1, w);
    }
}

proof fn lemma_attack_targets_distinct(s: State, me: PlayerId, inst: CardInstance)
    requires
        slots_fit(s),
    ensures
        spec_attack_targets(s, me, inst).no_duplicates(),
{
    let field = s.seat(spec_opponent(me)).field@;
    assert(field.len() <= 256) by {
        if me == PlayerId::A {
            assert(spec_opponent(me) == PlayerId::B);
        } else {
            assert(spec_opponent(me) == PlayerId::A);
        }
    }
    lemma_slot_targets_distinct(inst, field, field.len() as int, true);
    lemma_slot_targets_distinct(inst, field, field.len() as int, false);
}

/// The field slot an action is about, for the actions of a field card.
pub open spec fn action_slot(a: Action) -> int {
    match a {
        Action::Attack { attacker, .. } => attacker.0 as int,
        Action::Evolve { slot, .. } => slot.0 as int,
        Action::Engage { slot } => slot.0 as int,
        _ => -1,
    }
}

proof fn lemma_slot_actions_distinct(db: CardDb, s: State, me: PlayerId, slot: int)
    requires
        slots_fit(s),
        0 <= slot < 256,
    ensures
        slot_actions(db, s, me, slot).no_duplicates(),
        forall|k: int|
            0 <= k < slot_actions(db, s, me, slot).len() ==> action_slot(
                #[trigger] slot_actions(db, s, me, slot)[k],
            ) == slot,
{
    let sa = slot_actions(db, s, me, slot);
    if let Some(inst) = s.seat(me).field@[slot] {
        let ts = spec_attack_targets(s, me, inst);
        let at = attack_actions(slot, ts);
        lemma_attack_targets_distinct(s, me, inst);
        assert forall|i: int, j: int| 0 <= i < j < at.len() implies at[i] != at[j] by {
            assert(ts[i] != ts[j]);
        }
        let e1 = when(spec_can_evolve(s.seat(me), inst, false), Action::Evolve { slot: Slot(slot as u8), super_evolve: false });
        let e2 = when(spec_can_evolve(s.seat(me), inst, true), Action::Evolve { slot: Slot(slot as u8), super_evolve: true });
        let g = when(spec_can_engage(db, s, me, inst), Action::Engage { slot: Slot(slot as u8) });
        let f = if inst.kind == CardKind::Follower {
            at + e1 + e2
        } else {
            Seq::empty()
        };
        assert(sa == f + g);
        assert forall|i: int, j: int| 0 <= i < j < sa.len() implies sa[i] != sa[j] by {
            if inst.kind == CardKind::Follower {
                let l1 = at.len();
                let l2 = l1 + e1.len();
                let l3 = l2 + e2.len();
                if j < l1 {
                    assert(sa[i] == at[i] && sa[j] == at[j]);
                } else if i < l1 {
                    assert(sa[i] is Attack);
                } else if j < l2 {
                } else if i < l2 {
                    assert(sa[i] == e1[i - l1]);
                } else if j < l3 {
                } else if i < l3 {
                    assert(sa[i] is Evolve);
                }
            }
        }
        assert forall|k: int| 0 <= k < sa.len() implies action_slot(#[trigger] sa[k]) == slot by {
            if inst.kind == CardKind::Follower && k < at.len() {
                assert(sa[k] == at[k]);
            }
        }
    }
}

proof fn lemma_field_actions_distinct(db: CardDb, s: State, me: PlayerId, n: int)
    requires
        slots_fit(s),
        n <= 256,
    ensures
        field_actions(db, s, me, n).no_duplicates(),
        forall|k: int|
            0 <= k < field_actions(db, s, me, n).len() ==> 0 <= action_slot(
                #[trigger] field_actions(db, s, me, n)[k],
            ) < n,
    decreases n,
{
    if n > 0 {
        lemma_field_actions_distinct(db, s, me, n - 1);
        lemma_slot_actions_distinct(db, s, me, n - 1);
        let pre = field_actions(db, s, me, n - 1);
        let sa = slot_actions(db, s, me, n - 1);
        let all = field_actions(db, s, me, n);
        assert(all == pre + sa);
        assert forall|i: int, j: int| 0 <= i < j < all.len() implies all[i] != all[j] by {
            if j < pre.len() {
                assert(all[i] == pre[i] && all[j] == pre[j]);
            } else if i < pre.len() {
                assert(all[i] == pre[i] && all[j] == sa[j - pre.len()]);
                assert(action_slot(pre[i]) < n - 1);
            } else {
                assert(all[i] == sa[i - pre.len()] && all[j] == sa[j - pre.len()]);
            }
        }
        assert forall|k: int| 0 <= k < all.len() implies 0 <= action_slot(#[trigger] all[k]) < n by {
            if k < pre.len() {
                assert(all[k] == pre[k]);
            } else {
                assert(all[k] == sa[k - pre.len()]);
            }
        }
    }
}

proof fn lemma_play_actions_distinct(db: CardDb, s: State, me: PlayerId, n: int)
    requires
        n <= 256,
    ensures
        play_actions(db, s, me, n).no_duplicates(),
        forall|k: int|
            0 <= k < play_actions(db, s, me, n).len() ==> (#[trigger] play_actions(db, s, me, n)[k]
                matches Action::Play { hand } && (hand as int) < n),
    decreases n,
{
    if n > 0 {
        lemma_play_actions_distinct(db, s, me, n - 1);
    }
}

proof fn lemma_fuse_actions_distinct(db: CardDb, s: State, me: PlayerId, n: int)
    requires
        n <= 256,
    ensures
        fuse_actions(db, s, me, n).no_duplicates(),
        forall|k: int|
            0 <= k < fuse_actions(db, s, me, n).len() ==> (#[trigger] fuse_actions(db, s, me, n)[k]
                matches Action::Fuse { host } && (host as int) < n),
    decreases n,
{
    if n > 0 {
        lemma_fuse_actions_distinct(db, s, me, n - 1);
    }
}

/// The main-phase options are distinct.
proof fn lemma_main_distinct(db: CardDb, s: State)
    requires
        legal_fits(db, s),
    ensures
        spec_legal_main(db, s).no_duplicates(),
{
    let me = s.active;
    let p = s.seat(me);
    let h = p.hand@.len() as int;
    assert(p.field@.len() <= 256) by {
        if me == PlayerId::A {
        } else {
        }
    }
    lemma_play_actions_distinct(db, s, me, h);
    lemma_fuse_actions_distinct(db, s, me, h);
    lemma_field_actions_distinct(db, s, me, p.field@.len() as int);
    let pa = play_actions(db, s, me, h);
    let fa = fuse_actions(db, s, me, h);
    let b = when(spec_can_toggle_bonus_pp(p), Action::BonusPp);
    let fi = field_actions(db, s, me, p.field@.len() as int);
    let all = spec_legal_main(db, s);
    let l1 = pa.len();
    let l2 = l1 + fa.len();
    let l3 = l2 + b.len();
    let l4 = l3 + fi.len();
    assert(all == pa + fa + b + fi + seq![Action::EndTurn]);
    assert forall|k: int| 0 <= k < all.len() implies (k < l1 ==> #[trigger] all[k] == pa[k]) && (l1 <= k < l2
        ==> all[k] == fa[k - l1]) && (l2 <= k < l3 ==> all[k] == b[k - l2]) && (l3 <= k < l4 ==> all[k] == fi[k
        - l3]) && (k == l4 ==> all[k] == Action::EndTurn) by {}
    assert forall|i: int, j: int| 0 <= i < j < all.len() implies all[i] != all[j] by {
        if j < l1 {
        } else if i < l1 {
            assert(all[i] is Play);
        } else if j < l2 {
        } else if i < l2 {
            assert(all[i] is Fuse);
        } else if j < l3 {
        } else if i < l3 {
            assert(all[i] is BonusPp);
            if j < l4 {
                assert(action_slot(fi[j - l3]) >= 0);
            }
        } else if j < l4 {
        } else {
            assert(action_slot(fi[i - l3]) >= 0);
        }
    }
}

proof fn lemma_raw_choice_like(s: State)
    ensures
        choice_like(raw_choice_actions(s)),
{
    let raw = raw_choice_actions(s);
    if let Phase::Choice { node, .. } = s.phase {
        if let ChoiceNode::FusePartners { options, picked, .. } = node {
            let cs = fuse_choices(options@, picked@, options.len() as int);
            lemma_fuse_choices_range(options@, picked@, options.len() as int);
            assert(forall|k: int| 0 <= k < cs.len() ==> #[trigger] raw[k] == cs[k]);
            assert(forall|k: int| cs.len() <= k < raw.len() ==> #[trigger] raw[k] == Action::Confirm);
        } else {
            let cr = choose_range(option_count(s) as u8 as int);
            assert(forall|k: int| 0 <= k < cr.len() ==> #[trigger] raw[k] == cr[k]);
            assert(forall|k: int| cr.len() <= k < raw.len() ==> #[trigger] raw[k] == Action::Confirm);
        }
    }
}

proof fn lemma_choice_distinct(s: State)
    ensures
        spec_legal_choice(s).no_duplicates(),
{
    let raw = raw_choice_actions(s);
    lemma_dedup_distinct(s, raw, raw.len() as int);
    lemma_raw_choice_like(s);
    lemma_dedup_first(s, raw, raw.len() as int);
    let d = spec_legal_choice(s);
    assert forall|i: int, j: int| 0 <= i < j < d.len() implies d[i] != d[j] by {
        assert(kept_from(s, raw, raw.len() as int, d[i]));
        let r = choose|r: int| 0 <= r < raw.len() && d[i] == #[trigger] raw[r] && first_of_form(s, raw, r);
        assert(raw[r] is Choose || raw[r] is Confirm);
        if d[i] == d[j] {
            assert(same_form(s, d[i], d[j]));
        }
    }
}

proof fn lemma_mulligan_distinct()
    ensures
        mulligan_actions().no_duplicates(),
{
    let v = mulligan_actions();
    assert forall|i: int, j: int| 0 <= i < j < v.len() implies v[i] != v[j] by {
        let a = mulligan_swap(i);
        let b = mulligan_swap(j);
        assert(i == (if a[0] { 1int } else { 0 }) + (if a[1] { 2int } else { 0 }) + (if a[2] { 4int } else { 0 }) + (
        if a[3] { 8int } else { 0 })) by (nonlinear_arith)
            requires
                0 <= i < 16,
                a[0] == (i % 2 == 1),
                a[1] == ((i / 2) % 2 == 1),
                a[2] == ((i / 4) % 2 == 1),
                a[3] == ((i / 8) % 2 == 1),
        ;
        assert(j == (if b[0] { 1int } else { 0 }) + (if b[1] { 2int } else { 0 }) + (if b[2] { 4int } else { 0 }) + (
        if b[3] { 8int } else { 0 })) by (nonlinear_arith)
            requires
                0 <= j < 16,
                b[0] == (j % 2 == 1),
                b[1] == ((j / 2) % 2 == 1),
                b[2] == ((j / 4) % 2 == 1),
                b[3] == ((j / 8) % 2 == 1),
        ;
    }
}

/// The legal actions of a state are distinct.
pub proof fn lemma_legal_distinct(db: CardDb, s: State)
    requires
        (s.phase is Main || s.phase is Combat) ==> legal_fits(db, s),
    ensures
        spec_legal_actions(db, s).no_duplicates(),
{
    if !(s.winner is Some || s.phase is Terminal) {
        match s.phase {
            Phase::Mulligan { .. } => lemma_mulligan_distinct(),
            Phase::Choice { .. } => lemma_choice_distinct(s),
            Phase::Main | Phase::Combat => lemma_main_distinct(db, s),
            _ => {},
        }
    }
}


proof fn lemma_slot_targets_are_slots(inst: CardInstance, field: Seq<Option<CardInstance>>, n: int, w: bool)
    ensures
        !slot_targets(inst, field, n, w).contains(AttackTarget::Leader),
    decreases n,
{
    if n > 0 && n <= field.len() {
        lemma_slot_targets_are_slots(inst, field, n - 1, w);
        let prev = slot_targets(inst, field, n - 1, w);
        let cur = slot_targets(inst, field, n, w);
        if cur != prev {
            assert(cur == prev.push(AttackTarget::Slot(Slot((n - 1) as u8))));
            assert forall|k: int| 0 <= k < cur.len() implies cur[k] != AttackTarget::Leader by {
                if k < prev.len() {
                    assert(cur[k] == prev[k]);
                }
            }
        }
    }
}

/// A follower that is summoning sick and lacks Storm never has the enemy
/// leader among its attack targets, whether or not it evolved this turn
/// (Rush and evolution only open followers).
pub proof fn lemma_sick_follower_spares_leader(s: State, me: PlayerId, inst: CardInstance)
    requires
        inst.flags.summoning_sick,
        inst.traits.storm != Some(true),
    ensures
        !spec_attack_targets(s, me, inst).contains(AttackTarget::Leader),
{
    let field = s.seat(spec_opponent(me)).field@;
    lemma_slot_targets_are_slots(inst, field, field.len() as int, true);
    lemma_slot_targets_are_slots(inst, field, field.len() as int, false);
}

/// A follower that may attack at all, is not summoning sick, may attack
/// leaders and faces no binding Ward has the enemy leader as its last
/// target.
pub proof fn lemma_ready_follower_reaches_leader(s: State, me: PlayerId, inst: CardInstance)
    requires
        inst.kind == CardKind::Follower,
        inst.flags.attacks_left > 0,
        inst.defense > 0,
        !inst.flags.summoning_sick,
        inst.traits.cant_attack_leader != Some(true),
        slot_targets(inst, s.seat(spec_opponent(me)).field@, s.seat(spec_opponent(me)).field@.len() as int, true).len()
            == 0,
    ensures
        spec_attack_targets(s, me, inst).contains(AttackTarget::Leader),
{
    let t = spec_attack_targets(s, me, inst);
    assert(t[t.len() - 1] == AttackTarget::Leader);
}

/// Against a super-evolved follower without Barrier, a positive hit deals
/// nothing while its owner is the active player, and on the other player's
/// turn deals the hit, cut down to the follower's damage cap (never below 0).
pub proof fn lemma_super_evolved_own_turn_guard(f: CardInstance, raw: i32)
    requires
        f.super_evolved,
        f.traits.barrier != Some(true),
        raw > 0,
    ensures
        follower_damage(f, raw, true) == 0,
        follower_damage(f, raw, false) == match f.traits.damage_cap {
            Some(c) => if c >= raw {
                raw as int
            } else if c > 0 {
                c as int
            } else {
                0
            },
            None => raw as int,
        },
        follower_hit(f, raw, follower_damage(f, raw, true)).defense == f.defense,
{
}

/// Starting a seat's turn wakes its field: no follower there is summoning
/// sick any more, and each may engage again.
pub proof fn lemma_turn_start_wakes_field(p: PlayerState, q: PlayerState)
    requires
        turn_started(p, q),
    ensures
        forall|k: int|
            0 <= k < q.field@.len() ==> (#[trigger] q.field@[k] matches Some(c) ==> !c.flags.summoning_sick
                && !c.flags.engaged_this_turn && !c.flags.attacked_this_turn),
{
    assert forall|k: int| 0 <= k < q.field@.len() implies (#[trigger] q.field@[k] matches Some(c)
        ==> !c.flags.summoning_sick && !c.flags.engaged_this_turn && !c.flags.attacked_this_turn) by {
        assert(refreshed_slot(p.field@[k], q.field@[k]));
    }
}

} // verus!
