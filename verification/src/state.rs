//! Game state: two seats, their zones and counters, the phase machine and
//! pending choices.

use vstd::prelude::*;
use crate::card::{
    card_attack, card_class, card_cost, card_countdown, card_defense, card_id, card_kind, card_traits,
    card_tribes, spec_default_traits, string_views, card_trigger_labels, Ability, Card, CardId, CardKind,
    Class, Traits, Tribe, Until, VarKey,
};
use crate::ids::{spec_player_idx, PlayerId};

verus! {

/// Hand size limit; a card that would make a tenth is destroyed.
pub const HAND_LIMIT: usize = 9;

/// Cards per constructed deck.
pub const DECK_SIZE: usize = 40;

/// Maximum PP.
pub const PP_CAP: i32 = 10;

/// Field slots per seat.
pub const FIELD_SLOTS: usize = 5;

/// Leader defense at match start.
pub const START_DEFENSE: i32 = 20;

/// Per-instance turn flags.
#[derive(Debug, Clone)]
pub struct InstanceFlags {
    pub summoning_sick: bool,
    pub attacks_left: i32,
    pub engaged_this_turn: bool,
    pub attacked_this_turn: bool,
    pub fused_this_turn: bool,
    pub was_fused: bool,
    /// Played in its enhanced form.
    pub enhanced: bool,
    /// Card ids already fused into this host this match.
    pub fused_kinds: Vec<CardId>,
    /// Ambush still hides the instance.
    pub ambush_active: bool,
    /// Attack granted until end of turn.
    pub eot_attack: i32,
    /// Defense granted until end of turn.
    pub eot_defense: i32,
    /// Cost before the first until-end-of-turn cost change this turn.
    pub eot_cost: Option<i32>,
}

/// Keywords granted for a limited time by a seat's effect.
#[derive(Debug, Clone, Copy, PartialEq, Eq, Structural)]
pub struct TempTraitGrant {
    pub traits: Traits,
    pub until: Until,
    pub caster: PlayerId,
}

/// A card in some zone, with its live stats.
#[derive(Debug)]
pub struct CardInstance {
    pub id: u32,
    pub card: CardId,
    pub kind: CardKind,
    pub class: Class,
    pub tribes: Vec<Tribe>,
    pub base_cost: i32,
    pub cost: i32,
    pub attack: i32,
    pub defense: i32,
    pub max_defense: i32,
    pub evolved: bool,
    pub super_evolved: bool,
    /// Live keywords (printed plus granted).
    pub traits: Traits,
    pub countdown: Option<i32>,
    /// Trigger labels the instance still carries.
    pub printed_tags: Vec<String>,
    pub flags: InstanceFlags,
    /// Once-per-turn abilities already used this turn (ability index).
    pub once_used: Vec<u32>,
    /// Spells cast while this card was in hand.
    pub spellboost_count: i32,
    /// Skybound Art progress carried in hand.
    pub skybound: i32,
    /// Card variables set by effects.
    pub vars: Vec<(VarKey, i32)>,
    /// Abilities granted by effects, beside the printed ones.
    pub granted: Vec<Ability>,
    /// Keyword grants that expire, oldest first.
    pub temp_traits: Vec<TempTraitGrant>,
    /// Next step of a Sequence effect it resolves.
    pub sequence_index: u32,
}

impl CardInstance {
    pub fn is_storm(&self) -> (r: bool)
        ensures
            r == (self.traits.storm == Some(true)),
    {
        self.traits.storm == Some(true)
    }

    pub fn is_rush(&self) -> (r: bool)
        ensures
            r == (self.traits.rush == Some(true)),
    {
        self.traits.rush == Some(true)
    }

    pub fn is_ward(&self) -> (r: bool)
        ensures
            r == (self.traits.ward == Some(true)),
    {
        self.traits.ward == Some(true)
    }

    pub fn ignores_ward(&self) -> (r: bool)
        ensures
            r == (self.traits.ignores_ward == Some(true)),
    {
        self.traits.ignores_ward == Some(true)
    }

    pub fn ambush_blocks(&self) -> (r: bool)
        ensures
            r == (self.traits.ambush == Some(true)),
    {
        self.traits.ambush == Some(true)
    }

    pub fn is_intimidate(&self) -> (r: bool)
        ensures
            r == (self.traits.intimidate == Some(true)),
    {
        self.traits.intimidate == Some(true)
    }

    pub fn is_barrier(&self) -> (r: bool)
        ensures
            r == (self.traits.barrier == Some(true)),
    {
        self.traits.barrier == Some(true)
    }

    pub fn is_drain(&self) -> (r: bool)
        ensures
            r == (self.traits.drain == Some(true)),
    {
        self.traits.drain == Some(true)
    }

    pub fn is_bane(&self) -> (r: bool)
        ensures
            r == (self.traits.bane == Some(true)),
    {
        self.traits.bane == Some(true)
    }

    pub fn is_earth_sigil(&self) -> (r: bool)
        ensures
            r == self.tribes@.contains(Tribe::EarthSigil),
    {
        let mut i: usize = 0;
        while i < self.tribes.len()
            invariant
                0 <= i <= self.tribes.len(),
                forall|j: int| 0 <= j < i ==> self.tribes@[j] != Tribe::EarthSigil,
            decreases self.tribes.len() - i,
        {
            if self.tribes[i] == Tribe::EarthSigil {
                assert(self.tribes@[i as int] == Tribe::EarthSigil);
                return true;
            }
            i = i + 1;
        }
        false
    }

    pub fn is_aura(&self) -> (r: bool)
        ensures
            r == (self.traits.aura == Some(true)),
    {
        self.traits.aura == Some(true)
    }

    /// Damaged: defense below its maximum.
    pub fn damaged(&self) -> (r: bool)
        ensures
            r == (self.defense < self.max_defense),
    {
        self.defense < self.max_defense
    }

    pub fn cant_be_played(&self) -> (r: bool)
        ensures
            r == (self.traits.cant_be_played == Some(true)),
    {
        self.traits.cant_be_played == Some(true)
    }
}

/// Traits of a printed card, none when it prints none.
pub open spec fn printed_traits(card: Card) -> Traits {
    match card_traits(card) {
        Some(t) => t,
        None => spec_default_traits(),
    }
}

/// `r` is the instance `id` fresh from its printed card: printed stats and
/// keywords, its trigger labels, not yet able to attack, nothing used.
pub open spec fn fresh_from_card(r: CardInstance, card: Card, id: u32) -> bool {
    &&& r.id == id
    &&& r.card == card_id(card)
    &&& r.kind == card_kind(card)
    &&& r.class == card_class(card)
    &&& r.tribes@ == card_tribes(card)@
    &&& r.base_cost == card_cost(card)
    &&& r.cost == card_cost(card)
    &&& r.attack == card_attack(card)
    &&& r.defense == card_defense(card)
    &&& r.max_defense == card_defense(card)
    &&& !r.evolved
    &&& !r.super_evolved
    &&& r.traits == printed_traits(card)
    &&& r.countdown == card_countdown(card)
    &&& crate::refs::ascending(string_views(r.printed_tags@))
    &&& string_views(r.printed_tags@).to_set() == card_trigger_labels(card)
    &&& r.flags.summoning_sick
    &&& r.flags.attacks_left == 0
    &&& !r.flags.engaged_this_turn
    &&& !r.flags.attacked_this_turn
    &&& !r.flags.fused_this_turn
    &&& !r.flags.was_fused
    &&& !r.flags.enhanced
    &&& r.flags.fused_kinds@.len() == 0
    &&& !r.flags.ambush_active
    &&& r.flags.eot_attack == 0
    &&& r.flags.eot_defense == 0
    &&& r.flags.eot_cost is None
    &&& r.once_used@.len() == 0
    &&& r.spellboost_count == 0
    &&& r.skybound == 0
    &&& r.vars@.len() == 0
    &&& r.granted@.len() == 0
    &&& r.temp_traits@.len() == 0
    &&& r.sequence_index == 0
}

impl CardInstance {
    /// A fresh instance `id` of a printed card.
    pub fn from_card(card: &Card, id: u32) -> (r: Self)
        ensures
            fresh_from_card(r, *card, id),
    {
        let printed = card.tribes();
        let mut tribes: Vec<Tribe> = Vec::new();
        let mut i: usize = 0;
        while i < printed.len()
            invariant
                0 <= i <= printed.len(),
                tribes@ == printed@.subrange(0, i as int),
            decreases printed.len() - i,
        {
            tribes.push(printed[i]);
            i = i + 1;
        }
        assert(printed@.subrange(0, printed.len() as int) =~= printed@);
        let traits = match card.traits() {
            Some(t) => *t,
            None => Traits::default(),
        };
        CardInstance {
            id,
            card: card.id(),
            kind: card.kind(),
            class: card.class(),
            tribes,
            base_cost: card.cost(),
            cost: card.cost(),
            attack: card.attack(),
            defense: card.defense(),
            max_defense: card.defense(),
            evolved: false,
            super_evolved: false,
            traits,
            countdown: card.countdown(),
            printed_tags: card.printed_trigger_tags(),
            flags: InstanceFlags {
                summoning_sick: true,
                attacks_left: 0,
                engaged_this_turn: false,
                attacked_this_turn: false,
                fused_this_turn: false,
                was_fused: false,
                enhanced: false,
                fused_kinds: Vec::new(),
                ambush_active: false,
                eot_attack: 0,
                eot_defense: 0,
                eot_cost: None,
            },
            once_used: Vec::new(),
            spellboost_count: 0,
            skybound: 0,
            vars: Vec::new(),
            granted: Vec::new(),
            temp_traits: Vec::new(),
            sequence_index: 0,
        }
    }
}

/// The second player's Bonus PP charges and toggle.
#[derive(Debug, Clone, Copy, PartialEq, Eq, Structural)]
pub struct BonusPp {
    /// Charge usable on own turns 1..=5.
    pub early_charge: bool,
    /// Charge usable from own turn 6.
    pub late_charge: bool,
    /// The bonus orb is activated this turn.
    pub active: bool,
    /// The bonus orb was spent this turn.
    pub locked: bool,
}

/// A leader modifier from an effect.
#[derive(Debug, Clone, Copy, PartialEq, Eq, Structural)]
pub struct LeaderMod {
    pub max_defense: Option<i32>,
    pub damage_cap: Option<i32>,
    pub damage_taken_bonus: i32,
    pub until: Option<Until>,
}

/// A crest a seat holds.
#[derive(Debug, Clone)]
pub struct CrestInstance {
    pub id: String,
    /// A faith rather than a crest.
    pub faith: bool,
    pub granted_order: u32,
    pub countdown: Option<i32>,
    pub once_used: Vec<u32>,
}

/// A card that left the field or hand destroyed, as remembered for the match.
#[derive(Debug, Clone, Copy, PartialEq, Eq, Structural)]
pub struct DestroyedRecord {
    pub card: CardId,
    pub kind: CardKind,
    pub base_cost: i32,
    pub owner: PlayerId,
    pub from_field: bool,
}

/// Where an effect comes from.
#[derive(Debug, Clone, Copy, PartialEq, Eq, Structural)]
pub enum SourceRef {
    Field { player: PlayerId, id: u32 },
    Hand { player: PlayerId, id: u32 },
    Leader { player: PlayerId },
    Spell { player: PlayerId, card: CardId },
    Crest { player: PlayerId, index: usize },
}

/// What a named binding refers to.
#[derive(Debug, Clone, Copy, PartialEq, Eq, Structural)]
pub enum BoundRef {
    Field { player: PlayerId, id: u32, card: CardId, kind: CardKind },
    Hand { player: PlayerId, id: u32 },
    Deck { player: PlayerId, id: u32 },
    Leader { player: PlayerId },
    Card(CardId),
}

/// One seat: zones, resources, leader.
#[derive(Debug)]
pub struct PlayerState {
    pub deck: Vec<CardInstance>,
    pub hand: Vec<CardInstance>,
    /// `FIELD_SLOTS` slots, occupied ones leftmost.
    pub field: Vec<Option<CardInstance>>,
    pub cemetery: Vec<CardInstance>,
    pub banished: Vec<CardInstance>,
    pub crests: Vec<CrestInstance>,
    pub shadows: i32,
    pub rally: i32,
    pub combo: i32,
    pub earth: i32,
    pub faith: i32,
    /// Evolutions performed this match.
    pub evolves_used: i32,
    /// Destroyed cards, oldest first.
    pub destroyed_history: Vec<DestroyedRecord>,
    /// Times each card entered this seat's field this match, one entry per card.
    pub enter_counts: Vec<(CardId, i32)>,
    /// Base costs of the cards played this match, in play order.
    pub played_base_costs_this_match: Vec<i32>,
    pub is_second: bool,
    pub turns_taken: u32,
    pub bonus_pp: BonusPp,
    pub evolved_this_turn: bool,
    pub ep: i32,
    pub sep: i32,
    pub pp: i32,
    pub pp_max: i32,
    pub leader_defense: i32,
    pub leader_max: i32,
    pub leader_mods: Vec<LeaderMod>,
    pub played_this_turn: Vec<CardId>,
    pub attacked_leader_this_turn: bool,
    pub attacked_leader_last_turn: bool,
}

/// A well-formed seat: exactly `FIELD_SLOTS` field slots and a hand
/// within the hand limit.
pub open spec fn seat_wf(p: PlayerState) -> bool {
    p.field@.len() == FIELD_SLOTS && p.hand@.len() <= HAND_LIMIT
}

/// Both seats are well formed.
pub open spec fn state_wf(s: State) -> bool {
    seat_wf(s.players[0]) && seat_wf(s.players[1])
}

/// Number of occupied field slots.
pub open spec fn occupied_count(field: Seq<Option<CardInstance>>) -> nat
    decreases field.len(),
{
    if field.len() == 0 {
        0
    } else {
        occupied_count(field.drop_last()) + if field.last() is Some {
            1nat
        } else {
            0nat
        }
    }
}

pub proof fn lemma_occupied_count_bound(field: Seq<Option<CardInstance>>)
    ensures
        occupied_count(field) <= field.len(),
    decreases field.len(),
{
    if field.len() > 0 {
        lemma_occupied_count_bound(field.drop_last());
    }
}

/// Cards a seat owns in deck, hand, field, cemetery and banishment.
pub open spec fn spec_zone_count(p: PlayerState) -> int {
    p.deck.len() + p.hand.len() + occupied_count(p.field@) + p.cemetery.len() + p.banished.len()
}

/// The tightest leader damage cap among the seat's modifiers, if any.
pub open spec fn mods_cap(mods: Seq<LeaderMod>) -> Option<i32>
    decreases mods.len(),
{
    if mods.len() == 0 {
        None
    } else {
        let rest = mods_cap(mods.drop_last());
        match mods.last().damage_cap {
            Some(c) => match rest {
                Some(r) => Some(if c < r { c } else { r }),
                None => Some(c),
            },
            None => rest,
        }
    }
}

/// Total extra damage the seat's leader takes from its modifiers.
pub open spec fn mods_bonus(mods: Seq<LeaderMod>) -> int
    decreases mods.len(),
{
    if mods.len() == 0 {
        0
    } else {
        mods_bonus(mods.drop_last()) + mods.last().damage_taken_bonus
    }
}

/// Every prefix sum of the modifiers' damage bonuses fits in an `i32`.
pub open spec fn mods_bonus_fits(mods: Seq<LeaderMod>) -> bool {
    forall|k: int| 0 <= k <= mods.len() ==> i32::MIN <= #[trigger] mods_bonus(mods.subrange(0, k)) <= i32::MAX
}

impl PlayerState {
    /// The leader's damage cap: the smallest cap among its modifiers.
    pub fn damage_cap(&self) -> (r: Option<i32>)
        ensures
            r == mods_cap(self.leader_mods@),
    {
        let mut cap: Option<i32> = None;
        let mut i: usize = 0;
        while i < self.leader_mods.len()
            invariant
                0 <= i <= self.leader_mods.len(),
                cap == mods_cap(self.leader_mods@.subrange(0, i as int)),
            decreases self.leader_mods.len() - i,
        {
            assert(self.leader_mods@.subrange(0, i as int + 1).drop_last() =~= self.leader_mods@.subrange(0, i as int));
            if let Some(c) = self.leader_mods[i].damage_cap {
                cap = Some(match cap {
                    Some(r) => if c < r { c } else { r },
                    None => c,
                });
            }
            i = i + 1;
        }
        assert(self.leader_mods@.subrange(0, self.leader_mods.len() as int) =~= self.leader_mods@);
        cap
    }

    /// Extra damage the leader takes: the sum of its modifiers' bonuses.
    pub fn damage_taken_bonus(&self) -> (r: i32)
        requires
            mods_bonus_fits(self.leader_mods@),
        ensures
            r == mods_bonus(self.leader_mods@),
    {
        let mut sum: i32 = 0;
        let mut i: usize = 0;
        while i < self.leader_mods.len()
            invariant
                mods_bonus_fits(self.leader_mods@),
                0 <= i <= self.leader_mods.len(),
                sum == mods_bonus(self.leader_mods@.subrange(0, i as int)),
            decreases self.leader_mods.len() - i,
        {
            assert(self.leader_mods@.subrange(0, i as int + 1).drop_last() =~= self.leader_mods@.subrange(0, i as int));
            assert(i32::MIN <= mods_bonus(self.leader_mods@.subrange(0, i as int + 1)) <= i32::MAX);
            sum = sum + self.leader_mods[i].damage_taken_bonus;
            i = i + 1;
        }
        assert(self.leader_mods@.subrange(0, self.leader_mods.len() as int) =~= self.leader_mods@);
        sum
    }
}

impl PlayerState {
    /// A fresh seat: empty zones, 20 defense, empty field slots.
    pub fn new() -> (r: Self)
        ensures
            r.deck@.len() == 0,
            r.hand@.len() == 0,
            r.field@.len() == FIELD_SLOTS,
            forall|i: int| 0 <= i < FIELD_SLOTS ==> r.field@[i] is None,
            r.leader_defense == START_DEFENSE,
            r.leader_max == START_DEFENSE,
            r.pp == 0 && r.pp_max == 0,
            r.turns_taken == 0,
            !r.is_second,
            r.bonus_pp == (BonusPp { early_charge: false, late_charge: false, active: false, locked: false }),
    {
        let mut field: Vec<Option<CardInstance>> = Vec::new();
        let mut i: usize = 0;
        while i < FIELD_SLOTS
            invariant
                0 <= i <= FIELD_SLOTS,
                field@.len() == i,
                forall|j: int| 0 <= j < i ==> field@[j] is None,
            decreases FIELD_SLOTS - i,
        {
            field.push(None);
            i = i + 1;
        }
        PlayerState {
            deck: Vec::new(),
            hand: Vec::new(),
            field,
            cemetery: Vec::new(),
            banished: Vec::new(),
            crests: Vec::new(),
            shadows: 0,
            rally: 0,
            combo: 0,
            earth: 0,
            faith: 0,
            evolves_used: 0,
            destroyed_history: Vec::new(),
            enter_counts: Vec::new(),
            played_base_costs_this_match: Vec::new(),
            is_second: false,
            turns_taken: 0,
            bonus_pp: BonusPp { early_charge: false, late_charge: false, active: false, locked: false },
            evolved_this_turn: false,
            ep: 0,
            sep: 0,
            pp: 0,
            pp_max: 0,
            leader_defense: START_DEFENSE,
            leader_max: START_DEFENSE,
            leader_mods: Vec::new(),
            played_this_turn: Vec::new(),
            attacked_leader_this_turn: false,
            attacked_leader_last_turn: false,
        }
    }

    /// Occupied field slots.
    pub fn field_count(&self) -> (r: usize)
        ensures
            r == occupied_count(self.field@),
    {
        let mut n: usize = 0;
        let mut i: usize = 0;
        while i < self.field.len()
            invariant
                0 <= i <= self.field.len(),
                n == occupied_count(self.field@.subrange(0, i as int)),
                n <= i,
            decreases self.field.len() - i,
        {
            let ghost pre = self.field@.subrange(0, i as int);
            assert(self.field@.subrange(0, i as int + 1).drop_last() =~= pre);
            if self.field[i].is_some() {
                n = n + 1;
            }
            i = i + 1;
        }
        assert(self.field@.subrange(0, self.field.len() as int) =~= self.field@);
        n
    }

    /// Free field slots.
    pub fn field_free(&self) -> (r: usize)
        ensures
            r == if occupied_count(self.field@) < FIELD_SLOTS {
                FIELD_SLOTS - occupied_count(self.field@)
            } else {
                0
            },
    {
        let n = self.field_count();
        if n < FIELD_SLOTS {
            FIELD_SLOTS - n
        } else {
            0
        }
    }

    /// PP the seat can spend now: its regular orbs, plus the bonus orb
    /// while it is switched on and not yet spent.
    pub open spec fn spec_usable_pp(self) -> int {
        self.pp + if self.bonus_pp.active && !self.bonus_pp.locked {
            1int
        } else {
            0int
        }
    }

    pub fn usable_pp(&self) -> (r: i32)
        requires
            self.pp < i32::MAX,
        ensures
            r == self.spec_usable_pp(),
    {
        if self.bonus_pp.active && !self.bonus_pp.locked {
            self.pp + 1
        } else {
            self.pp
        }
    }
}

/// The form a card is played in and what was paid.
#[derive(Debug, Clone, Copy, PartialEq, Eq, Structural)]
pub enum PlayForm {
    Normal,
    Enhance { paid: i32 },
    Accelerate { paid: i32 },
    Crystallize { paid: i32 },
}

/// An option of a pending target / multi-pick choice.
#[derive(Debug, Clone, Copy, PartialEq, Eq, Structural)]
pub enum TargetOpt {
    Slot { player: PlayerId, slot: u8 },
    Leader { player: PlayerId },
    Card(CardId),
    Mode(u8),
    Hand { player: PlayerId, pos: u8 },
    Deck { player: PlayerId, id: u32 },
}

/// A paused choice offered to a seat.
#[derive(Debug, Clone)]
pub enum ChoiceNode {
    Targets { options: Vec<TargetOpt> },
    MultiPick { options: Vec<TargetOpt>, picked: Vec<u8> },
    Modes { options: Vec<u8>, picked: Vec<u8> },
    Cards { options: Vec<CardId> },
    FusePartners { host: u8, options: Vec<u8>, picked: Vec<u8> },
}

/// The phase machine.
#[derive(Debug, Clone)]
pub enum Phase {
    Mulligan { player: PlayerId },
    Main,
    Combat,
    Choice { player: PlayerId, node: ChoiceNode },
    End,
    Terminal,
}

/// The whole match.
#[derive(Debug)]
pub struct State {
    pub players: [PlayerState; 2],
    pub turn: u32,
    pub active: PlayerId,
    pub first: PlayerId,
    pub phase: Phase,
    pub winner: Option<PlayerId>,
    pub next_instance: u32,
    pub pending_play_rally: Option<PlayerId>,
    /// Base cost of the card the current event is about.
    pub event_base_cost: Option<i32>,
    /// Instance the current event is about.
    pub event_inst_id: Option<u32>,
    /// Target the current event is about.
    pub event_subject: Option<TargetOpt>,
    /// The other side of the combat being resolved.
    pub combat_opposing: Option<TargetOpt>,
    /// The attack being resolved targets a follower.
    pub attacking_follower: bool,
    /// The attack being resolved targets the leader.
    pub attack_target_is_leader: bool,
    /// Named bindings of the resolving effect, each name once.
    pub bindings: Vec<(String, Vec<BoundRef>)>,
    /// Binding a name adds to what it holds instead of replacing it.
    pub bind_append: bool,
}

/// Position of the first instance `id` in a zone, from `k` on; -1 if none.
pub open spec fn inst_pos(zone: Seq<CardInstance>, id: u32, k: int) -> int
    decreases zone.len() - k,
{
    if k < 0 || k >= zone.len() {
        -1
    } else if zone[k].id == id {
        k
    } else {
        inst_pos(zone, id, k + 1)
    }
}

/// First field slot, from `i` on, holding the instance `id`; -1 if none.
pub open spec fn first_slot_with_id(field: Seq<Option<CardInstance>>, id: u32, i: int) -> int
    decreases field.len() - i,
{
    if i < 0 || i >= field.len() {
        -1
    } else if field[i] matches Some(c) && c.id == id {
        i
    } else {
        first_slot_with_id(field, id, i + 1)
    }
}

/// The slot found for an instance holds that instance.
pub proof fn lemma_first_slot_with_id(field: Seq<Option<CardInstance>>, id: u32, i: int)
    ensures
        first_slot_with_id(field, id, i) >= 0 ==> {
            let k = first_slot_with_id(field, id, i);
            &&& i <= k < field.len()
            &&& field[k] is Some
            &&& field[k]->0.id == id
        },
    decreases field.len() - i,
{
    if 0 <= i < field.len() && !(field[i] matches Some(c) && c.id == id) {
        lemma_first_slot_with_id(field, id, i + 1);
    }
}

impl State {
    /// The seat's state.
    pub open spec fn seat(self, who: PlayerId) -> PlayerState {
        self.players[spec_player_idx(who) as int]
    }

    pub fn player(&self, who: PlayerId) -> (r: &PlayerState)
        ensures
            *r == self.seat(who),
    {
        &self.players[who.idx()]
    }

    pub fn player_mut(&mut self, who: PlayerId) -> (r: &mut PlayerState)
        ensures
            *r == old(self).seat(who),
            final(self).players@ == old(self).players@.update(spec_player_idx(who) as int, *final(r)),
            final(self).turn == old(self).turn,
            final(self).active == old(self).active,
            final(self).first == old(self).first,
            final(self).phase == old(self).phase,
            final(self).winner == old(self).winner,
            final(self).next_instance == old(self).next_instance,
            final(self).pending_play_rally == old(self).pending_play_rally,
            *final(self) == (State { players: final(self).players, ..*old(self) }),
    {
        &mut self.players[who.idx()]
    }
}

impl State {
    /// The instance in a field slot, if the slot exists and is occupied.
    pub fn field_inst(&self, who: PlayerId, slot: u8) -> (r: Option<&CardInstance>)
        ensures
            r is Some == (slot < self.seat(who).field@.len() && self.seat(who).field@[slot as int] is Some),
            r is Some ==> *r->0 == self.seat(who).field@[slot as int]->0,
    {
        let f = &self.player(who).field;
        if (slot as usize) < f.len() {
            match &f[slot as usize] {
                Some(c) => Some(c),
                None => None,
            }
        } else {
            None
        }
    }

    /// Field slot of the instance `id`, if it is on `who`'s field.
    pub fn find_field(&self, who: PlayerId, id: u32) -> (r: Option<u8>)
        requires
            self.seat(who).field@.len() <= 256,
        ensures
            r is Some == (first_slot_with_id(self.seat(who).field@, id, 0) >= 0),
            r is Some ==> r->0 == first_slot_with_id(self.seat(who).field@, id, 0),
    {
        let f = &self.player(who).field;
        let mut i: usize = 0;
        while i < f.len()
            invariant
                f@ == self.seat(who).field@,
                f@.len() <= 256,
                0 <= i <= f.len(),
                first_slot_with_id(f@, id, 0) == first_slot_with_id(f@, id, i as int),
            decreases f.len() - i,
        {
            match &f[i] {
                Some(c) => {
                    if c.id == id {
                        return Some(i as u8);
                    }
                },
                None => {},
            }
            i = i + 1;
        }
        None
    }
}

} // verus!
