//! The card data model: every definition of the card schema as plain Rust
//! types, with the accessors and trait algebra the rules use.

use vstd::prelude::*;

verus! {


// ---------------------------------------------------------------------------
// Newtypes / closed scalars
// ---------------------------------------------------------------------------

/// Cygames id, 8 digits.
#[derive(Debug, Clone, Copy, PartialEq, Eq, Structural)]
pub struct CardId(pub u32);

/// `crest:XXXXXXXX` only — `faith:` is rejected (schema pattern on `crest.gain`).
#[derive(Debug)]
pub struct CrestGainId(pub String);

#[derive(Debug, Clone, Copy, PartialEq, Eq, Structural)]
pub enum Class {
    Neutral,
    Forestcraft,
    Swordcraft,
    Runecraft,
    Dragoncraft,
    Abysscraft,
    Havencraft,
    Portalcraft,
}

#[derive(Debug, Clone, Copy, PartialEq, Eq, Structural)]
pub enum Rarity {
    Bronze,
    Silver,
    Gold,
    Legendary,
}

#[derive(Debug, Clone, Copy, PartialEq, Eq, Structural)]
pub enum Tribe {
    Anathema,
    Artifact,
    Departed,
    EarthSigil,
    Encroacher,
    Golem,
    Loot,
    Marine,
    Mysteria,
    Officer,
    Pixie,
    Puppetry,
}

#[derive(Debug, Clone, Copy, PartialEq, Eq, Structural)]
pub enum CardKind {
    Follower,
    Spell,
    Amulet,
}

#[derive(Debug, Clone, Copy, PartialEq, Eq, Structural)]
pub enum VarKey {
    X,
    Y,
    Z,
}

#[derive(Debug, Clone, Copy, PartialEq, Eq, Structural)]
pub enum Whose {
    Own,
    Opponent,
}

#[derive(Debug, Clone, Copy, PartialEq, Eq, Structural)]
pub enum AbilityZone {
    Field,
    Hand,
    Deck,
}

#[derive(Debug, Clone, Copy, PartialEq, Eq, Structural)]
pub enum Side {
    Ally,
    Enemy,
    Any,
}

#[derive(Debug, Clone, Copy, PartialEq, Eq, Structural)]
pub enum Zone {
    Field,
    Hand,
    Deck,
    Cemetery,
    Leader,
    Crests,
}

#[derive(Debug, Clone, Copy, PartialEq, Eq, Structural)]
pub enum SelectorKind {
    Follower,
    Amulet,
    Card,
    Leader,
    Character,
    Faith,
}

#[derive(Debug, Clone, Copy, PartialEq, Eq, Structural)]
pub enum FilterKind {
    Follower,
    Spell,
    Amulet,
    Card,
}

#[derive(Debug, Clone, Copy, PartialEq, Eq, Structural)]
pub enum OrderBy {
    Attack,
    Defense,
    Cost,
    BaseCost,
}

#[derive(Debug, Clone, Copy, PartialEq, Eq, Structural)]
pub enum TraitKey {
    Ward,
    Bane,
    Rush,
    Storm,
    Ambush,
    Aura,
    Intimidate,
    Drain,
    Barrier,
    IgnoresWard,
    CantAttackFollowers,
    CantAttackLeader,
    CantBeDestroyedByAbilities,
    CantBePlayed,
    AttacksPerTurn,
    DamageCap,
}

#[derive(Debug, Clone, Copy, PartialEq, Eq, Structural)]
pub enum TriggerTag {
    Fanfare,
    LastWords,
    Evolve,
    SuperEvolve,
    AnyEvolve,
    AnySuperEvolve,
    Strike,
    FollowerStrike,
    Clash,
    Enter,
    Leave,
    Discarded,
    Invoked,
    Fused,
    Spellboost,
    Engage,
    StartOfTurn,
    EndOfTurn,
    When,
    Enhance,
}

#[derive(Debug, Clone, Copy, PartialEq, Eq, Structural)]
pub enum EventName {
    AllyFollowerEnter,
    EnemyFollowerEnter,
    AllyFollowerDestroyed,
    EnemyFollowerDestroyed,
    AllyAmuletDestroyed,
    AllyCardPlayed,
    AllySpellPlayed,
    AllyFollowerAttacks,
    EnemyFollowerAttacks,
    AllyEvolve,
    AllySuperEvolve,
    AllyDraw,
    AllyEarthRite,
    AllyEngage,
    LeaderRestored,
    SelfBuffedUp,
}

#[derive(Debug, Clone, Copy, PartialEq, Eq, Structural)]
pub enum ReplicateKey {
    Fanfare,
    Evolve,
    SuperEvolve,
    LastWords,
    Engage,
    Strike,
    FollowerStrike,
    Clash,
}

#[derive(Debug, Clone, Copy, PartialEq, Eq, Structural)]
pub enum OptionsFrom {
    Fanfare,
    LastWords,
    Evolve,
    SuperEvolve,
    AnyEvolve,
    AnySuperEvolve,
    Strike,
    FollowerStrike,
    Clash,
    Enter,
    Leave,
    Discarded,
    Invoked,
    Fused,
    Spellboost,
    Engage,
    StartOfTurn,
    EndOfTurn,
    When,
}

#[derive(Debug, Clone, Copy, PartialEq, Eq, Structural)]
pub enum PpAction {
    GainMax,
    Recover,
    Spend,
}

#[derive(Debug, Clone, Copy, PartialEq, Eq, Structural)]
pub enum EpAction {
    Gain,
    Spend,
}

#[derive(Debug, Clone, Copy, PartialEq, Eq, Structural)]
pub enum CounterHow {
    Add,
    SetTo,
}

#[derive(Debug, Clone, Copy, PartialEq, Eq, Structural)]
pub enum PayResource {
    Shadows,
    Earth,
    Pp,
    Faith,
}

#[derive(Debug, Clone, Copy, PartialEq, Eq, Structural)]
pub enum CrestPlayer {
    Self_,
    Opponent,
}

#[derive(Debug, Clone, Copy, PartialEq, Eq, Structural)]
pub enum Until {
    EndOfTurn,
    EndOfOpponentTurn,
}

#[derive(Debug, Clone, Copy, PartialEq, Eq, Structural)]
pub enum Controller {
    Self_,
    Opponent,
}

#[derive(Debug, Clone, Copy, PartialEq, Eq, Structural)]
pub enum DeckPosition {
    Random,
}

#[derive(Debug, Clone, Copy, PartialEq, Eq, Structural)]
pub enum StatWhich {
    Attack,
    Defense,
    Cost,
    BaseCost,
}

#[derive(Debug, Clone, Copy, PartialEq, Eq, Structural)]
pub enum ChooseBy {
    Player,
    RandomUnused,
    Random,
}

#[derive(Debug, Clone, Copy, PartialEq, Eq, Structural)]
pub enum TurnOwner {
    Self_,
    Opponent,
}

#[derive(Debug, Clone, Copy, PartialEq, Eq, Structural)]
pub enum FieldHasKind {
    Follower,
    Amulet,
    Card,
    Character,
}

// ---------------------------------------------------------------------------
// Traits
// ---------------------------------------------------------------------------

#[derive(Debug, Clone, Copy, PartialEq, Eq, Structural)]
pub struct Traits {
    pub ward: Option<bool>,
    pub bane: Option<bool>,
    pub rush: Option<bool>,
    pub storm: Option<bool>,
    pub ambush: Option<bool>,
    pub aura: Option<bool>,
    pub intimidate: Option<bool>,
    pub drain: Option<bool>,
    pub barrier: Option<bool>,
    pub ignores_ward: Option<bool>,
    pub cant_attack_followers: Option<bool>,
    pub cant_attack_leader: Option<bool>,
    pub cant_be_destroyed_by_abilities: Option<bool>,
    pub cant_be_played: Option<bool>,
    pub attacks_per_turn: Option<i32>,
    pub damage_cap: Option<i32>,
}

// ---------------------------------------------------------------------------
// CounterKey, Filter, Selector, Amount, Condition
// ---------------------------------------------------------------------------

#[derive(Debug)]
pub enum CounterKey {
    Named(NamedCounter),
    Var { var: VarKey },
}

#[derive(Debug, Clone, Copy, PartialEq, Eq, Structural)]
pub enum NamedCounter {
    Combo,
    Earth,
    Faith,
    Shadows,
    SkyboundHand,
}

#[derive(Debug)]
pub struct Filter {
    pub all: Option<Vec<Filter>>,
    pub any: Option<Vec<Filter>>,
    pub not: Option<Box<Filter>>,
    pub tribe: Option<TribeOrList>,
    pub card: Option<CardId>,
    pub cards: Option<Vec<CardId>>,
    pub not_card: Option<CardId>,
    pub kind: Option<FilterKind>,
    pub class: Option<Class>,
    pub cost_eq: Option<Box<Amount>>,
    pub cost_lte: Option<Box<Amount>>,
    pub cost_gte: Option<Box<Amount>>,
    pub cost_in: Option<Vec<i32>>,
    pub base_cost_eq: Option<Box<Amount>>,
    pub base_cost_lte: Option<Box<Amount>>,
    pub base_cost_gte: Option<Box<Amount>>,
    pub base_cost_in: Option<Vec<i32>>,
    pub attack_lte: Option<Box<Amount>>,
    pub attack_gte: Option<Box<Amount>>,
    pub defense_lte: Option<Box<Amount>>,
    pub defense_gte: Option<Box<Amount>>,
    pub evolved: Option<bool>,
    pub unevolved: Option<bool>,
    pub damaged: Option<bool>,
    pub has_trait: Option<TraitKey>,
    pub enhanced: Option<bool>,
    pub same_cost_group: Option<bool>,
    pub has_last_words: Option<bool>,
    pub has_spellboost: Option<bool>,
    pub destroyed_this_match: Option<bool>,
    pub did_not_attack_this_turn: Option<bool>,
    pub super_evolved: Option<bool>,
    pub not_bound: Option<String>,
}

#[derive(Debug)]
pub enum TribeOrList {
    One(Tribe),
    Many(Vec<Tribe>),
}

/// Reference pick vs pool pick. Pool picks require `side`, `zone`, `kind`.
/// Schema-mirror enums nest Filter/Selector/Condition; clippy 1.98's
/// `large_enum_variant` fires. Size is paid at `CardDb::load`, not in `State`.
#[derive(Debug)]
pub enum Selector {
    Bound(BoundSelector),
    Ref(RefSelector),
    Pool(PoolSelector),
}

#[derive(Debug)]
pub struct BoundSelector {
    pub pick: BoundPick,
    pub ref_name: String,
}

#[derive(Debug, Clone, Copy, PartialEq, Eq, Structural)]
pub enum BoundPick {
    Bound,
}

#[derive(Debug)]
pub struct RefSelector {
    pub pick: RefPick,
}

#[derive(Debug, Clone, Copy, PartialEq, Eq, Structural)]
pub enum RefPick {
    Self_,
    Entering,
    Attacker,
    Defender,
    Opposing,
    Selected,
}

#[derive(Debug)]
pub struct PoolSelector {
    pub pick: PoolPick,
    pub side: Side,
    pub zone: Zone,
    pub kind: SelectorKind,
    pub filter: Option<Filter>,
    pub count: Option<Amount>,
    pub other: Option<bool>,
    pub include_leader: Option<bool>,
    pub order_by: Option<OrderBy>,
}

#[derive(Debug, Clone, Copy, PartialEq, Eq, Structural)]
pub enum PoolPick {
    All,
    Choose,
    Random,
    RandomDistinct,
    Leftmost,
    Highest,
    Lowest,
}

#[derive(Debug)]
pub enum Amount {
    Int(i32),
    Count {
        count: Box<Selector>,
    },
    Counter {
        counter: CounterKey,
    },
    Stat {
        stat: AmountStat,
    },
    Var {
        var: VarKey,
    },
    Add {
        add: (Box<Amount>, Box<Amount>),
    },
    Sub {
        sub: (Box<Amount>, Box<Amount>),
    },
    Max {
        max: (Box<Amount>, Box<Amount>),
    },
    Min {
        min: (Box<Amount>, Box<Amount>),
    },
    Neg {
        neg: Box<Amount>,
    },
    DistinctNames {
        distinct_names: Box<Amount>,
    },
    EnteredThisMatch {
        entered_this_match: Filter,
    },
    SumHighestBaseCosts {
        sum_highest_base_costs: SumHighestBaseCosts,
    },
}

#[derive(Debug)]
pub struct AmountStat {
    pub of: Box<Selector>,
    pub which: StatWhich,
}

#[derive(Debug)]
pub struct SumHighestBaseCosts {
    pub n: i32,
    pub select: Box<Selector>,
}

#[derive(Debug)]
pub enum Condition {
    All {
        all: Vec<Condition>,
    },
    Any {
        any: Vec<Condition>,
    },
    Not {
        not: Box<Condition>,
    },
    CountAtLeast {
        count_at_least: CountAtLeast,
    },
    CounterAtLeast {
        counter_at_least: CounterAtLeast,
    },
    Evolved {
        evolved: bool,
    },
    SuperEvolutionUnlocked {
        super_evolution_unlocked: bool,
    },
    Combo {
        combo: ComboN,
    },
    Rally {
        rally: ComboN,
    },
    Overflow {
        overflow: bool,
    },
    /// Played instance's current cost. Severed Ties "If this card's cost is 3".
    CostEq {
        cost_eq: Amount,
    },
    /// Exact check of current `pp_max` against `n` (Dragonsign: 10).
    /// Overflow remains the separate ≥7-max-PP keyword.
    MaxPpAtLeast {
        max_pp_at_least: MaxPpAtLeast,
    },
    SkyboundArt {
        skybound_art: ComboN,
    },
    WasFused {
        was_fused: WasFused,
    },
    Did {
        did: String,
    },
    AttackedLeaderLastTurn {
        attacked_leader_last_turn: bool,
    },
    /// Verdilia crest: "Whenever a super-evolved allied follower attacks a follower"
    AttackingFollower {
        attacking_follower: bool,
    },
    TurnOwner {
        turn_owner: TurnOwner,
    },
    EvolvedCountAtLeast {
        evolved_count_at_least: ComboN,
    },
    PlayedBaseCostsThisMatch {
        played_base_costs_this_match: Vec<i32>,
    },
    HandHas {
        hand_has: HandHas,
    },
    FieldHas {
        field_has: FieldHas,
    },
    LeaderDefenseLte {
        leader_defense_lte: Amount,
    },
    VarAtLeast {
        var_at_least: VarAtLeast,
    },
    EnterCountAtLeast {
        enter_count_at_least: EnterCountAtLeast,
    },
    HandSameCostAtLeast {
        hand_same_cost_at_least: ComboN,
    },
    AmountAtLeast {
        amount_at_least: AmountAtLeast,
    },
    DeckHasNoDuplicates {
        deck_has_no_duplicates: bool,
    },
    AttackingLeader {
        attacking_leader: bool,
    },
    BoundHas {
        bound_has: BoundHas,
    },
}

#[derive(Debug)]
pub struct CountAtLeast {
    pub select: Selector,
    pub n: Amount,
    pub filter: Option<Filter>,
}

#[derive(Debug)]
pub struct CounterAtLeast {
    pub key: CounterKey,
    pub n: Amount,
}

#[derive(Debug)]
pub struct ComboN {
    pub n: Amount,
}

#[derive(Debug)]
pub struct MaxPpAtLeast {
    pub n: Amount,
}

#[derive(Debug)]
pub enum WasFused {
    Flag(bool),
    Both(BothWord),
}

#[derive(Debug, Clone, Copy, PartialEq, Eq, Structural)]
pub enum BothWord {
    Both,
}

#[derive(Debug)]
pub struct HandHas {
    pub filter: Filter,
    pub n: Amount,
}

#[derive(Debug)]
pub struct FieldHas {
    pub filter: Filter,
    pub n: Option<Amount>,
    pub side: Option<Side>,
    pub kind: Option<FieldHasKind>,
}

#[derive(Debug)]
pub struct VarAtLeast {
    pub key: VarKey,
    pub n: Amount,
}

#[derive(Debug)]
pub struct AmountAtLeast {
    pub of: Amount,
    pub n: Amount,
}

#[derive(Debug)]
pub struct BoundHas {
    pub ref_name: String,
    pub filter: Filter,
    pub side: Option<Side>,
}

#[derive(Debug)]
pub struct EnterCountAtLeast {
    pub card: CardId,
    pub n: Amount,
    pub other: Option<bool>,
    pub side: Option<Side>,
}

// ---------------------------------------------------------------------------
// CardSource, Effect, Ability, Mode, Fuse, Card, Crest
// ---------------------------------------------------------------------------

#[derive(Debug)]
pub enum CardSource {
    Named {
        named: CardId,
    },
    Copy {
        copy_of: Selector,
        exact: bool,
    },
    /// Put the selected instance itself onto the field (Chloe "summon it").
    From {
        from: Selector,
    },
    RandomFrom {
        random_from: Filter,
    },
}

#[derive(Debug, Clone, Copy, PartialEq, Eq, Structural)]
pub enum ChoosePick {
    N(u32),
    All,
}

#[derive(Debug)]
pub enum ChoosePickDe {
    N(u32),
    Word(AllWord),
}

#[derive(Debug, Clone, Copy, PartialEq, Eq, Structural)]
pub enum AllWord {
    All,
}

#[derive(Debug)]
pub struct ChooseOption {
    pub printed: String,
    pub effects: Vec<Effect>,
}

#[derive(Debug)]
pub struct SequenceStep {
    pub printed: String,
    pub effects: Vec<Effect>,
}

/// Forced `leaderModifier.maxDefense` construction — `{set: N}` or `{delta: N}`.
/// Same split as `cost.set` / `cost.delta`; no sign-dependent bare int.
#[derive(Debug)]
pub enum MaxDefenseChange {
    SetTo { set: Amount },
    Delta { delta: Amount },
}

#[derive(Debug)]
pub enum Effect {
    Damage {
        printed: Option<String>,
        as_bind: Option<String>,
        when: Option<Condition>,
        select: Selector,
        amount: Amount,
        split: Option<bool>,
    },
    Restore {
        printed: Option<String>,
        as_bind: Option<String>,
        when: Option<Condition>,
        select: Selector,
        amount: Amount,
    },
    Buff {
        printed: Option<String>,
        as_bind: Option<String>,
        when: Option<Condition>,
        select: Selector,
        attack: Option<Amount>,
        defense: Option<Amount>,
        until_end_of_turn: Option<bool>,
    },
    /// Selection with no effect on the chosen card (Cassius `10473110`).
    Select {
        printed: Option<String>,
        as_bind: Option<String>,
        when: Option<Condition>,
        select: Selector,
    },
    Destroy {
        printed: Option<String>,
        as_bind: Option<String>,
        when: Option<Condition>,
        select: Selector,
    },
    Banish {
        printed: Option<String>,
        as_bind: Option<String>,
        when: Option<Condition>,
        select: Selector,
    },
    ReturnToHand {
        printed: Option<String>,
        as_bind: Option<String>,
        when: Option<Condition>,
        select: Selector,
    },
    ReturnToDeck {
        printed: Option<String>,
        as_bind: Option<String>,
        when: Option<Condition>,
        select: Selector,
        position: DeckPosition,
    },
    Summon {
        printed: Option<String>,
        as_bind: Option<String>,
        when: Option<Condition>,
        card: CardSource,
        count: Amount,
        controller: Option<Controller>,
    },
    Reanimate {
        printed: Option<String>,
        as_bind: Option<String>,
        when: Option<Condition>,
        max_cost: Amount,
    },
    AddToHand {
        printed: Option<String>,
        as_bind: Option<String>,
        when: Option<Condition>,
        card: CardSource,
        count: Amount,
    },
    Draw {
        printed: Option<String>,
        as_bind: Option<String>,
        when: Option<Condition>,
        count: Amount,
        filter: Option<Filter>,
        distinct_names: Option<bool>,
        player: Option<CrestPlayer>,
    },
    Discard {
        printed: Option<String>,
        as_bind: Option<String>,
        when: Option<Condition>,
        select: Selector,
    },
    AddToDeck {
        printed: Option<String>,
        as_bind: Option<String>,
        when: Option<Condition>,
        card: CardSource,
        count: Amount,
        position: DeckPosition,
    },
    Evolve {
        printed: Option<String>,
        as_bind: Option<String>,
        when: Option<Condition>,
        select: Selector,
        super_evolve: bool,
    },
    GrantTraits {
        printed: Option<String>,
        as_bind: Option<String>,
        when: Option<Condition>,
        select: Selector,
        traits: Traits,
        until: Option<Until>,
    },
    RemoveTraits {
        printed: Option<String>,
        as_bind: Option<String>,
        when: Option<Condition>,
        select: Selector,
        traits: Traits,
    },
    GrantAbility {
        printed: Option<String>,
        as_bind: Option<String>,
        when: Option<Condition>,
        select: Selector,
        ability: Box<Ability>,
    },
    RemoveAbilities {
        printed: Option<String>,
        as_bind: Option<String>,
        when: Option<Condition>,
        select: Selector,
        on: Option<Vec<TriggerTag>>,
    },
    Cost {
        printed: Option<String>,
        as_bind: Option<String>,
        when: Option<Condition>,
        select: Selector,
        delta: Option<Amount>,
        set: Option<Amount>,
        until_end_of_turn: Option<bool>,
    },
    Pp {
        printed: Option<String>,
        as_bind: Option<String>,
        when: Option<Condition>,
        action: PpAction,
        amount: Amount,
    },
    Ep {
        printed: Option<String>,
        as_bind: Option<String>,
        when: Option<Condition>,
        action: EpAction,
        super_ep: bool,
        amount: Amount,
    },
    Crest {
        printed: Option<String>,
        as_bind: Option<String>,
        when: Option<Condition>,
        gain: CrestGainId,
        player: CrestPlayer,
    },
    RemoveCrests {
        printed: Option<String>,
        as_bind: Option<String>,
        when: Option<Condition>,
        select: Selector,
    },
    Countdown {
        printed: Option<String>,
        as_bind: Option<String>,
        when: Option<Condition>,
        select: Selector,
        delta: Amount,
    },
    Counter {
        printed: Option<String>,
        as_bind: Option<String>,
        when: Option<Condition>,
        key: CounterKey,
        how: CounterHow,
        amount: Amount,
    },
    Pay {
        printed: Option<String>,
        as_bind: Option<String>,
        when: Option<Condition>,
        resource: PayResource,
        amount: Amount,
        effects: Vec<Effect>,
    },
    Transform {
        printed: Option<String>,
        as_bind: Option<String>,
        when: Option<Condition>,
        select: Selector,
        into: CardSource,
    },
    LeaderModifier {
        printed: Option<String>,
        as_bind: Option<String>,
        when: Option<Condition>,
        select: Selector,
        max_defense: Option<MaxDefenseChange>,
        damage_cap: Option<Amount>,
        damage_taken_bonus: Option<Amount>,
        until: Option<Until>,
    },
    Replicate {
        printed: Option<String>,
        as_bind: Option<String>,
        when: Option<Condition>,
        ability: ReplicateKey,
    },
    Invoke {
        printed: Option<String>,
        as_bind: Option<String>,
        when: Option<Condition>,
    },
    SpellboostHand {
        printed: Option<String>,
        as_bind: Option<String>,
        when: Option<Condition>,
        times: Amount,
        select: Option<Selector>,
    },
    RandomSplit {
        printed: Option<String>,
        as_bind: Option<String>,
        when: Option<Condition>,
        keys: Vec<VarKey>,
        times: Amount,
        effects: Vec<Effect>,
    },
    Series {
        printed: Option<String>,
        as_bind: Option<String>,
        when: Option<Condition>,
        effects: Vec<Effect>,
    },
    If {
        printed: Option<String>,
        as_bind: Option<String>,
        when: Option<Condition>,
        cond: Condition,
        then: Vec<Effect>,
        else_effects: Option<Vec<Effect>>,
    },
    Choose {
        printed: Option<String>,
        as_bind: Option<String>,
        when: Option<Condition>,
        pick: ChoosePickDe,
        by: ChooseBy,
        options: Option<Vec<ChooseOption>>,
        options_from: Option<OptionsFrom>,
    },
    Repeat {
        printed: Option<String>,
        as_bind: Option<String>,
        when: Option<Condition>,
        times: Amount,
        effects: Vec<Effect>,
    },
    Sequence {
        printed: Option<String>,
        as_bind: Option<String>,
        when: Option<Condition>,
        steps: Vec<SequenceStep>,
    },
}

#[derive(Debug)]
pub enum Ability {
    Fanfare {
        printed: String,
        effects: Vec<Effect>,
        zone: Option<AbilityZone>,
        once_per_turn: Option<bool>,
        when: Option<Condition>,
        replaces: Option<Replaces>,
    },
    LastWords {
        printed: String,
        effects: Vec<Effect>,
        zone: Option<AbilityZone>,
        once_per_turn: Option<bool>,
        when: Option<Condition>,
        replaces: Option<Replaces>,
    },
    Evolve {
        printed: String,
        effects: Vec<Effect>,
        zone: Option<AbilityZone>,
        once_per_turn: Option<bool>,
        when: Option<Condition>,
        replaces: Option<Replaces>,
    },
    SuperEvolve {
        printed: String,
        effects: Vec<Effect>,
        zone: Option<AbilityZone>,
        once_per_turn: Option<bool>,
        when: Option<Condition>,
        replaces: Option<Replaces>,
    },
    AnyEvolve {
        printed: String,
        effects: Vec<Effect>,
        zone: Option<AbilityZone>,
        once_per_turn: Option<bool>,
        when: Option<Condition>,
        replaces: Option<Replaces>,
    },
    AnySuperEvolve {
        printed: String,
        effects: Vec<Effect>,
        zone: Option<AbilityZone>,
        once_per_turn: Option<bool>,
        when: Option<Condition>,
        replaces: Option<Replaces>,
    },
    Strike {
        printed: String,
        effects: Vec<Effect>,
        zone: Option<AbilityZone>,
        once_per_turn: Option<bool>,
        when: Option<Condition>,
        replaces: Option<Replaces>,
    },
    FollowerStrike {
        printed: String,
        effects: Vec<Effect>,
        zone: Option<AbilityZone>,
        once_per_turn: Option<bool>,
        when: Option<Condition>,
        replaces: Option<Replaces>,
    },
    Clash {
        printed: String,
        effects: Vec<Effect>,
        zone: Option<AbilityZone>,
        once_per_turn: Option<bool>,
        when: Option<Condition>,
        replaces: Option<Replaces>,
    },
    Enter {
        printed: String,
        effects: Vec<Effect>,
        zone: Option<AbilityZone>,
        once_per_turn: Option<bool>,
        when: Option<Condition>,
        replaces: Option<Replaces>,
    },
    Leave {
        printed: String,
        effects: Vec<Effect>,
        zone: Option<AbilityZone>,
        once_per_turn: Option<bool>,
        when: Option<Condition>,
        replaces: Option<Replaces>,
    },
    Discarded {
        printed: String,
        effects: Vec<Effect>,
        zone: Option<AbilityZone>,
        once_per_turn: Option<bool>,
        when: Option<Condition>,
        replaces: Option<Replaces>,
    },
    Invoked {
        printed: String,
        effects: Vec<Effect>,
        zone: Option<AbilityZone>,
        once_per_turn: Option<bool>,
        when: Option<Condition>,
        replaces: Option<Replaces>,
    },
    Fused {
        printed: String,
        effects: Vec<Effect>,
        zone: Option<AbilityZone>,
        once_per_turn: Option<bool>,
        when: Option<Condition>,
        replaces: Option<Replaces>,
    },
    Spellboost {
        printed: String,
        effects: Vec<Effect>,
        zone: Option<AbilityZone>,
        once_per_turn: Option<bool>,
        when: Option<Condition>,
        replaces: Option<Replaces>,
    },
    Engage {
        cost: i32,
        sacrifice: bool,
        printed: String,
        effects: Vec<Effect>,
        zone: Option<AbilityZone>,
        once_per_turn: Option<bool>,
        when: Option<Condition>,
        replaces: Option<Replaces>,
    },
    StartOfTurn {
        whose: Whose,
        printed: String,
        effects: Vec<Effect>,
        zone: Option<AbilityZone>,
        once_per_turn: Option<bool>,
        when: Option<Condition>,
        replaces: Option<Replaces>,
    },
    EndOfTurn {
        whose: Whose,
        printed: String,
        effects: Vec<Effect>,
        zone: Option<AbilityZone>,
        once_per_turn: Option<bool>,
        when: Option<Condition>,
        replaces: Option<Replaces>,
    },
    When {
        event: EventName,
        printed: String,
        effects: Vec<Effect>,
        filter: Option<Filter>,
        zone: Option<AbilityZone>,
        once_per_turn: Option<bool>,
        when: Option<Condition>,
        replaces: Option<Replaces>,
    },
    Static {
        printed: String,
        modifier: StaticModifier,
        zone: Option<AbilityZone>,
        when: Option<Condition>,
    },
}

#[derive(Debug, Clone, Copy, PartialEq, Eq, Structural)]
pub enum Replaces {
    Evolve,
}

#[derive(Debug)]
pub struct StaticModifier {
    pub suppress: Vec<TriggerTag>,
    pub select: Selector,
}

#[derive(Debug)]
pub enum Mode {
    Enhance {
        cost: i32,
        printed: String,
        effects: Vec<Effect>,
        replaces_base: Option<bool>,
    },
    Accelerate {
        cost: i32,
        printed: String,
        effects: Vec<Effect>,
    },
    Crystallize {
        cost: i32,
        printed: String,
        countdown: Option<i32>,
        traits: Option<Traits>,
        abilities: Option<Vec<Ability>>,
    },
}

#[derive(Debug)]
pub struct Fuse {
    pub printed: String,
    pub partners: Filter,
    pub recipes: Option<Vec<FuseRecipe>>,
}

#[derive(Debug)]
pub struct FuseRecipe {
    pub partners: Option<Filter>,
    pub cost_total: Option<i32>,
    pub cost_total_gte: Option<i32>,
    pub requires: Option<Vec<CardId>>,
    pub result: FuseResult,
}

#[derive(Debug)]
pub enum FuseResult {
    Transform {
        transform_into: CardId,
    },
    Consume {
        consume: bool,
    },
}

#[derive(Debug)]
pub struct CardVars {
    pub x: i32,
}

#[derive(Debug)]
pub enum Card {
    Follower {
        id: CardId,
        name: String,
        class: Class,
        set: i32,
        rarity: Rarity,
        token: bool,
        cost: i32,
        text: String,
        attack: i32,
        defense: i32,
        tribes: Vec<Tribe>,
        traits: Option<Traits>,
        abilities: Option<Vec<Ability>>,
        modes: Option<Vec<Mode>>,
        fuse: Option<Fuse>,
        vars: Option<CardVars>,
    },
    Spell {
        id: CardId,
        name: String,
        class: Class,
        set: i32,
        rarity: Rarity,
        token: bool,
        cost: i32,
        text: String,
        tribes: Vec<Tribe>,
        traits: Option<Traits>,
        abilities: Option<Vec<Ability>>,
        modes: Option<Vec<Mode>>,
        fuse: Option<Fuse>,
        vars: Option<CardVars>,
    },
    Amulet {
        id: CardId,
        name: String,
        class: Class,
        set: i32,
        rarity: Rarity,
        token: bool,
        cost: i32,
        text: String,
        countdown: Option<i32>,
        tribes: Vec<Tribe>,
        traits: Option<Traits>,
        abilities: Option<Vec<Ability>>,
        modes: Option<Vec<Mode>>,
        fuse: Option<Fuse>,
        vars: Option<CardVars>,
    },
}

#[derive(Debug)]
pub struct Crest {
    pub id: String,
    pub name: String,
    pub granted_by: Vec<CardId>,
    pub faith: bool,
    pub text: String,
    pub countdown: Option<i32>,
    pub abilities: Option<Vec<Ability>>,
}

/// Top-level authored file: a collectible / token card or a crest / faith.
#[derive(Debug)]
pub enum CardOrCrest {
    Card(Card),
    Crest(Crest),
}

/// Catalog facts used for cross-checks (not a closed schema object).
#[derive(Debug)]
pub struct CatalogRecord {
    pub id: String,
    pub name: String,
    pub kind: String,
    pub class: String,
    pub tribes: Vec<String>,
    pub rarity: String,
    pub cost: i32,
    pub attack: i32,
    pub defense: i32,
    pub set: i32,
    pub token: bool,
    pub rotation: bool,
    pub text: String,
    pub deck_enabled_num: i32,
    pub related_card_ids: Vec<String>,
    pub card_image_hash: Option<String>,
    pub card_banner_image_hash: Option<String>,
    pub evo_card_image_hash: Option<String>,
    pub evo_card_banner_image_hash: Option<String>,
}



// ---------------------------------------------------------------------------
// Card id text: eight decimal digits, zero padded
// ---------------------------------------------------------------------------

/// The character of a decimal digit `d` (0..=9).
pub open spec fn digit_char(d: nat) -> char {
    ((d + 48) as char)
}

/// `'0'..='9'`.
pub open spec fn is_digit_char(c: char) -> bool {
    '0' <= c && c <= '9'
}

/// `10^w`.
pub open spec fn pow10(w: nat) -> nat
    decreases w,
{
    if w == 0 {
        1
    } else {
        10 * pow10((w - 1) as nat)
    }
}

/// The last `w` decimal digits of `n`, most significant first.
pub open spec fn decimal_digits(n: nat, w: nat) -> Seq<char>
    decreases w,
{
    if w == 0 {
        Seq::empty()
    } else {
        decimal_digits(n / 10, (w - 1) as nat).push(digit_char(n % 10))
    }
}

/// Number of characters of an id's text: at least eight, more for ids
/// that do not fit in eight digits.
pub open spec fn card_id_width(n: nat) -> nat {
    if n < 100_000_000 {
        8
    } else if n < 1_000_000_000 {
        9
    } else {
        10
    }
}

/// The text form of a card id: its decimal value, zero padded to eight.
pub open spec fn card_id_text(id: CardId) -> Seq<char> {
    decimal_digits(id.0 as nat, card_id_width(id.0 as nat))
}

/// Value of a string of decimal digits.
pub open spec fn digits_value(s: Seq<char>) -> nat
    decreases s.len(),
{
    if s.len() == 0 {
        0
    } else {
        digits_value(s.drop_last()) * 10 + ((s.last() as int - 48) as nat)
    }
}

/// A card id text is exactly eight decimal digits.
pub open spec fn is_card_id_text(s: Seq<char>) -> bool {
    s.len() == 8 && forall|i: int| 0 <= i < 8 ==> is_digit_char(#[trigger] s[i])
}

/// A gained crest's id text: `crest:` and eight decimal digits.
pub open spec fn is_crest_gain_text(s: Seq<char>) -> bool {
    &&& s.len() == 14
    &&& s.subrange(0, 6) == "crest:"@
    &&& forall|i: int| 6 <= i < 14 ==> is_digit_char(#[trigger] s[i])
}

impl CrestGainId {
    /// The id when the text is `crest:` and eight digits; `faith:` and
    /// anything else are refused.
    pub fn parse(s: &str) -> (r: Option<Self>)
        ensures
            r is Some == is_crest_gain_text(s@),
            r matches Some(g) ==> g.0@ == s@,
    {
        proof {
            reveal_strlit("crest:");
        }
        let n = s.unicode_len();
        if n != 14 {
            return None;
        }
        let prefix = "crest:";
        let mut i: usize = 0;
        while i < 6
            invariant
                n == s@.len() == 14,
                prefix@ == "crest:"@,
                prefix@.len() == 6,
                0 <= i <= 6,
                forall|j: int| 0 <= j < i ==> s@[j] == prefix@[j],
            decreases 6 - i,
        {
            if s.get_char(i) != prefix.get_char(i) {
                assert(s@.subrange(0, 6)[i as int] != "crest:"@[i as int]);
                return None;
            }
            i = i + 1;
        }
        assert(s@.subrange(0, 6) =~= "crest:"@);
        while i < 14
            invariant
                n == s@.len() == 14,
                6 <= i <= 14,
                forall|j: int| 6 <= j < i ==> is_digit_char(#[trigger] s@[j]),
            decreases 14 - i,
        {
            let c = s.get_char(i);
            if !('0' <= c && c <= '9') {
                assert(!is_digit_char(s@[i as int]));
                return None;
            }
            i = i + 1;
        }
        Some(CrestGainId(String::from_str(s)))
    }
}

/// What `CardId::parse` gives for a text.
pub open spec fn spec_parse_card_id(s: Seq<char>) -> Option<CardId> {
    if is_card_id_text(s) {
        Some(CardId(digits_value(s) as u32))
    } else {
        None
    }
}

pub(crate) fn digit_str(d: u32) -> (r: &'static str)
    requires
        d < 10,
    ensures
        r@ == seq![digit_char(d as nat)],
{
    proof {
        reveal_strlit("0");
        reveal_strlit("1");
        reveal_strlit("2");
        reveal_strlit("3");
        reveal_strlit("4");
        reveal_strlit("5");
        reveal_strlit("6");
        reveal_strlit("7");
        reveal_strlit("8");
        reveal_strlit("9");
    }
    match d {
        0 => "0",
        1 => "1",
        2 => "2",
        3 => "3",
        4 => "4",
        5 => "5",
        6 => "6",
        7 => "7",
        8 => "8",
        _ => "9",
    }
}

fn write_digits(n: u32, w: u32, out: &mut String)
    ensures
        final(out)@ == old(out)@ + decimal_digits(n as nat, w as nat),
    decreases w,
{
    if w == 0 {
        assert(old(out)@ + Seq::<char>::empty() =~= old(out)@);
        return;
    }
    write_digits(n / 10, w - 1, out);
    out.append(digit_str(n % 10));
    assert(final(out)@ =~= old(out)@ + decimal_digits(n as nat, w as nat));
}

proof fn lemma_digits_value_bound(s: Seq<char>)
    requires
        forall|i: int| 0 <= i < s.len() ==> is_digit_char(#[trigger] s[i]),
    ensures
        digits_value(s) < pow10(s.len()),
    decreases s.len(),
{
    if s.len() > 0 {
        let t = s.drop_last();
        assert forall|i: int| 0 <= i < t.len() implies is_digit_char(#[trigger] t[i]) by {
            assert(t[i] == s[i]);
        }
        lemma_digits_value_bound(t);
        assert(is_digit_char(s[s.len() - 1]));
    }
}

proof fn lemma_decimal_digits_shape(n: nat, w: nat)
    ensures
        decimal_digits(n, w).len() == w,
        forall|i: int| 0 <= i < w ==> is_digit_char(#[trigger] decimal_digits(n, w)[i]),
        digits_value(decimal_digits(n, w)) == n % pow10(w),
    decreases w,
{
    if w > 0 {
        let w1 = (w - 1) as nat;
        lemma_decimal_digits_shape(n / 10, w1);
        let s = decimal_digits(n, w);
        assert(s.drop_last() =~= decimal_digits(n / 10, w1));
        assert(pow10(w) == 10 * pow10(w1));
        lemma_pow10_positive(w1);
        vstd::arithmetic::div_mod::lemma_mod_breakdown(n as int, 10, pow10(w1) as int);
        assert(n % pow10(w) == 10 * ((n / 10) % pow10(w1)) + n % 10);
    }
}

proof fn lemma_pow10_positive(w: nat)
    ensures
        pow10(w) >= 1,
    decreases w,
{
    if w > 0 {
        lemma_pow10_positive((w - 1) as nat);
    }
}

proof fn lemma_digits_of_value(s: Seq<char>)
    requires
        forall|i: int| 0 <= i < s.len() ==> is_digit_char(#[trigger] s[i]),
    ensures
        decimal_digits(digits_value(s), s.len()) == s,
    decreases s.len(),
{
    if s.len() > 0 {
        let t = s.drop_last();
        assert forall|i: int| 0 <= i < t.len() implies is_digit_char(#[trigger] t[i]) by {
            assert(t[i] == s[i]);
        }
        lemma_digits_of_value(t);
        let d = (s.last() as int - 48) as nat;
        assert(is_digit_char(s[s.len() - 1]));
        let v = digits_value(s);
        assert(v == digits_value(t) * 10 + d);
        assert(v / 10 == digits_value(t));
        assert(v % 10 == d);
        assert(digit_char(d) == s.last());
        assert(decimal_digits(v, s.len()) =~= s);
    }
}

impl CardId {
    pub fn as_str(self) -> (r: String)
        ensures
            r@ == card_id_text(self),
    {
        let w: u32 = if self.0 < 100_000_000 {
            8
        } else if self.0 < 1_000_000_000 {
            9
        } else {
            10
        };
        let mut s = String::new();
        write_digits(self.0, w, &mut s);
        assert(s@ =~= card_id_text(self));
        s
    }

    pub fn parse(s: &str) -> (r: Option<Self>)
        ensures
            r == spec_parse_card_id(s@),
    {
        let n = s.unicode_len();
        if n != 8 {
            return None;
        }
        let mut acc: u32 = 0;
        let mut i: usize = 0;
        while i < 8
            invariant
                n == s@.len(),
                n == 8,
                0 <= i <= 8,
                forall|j: int| 0 <= j < i ==> is_digit_char(#[trigger] s@[j]),
                acc == digits_value(s@.subrange(0, i as int)),
                acc < pow10(i as nat),
            decreases 8 - i,
        {
            let c = s.get_char(i);
            if !('0' <= c && c <= '9') {
                assert(!is_digit_char(s@[i as int]));
                return None;
            }
            let d: u32 = (c as u32) - 48;
            let ghost pre = s@.subrange(0, i as int);
            let ghost nxt = s@.subrange(0, i as int + 1);
            assert(nxt.drop_last() =~= pre);
            assert(pow10(i as nat + 1) == 10 * pow10(i as nat));
            assert(pow10(i as nat + 1) <= 100_000_000) by {
                reveal_with_fuel(pow10, 9);
                assert(pow10(8) == 100_000_000);
                if i < 7 {
                    assert(pow10(i as nat + 1) <= pow10(8)) by {
                        lemma_pow10_monotone(i as nat + 1, 8);
                    }
                }
            }
            acc = acc * 10 + d;
            i = i + 1;
        }
        assert(s@.subrange(0, 8) =~= s@);
        Some(CardId(acc))
    }
}

proof fn lemma_pow10_monotone(a: nat, b: nat)
    requires
        a <= b,
    ensures
        pow10(a) <= pow10(b),
    decreases b,
{
    if a < b {
        lemma_pow10_monotone(a, (b - 1) as nat);
        lemma_pow10_positive((b - 1) as nat);
    }
}

/// A card id of at most eight digits survives a round trip through its
/// text form, and every eight-digit text survives the round trip through
/// `CardId::parse` and back.
pub proof fn lemma_card_id_text_roundtrip(id: CardId, s: Seq<char>)
    ensures
        id.0 < 100_000_000 ==> spec_parse_card_id(card_id_text(id)) == Some(id),
        is_card_id_text(s) ==> card_id_text(spec_parse_card_id(s)->0) == s,
{
    assert(pow10(8) == 100_000_000) by {
        reveal_with_fuel(pow10, 9);
    }
    if id.0 < 100_000_000 {
        lemma_decimal_digits_shape(id.0 as nat, 8);
        assert(digits_value(card_id_text(id)) == id.0);
    }
    if is_card_id_text(s) {
        lemma_digits_value_bound(s);
        lemma_digits_of_value(s);
    }
}

/// Snapshot label of a trigger tag.
pub open spec fn trigger_tag_label(t: TriggerTag) -> Seq<char> {
    match t {
        TriggerTag::Fanfare => "fanfare"@,
        TriggerTag::LastWords => "lastWords"@,
        TriggerTag::Evolve => "evolve"@,
        TriggerTag::SuperEvolve => "superEvolve"@,
        TriggerTag::AnyEvolve => "anyEvolve"@,
        TriggerTag::AnySuperEvolve => "anySuperEvolve"@,
        TriggerTag::Strike => "strike"@,
        TriggerTag::FollowerStrike => "followerStrike"@,
        TriggerTag::Clash => "clash"@,
        TriggerTag::Enter => "enter"@,
        TriggerTag::Leave => "leave"@,
        TriggerTag::Discarded => "discarded"@,
        TriggerTag::Invoked => "invoked"@,
        TriggerTag::Fused => "fused"@,
        TriggerTag::Spellboost => "spellboost"@,
        TriggerTag::Engage => "engage"@,
        TriggerTag::StartOfTurn => "startOfTurn"@,
        TriggerTag::EndOfTurn => "endOfTurn"@,
        TriggerTag::When => "when"@,
        TriggerTag::Enhance => "enhance"@,
    }
}

impl TriggerTag {
    pub fn snapshot(self) -> (r: &'static str)
        ensures
            r@ == trigger_tag_label(self),
    {
        match self {
            TriggerTag::Fanfare => "fanfare",
            TriggerTag::LastWords => "lastWords",
            TriggerTag::Evolve => "evolve",
            TriggerTag::SuperEvolve => "superEvolve",
            TriggerTag::AnyEvolve => "anyEvolve",
            TriggerTag::AnySuperEvolve => "anySuperEvolve",
            TriggerTag::Strike => "strike",
            TriggerTag::FollowerStrike => "followerStrike",
            TriggerTag::Clash => "clash",
            TriggerTag::Enter => "enter",
            TriggerTag::Leave => "leave",
            TriggerTag::Discarded => "discarded",
            TriggerTag::Invoked => "invoked",
            TriggerTag::Fused => "fused",
            TriggerTag::Spellboost => "spellboost",
            TriggerTag::Engage => "engage",
            TriggerTag::StartOfTurn => "startOfTurn",
            TriggerTag::EndOfTurn => "endOfTurn",
            TriggerTag::When => "when",
            TriggerTag::Enhance => "enhance",
        }
    }
}

/// The `printed` field every effect carries.
pub open spec fn effect_printed(e: Effect) -> Option<String> {
    match e {
        Effect::Damage { printed, .. }
        | Effect::Restore { printed, .. }
        | Effect::Buff { printed, .. }
        | Effect::Select { printed, .. }
        | Effect::Destroy { printed, .. }
        | Effect::Banish { printed, .. }
        | Effect::ReturnToHand { printed, .. }
        | Effect::ReturnToDeck { printed, .. }
        | Effect::Summon { printed, .. }
        | Effect::Reanimate { printed, .. }
        | Effect::AddToHand { printed, .. }
        | Effect::Draw { printed, .. }
        | Effect::Discard { printed, .. }
        | Effect::AddToDeck { printed, .. }
        | Effect::Evolve { printed, .. }
        | Effect::GrantTraits { printed, .. }
        | Effect::RemoveTraits { printed, .. }
        | Effect::GrantAbility { printed, .. }
        | Effect::RemoveAbilities { printed, .. }
        | Effect::Cost { printed, .. }
        | Effect::Pp { printed, .. }
        | Effect::Ep { printed, .. }
        | Effect::Crest { printed, .. }
        | Effect::RemoveCrests { printed, .. }
        | Effect::Countdown { printed, .. }
        | Effect::Counter { printed, .. }
        | Effect::Pay { printed, .. }
        | Effect::Transform { printed, .. }
        | Effect::LeaderModifier { printed, .. }
        | Effect::Replicate { printed, .. }
        | Effect::Invoke { printed, .. }
        | Effect::SpellboostHand { printed, .. }
        | Effect::RandomSplit { printed, .. }
        | Effect::Series { printed, .. }
        | Effect::If { printed, .. }
        | Effect::Choose { printed, .. }
        | Effect::Repeat { printed, .. }
        | Effect::Sequence { printed, .. } => printed,
    }
}

/// The `when` field every effect carries.
pub open spec fn effect_when(e: Effect) -> Option<Condition> {
    match e {
        Effect::Damage { when, .. }
        | Effect::Restore { when, .. }
        | Effect::Buff { when, .. }
        | Effect::Select { when, .. }
        | Effect::Destroy { when, .. }
        | Effect::Banish { when, .. }
        | Effect::ReturnToHand { when, .. }
        | Effect::ReturnToDeck { when, .. }
        | Effect::Summon { when, .. }
        | Effect::Reanimate { when, .. }
        | Effect::AddToHand { when, .. }
        | Effect::Draw { when, .. }
        | Effect::Discard { when, .. }
        | Effect::AddToDeck { when, .. }
        | Effect::Evolve { when, .. }
        | Effect::GrantTraits { when, .. }
        | Effect::RemoveTraits { when, .. }
        | Effect::GrantAbility { when, .. }
        | Effect::RemoveAbilities { when, .. }
        | Effect::Cost { when, .. }
        | Effect::Pp { when, .. }
        | Effect::Ep { when, .. }
        | Effect::Crest { when, .. }
        | Effect::RemoveCrests { when, .. }
        | Effect::Countdown { when, .. }
        | Effect::Counter { when, .. }
        | Effect::Pay { when, .. }
        | Effect::Transform { when, .. }
        | Effect::LeaderModifier { when, .. }
        | Effect::Replicate { when, .. }
        | Effect::Invoke { when, .. }
        | Effect::SpellboostHand { when, .. }
        | Effect::RandomSplit { when, .. }
        | Effect::Series { when, .. }
        | Effect::If { when, .. }
        | Effect::Choose { when, .. }
        | Effect::Repeat { when, .. }
        | Effect::Sequence { when, .. } => when,
    }
}

/// The `as_bind` field every effect carries.
pub open spec fn effect_as_bind(e: Effect) -> Option<String> {
    match e {
        Effect::Damage { as_bind, .. }
        | Effect::Restore { as_bind, .. }
        | Effect::Buff { as_bind, .. }
        | Effect::Select { as_bind, .. }
        | Effect::Destroy { as_bind, .. }
        | Effect::Banish { as_bind, .. }
        | Effect::ReturnToHand { as_bind, .. }
        | Effect::ReturnToDeck { as_bind, .. }
        | Effect::Summon { as_bind, .. }
        | Effect::Reanimate { as_bind, .. }
        | Effect::AddToHand { as_bind, .. }
        | Effect::Draw { as_bind, .. }
        | Effect::Discard { as_bind, .. }
        | Effect::AddToDeck { as_bind, .. }
        | Effect::Evolve { as_bind, .. }
        | Effect::GrantTraits { as_bind, .. }
        | Effect::RemoveTraits { as_bind, .. }
        | Effect::GrantAbility { as_bind, .. }
        | Effect::RemoveAbilities { as_bind, .. }
        | Effect::Cost { as_bind, .. }
        | Effect::Pp { as_bind, .. }
        | Effect::Ep { as_bind, .. }
        | Effect::Crest { as_bind, .. }
        | Effect::RemoveCrests { as_bind, .. }
        | Effect::Countdown { as_bind, .. }
        | Effect::Counter { as_bind, .. }
        | Effect::Pay { as_bind, .. }
        | Effect::Transform { as_bind, .. }
        | Effect::LeaderModifier { as_bind, .. }
        | Effect::Replicate { as_bind, .. }
        | Effect::Invoke { as_bind, .. }
        | Effect::SpellboostHand { as_bind, .. }
        | Effect::RandomSplit { as_bind, .. }
        | Effect::Series { as_bind, .. }
        | Effect::If { as_bind, .. }
        | Effect::Choose { as_bind, .. }
        | Effect::Repeat { as_bind, .. }
        | Effect::Sequence { as_bind, .. } => as_bind,
    }
}

impl Effect {
    pub fn printed(&self) -> (r: Option<&str>)
        ensures
            r is Some == effect_printed(*self) is Some,
            r is Some ==> r->0@ == effect_printed(*self)->0@,
    {
        match self {
            Effect::Damage { printed, .. }
            | Effect::Restore { printed, .. }
            | Effect::Buff { printed, .. }
            | Effect::Select { printed, .. }
            | Effect::Destroy { printed, .. }
            | Effect::Banish { printed, .. }
            | Effect::ReturnToHand { printed, .. }
            | Effect::ReturnToDeck { printed, .. }
            | Effect::Summon { printed, .. }
            | Effect::Reanimate { printed, .. }
            | Effect::AddToHand { printed, .. }
            | Effect::Draw { printed, .. }
            | Effect::Discard { printed, .. }
            | Effect::AddToDeck { printed, .. }
            | Effect::Evolve { printed, .. }
            | Effect::GrantTraits { printed, .. }
            | Effect::RemoveTraits { printed, .. }
            | Effect::GrantAbility { printed, .. }
            | Effect::RemoveAbilities { printed, .. }
            | Effect::Cost { printed, .. }
            | Effect::Pp { printed, .. }
            | Effect::Ep { printed, .. }
            | Effect::Crest { printed, .. }
            | Effect::RemoveCrests { printed, .. }
            | Effect::Countdown { printed, .. }
            | Effect::Counter { printed, .. }
            | Effect::Pay { printed, .. }
            | Effect::Transform { printed, .. }
            | Effect::LeaderModifier { printed, .. }
            | Effect::Replicate { printed, .. }
            | Effect::Invoke { printed, .. }
            | Effect::SpellboostHand { printed, .. }
            | Effect::RandomSplit { printed, .. }
            | Effect::Series { printed, .. }
            | Effect::If { printed, .. }
            | Effect::Choose { printed, .. }
            | Effect::Repeat { printed, .. }
            | Effect::Sequence { printed, .. } => match printed {
                Some(s) => Some(s.as_str()),
                None => None,
            },
        }
    }

    pub fn when_cond(&self) -> (r: Option<&Condition>)
        ensures
            r is Some == effect_when(*self) is Some,
            r is Some ==> *r->0 == effect_when(*self)->0,
    {
        match self {
            Effect::Damage { when, .. }
            | Effect::Restore { when, .. }
            | Effect::Buff { when, .. }
            | Effect::Select { when, .. }
            | Effect::Destroy { when, .. }
            | Effect::Banish { when, .. }
            | Effect::ReturnToHand { when, .. }
            | Effect::ReturnToDeck { when, .. }
            | Effect::Summon { when, .. }
            | Effect::Reanimate { when, .. }
            | Effect::AddToHand { when, .. }
            | Effect::Draw { when, .. }
            | Effect::Discard { when, .. }
            | Effect::AddToDeck { when, .. }
            | Effect::Evolve { when, .. }
            | Effect::GrantTraits { when, .. }
            | Effect::RemoveTraits { when, .. }
            | Effect::GrantAbility { when, .. }
            | Effect::RemoveAbilities { when, .. }
            | Effect::Cost { when, .. }
            | Effect::Pp { when, .. }
            | Effect::Ep { when, .. }
            | Effect::Crest { when, .. }
            | Effect::RemoveCrests { when, .. }
            | Effect::Countdown { when, .. }
            | Effect::Counter { when, .. }
            | Effect::Pay { when, .. }
            | Effect::Transform { when, .. }
            | Effect::LeaderModifier { when, .. }
            | Effect::Replicate { when, .. }
            | Effect::Invoke { when, .. }
            | Effect::SpellboostHand { when, .. }
            | Effect::RandomSplit { when, .. }
            | Effect::Series { when, .. }
            | Effect::If { when, .. }
            | Effect::Choose { when, .. }
            | Effect::Repeat { when, .. }
            | Effect::Sequence { when, .. } => match when {
                Some(c) => Some(c),
                None => None,
            },
        }
    }

    pub fn as_bind(&self) -> (r: Option<&str>)
        ensures
            r is Some == effect_as_bind(*self) is Some,
            r is Some ==> r->0@ == effect_as_bind(*self)->0@,
    {
        match self {
            Effect::Damage { as_bind, .. }
            | Effect::Restore { as_bind, .. }
            | Effect::Buff { as_bind, .. }
            | Effect::Select { as_bind, .. }
            | Effect::Destroy { as_bind, .. }
            | Effect::Banish { as_bind, .. }
            | Effect::ReturnToHand { as_bind, .. }
            | Effect::ReturnToDeck { as_bind, .. }
            | Effect::Summon { as_bind, .. }
            | Effect::Reanimate { as_bind, .. }
            | Effect::AddToHand { as_bind, .. }
            | Effect::Draw { as_bind, .. }
            | Effect::Discard { as_bind, .. }
            | Effect::AddToDeck { as_bind, .. }
            | Effect::Evolve { as_bind, .. }
            | Effect::GrantTraits { as_bind, .. }
            | Effect::RemoveTraits { as_bind, .. }
            | Effect::GrantAbility { as_bind, .. }
            | Effect::RemoveAbilities { as_bind, .. }
            | Effect::Cost { as_bind, .. }
            | Effect::Pp { as_bind, .. }
            | Effect::Ep { as_bind, .. }
            | Effect::Crest { as_bind, .. }
            | Effect::RemoveCrests { as_bind, .. }
            | Effect::Countdown { as_bind, .. }
            | Effect::Counter { as_bind, .. }
            | Effect::Pay { as_bind, .. }
            | Effect::Transform { as_bind, .. }
            | Effect::LeaderModifier { as_bind, .. }
            | Effect::Replicate { as_bind, .. }
            | Effect::Invoke { as_bind, .. }
            | Effect::SpellboostHand { as_bind, .. }
            | Effect::RandomSplit { as_bind, .. }
            | Effect::Series { as_bind, .. }
            | Effect::If { as_bind, .. }
            | Effect::Choose { as_bind, .. }
            | Effect::Repeat { as_bind, .. }
            | Effect::Sequence { as_bind, .. } => match as_bind {
                Some(s) => Some(s.as_str()),
                None => None,
            },
        }
    }
}

/// Trigger tag of an ability (a static modifier reports `When`).
pub open spec fn ability_tag(a: Ability) -> TriggerTag {
    match a {
        Ability::Fanfare { .. } => TriggerTag::Fanfare,
        Ability::LastWords { .. } => TriggerTag::LastWords,
        Ability::Evolve { .. } => TriggerTag::Evolve,
        Ability::SuperEvolve { .. } => TriggerTag::SuperEvolve,
        Ability::AnyEvolve { .. } => TriggerTag::AnyEvolve,
        Ability::AnySuperEvolve { .. } => TriggerTag::AnySuperEvolve,
        Ability::Strike { .. } => TriggerTag::Strike,
        Ability::FollowerStrike { .. } => TriggerTag::FollowerStrike,
        Ability::Clash { .. } => TriggerTag::Clash,
        Ability::Enter { .. } => TriggerTag::Enter,
        Ability::Leave { .. } => TriggerTag::Leave,
        Ability::Discarded { .. } => TriggerTag::Discarded,
        Ability::Invoked { .. } => TriggerTag::Invoked,
        Ability::Fused { .. } => TriggerTag::Fused,
        Ability::Spellboost { .. } => TriggerTag::Spellboost,
        Ability::Engage { .. } => TriggerTag::Engage,
        Ability::StartOfTurn { .. } => TriggerTag::StartOfTurn,
        Ability::EndOfTurn { .. } => TriggerTag::EndOfTurn,
        Ability::When { .. } => TriggerTag::When,
        Ability::Static { .. } => TriggerTag::When,
    }
}

/// Effects an ability resolves (none for a static modifier).
pub open spec fn ability_effects(a: Ability) -> Seq<Effect> {
    match a {
        Ability::Static { .. } => Seq::empty(),
        Ability::Fanfare { effects, .. }
        | Ability::LastWords { effects, .. }
        | Ability::Evolve { effects, .. }
        | Ability::SuperEvolve { effects, .. }
        | Ability::AnyEvolve { effects, .. }
        | Ability::AnySuperEvolve { effects, .. }
        | Ability::Strike { effects, .. }
        | Ability::FollowerStrike { effects, .. }
        | Ability::Clash { effects, .. }
        | Ability::Enter { effects, .. }
        | Ability::Leave { effects, .. }
        | Ability::Discarded { effects, .. }
        | Ability::Invoked { effects, .. }
        | Ability::Fused { effects, .. }
        | Ability::Spellboost { effects, .. }
        | Ability::Engage { effects, .. }
        | Ability::StartOfTurn { effects, .. }
        | Ability::EndOfTurn { effects, .. }
        | Ability::When { effects, .. } => effects@,
    }
}

/// Zone an ability works from; field when unstated.
pub open spec fn ability_zone(a: Ability) -> AbilityZone {
    let z = match a {
        Ability::Fanfare { zone, .. }
        | Ability::LastWords { zone, .. }
        | Ability::Evolve { zone, .. }
        | Ability::SuperEvolve { zone, .. }
        | Ability::AnyEvolve { zone, .. }
        | Ability::AnySuperEvolve { zone, .. }
        | Ability::Strike { zone, .. }
        | Ability::FollowerStrike { zone, .. }
        | Ability::Clash { zone, .. }
        | Ability::Enter { zone, .. }
        | Ability::Leave { zone, .. }
        | Ability::Discarded { zone, .. }
        | Ability::Invoked { zone, .. }
        | Ability::Fused { zone, .. }
        | Ability::Spellboost { zone, .. }
        | Ability::Engage { zone, .. }
        | Ability::StartOfTurn { zone, .. }
        | Ability::EndOfTurn { zone, .. }
        | Ability::When { zone, .. }
        | Ability::Static { zone, .. } => zone,
    };
    match z {
        Some(z) => z,
        None => AbilityZone::Field,
    }
}

/// Whether an ability is limited to once per turn (never for a static modifier).
pub open spec fn ability_once_per_turn(a: Ability) -> bool {
    match a {
        Ability::Static { .. } => false,
        Ability::Fanfare { once_per_turn, .. }
        | Ability::LastWords { once_per_turn, .. }
        | Ability::Evolve { once_per_turn, .. }
        | Ability::SuperEvolve { once_per_turn, .. }
        | Ability::AnyEvolve { once_per_turn, .. }
        | Ability::AnySuperEvolve { once_per_turn, .. }
        | Ability::Strike { once_per_turn, .. }
        | Ability::FollowerStrike { once_per_turn, .. }
        | Ability::Clash { once_per_turn, .. }
        | Ability::Enter { once_per_turn, .. }
        | Ability::Leave { once_per_turn, .. }
        | Ability::Discarded { once_per_turn, .. }
        | Ability::Invoked { once_per_turn, .. }
        | Ability::Fused { once_per_turn, .. }
        | Ability::Spellboost { once_per_turn, .. }
        | Ability::Engage { once_per_turn, .. }
        | Ability::StartOfTurn { once_per_turn, .. }
        | Ability::EndOfTurn { once_per_turn, .. }
        | Ability::When { once_per_turn, .. } => once_per_turn == Some(true),
    }
}

/// The condition gating an ability.
pub open spec fn ability_when(a: Ability) -> Option<Condition> {
    match a {
        Ability::Fanfare { when, .. }
        | Ability::LastWords { when, .. }
        | Ability::Evolve { when, .. }
        | Ability::SuperEvolve { when, .. }
        | Ability::AnyEvolve { when, .. }
        | Ability::AnySuperEvolve { when, .. }
        | Ability::Strike { when, .. }
        | Ability::FollowerStrike { when, .. }
        | Ability::Clash { when, .. }
        | Ability::Enter { when, .. }
        | Ability::Leave { when, .. }
        | Ability::Discarded { when, .. }
        | Ability::Invoked { when, .. }
        | Ability::Fused { when, .. }
        | Ability::Spellboost { when, .. }
        | Ability::Engage { when, .. }
        | Ability::StartOfTurn { when, .. }
        | Ability::EndOfTurn { when, .. }
        | Ability::When { when, .. }
        | Ability::Static { when, .. } => when,
    }
}

/// A super-evolve ability that replaces the plain evolve ability.
pub open spec fn ability_replaces_evolve(a: Ability) -> bool {
    a matches Ability::SuperEvolve { replaces: Some(Replaces::Evolve), .. }
}

/// Snapshot label of an ability.
pub open spec fn ability_label(a: Ability) -> Seq<char> {
    match a {
        Ability::Static { .. } => "static"@,
        _ => trigger_tag_label(ability_tag(a)),
    }
}

impl Ability {
    pub fn tag(&self) -> (r: TriggerTag)
        ensures
            r == ability_tag(*self),
    {
        match self {
            Ability::Fanfare { .. } => TriggerTag::Fanfare,
            Ability::LastWords { .. } => TriggerTag::LastWords,
            Ability::Evolve { .. } => TriggerTag::Evolve,
            Ability::SuperEvolve { .. } => TriggerTag::SuperEvolve,
            Ability::AnyEvolve { .. } => TriggerTag::AnyEvolve,
            Ability::AnySuperEvolve { .. } => TriggerTag::AnySuperEvolve,
            Ability::Strike { .. } => TriggerTag::Strike,
            Ability::FollowerStrike { .. } => TriggerTag::FollowerStrike,
            Ability::Clash { .. } => TriggerTag::Clash,
            Ability::Enter { .. } => TriggerTag::Enter,
            Ability::Leave { .. } => TriggerTag::Leave,
            Ability::Discarded { .. } => TriggerTag::Discarded,
            Ability::Invoked { .. } => TriggerTag::Invoked,
            Ability::Fused { .. } => TriggerTag::Fused,
            Ability::Spellboost { .. } => TriggerTag::Spellboost,
            Ability::Engage { .. } => TriggerTag::Engage,
            Ability::StartOfTurn { .. } => TriggerTag::StartOfTurn,
            Ability::EndOfTurn { .. } => TriggerTag::EndOfTurn,
            Ability::When { .. } => TriggerTag::When,
            Ability::Static { .. } => TriggerTag::When,
        }
    }

    pub fn effects(&self) -> (r: &[Effect])
        ensures
            r@ == ability_effects(*self),
    {
        match self {
            Ability::Static { .. } => &[],
            Ability::Fanfare { effects, .. }
            | Ability::LastWords { effects, .. }
            | Ability::Evolve { effects, .. }
            | Ability::SuperEvolve { effects, .. }
            | Ability::AnyEvolve { effects, .. }
            | Ability::AnySuperEvolve { effects, .. }
            | Ability::Strike { effects, .. }
            | Ability::FollowerStrike { effects, .. }
            | Ability::Clash { effects, .. }
            | Ability::Enter { effects, .. }
            | Ability::Leave { effects, .. }
            | Ability::Discarded { effects, .. }
            | Ability::Invoked { effects, .. }
            | Ability::Fused { effects, .. }
            | Ability::Spellboost { effects, .. }
            | Ability::Engage { effects, .. }
            | Ability::StartOfTurn { effects, .. }
            | Ability::EndOfTurn { effects, .. }
            | Ability::When { effects, .. } => effects.as_slice(),
        }
    }

    pub fn zone(&self) -> (r: AbilityZone)
        ensures
            r == ability_zone(*self),
    {
        let z = match self {
            Ability::Fanfare { zone, .. }
            | Ability::LastWords { zone, .. }
            | Ability::Evolve { zone, .. }
            | Ability::SuperEvolve { zone, .. }
            | Ability::AnyEvolve { zone, .. }
            | Ability::AnySuperEvolve { zone, .. }
            | Ability::Strike { zone, .. }
            | Ability::FollowerStrike { zone, .. }
            | Ability::Clash { zone, .. }
            | Ability::Enter { zone, .. }
            | Ability::Leave { zone, .. }
            | Ability::Discarded { zone, .. }
            | Ability::Invoked { zone, .. }
            | Ability::Fused { zone, .. }
            | Ability::Spellboost { zone, .. }
            | Ability::Engage { zone, .. }
            | Ability::StartOfTurn { zone, .. }
            | Ability::EndOfTurn { zone, .. }
            | Ability::When { zone, .. }
            | Ability::Static { zone, .. } => *zone,
        };
        match z {
            Some(z) => z,
            None => AbilityZone::Field,
        }
    }

    pub fn once_per_turn(&self) -> (r: bool)
        ensures
            r == ability_once_per_turn(*self),
    {
        match self {
            Ability::Static { .. } => false,
            Ability::Fanfare { once_per_turn, .. }
            | Ability::LastWords { once_per_turn, .. }
            | Ability::Evolve { once_per_turn, .. }
            | Ability::SuperEvolve { once_per_turn, .. }
            | Ability::AnyEvolve { once_per_turn, .. }
            | Ability::AnySuperEvolve { once_per_turn, .. }
            | Ability::Strike { once_per_turn, .. }
            | Ability::FollowerStrike { once_per_turn, .. }
            | Ability::Clash { once_per_turn, .. }
            | Ability::Enter { once_per_turn, .. }
            | Ability::Leave { once_per_turn, .. }
            | Ability::Discarded { once_per_turn, .. }
            | Ability::Invoked { once_per_turn, .. }
            | Ability::Fused { once_per_turn, .. }
            | Ability::Spellboost { once_per_turn, .. }
            | Ability::Engage { once_per_turn, .. }
            | Ability::StartOfTurn { once_per_turn, .. }
            | Ability::EndOfTurn { once_per_turn, .. }
            | Ability::When { once_per_turn, .. } => match once_per_turn {
                Some(b) => *b,
                None => false,
            },
        }
    }

    pub fn when_cond(&self) -> (r: Option<&Condition>)
        ensures
            r is Some == ability_when(*self) is Some,
            r is Some ==> *r->0 == ability_when(*self)->0,
    {
        match self {
            Ability::Fanfare { when, .. }
            | Ability::LastWords { when, .. }
            | Ability::Evolve { when, .. }
            | Ability::SuperEvolve { when, .. }
            | Ability::AnyEvolve { when, .. }
            | Ability::AnySuperEvolve { when, .. }
            | Ability::Strike { when, .. }
            | Ability::FollowerStrike { when, .. }
            | Ability::Clash { when, .. }
            | Ability::Enter { when, .. }
            | Ability::Leave { when, .. }
            | Ability::Discarded { when, .. }
            | Ability::Invoked { when, .. }
            | Ability::Fused { when, .. }
            | Ability::Spellboost { when, .. }
            | Ability::Engage { when, .. }
            | Ability::StartOfTurn { when, .. }
            | Ability::EndOfTurn { when, .. }
            | Ability::When { when, .. }
            | Ability::Static { when, .. } => match when {
                Some(c) => Some(c),
                None => None,
            },
        }
    }

    pub fn replaces_evolve(&self) -> (r: bool)
        ensures
            r == ability_replaces_evolve(*self),
    {
        match self {
            Ability::SuperEvolve { replaces: Some(Replaces::Evolve), .. } => true,
            _ => false,
        }
    }

    pub fn snapshot_tag(&self) -> (r: &'static str)
        ensures
            r@ == ability_label(*self),
    {
        match self {
            Ability::Static { .. } => "static",
            _ => self.tag().snapshot(),
        }
    }
}

// ---------------------------------------------------------------------------
// Trait algebra
// ---------------------------------------------------------------------------

/// Whether a trait is present on a trait set.
pub open spec fn traits_is_set(t: Traits, key: TraitKey) -> bool {
    match key {
        TraitKey::Ward => t.ward == Some(true),
        TraitKey::Bane => t.bane == Some(true),
        TraitKey::Rush => t.rush == Some(true),
        TraitKey::Storm => t.storm == Some(true),
        TraitKey::Ambush => t.ambush == Some(true),
        TraitKey::Aura => t.aura == Some(true),
        TraitKey::Intimidate => t.intimidate == Some(true),
        TraitKey::Drain => t.drain == Some(true),
        TraitKey::Barrier => t.barrier == Some(true),
        TraitKey::IgnoresWard => t.ignores_ward == Some(true),
        TraitKey::CantAttackFollowers => t.cant_attack_followers == Some(true),
        TraitKey::CantAttackLeader => t.cant_attack_leader == Some(true),
        TraitKey::CantBeDestroyedByAbilities => t.cant_be_destroyed_by_abilities == Some(true),
        TraitKey::CantBePlayed => t.cant_be_played == Some(true),
        TraitKey::AttacksPerTurn => t.attacks_per_turn is Some && t.attacks_per_turn->0 > 0,
        TraitKey::DamageCap => t.damage_cap is Some,
    }
}

/// Granting a flag turns it on; an absent or false grant leaves it.
pub open spec fn grant_flag(dst: Option<bool>, src: Option<bool>) -> Option<bool> {
    if src == Some(true) {
        Some(true)
    } else {
        dst
    }
}

/// Removing a flag clears it; an absent or false removal leaves it.
pub open spec fn remove_flag(dst: Option<bool>, src: Option<bool>) -> Option<bool> {
    if src == Some(true) {
        None
    } else {
        dst
    }
}

/// "Can attack N times" adds `N - 1` extra attacks (never fewer than none).
pub open spec fn extra_attacks(n: i32) -> int {
    if n > 1 {
        n - 1
    } else {
        0
    }
}

/// Attacks per turn after a grant of `n`: the current count (one when
/// unstated) plus the extra attacks.
pub open spec fn granted_attacks(cur: Option<i32>, n: i32) -> int {
    (match cur {
        Some(c) => c as int,
        None => 1,
    }) + extra_attacks(n)
}

/// Attacks per turn after removing a grant of `n`: never below one, and
/// one is stored as unstated.
pub open spec fn removed_attacks(cur: Option<i32>, n: i32) -> Option<i32> {
    let c = match cur {
        Some(c) => c as int,
        None => 1,
    };
    let next = if c - extra_attacks(n) > 1 {
        c - extra_attacks(n)
    } else {
        1
    };
    if next <= 1 {
        None
    } else {
        Some(next as i32)
    }
}

/// The smaller damage cap wins.
pub open spec fn granted_cap(cur: Option<i32>, n: i32) -> i32 {
    match cur {
        Some(c) => if c < n { c } else { n },
        None => n,
    }
}

/// `merge_grant` cannot overflow the attack count.
pub open spec fn grant_fits(t: Traits, other: Traits) -> bool {
    other.attacks_per_turn is Some ==> granted_attacks(t.attacks_per_turn, other.attacks_per_turn->0) <= i32::MAX
}

/// `merge_remove` cannot overflow the attack count.
pub open spec fn remove_fits(t: Traits, other: Traits) -> bool {
    other.attacks_per_turn is Some ==> (match t.attacks_per_turn {
        Some(c) => c as int,
        None => 1,
    }) - extra_attacks(other.attacks_per_turn->0) >= i32::MIN
}

/// The trait set after `merge_grant`.
pub open spec fn spec_merge_grant(t: Traits, other: Traits) -> Traits {
    Traits {
        ward: grant_flag(t.ward, other.ward),
        bane: grant_flag(t.bane, other.bane),
        rush: grant_flag(t.rush, other.rush),
        storm: grant_flag(t.storm, other.storm),
        ambush: grant_flag(t.ambush, other.ambush),
        aura: grant_flag(t.aura, other.aura),
        intimidate: grant_flag(t.intimidate, other.intimidate),
        drain: grant_flag(t.drain, other.drain),
        barrier: grant_flag(t.barrier, other.barrier),
        ignores_ward: grant_flag(t.ignores_ward, other.ignores_ward),
        cant_attack_followers: grant_flag(t.cant_attack_followers, other.cant_attack_followers),
        cant_attack_leader: grant_flag(t.cant_attack_leader, other.cant_attack_leader),
        cant_be_destroyed_by_abilities: grant_flag(t.cant_be_destroyed_by_abilities, other.cant_be_destroyed_by_abilities),
        cant_be_played: grant_flag(t.cant_be_played, other.cant_be_played),
        attacks_per_turn: match other.attacks_per_turn {
            Some(n) => Some(granted_attacks(t.attacks_per_turn, n) as i32),
            None => t.attacks_per_turn,
        },
        damage_cap: match other.damage_cap {
            Some(n) => Some(granted_cap(t.damage_cap, n)),
            None => t.damage_cap,
        },
    }
}

/// The trait set after `merge_remove`.
pub open spec fn spec_merge_remove(t: Traits, other: Traits) -> Traits {
    Traits {
        ward: remove_flag(t.ward, other.ward),
        bane: remove_flag(t.bane, other.bane),
        rush: remove_flag(t.rush, other.rush),
        storm: remove_flag(t.storm, other.storm),
        ambush: remove_flag(t.ambush, other.ambush),
        aura: remove_flag(t.aura, other.aura),
        intimidate: remove_flag(t.intimidate, other.intimidate),
        drain: remove_flag(t.drain, other.drain),
        barrier: remove_flag(t.barrier, other.barrier),
        ignores_ward: remove_flag(t.ignores_ward, other.ignores_ward),
        cant_attack_followers: remove_flag(t.cant_attack_followers, other.cant_attack_followers),
        cant_attack_leader: remove_flag(t.cant_attack_leader, other.cant_attack_leader),
        cant_be_destroyed_by_abilities: remove_flag(t.cant_be_destroyed_by_abilities, other.cant_be_destroyed_by_abilities),
        cant_be_played: remove_flag(t.cant_be_played, other.cant_be_played),
        attacks_per_turn: match other.attacks_per_turn {
            Some(n) => removed_attacks(t.attacks_per_turn, n),
            None => t.attacks_per_turn,
        },
        damage_cap: if other.damage_cap is Some {
            None
        } else {
            t.damage_cap
        },
    }
}

/// Views of a list of strings.
#[verifier::opaque]
pub open spec fn string_views(v: Seq<String>) -> Seq<Seq<char>> {
    v.map_values(|s: String| s@)
}

/// Appends `label` when the flag is on.
pub open spec fn tag_step(acc: Seq<Seq<char>>, on: Option<bool>, label: Seq<char>) -> Seq<Seq<char>> {
    if on == Some(true) {
        acc.push(label)
    } else {
        acc
    }
}

/// Sorted snapshot labels of the flags that are on.
pub open spec fn traits_tags(t: Traits) -> Seq<Seq<char>> {
    tag_step(tag_step(tag_step(tag_step(tag_step(tag_step(tag_step(tag_step(tag_step(tag_step(tag_step(tag_step(tag_step(tag_step(Seq::<Seq<char>>::empty(), t.ambush, "ambush"@), t.aura, "aura"@), t.bane, "bane"@), t.barrier, "barrier"@), t.cant_attack_followers, "cantAttackFollowers"@), t.cant_attack_leader, "cantAttackLeader"@), t.cant_be_destroyed_by_abilities, "cantBeDestroyedByAbilities"@), t.cant_be_played, "cantBePlayed"@), t.drain, "drain"@), t.ignores_ward, "ignoresWard"@), t.intimidate, "intimidate"@), t.rush, "rush"@), t.storm, "storm"@), t.ward, "ward"@)
}

fn or_bool(dst: &mut Option<bool>, src: Option<bool>)
    ensures
        *final(dst) == grant_flag(*old(dst), src),
{
    if src == Some(true) {
        *dst = Some(true);
    }
}

fn clear_bool(dst: &mut Option<bool>, src: Option<bool>)
    ensures
        *final(dst) == remove_flag(*old(dst), src),
{
    if src == Some(true) {
        *dst = None;
    }
}

fn push_tag(out: &mut Vec<String>, on: Option<bool>, label: &str)
    ensures
        string_views(final(out)@) == tag_step(string_views(old(out)@), on, label@),
{
    proof {
        reveal(string_views);
    }
    if on == Some(true) {
        out.push(String::from_str(label));
        assert(string_views(final(out)@) =~= string_views(old(out)@).push(label@));
    }
}

impl Default for Traits {
    fn default() -> (r: Self)
        ensures
            r == spec_default_traits(),
    {
        Traits {
            ward: None,
            bane: None,
            rush: None,
            storm: None,
            ambush: None,
            aura: None,
            intimidate: None,
            drain: None,
            barrier: None,
            ignores_ward: None,
            cant_attack_followers: None,
            cant_attack_leader: None,
            cant_be_destroyed_by_abilities: None,
            cant_be_played: None,
            attacks_per_turn: None,
            damage_cap: None,
        }
    }
}

/// The empty trait set.
pub open spec fn spec_default_traits() -> Traits {
    Traits {
        ward: None,
        bane: None,
        rush: None,
        storm: None,
        ambush: None,
        aura: None,
        intimidate: None,
        drain: None,
        barrier: None,
        ignores_ward: None,
        cant_attack_followers: None,
        cant_attack_leader: None,
        cant_be_destroyed_by_abilities: None,
        cant_be_played: None,
        attacks_per_turn: None,
        damage_cap: None,
    }
}

impl Traits {
    pub fn is_set(&self, key: TraitKey) -> (r: bool)
        ensures
            r == traits_is_set(*self, key),
    {
        match key {
            TraitKey::Ward => self.ward == Some(true),
            TraitKey::Bane => self.bane == Some(true),
            TraitKey::Rush => self.rush == Some(true),
            TraitKey::Storm => self.storm == Some(true),
            TraitKey::Ambush => self.ambush == Some(true),
            TraitKey::Aura => self.aura == Some(true),
            TraitKey::Intimidate => self.intimidate == Some(true),
            TraitKey::Drain => self.drain == Some(true),
            TraitKey::Barrier => self.barrier == Some(true),
            TraitKey::IgnoresWard => self.ignores_ward == Some(true),
            TraitKey::CantAttackFollowers => self.cant_attack_followers == Some(true),
            TraitKey::CantAttackLeader => self.cant_attack_leader == Some(true),
            TraitKey::CantBeDestroyedByAbilities => self.cant_be_destroyed_by_abilities == Some(true),
            TraitKey::CantBePlayed => self.cant_be_played == Some(true),
            TraitKey::AttacksPerTurn => match self.attacks_per_turn {
                Some(n) => n > 0,
                None => false,
            },
            TraitKey::DamageCap => self.damage_cap.is_some(),
        }
    }

    pub fn merge_grant(&mut self, other: &Traits)
        requires
            grant_fits(*old(self), *other),
        ensures
            *final(self) == spec_merge_grant(*old(self), *other),
    {
        or_bool(&mut self.ward, other.ward);
        or_bool(&mut self.bane, other.bane);
        or_bool(&mut self.rush, other.rush);
        or_bool(&mut self.storm, other.storm);
        or_bool(&mut self.ambush, other.ambush);
        or_bool(&mut self.aura, other.aura);
        or_bool(&mut self.intimidate, other.intimidate);
        or_bool(&mut self.drain, other.drain);
        or_bool(&mut self.barrier, other.barrier);
        or_bool(&mut self.ignores_ward, other.ignores_ward);
        or_bool(&mut self.cant_attack_followers, other.cant_attack_followers);
        or_bool(&mut self.cant_attack_leader, other.cant_attack_leader);
        or_bool(&mut self.cant_be_destroyed_by_abilities, other.cant_be_destroyed_by_abilities);
        or_bool(&mut self.cant_be_played, other.cant_be_played);
        if let Some(n) = other.attacks_per_turn {
            // "Can attack N times" grants stack as extra attacks.
            let extra = if n > 1 { n - 1 } else { 0 };
            let cur = match self.attacks_per_turn {
                Some(c) => c,
                None => 1,
            };
            self.attacks_per_turn = Some(cur + extra);
        }
        if let Some(n) = other.damage_cap {
            self.damage_cap = Some(match self.damage_cap {
                Some(c) => if c < n { c } else { n },
                None => n,
            });
        }
    }

    pub fn merge_remove(&mut self, other: &Traits)
        requires
            remove_fits(*old(self), *other),
        ensures
            *final(self) == spec_merge_remove(*old(self), *other),
    {
        clear_bool(&mut self.ward, other.ward);
        clear_bool(&mut self.bane, other.bane);
        clear_bool(&mut self.rush, other.rush);
        clear_bool(&mut self.storm, other.storm);
        clear_bool(&mut self.ambush, other.ambush);
        clear_bool(&mut self.aura, other.aura);
        clear_bool(&mut self.intimidate, other.intimidate);
        clear_bool(&mut self.drain, other.drain);
        clear_bool(&mut self.barrier, other.barrier);
        clear_bool(&mut self.ignores_ward, other.ignores_ward);
        clear_bool(&mut self.cant_attack_followers, other.cant_attack_followers);
        clear_bool(&mut self.cant_attack_leader, other.cant_attack_leader);
        clear_bool(&mut self.cant_be_destroyed_by_abilities, other.cant_be_destroyed_by_abilities);
        clear_bool(&mut self.cant_be_played, other.cant_be_played);
        if let Some(n) = other.attacks_per_turn {
            let extra = if n > 1 { n - 1 } else { 0 };
            let cur = match self.attacks_per_turn {
                Some(c) => c,
                None => 1,
            };
            let next = if cur - extra > 1 { cur - extra } else { 1 };
            self.attacks_per_turn = if next <= 1 { None } else { Some(next) };
        }
        if other.damage_cap.is_some() {
            self.damage_cap = None;
        }
    }

    /// Sorted trait tags for the canonical state snapshot.
    pub fn snapshot_tags(&self) -> (r: Vec<String>)
        ensures
            string_views(r@) == traits_tags(*self),
    {
        let mut t: Vec<String> = Vec::new();
        proof {
            reveal(string_views);
            assert(string_views(t@) =~= Seq::<Seq<char>>::empty());
        }
        push_tag(&mut t, self.ambush, "ambush");
        push_tag(&mut t, self.aura, "aura");
        push_tag(&mut t, self.bane, "bane");
        push_tag(&mut t, self.barrier, "barrier");
        push_tag(&mut t, self.cant_attack_followers, "cantAttackFollowers");
        push_tag(&mut t, self.cant_attack_leader, "cantAttackLeader");
        push_tag(&mut t, self.cant_be_destroyed_by_abilities, "cantBeDestroyedByAbilities");
        push_tag(&mut t, self.cant_be_played, "cantBePlayed");
        push_tag(&mut t, self.drain, "drain");
        push_tag(&mut t, self.ignores_ward, "ignoresWard");
        push_tag(&mut t, self.intimidate, "intimidate");
        push_tag(&mut t, self.rush, "rush");
        push_tag(&mut t, self.storm, "storm");
        push_tag(&mut t, self.ward, "ward");
        t
    }
}

/// Granting a trait set and then removing the same set leaves none of the
/// granted flags on, whatever was there before.
pub proof fn lemma_grant_then_remove_clears_flags(t: Traits, g: Traits)
    ensures
        g.ward == Some(true) ==> spec_merge_remove(spec_merge_grant(t, g), g).ward is None,
        g.bane == Some(true) ==> spec_merge_remove(spec_merge_grant(t, g), g).bane is None,
        g.rush == Some(true) ==> spec_merge_remove(spec_merge_grant(t, g), g).rush is None,
        g.storm == Some(true) ==> spec_merge_remove(spec_merge_grant(t, g), g).storm is None,
        g.barrier == Some(true) ==> spec_merge_remove(spec_merge_grant(t, g), g).barrier is None,
        g.damage_cap is Some ==> spec_merge_remove(spec_merge_grant(t, g), g).damage_cap is None,
{
}

/// Granting the same trait set twice is the same as granting it once,
/// except for stacked extra attacks.
pub proof fn lemma_grant_flags_idempotent(t: Traits, g: Traits)
    ensures
        g.attacks_per_turn is None ==> spec_merge_grant(spec_merge_grant(t, g), g) == spec_merge_grant(t, g),
{
}

/// Granting extra attacks and removing the same grant restores the attack
/// count, with one attack stored as unstated.
pub proof fn lemma_attack_grant_remove(t: Traits, g: Traits)
    requires
        g.attacks_per_turn is Some,
        grant_fits(t, g),
        t.attacks_per_turn is Some ==> t.attacks_per_turn->0 >= 1,
    ensures
        spec_merge_remove(spec_merge_grant(t, g), g).attacks_per_turn == (match t.attacks_per_turn {
            Some(c) => if c <= 1 { None } else { Some(c) },
            None => None,
        }),
{
}

// ---------------------------------------------------------------------------
// Card, mode, crest accessors
// ---------------------------------------------------------------------------

impl ChoosePickDe {
    pub fn as_pick(&self) -> (r: ChoosePick)
        ensures
            r == (match *self {
                ChoosePickDe::N(n) => ChoosePick::N(n),
                ChoosePickDe::Word(AllWord::All) => ChoosePick::All,
            }),
    {
        match self {
            ChoosePickDe::N(n) => ChoosePick::N(*n),
            ChoosePickDe::Word(AllWord::All) => ChoosePick::All,
        }
    }
}

/// Cost of a play mode.
pub open spec fn mode_cost(m: Mode) -> i32 {
    match m {
        Mode::Enhance { cost, .. } => cost,
        Mode::Accelerate { cost, .. } => cost,
        Mode::Crystallize { cost, .. } => cost,
    }
}

impl Mode {
    pub fn cost(&self) -> (r: i32)
        ensures
            r == mode_cost(*self),
    {
        match self {
            Mode::Enhance { cost, .. } | Mode::Accelerate { cost, .. } | Mode::Crystallize { cost, .. } => *cost,
        }
    }
}

/// The `id` field of a card.
pub open spec fn card_id(c: Card) -> CardId {
    match c {
        Card::Follower { id, .. } => id,
        Card::Spell { id, .. } => id,
        Card::Amulet { id, .. } => id,
    }
}

/// The `name` field of a card.
pub open spec fn card_name(c: Card) -> String {
    match c {
        Card::Follower { name, .. } => name,
        Card::Spell { name, .. } => name,
        Card::Amulet { name, .. } => name,
    }
}

/// The `class` field of a card.
pub open spec fn card_class(c: Card) -> Class {
    match c {
        Card::Follower { class, .. } => class,
        Card::Spell { class, .. } => class,
        Card::Amulet { class, .. } => class,
    }
}

/// The `set` field of a card.
pub open spec fn card_set(c: Card) -> i32 {
    match c {
        Card::Follower { set, .. } => set,
        Card::Spell { set, .. } => set,
        Card::Amulet { set, .. } => set,
    }
}

/// The `token` field of a card.
pub open spec fn card_token(c: Card) -> bool {
    match c {
        Card::Follower { token, .. } => token,
        Card::Spell { token, .. } => token,
        Card::Amulet { token, .. } => token,
    }
}

/// The `cost` field of a card.
pub open spec fn card_cost(c: Card) -> i32 {
    match c {
        Card::Follower { cost, .. } => cost,
        Card::Spell { cost, .. } => cost,
        Card::Amulet { cost, .. } => cost,
    }
}

/// The `text` field of a card.
pub open spec fn card_text(c: Card) -> String {
    match c {
        Card::Follower { text, .. } => text,
        Card::Spell { text, .. } => text,
        Card::Amulet { text, .. } => text,
    }
}

/// The `tribes` field of a card.
pub open spec fn card_tribes(c: Card) -> Vec<Tribe> {
    match c {
        Card::Follower { tribes, .. } => tribes,
        Card::Spell { tribes, .. } => tribes,
        Card::Amulet { tribes, .. } => tribes,
    }
}

/// The `traits` field of a card.
pub open spec fn card_traits(c: Card) -> Option<Traits> {
    match c {
        Card::Follower { traits, .. } => traits,
        Card::Spell { traits, .. } => traits,
        Card::Amulet { traits, .. } => traits,
    }
}

/// The `abilities` field of a card.
pub open spec fn card_abilities(c: Card) -> Option<Vec<Ability>> {
    match c {
        Card::Follower { abilities, .. } => abilities,
        Card::Spell { abilities, .. } => abilities,
        Card::Amulet { abilities, .. } => abilities,
    }
}

/// The `modes` field of a card.
pub open spec fn card_modes(c: Card) -> Option<Vec<Mode>> {
    match c {
        Card::Follower { modes, .. } => modes,
        Card::Spell { modes, .. } => modes,
        Card::Amulet { modes, .. } => modes,
    }
}

/// The `fuse` field of a card.
pub open spec fn card_fuse(c: Card) -> Option<Fuse> {
    match c {
        Card::Follower { fuse, .. } => fuse,
        Card::Spell { fuse, .. } => fuse,
        Card::Amulet { fuse, .. } => fuse,
    }
}

/// The `vars` field of a card.
pub open spec fn card_vars(c: Card) -> Option<CardVars> {
    match c {
        Card::Follower { vars, .. } => vars,
        Card::Spell { vars, .. } => vars,
        Card::Amulet { vars, .. } => vars,
    }
}

/// Kind of a card.
pub open spec fn card_kind(c: Card) -> CardKind {
    match c {
        Card::Follower { .. } => CardKind::Follower,
        Card::Spell { .. } => CardKind::Spell,
        Card::Amulet { .. } => CardKind::Amulet,
    }
}

/// Printed attack; zero for non-followers.
pub open spec fn card_attack(c: Card) -> i32 {
    match c {
        Card::Follower { attack, .. } => attack,
        _ => 0,
    }
}

/// Printed defense; zero for non-followers.
pub open spec fn card_defense(c: Card) -> i32 {
    match c {
        Card::Follower { defense, .. } => defense,
        _ => 0,
    }
}

/// Printed countdown; only amulets have one.
pub open spec fn card_countdown(c: Card) -> Option<i32> {
    match c {
        Card::Amulet { countdown, .. } => countdown,
        _ => None,
    }
}

/// Abilities of a card (none when unstated).
pub open spec fn card_ability_list(c: Card) -> Seq<Ability> {
    match card_abilities(c) {
        Some(v) => v@,
        None => Seq::empty(),
    }
}

/// Play modes of a card (none when unstated).
pub open spec fn card_mode_list(c: Card) -> Seq<Mode> {
    match card_modes(c) {
        Some(v) => v@,
        None => Seq::empty(),
    }
}

/// Labels of the triggers a printed card carries: one per ability, plus
/// `enhance` when it has an Enhance mode.
pub open spec fn card_trigger_labels(c: Card) -> Set<Seq<char>> {
    Set::new(|l: Seq<char>|
        (exists|i: int| 0 <= i < card_ability_list(c).len() && ability_label(#[trigger] card_ability_list(c)[i]) == l)
        || (l == "enhance"@ && exists|j: int| 0 <= j < card_mode_list(c).len() && #[trigger] card_mode_list(c)[j] is Enhance))
}

impl Card {
    pub fn id(&self) -> (r: CardId)
        ensures
            r == card_id(*self),
    {
        match self {
            Card::Follower { id, .. } | Card::Spell { id, .. } | Card::Amulet { id, .. } => *id,
        }
    }

    pub fn class(&self) -> (r: Class)
        ensures
            r == card_class(*self),
    {
        match self {
            Card::Follower { class, .. } | Card::Spell { class, .. } | Card::Amulet { class, .. } => *class,
        }
    }

    pub fn set(&self) -> (r: i32)
        ensures
            r == card_set(*self),
    {
        match self {
            Card::Follower { set, .. } | Card::Spell { set, .. } | Card::Amulet { set, .. } => *set,
        }
    }

    pub fn token(&self) -> (r: bool)
        ensures
            r == card_token(*self),
    {
        match self {
            Card::Follower { token, .. } | Card::Spell { token, .. } | Card::Amulet { token, .. } => *token,
        }
    }

    pub fn cost(&self) -> (r: i32)
        ensures
            r == card_cost(*self),
    {
        match self {
            Card::Follower { cost, .. } | Card::Spell { cost, .. } | Card::Amulet { cost, .. } => *cost,
        }
    }

    pub fn name(&self) -> (r: &str)
        ensures
            r@ == card_name(*self)@,
    {
        match self {
            Card::Follower { name, .. } | Card::Spell { name, .. } | Card::Amulet { name, .. } => name.as_str(),
        }
    }

    pub fn text(&self) -> (r: &str)
        ensures
            r@ == card_text(*self)@,
    {
        match self {
            Card::Follower { text, .. } | Card::Spell { text, .. } | Card::Amulet { text, .. } => text.as_str(),
        }
    }

    pub fn kind(&self) -> (r: CardKind)
        ensures
            r == card_kind(*self),
    {
        match self {
            Card::Follower { .. } => CardKind::Follower,
            Card::Spell { .. } => CardKind::Spell,
            Card::Amulet { .. } => CardKind::Amulet,
        }
    }

    pub fn attack(&self) -> (r: i32)
        ensures
            r == card_attack(*self),
    {
        match self {
            Card::Follower { attack, .. } => *attack,
            _ => 0,
        }
    }

    pub fn defense(&self) -> (r: i32)
        ensures
            r == card_defense(*self),
    {
        match self {
            Card::Follower { defense, .. } => *defense,
            _ => 0,
        }
    }

    pub fn countdown(&self) -> (r: Option<i32>)
        ensures
            r == card_countdown(*self),
    {
        match self {
            Card::Amulet { countdown, .. } => *countdown,
            _ => None,
        }
    }

    pub fn tribes(&self) -> (r: &[Tribe])
        ensures
            r@ == card_tribes(*self)@,
    {
        match self {
            Card::Follower { tribes, .. } | Card::Spell { tribes, .. } | Card::Amulet { tribes, .. } => tribes.as_slice(),
        }
    }

    pub fn traits(&self) -> (r: Option<&Traits>)
        ensures
            r is Some == card_traits(*self) is Some,
            r is Some ==> *r->0 == card_traits(*self)->0,
    {
        match self {
            Card::Follower { traits, .. } | Card::Spell { traits, .. } | Card::Amulet { traits, .. } => match traits {
                Some(t) => Some(t),
                None => None,
            },
        }
    }

    pub fn abilities(&self) -> (r: &[Ability])
        ensures
            r@ == card_ability_list(*self),
    {
        match self {
            Card::Follower { abilities, .. } | Card::Spell { abilities, .. } | Card::Amulet { abilities, .. } => match abilities {
                Some(v) => v.as_slice(),
                None => &[],
            },
        }
    }

    pub fn modes(&self) -> (r: &[Mode])
        ensures
            r@ == card_mode_list(*self),
    {
        match self {
            Card::Follower { modes, .. } | Card::Spell { modes, .. } | Card::Amulet { modes, .. } => match modes {
                Some(v) => v.as_slice(),
                None => &[],
            },
        }
    }

    pub fn fuse(&self) -> (r: Option<&Fuse>)
        ensures
            r is Some == card_fuse(*self) is Some,
            r is Some ==> *r->0 == card_fuse(*self)->0,
    {
        match self {
            Card::Follower { fuse, .. } | Card::Spell { fuse, .. } | Card::Amulet { fuse, .. } => match fuse {
                Some(f) => Some(f),
                None => None,
            },
        }
    }

    pub fn vars(&self) -> (r: Option<&CardVars>)
        ensures
            r is Some == card_vars(*self) is Some,
            r is Some ==> *r->0 == card_vars(*self)->0,
    {
        match self {
            Card::Follower { vars, .. } | Card::Spell { vars, .. } | Card::Amulet { vars, .. } => match vars {
                Some(v) => Some(v),
                None => None,
            },
        }
    }
}

/// Abilities of a crest (none when unstated).
pub open spec fn crest_ability_list(c: Crest) -> Seq<Ability> {
    match c.abilities {
        Some(v) => v@,
        None => Seq::empty(),
    }
}

impl Crest {
    pub fn abilities(&self) -> (r: &[Ability])
        ensures
            r@ == crest_ability_list(*self),
    {
        match &self.abilities {
            Some(v) => v.as_slice(),
            None => &[],
        }
    }
}


pub(crate) fn contains_string(v: &Vec<String>, s: &String) -> (r: bool)
    ensures
        r == string_views(v@).contains(s@),
{
    let mut i: usize = 0;
    while i < v.len()
        invariant
            0 <= i <= v.len(),
            forall|j: int| 0 <= j < i ==> v@[j]@ != s@,
        decreases v.len() - i,
    {
        if v[i] == *s {
            assert(string_views(v@).contains(s@)) by {
                reveal(string_views);
                assert(string_views(v@)[i as int] == s@);
            }
            return true;
        }
        i = i + 1;
    }
    assert(!string_views(v@).contains(s@)) by {
        reveal(string_views);
        if string_views(v@).contains(s@) {
            let k = choose|k: int| 0 <= k < string_views(v@).len() && string_views(v@)[k] == s@;
            assert(v@[k]@ == s@);
        }
    }
    false
}

/// Appends `l` unless it is already there.
pub open spec fn push_new(acc: Seq<Seq<char>>, l: Seq<char>) -> Seq<Seq<char>> {
    if acc.contains(l) {
        acc
    } else {
        acc.push(l)
    }
}

/// Labels of the first `n` abilities, each once, in first-seen order.
pub open spec fn ability_labels_upto(abs: Seq<Ability>, n: int) -> Seq<Seq<char>>
    decreases n,
{
    if n <= 0 {
        Seq::empty()
    } else {
        push_new(ability_labels_upto(abs, n - 1), ability_label(abs[n - 1]))
    }
}

/// The card has an Enhance mode.
pub open spec fn card_has_enhance(c: Card) -> bool {
    exists|j: int| 0 <= j < card_mode_list(c).len() && #[trigger] card_mode_list(c)[j] is Enhance
}

pub(crate) fn insert_label(out: &mut Vec<String>, label: &str)
    requires
        string_views(old(out)@).no_duplicates(),
    ensures
        string_views(final(out)@) == push_new(string_views(old(out)@), label@),
        string_views(final(out)@).no_duplicates(),
        string_views(final(out)@).to_set() == string_views(old(out)@).to_set().insert(label@),
{
    let s = String::from_str(label);
    if !contains_string(out, &s) {
        out.push(s);
        assert(string_views(final(out)@) =~= string_views(old(out)@).push(label@)) by {
            reveal(string_views);
        }
        proof { string_views(old(out)@).lemma_push_to_set_commute(label@); }
    } else {
        assert(string_views(final(out)@).to_set() =~= string_views(old(out)@).to_set().insert(label@));
    }
}

impl Card {
    /// Trigger labels the printed card carries, each once, in ascending
    /// code point order.
    pub fn printed_trigger_tags(&self) -> (r: Vec<String>)
        ensures
            crate::refs::ascending(string_views(r@)),
            string_views(r@).no_duplicates(),
            string_views(r@).to_set() == card_trigger_labels(*self),
    {
        let mut tags: Vec<String> = Vec::new();
        assert(string_views(tags@) =~= Seq::<Seq<char>>::empty()) by {
            reveal(string_views);
        }
        let abilities = self.abilities();
        let mut i: usize = 0;
        while i < abilities.len()
            invariant
                abilities@ == card_ability_list(*self),
                0 <= i <= abilities.len(),
                string_views(tags@) == ability_labels_upto(abilities@, i as int),
                string_views(tags@).no_duplicates(),
                string_views(tags@).to_set() == Set::new(|l: Seq<char>|
                    exists|k: int| 0 <= k < i && ability_label(#[trigger] abilities@[k]) == l),
            decreases abilities.len() - i,
        {
            let label = abilities[i].snapshot_tag();
            let ghost before = string_views(tags@).to_set();
            insert_label(&mut tags, label);
            assert(string_views(tags@).to_set() =~= Set::new(|l: Seq<char>|
                exists|k: int| 0 <= k < i + 1 && ability_label(#[trigger] abilities@[k]) == l)) by {
                assert forall|l: Seq<char>| (exists|k: int| 0 <= k < i + 1 && ability_label(#[trigger] abilities@[k]) == l)
                    implies string_views(tags@).to_set().contains(l) by {
                    let k = choose|k: int| 0 <= k < i + 1 && ability_label(#[trigger] abilities@[k]) == l;
                    if k < i {
                        assert(before.contains(l));
                    }
                }
            }
            i = i + 1;
        }
        let modes = self.modes();
        let mut has_enhance = false;
        let mut j: usize = 0;
        while j < modes.len()
            invariant
                modes@ == card_mode_list(*self),
                0 <= j <= modes.len(),
                has_enhance == exists|k: int| 0 <= k < j && #[trigger] modes@[k] is Enhance,
            decreases modes.len() - j,
        {
            if let Mode::Enhance { .. } = &modes[j] {
                has_enhance = true;
            }
            j = j + 1;
        }
        assert(has_enhance == card_has_enhance(*self));
        if has_enhance {
            proof {
                reveal_strlit("enhance");
            }
            insert_label(&mut tags, "enhance");
        }
        assert(string_views(tags@).to_set() =~= card_trigger_labels(*self));
        crate::refs::sort_names(tags)
    }
}

} // verus!
