use arena_engine::card::{
    Ability, AbilityZone, Amount, Card, CardId, CardKind, CardOrCrest, Class, ComboN, Condition, CountAtLeast,
    Effect, Filter, HandHas, PayResource, PoolPick, PoolSelector, Rarity, RefPick, RefSelector, Selector,
    SelectorKind, Side, StatWhich, SumHighestBaseCosts, Traits, TriggerTag, Tribe, TribeOrList, TurnOwner,
    VarKey, Whose, Zone,
};
use arena_engine::db::CardDb;
use arena_engine::effects::{
    ability_boundary, card_tracks_skybound, cond_has_skybound, crest_matches_filter, e40_applies,
    effect_has_skybound, effect_is_banish_self, leave_redirects_to_banish,
};
use arena_engine::eval::{eval_amount, eval_cond};
use arena_engine::gates::{collect_board_gates, collect_hand_gates, walk_condition, walk_effect};
use arena_engine::ids::PlayerId;
use arena_engine::info::GateInfo;
use arena_engine::playable::{choose_ok_one, spell_playable};
use arena_engine::select::{card_id_of, inst_stat, skybound_of, source_card_id, source_instance_cost, vars_of};
use arena_engine::state::{CardInstance, CrestInstance, InstanceFlags, Phase, PlayerState, SourceRef, State, TargetOpt};

fn unit(id: u32, card: u32, cost: i32) -> CardInstance {
    CardInstance {
        id,
        card: CardId(card),
        kind: CardKind::Follower,
        class: Class::Neutral,
        tribes: Vec::new(),
        base_cost: cost,
        cost,
        attack: 2,
        defense: 2,
        max_defense: 2,
        evolved: false,
        super_evolved: false,
        traits: Traits::default(),
        countdown: None,
        printed_tags: Vec::new(),
        flags: InstanceFlags {
            summoning_sick: false,
            attacks_left: 1,
            engaged_this_turn: false,
            attacked_this_turn: false,
            fused_this_turn: false,
            was_fused: false,
            enhanced: false,
            fused_kinds: Vec::new(),
            ambush_active: false,
            eot_attack: 0,
            eot_defense: 0,
            eot_cost: None,
        },
        once_used: Vec::new(),
        spellboost_count: 0,
        skybound: 0,
        vars: Vec::new(),
        granted: Vec::new(),
        temp_traits: Vec::new(),
        sequence_index: 0,
    }
}

fn match_state() -> State {
    State {
        players: [PlayerState::new(), PlayerState::new()],
        turn: 5,
        active: PlayerId::A,
        first: PlayerId::A,
        phase: Phase::Main,
        winner: None,
        next_instance: 100,
        pending_play_rally: None,
        event_base_cost: None,
        event_inst_id: None,
        event_subject: None,
        combat_opposing: None,
        attacking_follower: false,
        attack_target_is_leader: false,
        bindings: Vec::new(),
        bind_append: false,
    }
}

fn any_filter() -> Filter {
    Filter {
        all: None,
        any: None,
        not: None,
        tribe: None,
        card: None,
        cards: None,
        not_card: None,
        kind: None,
        class: None,
        cost_eq: None,
        cost_lte: None,
        cost_gte: None,
        cost_in: None,
        base_cost_eq: None,
        base_cost_lte: None,
        base_cost_gte: None,
        base_cost_in: None,
        attack_lte: None,
        attack_gte: None,
        defense_lte: None,
        defense_gte: None,
        evolved: None,
        unevolved: None,
        damaged: None,
        has_trait: None,
        enhanced: None,
        same_cost_group: None,
        has_last_words: None,
        has_spellboost: None,
        destroyed_this_match: None,
        did_not_attack_this_turn: None,
        super_evolved: None,
        not_bound: None,
    }
}

fn ally_field(kind: SelectorKind) -> Selector {
    Selector::Pool(PoolSelector {
        pick: PoolPick::All,
        side: Side::Ally,
        zone: Zone::Field,
        kind,
        filter: None,
        count: None,
        other: None,
        include_leader: None,
        order_by: None,
    })
}

fn combo(n: i32) -> Condition {
    Condition::Combo { combo: ComboN { n: Amount::Int(n) } }
}

fn follower_card(id: u32, abilities: Vec<Ability>) -> Card {
    Card::Follower {
        id: CardId(id),
        name: String::from("Unit"),
        class: Class::Neutral,
        set: 1,
        rarity: Rarity::Bronze,
        token: false,
        cost: 2,
        text: String::new(),
        attack: 2,
        defense: 2,
        tribes: vec![Tribe::Golem],
        traits: None,
        abilities: Some(abilities),
        modes: None,
        fuse: None,
        vars: None,
    }
}

fn fanfare(effects: Vec<Effect>) -> Ability {
    Ability::Fanfare { printed: String::new(), effects, zone: None, once_per_turn: None, when: None, replaces: None }
}

#[test]
fn amounts_combine_literals_counters_and_counts() {
    let db = CardDb::empty();
    let mut s = match_state();
    s.players[0].combo = 3;
    s.players[0].field[0] = Some(unit(1, 10, 2));
    s.players[0].field[1] = Some(unit(2, 10, 4));
    let src = Some(SourceRef::Leader { player: PlayerId::A });
    let sum = Amount::Add {
        add: (
            Box::new(Amount::Counter { counter: arena_engine::card::CounterKey::Named(arena_engine::card::NamedCounter::Combo) }),
            Box::new(Amount::Count { count: Box::new(ally_field(SelectorKind::Follower)) }),
        ),
    };
    assert_eq!(eval_amount(&db, &s, PlayerId::A, src, &sum), 5);
    let neg = Amount::Neg { neg: Box::new(Amount::Int(4)) };
    assert_eq!(eval_amount(&db, &s, PlayerId::A, src, &neg), -4);
    let top = Amount::SumHighestBaseCosts {
        sum_highest_base_costs: SumHighestBaseCosts { n: 1, select: Box::new(ally_field(SelectorKind::Follower)) },
    };
    assert_eq!(eval_amount(&db, &s, PlayerId::A, src, &top), 4);
    let stat = Amount::Stat {
        stat: arena_engine::card::AmountStat { of: Box::new(ally_field(SelectorKind::Follower)), which: StatWhich::Cost },
    };
    assert_eq!(eval_amount(&db, &s, PlayerId::A, src, &stat), 2);
    assert_eq!(eval_amount(&db, &s, PlayerId::A, None, &stat), 0);
}

#[test]
fn conditions_read_the_seat() {
    let db = CardDb::empty();
    let mut s = match_state();
    s.players[0].combo = 2;
    let src = Some(SourceRef::Leader { player: PlayerId::A });
    assert!(eval_cond(&db, &s, PlayerId::A, src, &combo(2)));
    assert!(!eval_cond(&db, &s, PlayerId::A, src, &combo(3)));
    let both = Condition::All { all: vec![combo(1), combo(3)] };
    assert!(!eval_cond(&db, &s, PlayerId::A, src, &both));
    let either = Condition::Any { any: vec![combo(3), combo(1)] };
    assert!(eval_cond(&db, &s, PlayerId::A, src, &either));
    let not = Condition::Not { not: Box::new(combo(3)) };
    assert!(eval_cond(&db, &s, PlayerId::A, src, &not));
    let mine = Condition::TurnOwner { turn_owner: TurnOwner::Self_ };
    assert!(eval_cond(&db, &s, PlayerId::A, src, &mine));
    assert!(!eval_cond(&db, &s, PlayerId::B, src, &mine));
    s.players[0].pp_max = 7;
    assert!(eval_cond(&db, &s, PlayerId::A, src, &Condition::Overflow { overflow: true }));
}

#[test]
fn count_and_hand_conditions() {
    let db = CardDb::empty();
    let mut s = match_state();
    s.players[0].field[0] = Some(unit(1, 10, 2));
    s.players[0].hand.push(unit(2, 11, 3));
    s.players[0].hand.push(unit(3, 12, 3));
    let src = Some(SourceRef::Leader { player: PlayerId::A });
    let count = Condition::CountAtLeast {
        count_at_least: CountAtLeast { select: ally_field(SelectorKind::Follower), n: Amount::Int(1), filter: None },
    };
    assert!(eval_cond(&db, &s, PlayerId::A, src, &count));
    assert!(!eval_cond(&db, &s, PlayerId::A, None, &count));
    let mut cheap = any_filter();
    cheap.cost_lte = Some(Box::new(Amount::Int(3)));
    let hand = Condition::HandHas { hand_has: HandHas { filter: cheap, n: Amount::Int(2) } };
    assert!(eval_cond(&db, &s, PlayerId::A, src, &hand));
    let same = Condition::HandSameCostAtLeast { hand_same_cost_at_least: ComboN { n: Amount::Int(2) } };
    assert!(eval_cond(&db, &s, PlayerId::A, src, &same));
    s.players[0].hand[1].cost = 4;
    assert!(!eval_cond(&db, &s, PlayerId::A, src, &same));
    let unique = Condition::DeckHasNoDuplicates { deck_has_no_duplicates: true };
    assert!(eval_cond(&db, &s, PlayerId::A, src, &unique));
    s.players[0].deck.push(unit(5, 20, 1));
    s.players[0].deck.push(unit(6, 20, 1));
    assert!(!eval_cond(&db, &s, PlayerId::A, src, &unique));
}

#[test]
fn skybound_art_adds_the_turn() {
    let db = CardDb::empty();
    let mut s = match_state();
    let mut c = unit(7, 10, 2);
    c.skybound = 2;
    s.players[0].hand.push(c);
    let src = Some(SourceRef::Hand { player: PlayerId::A, id: 7 });
    let sky = |n| Condition::SkyboundArt { skybound_art: ComboN { n: Amount::Int(n) } };
    assert!(eval_cond(&db, &s, PlayerId::A, src, &sky(7)));
    assert!(!eval_cond(&db, &s, PlayerId::A, src, &sky(8)));
    assert_eq!(skybound_of(&s, src), 2);
}

#[test]
fn source_lookups() {
    let mut s = match_state();
    let mut c = unit(7, 10, 3);
    c.vars.push((VarKey::X, 4));
    s.players[0].field[2] = Some(c);
    let mut spent = unit(9, 30, 5);
    spent.kind = CardKind::Spell;
    s.players[1].cemetery.push(spent);
    let field = Some(SourceRef::Field { player: PlayerId::A, id: 7 });
    let spell = Some(SourceRef::Spell { player: PlayerId::B, card: CardId(30) });
    assert_eq!(source_instance_cost(&s, field), Some(3));
    assert_eq!(source_instance_cost(&s, spell), Some(5));
    assert_eq!(vars_of(&s, field, VarKey::X), 4);
    assert_eq!(vars_of(&s, field, VarKey::Y), 0);
    assert_eq!(source_card_id(&s, SourceRef::Field { player: PlayerId::A, id: 7 }), Some(CardId(10)));
    assert_eq!(source_card_id(&s, SourceRef::Hand { player: PlayerId::B, id: 9 }), Some(CardId(30)));
    let slot = TargetOpt::Slot { player: PlayerId::A, slot: 2 };
    assert_eq!(inst_stat(&s, &slot, StatWhich::Cost), Some(3));
    assert_eq!(inst_stat(&s, &TargetOpt::Leader { player: PlayerId::B }, StatWhich::Defense), Some(20));
    assert_eq!(inst_stat(&s, &TargetOpt::Card(CardId(1)), StatWhich::Cost), None);
    assert_eq!(card_id_of(&s, &slot), Some(CardId(10)));
}

#[test]
fn walking_a_condition_lists_its_thresholds() {
    let db = CardDb::empty();
    let mut s = match_state();
    s.players[0].combo = 1;
    s.players[0].rally = 6;
    let c = unit(1, 10, 2);
    let src = SourceRef::Hand { player: PlayerId::A, id: 1 };
    let cond = Condition::All {
        all: vec![
            combo(3),
            Condition::Rally { rally: ComboN { n: Amount::Int(5) } },
            combo(3),
            Condition::Not { not: Box::new(combo(9)) },
            Condition::TurnOwner { turn_owner: TurnOwner::Opponent },
        ],
    };
    let mut gates: Vec<GateInfo> = Vec::new();
    walk_condition(&db, &cond, &s, PlayerId::A, &c, src, &mut gates);
    assert_eq!(gates.len(), 3);
    assert_eq!((gates[0].kind.as_str(), gates[0].need, gates[0].have, gates[0].met), ("combo", 3, 1, false));
    assert_eq!((gates[1].kind.as_str(), gates[1].need, gates[1].have, gates[1].met), ("rally", 5, 6, true));
    assert_eq!((gates[2].kind.as_str(), gates[2].label.as_str(), gates[2].met), ("turnOwner", "your turn", false));
}

#[test]
fn payments_show_their_resource() {
    let db = CardDb::empty();
    let mut s = match_state();
    s.players[0].shadows = 4;
    let c = unit(1, 10, 2);
    let src = SourceRef::Hand { player: PlayerId::A, id: 1 };
    let pay = Effect::Pay {
        printed: None,
        as_bind: None,
        when: None,
        resource: PayResource::Shadows,
        amount: Amount::Int(6),
        effects: Vec::new(),
    };
    let mut gates: Vec<GateInfo> = Vec::new();
    walk_effect(&db, &pay, &s, PlayerId::A, &c, src, &mut gates);
    assert_eq!(gates.len(), 1);
    assert_eq!((gates[0].kind.as_str(), gates[0].need, gates[0].have, gates[0].met), ("necromancy", 6, 4, false));
}

#[test]
fn hand_and_board_gates() {
    let mut db = CardDb::empty();
    let gated = Effect::If {
        printed: None,
        as_bind: None,
        when: None,
        cond: combo(2),
        then: Vec::new(),
        else_effects: None,
    };
    let card = follower_card(40, vec![fanfare(vec![gated])]);
    assert!(db.load_entry("00000040.json", CardOrCrest::Card(card), false).is_ok());
    let s = match_state();
    let mut c = unit(1, 40, 2);
    c.printed_tags.push(String::from("spellboost"));
    c.spellboost_count = 2;
    let hand = collect_hand_gates(&db, &s, PlayerId::A, &c, 0);
    assert_eq!(hand.len(), 2);
    assert_eq!(hand[0].kind, "combo");
    assert_eq!((hand[1].kind.as_str(), hand[1].have), ("spellboost", 2));
    let board = collect_board_gates(&db, &s, PlayerId::A, &c);
    assert_eq!(board.len(), 1);
    assert_eq!(board[0].kind, "combo");
    let unknown = unit(2, 41, 2);
    assert!(collect_hand_gates(&db, &s, PlayerId::A, &unknown, 0).is_empty());
}

#[test]
fn skybound_and_banish_walks() {
    let sky = Condition::SkyboundArt { skybound_art: ComboN { n: Amount::Int(10) } };
    assert!(cond_has_skybound(&Condition::Not { not: Box::new(Condition::Any { any: vec![combo(1), sky] }) }));
    let nested = Effect::Series {
        printed: None,
        as_bind: None,
        when: None,
        effects: vec![Effect::If {
            printed: None,
            as_bind: None,
            when: None,
            cond: Condition::SkyboundArt { skybound_art: ComboN { n: Amount::Int(10) } },
            then: Vec::new(),
            else_effects: None,
        }],
    };
    assert!(effect_has_skybound(&nested));
    let banish = Effect::Banish {
        printed: None,
        as_bind: None,
        when: None,
        select: Selector::Ref(RefSelector { pick: RefPick::Self_ }),
    };
    let series = Effect::Series { printed: None, as_bind: None, when: None, effects: vec![banish] };
    assert!(effect_is_banish_self(&series));
    assert!(!effect_has_skybound(&series));
    let mut db = CardDb::empty();
    let leave = Ability::Leave {
        printed: String::new(),
        effects: vec![series],
        zone: None,
        once_per_turn: None,
        when: None,
        replaces: None,
    };
    assert!(db.load_entry("00000050.json", CardOrCrest::Card(follower_card(50, vec![leave])), false).is_ok());
    assert!(db.load_entry("00000051.json", CardOrCrest::Card(follower_card(51, vec![fanfare(vec![nested])])), false).is_ok());
    assert!(leave_redirects_to_banish(&db, &unit(1, 50, 2)));
    assert!(!leave_redirects_to_banish(&db, &unit(2, 51, 2)));
    assert!(card_tracks_skybound(&db, CardId(51)));
    assert!(!card_tracks_skybound(&db, CardId(50)));
    assert!(!card_tracks_skybound(&db, CardId(52)));
}

#[test]
fn boundaries_and_trigger_classes() {
    let start = Ability::StartOfTurn {
        whose: Whose::Own,
        printed: String::new(),
        effects: Vec::new(),
        zone: None,
        once_per_turn: None,
        when: None,
        replaces: None,
    };
    assert!(ability_boundary(&start, Whose::Own, true, AbilityZone::Field));
    assert!(!ability_boundary(&start, Whose::Own, false, AbilityZone::Field));
    assert!(!ability_boundary(&start, Whose::Opponent, true, AbilityZone::Field));
    assert!(!ability_boundary(&start, Whose::Own, true, AbilityZone::Hand));
    assert!(e40_applies(TriggerTag::Fanfare));
    assert!(!e40_applies(TriggerTag::LastWords));
    assert!(!e40_applies(TriggerTag::Clash));
}

#[test]
fn crests_match_by_id() {
    let crest = CrestInstance { id: String::from("crest:00000077"), faith: false, granted_order: 0, countdown: None, once_used: Vec::new() };
    let faith = CrestInstance { id: String::from("faith"), faith: true, granted_order: 1, countdown: None, once_used: Vec::new() };
    assert!(crest_matches_filter(&crest, None));
    assert!(!crest_matches_filter(&faith, None));
    let mut f = any_filter();
    f.card = Some(CardId(77));
    assert!(crest_matches_filter(&crest, Some(&f)));
    f.card = Some(CardId(78));
    assert!(!crest_matches_filter(&crest, Some(&f)));
    let mut g = any_filter();
    g.tribe = Some(TribeOrList::One(Tribe::Golem));
    assert!(crest_matches_filter(&faith, Some(&g)));
}

#[test]
fn spells_need_enough_candidates_for_their_choices() {
    let db = CardDb::empty();
    let mut s = match_state();
    let choose_two = Selector::Pool(PoolSelector {
        pick: PoolPick::Choose,
        side: Side::Enemy,
        zone: Zone::Field,
        kind: SelectorKind::Follower,
        filter: None,
        count: Some(Amount::Int(2)),
        other: None,
        include_leader: None,
        order_by: None,
    });
    let hit = Effect::Destroy { printed: None, as_bind: None, when: None, select: choose_two };
    s.players[1].field[0] = Some(unit(1, 10, 2));
    assert!(!choose_ok_one(&db, &s, PlayerId::A, 0, &hit));
    s.players[1].field[1] = Some(unit(2, 10, 2));
    assert!(choose_ok_one(&db, &s, PlayerId::A, 0, &hit));
    let gated = Effect::If {
        printed: None,
        as_bind: None,
        when: None,
        cond: combo(5),
        then: Vec::new(),
        else_effects: None,
    };
    s.players[1].field[1] = None;
    let effects = vec![gated, hit];
    assert!(!spell_playable(&db, &s, PlayerId::A, 0, &effects));
}

#[test]
fn empty_all_holds_and_empty_any_fails() {
    let db = CardDb::empty();
    let s = match_state();
    let src = Some(SourceRef::Leader { player: PlayerId::A });
    assert!(eval_cond(&db, &s, PlayerId::A, src, &Condition::All { all: vec![] }));
    assert!(!eval_cond(&db, &s, PlayerId::A, src, &Condition::Any { any: vec![] }));
    let nested = Condition::Not { not: Box::new(Condition::Any { any: vec![] }) };
    assert!(eval_cond(&db, &s, PlayerId::A, src, &nested));
}
