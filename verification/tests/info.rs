use arena_engine::card::{
    Amount, Card, CardId, CardKind, CardOrCrest, Class, CounterKey, FieldHas, FieldHasKind, Filter, FilterKind,
    Mode, NamedCounter, PoolPick, PoolSelector, Rarity, Selector, SelectorKind, Side, Traits, Tribe, TribeOrList,
    VarKey, Zone,
};
use arena_engine::db::CardDb;
use arena_engine::ids::PlayerId;
use arena_engine::info::{
    amount_int, cannot_attack_reason, class_name, count_at_least_label, counter_have, field_has_count,
    field_has_label, filter_noun, form_label, inst_matches_simple, player_info, push_gate, resolve_play_form,
    target_matches_simple, tribe_name, GateInfo, PlayerInfo,
};
use arena_engine::state::{CardInstance, InstanceFlags, LeaderMod, Phase, PlayForm, PlayerState, State, TargetOpt};

fn follower(id: u32, card: u32, cost: i32) -> CardInstance {
    CardInstance {
        id,
        card: CardId(card),
        kind: CardKind::Follower,
        class: Class::Neutral,
        tribes: Vec::new(),
        base_cost: cost,
        cost,
        attack: 1,
        defense: 1,
        max_defense: 1,
        evolved: false,
        super_evolved: false,
        traits: Traits::default(),
        countdown: None,
        printed_tags: Vec::new(),
        flags: InstanceFlags {
            summoning_sick: false,
            attacks_left: 1,
            engaged_this_turn: false,
            attacked_this_turn: false,
            fused_this_turn: false,
            was_fused: false,
            enhanced: false,
            fused_kinds: Vec::new(),
            ambush_active: false,
            eot_attack: 0,
            eot_defense: 0,
            eot_cost: None,
        },
        once_used: Vec::new(),
        spellboost_count: 0,
        skybound: 0,
        vars: Vec::new(),
        granted: Vec::new(),
        temp_traits: Vec::new(),
        sequence_index: 0,
    }
}

fn match_state() -> State {
    let a = PlayerState::new();
    let mut b = PlayerState::new();
    b.is_second = true;
    State {
        players: [a, b],
        turn: 1,
        active: PlayerId::A,
        first: PlayerId::A,
        phase: Phase::Main,
        winner: None,
        next_instance: 100,
        pending_play_rally: None,
        event_base_cost: None,
        event_inst_id: None,
        event_subject: None,
        combat_opposing: None,
        attacking_follower: false,
        attack_target_is_leader: false,
        bindings: Vec::new(),
        bind_append: false,
    }
}

fn any_filter() -> Filter {
    Filter {
        all: None,
        any: None,
        not: None,
        tribe: None,
        card: None,
        cards: None,
        not_card: None,
        kind: None,
        class: None,
        cost_eq: None,
        cost_lte: None,
        cost_gte: None,
        cost_in: None,
        base_cost_eq: None,
        base_cost_lte: None,
        base_cost_gte: None,
        base_cost_in: None,
        attack_lte: None,
        attack_gte: None,
        defense_lte: None,
        defense_gte: None,
        evolved: None,
        unevolved: None,
        damaged: None,
        has_trait: None,
        enhanced: None,
        same_cost_group: None,
        has_last_words: None,
        has_spellboost: None,
        destroyed_this_match: None,
        did_not_attack_this_turn: None,
        super_evolved: None,
        not_bound: None,
    }
}

fn card_with_modes(id: u32, cost: i32, modes: Vec<Mode>) -> Card {
    Card::Follower {
        id: CardId(id),
        name: String::from("Unit"),
        class: Class::Runecraft,
        set: 1,
        rarity: Rarity::Silver,
        token: false,
        cost,
        text: String::new(),
        attack: 2,
        defense: 2,
        tribes: vec![Tribe::Golem],
        traits: None,
        abilities: None,
        modes: Some(modes),
        fuse: None,
        vars: None,
    }
}

#[test]
fn unlocks_follow_seat_order() {
    let db = CardDb::empty();
    let mut s = match_state();
    s.players[0].turns_taken = 3;
    s.players[1].turns_taken = 4;
    assert_eq!(
        player_info(&db, &s, PlayerId::A),
        PlayerInfo {
            evolve_unlocked: false,
            super_evolve_unlocked: false,
            evolve_unlock_in: 2,
            super_evolve_unlock_in: 4,
            has_leader_barrier: false,
        }
    );
    assert_eq!(
        player_info(&db, &s, PlayerId::B),
        PlayerInfo {
            evolve_unlocked: true,
            super_evolve_unlocked: false,
            evolve_unlock_in: 0,
            super_evolve_unlock_in: 2,
            has_leader_barrier: false,
        }
    );
    s.players[0].turns_taken = 9;
    s.players[0].leader_mods.push(LeaderMod { max_defense: None, damage_cap: Some(3), damage_taken_bonus: 0, until: None });
    let info = player_info(&db, &s, PlayerId::A);
    assert!(info.evolve_unlocked && info.super_evolve_unlocked);
    assert_eq!((info.evolve_unlock_in, info.super_evolve_unlock_in), (0, 0));
    assert!(info.has_leader_barrier);
}

#[test]
fn attack_locks_are_described() {
    let mut c = follower(1, 10, 2);
    assert_eq!(cannot_attack_reason(&c), None);
    c.traits.cant_attack_leader = Some(true);
    assert_eq!(cannot_attack_reason(&c).as_deref(), Some("Cannot attack the leader."));
    c.traits.cant_attack_followers = Some(true);
    assert_eq!(cannot_attack_reason(&c).as_deref(), Some("Cannot attack."));
    c.traits.cant_attack_leader = None;
    assert_eq!(cannot_attack_reason(&c).as_deref(), Some("Cannot attack followers."));
}

#[test]
fn form_labels() {
    assert_eq!(form_label(PlayForm::Normal), "normal");
    assert_eq!(form_label(PlayForm::Enhance { paid: 6 }), "enhance");
    assert_eq!(form_label(PlayForm::Accelerate { paid: 1 }), "accelerate");
    assert_eq!(form_label(PlayForm::Crystallize { paid: 2 }), "crystallize");
}

#[test]
fn play_form_prefers_enhance_then_accelerate_then_crystallize() {
    let mut db = CardDb::empty();
    let modes = vec![
        Mode::Enhance { cost: 6, printed: String::new(), effects: Vec::new(), replaces_base: None },
        Mode::Enhance { cost: 8, printed: String::new(), effects: Vec::new(), replaces_base: None },
        Mode::Accelerate { cost: 1, printed: String::new(), effects: Vec::new() },
        Mode::Crystallize { cost: 2, printed: String::new(), countdown: Some(3), traits: None, abilities: None },
    ];
    assert!(db.load_entry("00000077.json", CardOrCrest::Card(card_with_modes(77, 4, modes)), false).is_ok());
    let mut inst = follower(1, 77, 4);
    inst.printed_tags.push(String::from("enhance"));
    assert_eq!(resolve_play_form(&db, &inst, 9), Some((8, PlayForm::Enhance { paid: 8 })));
    assert_eq!(resolve_play_form(&db, &inst, 7), Some((6, PlayForm::Enhance { paid: 6 })));
    assert_eq!(resolve_play_form(&db, &inst, 4), Some((4, PlayForm::Normal)));
    assert_eq!(resolve_play_form(&db, &inst, 3), Some((1, PlayForm::Accelerate { paid: 1 })));
    assert_eq!(resolve_play_form(&db, &inst, 0), None);
    let plain = follower(2, 77, 4);
    assert_eq!(resolve_play_form(&db, &plain, 9), Some((4, PlayForm::Normal)));
    let unknown = follower(3, 78, 4);
    assert_eq!(resolve_play_form(&db, &unknown, 9), None);
}

#[test]
fn crystallize_applies_when_no_accelerate_is_affordable() {
    let mut db = CardDb::empty();
    let modes = vec![Mode::Crystallize { cost: 2, printed: String::new(), countdown: None, traits: None, abilities: None }];
    assert!(db.load_entry("00000079.json", CardOrCrest::Card(card_with_modes(79, 5, modes)), false).is_ok());
    let inst = follower(1, 79, 5);
    assert_eq!(resolve_play_form(&db, &inst, 3), Some((2, PlayForm::Crystallize { paid: 2 })));
    assert_eq!(resolve_play_form(&db, &inst, 1), None);
}

#[test]
fn gates_are_listed_once() {
    let mut gates: Vec<GateInfo> = Vec::new();
    push_gate(&mut gates, "rally", "rally", 10, 3, false);
    push_gate(&mut gates, "rally", "rally", 10, 4, false);
    push_gate(&mut gates, "rally", "rally", 15, 3, false);
    assert_eq!(gates.len(), 2);
    assert_eq!(gates[0].have, 3);
    assert_eq!(gates[1].need, 15);
}

#[test]
fn literal_amounts_only() {
    assert_eq!(amount_int(&Amount::Int(4)), Some(4));
    assert_eq!(amount_int(&Amount::Neg { neg: Box::new(Amount::Int(4)) }), None);
}

#[test]
fn names_of_tribes_and_classes() {
    assert_eq!(tribe_name(Tribe::EarthSigil), "earth sigil");
    assert_eq!(class_name(Class::Havencraft), "havencraft");
}

#[test]
fn nouns_name_the_filter() {
    assert_eq!(filter_noun(None, "cards"), "cards");
    let mut f = any_filter();
    f.tribe = Some(TribeOrList::One(Tribe::Golem));
    assert_eq!(filter_noun(Some(&f), "followers"), "golem followers");
    let mut g = any_filter();
    g.tribe = Some(TribeOrList::Many(vec![Tribe::Loot, Tribe::Golem]));
    assert_eq!(filter_noun(Some(&g), "cards"), "cards");
    let mut h = any_filter();
    h.card = Some(CardId(1234));
    assert_eq!(filter_noun(Some(&h), "cards"), "copies of 00001234");
    let mut k = any_filter();
    k.kind = Some(FilterKind::Spell);
    assert_eq!(filter_noun(Some(&k), "cards"), "spells");
}

#[test]
fn field_has_labels_and_counts() {
    let fh = FieldHas { filter: any_filter(), n: Some(Amount::Int(2)), side: None, kind: Some(FieldHasKind::Follower) };
    assert_eq!(field_has_label(&fh), "allied followers on the field");
    let mut s = match_state();
    s.players[0].field[0] = Some(follower(1, 10, 1));
    s.players[0].field[1] = Some(follower(2, 10, 1));
    s.players[1].field[0] = Some(follower(3, 10, 1));
    assert_eq!(field_has_count(&s, PlayerId::A, &fh), 2);
    let both = FieldHas { filter: any_filter(), n: None, side: Some(Side::Any), kind: None };
    assert_eq!(field_has_label(&both), "cards on the field");
    assert_eq!(field_has_count(&s, PlayerId::A, &both), 3);
}

#[test]
fn pool_labels() {
    let own_hand = PoolSelector {
        pick: PoolPick::All,
        side: Side::Ally,
        zone: Zone::Hand,
        kind: SelectorKind::Card,
        filter: None,
        count: None,
        other: None,
        include_leader: None,
        order_by: None,
    };
    assert_eq!(count_at_least_label(&Selector::Pool(own_hand), None), "cards in your hand");
    let enemy_field = PoolSelector {
        pick: PoolPick::All,
        side: Side::Enemy,
        zone: Zone::Field,
        kind: SelectorKind::Follower,
        filter: None,
        count: None,
        other: None,
        include_leader: None,
        order_by: None,
    };
    assert_eq!(count_at_least_label(&Selector::Pool(enemy_field), None), "enemy followers on the field");
}

#[test]
fn counters_read_the_seat_and_the_card() {
    let mut s = match_state();
    s.players[0].combo = 3;
    let mut c = follower(1, 10, 1);
    c.vars.push((VarKey::Y, 7));
    let (label, have) = counter_have(&s.players[0], &c, &CounterKey::Named(NamedCounter::Combo));
    assert_eq!((label.as_str(), have), ("combo", 3));
    let (label, have) = counter_have(&s.players[0], &c, &CounterKey::Var { var: VarKey::Y });
    assert_eq!((label.as_str(), have), ("variable", 7));
    let (_, have) = counter_have(&s.players[0], &c, &CounterKey::Var { var: VarKey::X });
    assert_eq!(have, 0);
    s.players[0].earth = 2;
    let (label, have) = counter_have(&s.players[0], &c, &CounterKey::Named(NamedCounter::Earth));
    assert_eq!((label.as_str(), have), ("earth rite", 2));
}

#[test]
fn simple_filters_match_identity() {
    let mut c = follower(1, 10, 1);
    c.class = Class::Runecraft;
    let mut f = any_filter();
    f.class = Some(Class::Runecraft);
    assert!(inst_matches_simple(&c, &f));
    let mut not = any_filter();
    not.not = Some(Box::new(f));
    assert!(!inst_matches_simple(&c, &not));
}

#[test]
fn printed_cards_are_filtered_as_fresh_instances() {
    let mut db = CardDb::empty();
    assert!(db.load_entry("00000077.json", CardOrCrest::Card(card_with_modes(77, 4, Vec::new())), false).is_ok());
    let s = match_state();
    let mut golem = any_filter();
    golem.tribe = Some(TribeOrList::One(Tribe::Golem));
    assert!(target_matches_simple(&db, &s, &TargetOpt::Card(CardId(77)), &golem));
    assert!(!target_matches_simple(&db, &s, &TargetOpt::Card(CardId(78)), &golem));
    assert!(!target_matches_simple(&db, &s, &TargetOpt::Leader { player: PlayerId::A }, &golem));
}
